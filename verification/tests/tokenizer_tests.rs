use puml2java::text::{chars_of, find_char, is_space_char, same_chars, string_of, trim_slice};
use puml2java::tokenizer::{
    compact_chars, get_identifiers, parse_line, read_member_line, LexicalError, Scope, Token,
};

fn name(s: &str) -> Token {
    Token::Name(s.to_string())
}

fn variable(s: &str) -> Token {
    Token::Variable(s.to_string())
}

fn typ(s: &str) -> Token {
    Token::Type(s.to_string())
}

fn member(line: &str) -> Result<Vec<Token>, LexicalError> {
    read_member_line(&chars_of(line), 7)
}

fn step(scope: Scope, line: &str) -> Result<(Vec<Token>, Scope), LexicalError> {
    parse_line(scope, &chars_of(line), 3)
}

const ANIMALS: &str = "@startuml\nclass Animal {\n  +name: String\n  +speak(): void\n}\nclass Dog {\n  +breed: String\n}\nDog --|> Animal\n@enduml\n";

#[test]
fn chars_and_back() {
    let v = chars_of("a\u{e9}z");
    assert_eq!(v, vec!['a', '\u{e9}', 'z']);
    assert_eq!(string_of(&v), "a\u{e9}z");
    assert_eq!(string_of(&[]), "");
}

#[test]
fn trim_cuts_both_ends() {
    assert_eq!(trim_slice(&chars_of(" \t a b \r")), &['a', ' ', 'b'][..]);
    assert_eq!(trim_slice(&chars_of("   ")), &[][..]);
    assert_eq!(trim_slice(&chars_of("ab")), &['a', 'b'][..]);
}

#[test]
fn white_space_is_what_unicode_says() {
    for c in ['\t', '\n', '\u{b}', '\u{c}', '\r', ' ', '\u{85}', '\u{a0}', '\u{1680}', '\u{2000}',
        '\u{2005}', '\u{200a}', '\u{2028}', '\u{2029}', '\u{202f}', '\u{205f}', '\u{3000}']
    {
        assert!(is_space_char(c));
        assert!(c.is_whitespace());
    }
    for c in ['a', ':', '+', '\u{8}', '\u{e}', '\u{200b}', '\u{1f}', '\u{2027}', '\u{3001}'] {
        assert!(!is_space_char(c));
        assert!(!c.is_whitespace());
    }
    assert_eq!(trim_slice(&chars_of("\u{a0}a\u{3000}")), &['a'][..]);
    assert!(('\0'..=char::MAX).all(|c| is_space_char(c) == c.is_whitespace()));
}

#[test]
fn find_char_gives_first_or_length() {
    assert_eq!(find_char(&chars_of("a:b:c"), ':'), 1);
    assert_eq!(find_char(&chars_of("abc"), ':'), 3);
    assert!(same_chars(&chars_of("abc"), &chars_of("abc")));
    assert!(!same_chars(&chars_of("abc"), &chars_of("abd")));
    assert!(!same_chars(&chars_of("abc"), &chars_of("ab")));
}

#[test]
fn compact_drops_spacing() {
    assert_eq!(compact_chars(&chars_of(" + name :\tString ")), chars_of("+name:String"));
}

#[test]
fn tokens_of_the_animals() {
    let expected = vec![
        Token::DocumentStart,
        Token::Class,
        name("Animal"),
        Token::StartObject,
        Token::Public,
        variable("name"),
        typ("String"),
        Token::Public,
        name("speak"),
        Token::StartMethod,
        Token::EndMethod,
        typ("void"),
        Token::EndObject,
        Token::Class,
        name("Dog"),
        Token::StartObject,
        Token::Public,
        variable("breed"),
        typ("String"),
        Token::EndObject,
        name("Dog"),
        Token::InheritsFrom,
        name("Animal"),
        Token::DocumentEnd,
    ];
    assert_eq!(get_identifiers(ANIMALS), Ok(expected));
}

#[test]
fn tokenizing_twice_gives_the_same() {
    assert_eq!(get_identifiers(ANIMALS), get_identifiers(ANIMALS));
}

#[test]
fn comments_and_blank_lines_are_skipped() {
    let text = "' a comment\n\n@startuml\n   ' another\n\n@enduml";
    assert_eq!(get_identifiers(text), Ok(vec![Token::DocumentStart, Token::DocumentEnd]));
}

#[test]
fn text_before_start_and_after_end_is_ignored() {
    let text = "class Early {\n@startuml\n@enduml\nclass Late {\n";
    assert_eq!(get_identifiers(text), Ok(vec![Token::DocumentStart, Token::DocumentEnd]));
}

#[test]
fn missing_start() {
    assert_eq!(get_identifiers(""), Err(LexicalError::MissingStart));
    assert_eq!(get_identifiers("class A {\n}\n@enduml\n"), Err(LexicalError::MissingStart));
}

#[test]
fn missing_end() {
    assert_eq!(get_identifiers("@startuml\nclass A {\n}\n"), Err(LexicalError::MissingEnd));
}

#[test]
fn unterminated_body_at_end_of_text() {
    assert_eq!(
        get_identifiers("@startuml\n\nclass A {\n+x: int\n"),
        Err(LexicalError::UnterminatedBody(3))
    );
}

#[test]
fn unterminated_body_before_next_class() {
    assert_eq!(
        get_identifiers("@startuml\nclass A {\n+x: int\nclass B {\n}\n@enduml\n"),
        Err(LexicalError::UnterminatedBody(2))
    );
    assert_eq!(
        get_identifiers("@startuml\nclass A {\n@enduml\n"),
        Err(LexicalError::UnterminatedBody(2))
    );
}

#[test]
fn field_with_empty_type_is_a_lexical_error() {
    let text = "@startuml\n' people\nclass Person {\n  +name:\n}\n@enduml\n";
    let error = get_identifiers(text).unwrap_err();
    assert_eq!(error, LexicalError::MalformedMember(4));
    assert_eq!(error.line(), Some(4));
    assert_eq!(error.reason(), "malformed field or method");
}

#[test]
fn errors_without_a_line() {
    assert_eq!(LexicalError::MissingStart.line(), None);
    assert_eq!(LexicalError::MissingEnd.line(), None);
    assert_eq!(LexicalError::MissingStart.reason(), "no @startuml found");
    assert_eq!(LexicalError::MissingEnd.reason(), "no @enduml found");
    assert_eq!(LexicalError::UnterminatedBody(9).line(), Some(9));
    assert_eq!(LexicalError::MalformedClass(2).line(), Some(2));
    assert_eq!(LexicalError::UnknownModifier(5, "x".to_string()).line(), Some(5));
    assert_eq!(LexicalError::MalformedInheritance(6).line(), Some(6));
}

#[test]
fn class_line_forms() {
    assert_eq!(
        step(Scope::Global, "class Foo {"),
        Ok((vec![Token::Class, name("Foo"), Token::StartObject], Scope::Body(3)))
    );
    assert_eq!(
        step(Scope::Global, "class Foo{"),
        Ok((vec![Token::Class, name("Foo"), Token::StartObject], Scope::Body(3)))
    );
    assert_eq!(
        step(Scope::Global, "  class   Foo   {}  "),
        Ok((vec![Token::Class, name("Foo"), Token::StartObject, Token::EndObject], Scope::Global))
    );
    assert_eq!(step(Scope::Global, "class Foo"), Ok((vec![Token::Class, name("Foo")], Scope::Global)));
    assert_eq!(step(Scope::Global, "{"), Ok((vec![Token::StartObject], Scope::Body(3))));
}

#[test]
fn abstract_and_interface_lines() {
    assert_eq!(
        step(Scope::Global, "abstract class Shape {"),
        Ok((
            vec![Token::Abstract, Token::Class, name("Shape"), Token::StartObject],
            Scope::Body(3)
        ))
    );
    assert_eq!(
        step(Scope::Global, "abstract Shape {"),
        Ok((
            vec![Token::Abstract, Token::Class, name("Shape"), Token::StartObject],
            Scope::Body(3)
        ))
    );
    assert_eq!(
        step(Scope::Global, "interface Walker {"),
        Ok((vec![Token::Interface, name("Walker"), Token::StartObject], Scope::Body(3)))
    );
}

#[test]
fn malformed_class_lines() {
    assert_eq!(step(Scope::Global, "class {"), Err(LexicalError::MalformedClass(3)));
    assert_eq!(step(Scope::Global, "class"), Err(LexicalError::MalformedClass(3)));
    assert_eq!(step(Scope::Global, "class A B {"), Err(LexicalError::MalformedClass(3)));
    assert_eq!(step(Scope::Global, "class A { +x: int }"), Err(LexicalError::MalformedClass(3)));
}

#[test]
fn inheritance_lines() {
    assert_eq!(
        step(Scope::Global, "A <|-- B"),
        Ok((vec![name("A"), Token::InheritsTo, name("B")], Scope::Global))
    );
    assert_eq!(
        step(Scope::Global, "B --|> A"),
        Ok((vec![name("B"), Token::InheritsFrom, name("A")], Scope::Global))
    );
    assert_eq!(
        step(Scope::Global, "A <|.. B"),
        Ok((vec![name("A"), Token::InheritsTo, name("B")], Scope::Global))
    );
    assert_eq!(
        step(Scope::Global, "B   ..|>\tA"),
        Ok((vec![name("B"), Token::InheritsFrom, name("A")], Scope::Global))
    );
}

#[test]
fn inheritance_with_a_missing_name() {
    assert_eq!(step(Scope::Global, "A <|--"), Err(LexicalError::MalformedInheritance(3)));
    assert_eq!(step(Scope::Global, "--|> A"), Err(LexicalError::MalformedInheritance(3)));
    assert_eq!(
        get_identifiers("@startuml\nA --|>\n@enduml\n"),
        Err(LexicalError::MalformedInheritance(2))
    );
}

#[test]
fn other_lines_are_passed_over() {
    assert_eq!(step(Scope::Global, "skinparam monochrome true"), Ok((vec![], Scope::Global)));
    assert_eq!(step(Scope::Prologue, "class A {"), Ok((vec![], Scope::Prologue)));
    assert_eq!(step(Scope::Epilogue, "class A {"), Ok((vec![], Scope::Epilogue)));
    assert_eq!(step(Scope::Body(1), "   "), Ok((vec![], Scope::Body(1))));
    assert_eq!(step(Scope::Body(1), "' note"), Ok((vec![], Scope::Body(1))));
}

#[test]
fn markers_and_keywords_are_read_as_prefixes() {
    assert_eq!(step(Scope::Prologue, "@startumlx"), Ok((vec![Token::DocumentStart], Scope::Global)));
    assert_eq!(
        step(Scope::Prologue, "@startuml diagram"),
        Ok((vec![Token::DocumentStart], Scope::Global))
    );
    assert_eq!(step(Scope::Global, "@endumlx"), Ok((vec![Token::DocumentEnd], Scope::Epilogue)));
    assert_eq!(
        step(Scope::Global, "classFoo {"),
        Ok((vec![Token::Class, name("Foo"), Token::StartObject], Scope::Body(3)))
    );
    assert_eq!(
        step(Scope::Global, "interfaceFoo {"),
        Ok((vec![Token::Interface, name("Foo"), Token::StartObject], Scope::Body(3)))
    );
    assert_eq!(
        step(Scope::Global, "abstractFoo {"),
        Ok((
            vec![Token::Abstract, Token::Class, name("Foo"), Token::StartObject],
            Scope::Body(3)
        ))
    );
    assert_eq!(
        step(Scope::Global, "abstract classic {"),
        Ok((
            vec![Token::Abstract, Token::Class, name("classic"), Token::StartObject],
            Scope::Body(3)
        ))
    );
    assert_eq!(step(Scope::Global, "classroom <|-- x"), Err(LexicalError::MalformedClass(3)));
    assert_eq!(step(Scope::Prologue, " @start"), Ok((vec![], Scope::Prologue)));
    assert_eq!(
        get_identifiers("@startumlx\n@endumlx\n"),
        Ok(vec![Token::DocumentStart, Token::DocumentEnd])
    );
}

#[test]
fn keywords_inside_a_body() {
    assert_eq!(
        step(Scope::Body(1), "className: String"),
        Ok((vec![variable("className"), typ("String")], Scope::Body(1)))
    );
    assert_eq!(step(Scope::Body(1), "class B {"), Err(LexicalError::UnterminatedBody(1)));
    assert_eq!(step(Scope::Body(1), "abstract class B {"), Err(LexicalError::UnterminatedBody(1)));
    assert_eq!(step(Scope::Body(1), "interface B {"), Err(LexicalError::UnterminatedBody(1)));
    assert_eq!(step(Scope::Body(1), "@enduml"), Err(LexicalError::UnterminatedBody(1)));
}

#[test]
fn document_markers() {
    assert_eq!(step(Scope::Prologue, "@startuml"), Ok((vec![Token::DocumentStart], Scope::Global)));
    assert_eq!(step(Scope::Global, "@enduml"), Ok((vec![Token::DocumentEnd], Scope::Epilogue)));
}

#[test]
fn body_lines() {
    assert_eq!(step(Scope::Body(1), " } "), Ok((vec![Token::EndObject], Scope::Global)));
    assert_eq!(
        step(Scope::Body(1), "-count : int"),
        Ok((vec![Token::Private, variable("count"), typ("int")], Scope::Body(1)))
    );
    assert_eq!(step(Scope::Body(1), "class B {"), Err(LexicalError::UnterminatedBody(1)));
}

#[test]
fn sigils() {
    assert_eq!(member("+a: int"), Ok(vec![Token::Public, variable("a"), typ("int")]));
    assert_eq!(member("-a: int"), Ok(vec![Token::Private, variable("a"), typ("int")]));
    assert_eq!(member("#a: int"), Ok(vec![Token::Protected, variable("a"), typ("int")]));
    assert_eq!(member("~a: int"), Ok(vec![variable("a"), typ("int")]));
    assert_eq!(member("a: int"), Ok(vec![variable("a"), typ("int")]));
}

#[test]
fn methods() {
    assert_eq!(
        member("+speak()"),
        Ok(vec![Token::Public, name("speak"), Token::StartMethod, Token::EndMethod])
    );
    assert_eq!(
        member("add(a: int, b: long): int"),
        Ok(vec![
            name("add"),
            Token::StartMethod,
            variable("a"),
            typ("int"),
            variable("b"),
            typ("long"),
            Token::EndMethod,
            typ("int"),
        ])
    );
}

#[test]
fn modifiers_come_before_the_member() {
    assert_eq!(
        member("+count: int {static}"),
        Ok(vec![Token::Public, Token::Static, variable("count"), typ("int")])
    );
    assert_eq!(
        member("{abstract} #area(): double"),
        Ok(vec![
            Token::Abstract,
            Token::Protected,
            name("area"),
            Token::StartMethod,
            Token::EndMethod,
            typ("double"),
        ])
    );
    assert_eq!(
        member("+{static} make(): Foo {abstract} {classifier}"),
        Ok(vec![
            Token::Public,
            Token::Static,
            Token::Abstract,
            Token::Static,
            name("make"),
            Token::StartMethod,
            Token::EndMethod,
            typ("Foo"),
        ])
    );
    assert_eq!(
        member("+{static}{abstract} make(): Foo {abstract} {classifier}"),
        Ok(vec![
            Token::Public,
            Token::Static,
            Token::Abstract,
            Token::Abstract,
            Token::Static,
            name("make"),
            Token::StartMethod,
            Token::EndMethod,
            typ("Foo"),
        ])
    );
}

#[test]
fn unknown_modifier() {
    assert_eq!(
        member("+a: int {final}"),
        Err(LexicalError::UnknownModifier(7, "final".to_string()))
    );
    assert_eq!(
        member("{field} a: int"),
        Err(LexicalError::UnknownModifier(7, "field".to_string()))
    );
    assert_eq!(
        member("a: int { read only }"),
        Err(LexicalError::UnknownModifier(7, "readonly".to_string()))
    );
    assert_eq!(member("a: int {}"), Err(LexicalError::UnknownModifier(7, String::new())));
}

#[test]
fn unknown_modifier_names_line_and_word() {
    let error = get_identifiers("@startuml\nclass C {\n+f() {virtual}\n}\n@enduml").unwrap_err();
    assert_eq!(error, LexicalError::UnknownModifier(3, "virtual".to_string()));
    assert_eq!(error.line(), Some(3));
    assert_eq!(error.word(), Some(&"virtual".to_string()));
    assert_eq!(error.reason(), "unknown word between braces");
    assert_eq!(error.clone(), error);
    assert_eq!(LexicalError::MalformedMember(3).word(), None);
}

#[test]
fn malformed_members() {
    assert_eq!(member("+name:"), Err(LexicalError::MalformedMember(7)));
    assert_eq!(member(": int"), Err(LexicalError::MalformedMember(7)));
    assert_eq!(member("name"), Err(LexicalError::MalformedMember(7)));
    assert_eq!(member("+"), Err(LexicalError::MalformedMember(7)));
    assert_eq!(member("f(a: int"), Err(LexicalError::MalformedMember(7)));
    assert_eq!(member("f(a)"), Err(LexicalError::MalformedMember(7)));
    assert_eq!(member("f(a: int,)"), Err(LexicalError::MalformedMember(7)));
    assert_eq!(member("f(): "), Err(LexicalError::MalformedMember(7)));
    assert_eq!(member("f() int"), Err(LexicalError::MalformedMember(7)));
    assert_eq!(member("(a: int)"), Err(LexicalError::MalformedMember(7)));
    assert_eq!(member("{static a: int"), Err(LexicalError::MalformedMember(7)));
    assert_eq!(member("a: int static}"), Err(LexicalError::MalformedMember(7)));
}

#[test]
fn brace_on_the_next_line() {
    let text = "@startuml\nclass A\n{\n+x: int\n}\n@enduml";
    assert_eq!(
        get_identifiers(text),
        Ok(vec![
            Token::DocumentStart,
            Token::Class,
            name("A"),
            Token::StartObject,
            Token::Public,
            variable("x"),
            typ("int"),
            Token::EndObject,
            Token::DocumentEnd,
        ])
    );
}

#[test]
fn carriage_returns_are_spacing() {
    let text = "@startuml\r\nclass A {\r\n}\r\n@enduml\r\n";
    assert_eq!(
        get_identifiers(text),
        Ok(vec![
            Token::DocumentStart,
            Token::Class,
            name("A"),
            Token::StartObject,
            Token::EndObject,
            Token::DocumentEnd,
        ])
    );
}

#[test]
fn token_clone_is_equal() {
    assert_eq!(name("A").clone(), name("A"));
    assert_eq!(Token::Static.clone(), Token::Static);
}

use puml2java::generate::{
    collect, find_class, generate_files, get_classes, read_classes, resolve, write_class, Context,
    GeneratorError, Inheritance, SourceFile, StructuralError,
};
use puml2java::model::{Attribute, Class, Function, Type, Visibility};
use puml2java::tokenizer::{get_identifiers, LexicalError, Token};

fn name(s: &str) -> Token {
    Token::Name(s.to_string())
}

fn variable(s: &str) -> Token {
    Token::Variable(s.to_string())
}

fn typ(s: &str) -> Token {
    Token::Type(s.to_string())
}

fn attribute(view: Visibility, name: &str, vartype: &str) -> Attribute {
    Attribute::new(view, name.to_string(), Type::Other(vartype.to_string()), false)
}

fn empty(name: &str) -> Class {
    Class::build(name.to_string(), Visibility::Public, false)
}

fn animal() -> Class {
    empty("Animal").with_attribute(attribute(Visibility::Public, "name", "String")).with_method(
        Function::new(
            "speak".to_string(),
            Visibility::Public,
            Type::Other("void".to_string()),
            Vec::new(),
            false,
            false,
        ),
    )
}

fn dog() -> Class {
    empty("Dog").with_attribute(attribute(Visibility::Public, "breed", "String"))
}

fn block(class: &str) -> Vec<Token> {
    vec![Token::Class, name(class), Token::StartObject, Token::EndObject]
}

const ANIMALS: &str = "@startuml\nclass Animal {\n  +name: String\n  +speak(): void\n}\nclass Dog {\n  +breed: String\n}\nDog --|> Animal\n@enduml\n";

#[test]
fn animals_document() {
    let classes = read_classes(ANIMALS).unwrap();
    assert_eq!(classes.len(), 2);
    assert_eq!(classes[0], animal());
    assert_eq!(classes[1], dog().inherits(animal()));
    assert_eq!(classes[1].get_inherits(), Some(Box::new(animal())));
    let ctor = classes[1].get_constructor_func();
    let names: Vec<&str> = ctor.parameters.iter().map(|p| p.name.as_str()).collect();
    assert_eq!(names, vec!["name", "breed"]);
}

#[test]
fn building_twice_gives_the_same() {
    assert_eq!(read_classes(ANIMALS), read_classes(ANIMALS));
    let tokens = get_identifiers(ANIMALS).unwrap();
    assert_eq!(get_classes(&tokens), get_classes(&tokens));
}

#[test]
fn classes_without_inheritance_come_in_order() {
    let text = "@startuml\nclass A {\n+x: int\n-y: long\n+f()\n#g(a: int): int\n}\nclass B {}\nabstract class C {\n}\n@enduml\n";
    let classes = read_classes(text).unwrap();
    assert_eq!(classes.len(), 3);
    let names: Vec<&str> = classes.iter().map(|c| c.name.as_str()).collect();
    assert_eq!(names, vec!["A", "B", "C"]);
    assert!(classes.iter().all(|c| c.inherits.is_none()));
    let fields: Vec<&str> = classes[0].attributes.iter().map(|a| a.name.as_str()).collect();
    assert_eq!(fields, vec!["x", "y"]);
    let methods: Vec<&str> = classes[0].methods.iter().map(|m| m.name.as_str()).collect();
    assert_eq!(methods, vec!["f", "g"]);
    assert!(!classes[0].is_abstract);
    assert!(classes[2].is_abstract);
}

#[test]
fn both_arrows_give_the_same_edge() {
    let left = read_classes("@startuml\nclass A {}\nclass B {}\nA <|-- B\n@enduml\n");
    let right = read_classes("@startuml\nclass A {}\nclass B {}\nB --|> A\n@enduml\n");
    assert_eq!(left, right);
    let classes = left.unwrap();
    assert_eq!(classes[0].inherits, None);
    assert_eq!(classes[1].inherits, Some(Box::new(empty("A"))));
}

#[test]
fn edge_before_the_classes_it_names() {
    let early = read_classes("@startuml\nA <|-- B\nclass A {}\nclass B {}\n@enduml\n");
    let late = read_classes("@startuml\nclass A {}\nclass B {}\nA <|-- B\n@enduml\n");
    assert_eq!(early, late);
    assert_eq!(early.unwrap()[1].inherits, Some(Box::new(empty("A"))));
}

#[test]
fn unknown_parent_is_named() {
    let r = read_classes("@startuml\nclass B {}\nB --|> Ghost\n@enduml\n");
    assert_eq!(
        r,
        Err(GeneratorError::Structure(StructuralError::UnknownClass("Ghost".to_string())))
    );
}

#[test]
fn unknown_child_is_named() {
    let r = read_classes("@startuml\nclass A {}\nGhost --|> A\n@enduml\n");
    assert_eq!(
        r,
        Err(GeneratorError::Structure(StructuralError::UnknownClass("Ghost".to_string())))
    );
}

#[test]
fn unknown_parent_comes_before_unknown_child() {
    let edges = vec![Inheritance { parent: "P".to_string(), child: "C".to_string() }];
    assert_eq!(resolve(&vec![], &edges), Err(StructuralError::UnknownClass("P".to_string())));
}

#[test]
fn duplicate_class() {
    let r = read_classes("@startuml\nclass Foo {}\nclass Foo {}\n@enduml\n");
    assert_eq!(
        r,
        Err(GeneratorError::Structure(StructuralError::DuplicateClass("Foo".to_string())))
    );
}

#[test]
fn lexical_errors_pass_through() {
    let r = read_classes("@startuml\nclass Person {\n+name:\n}\n@enduml\n");
    assert_eq!(r, Err(GeneratorError::Lexical(LexicalError::MalformedMember(3))));
    let files = generate_files("@startuml\nclass Person {\n+name:\n}\n@enduml\n");
    assert_eq!(files, Err(GeneratorError::Lexical(LexicalError::MalformedMember(3))));
}

#[test]
fn modifiers_apply_to_one_member() {
    let text = "@startuml\nclass A {\n-x: int\ny: int\n+f() {static}\ng()\n{abstract} h()\nk()\n}\n@enduml\n";
    let classes = read_classes(text).unwrap();
    let a = &classes[0];
    assert_eq!(a.attributes[0].view, Visibility::Private);
    assert_eq!(a.attributes[1].view, Visibility::Default);
    assert_eq!(a.methods[0].view, Visibility::Public);
    assert!(a.methods[0].is_static);
    assert_eq!(a.methods[1].view, Visibility::Default);
    assert!(!a.methods[1].is_static);
    assert!(a.methods[2].is_abstract);
    assert!(!a.methods[3].is_abstract);
    assert!(a.is_abstract);
}

#[test]
fn method_without_return_type() {
    let classes = read_classes("@startuml\nclass A {\n+f(a: int)\n}\n@enduml\n").unwrap();
    let f = &classes[0].methods[0];
    assert_eq!(f.returntype, Type::Other(String::new()));
    assert_eq!(f.parameters, vec![attribute(Visibility::Default, "a", "int")]);
}

#[test]
fn later_edge_replaces_earlier() {
    let text = "@startuml\nclass A {}\nclass B {}\nclass C {}\nC --|> A\nC --|> B\n@enduml\n";
    let classes = read_classes(text).unwrap();
    assert_eq!(classes[2].inherits, Some(Box::new(empty("B"))));
}

#[test]
fn parent_record_is_the_declared_one() {
    let text = "@startuml\nclass A {}\nclass B {}\nclass C {}\nB --|> A\nC --|> B\n@enduml\n";
    let classes = read_classes(text).unwrap();
    assert_eq!(classes[1].inherits, Some(Box::new(empty("A"))));
    assert_eq!(classes[2].inherits, Some(Box::new(empty("B"))));
}

#[test]
fn unexpected_tokens() {
    assert_eq!(
        get_classes(&[Token::Class, Token::StartObject]),
        Err(StructuralError::UnexpectedToken(Context::ClassName, Token::StartObject))
    );
    assert_eq!(
        get_classes(&[Token::Class, name("A"), Token::Class]),
        Err(StructuralError::UnexpectedToken(Context::ObjectStart, Token::Class))
    );
    assert_eq!(
        get_classes(&[typ("int")]),
        Err(StructuralError::UnexpectedToken(Context::TopLevel, typ("int")))
    );
    assert_eq!(
        get_classes(&[Token::Interface, name("I"), Token::StartObject, Token::EndObject]),
        Err(StructuralError::UnexpectedToken(Context::TopLevel, Token::Interface))
    );
    assert_eq!(
        get_classes(&[Token::Abstract, name("A")]),
        Err(StructuralError::UnexpectedToken(Context::ClassKeyword, name("A")))
    );
    assert_eq!(
        get_classes(&[Token::Class, name("A"), Token::StartObject, variable("x"), Token::EndObject]),
        Err(StructuralError::UnexpectedToken(Context::FieldType, Token::EndObject))
    );
    assert_eq!(
        get_classes(&[Token::Class, name("A"), Token::StartObject, typ("int")]),
        Err(StructuralError::UnexpectedToken(Context::Member, typ("int")))
    );
    assert_eq!(
        get_classes(&[Token::Class, name("A"), Token::StartObject, name("f"), Token::EndObject]),
        Err(StructuralError::UnexpectedToken(Context::MethodStart, Token::EndObject))
    );
    assert_eq!(
        get_classes(&[
            Token::Class,
            name("A"),
            Token::StartObject,
            name("f"),
            Token::StartMethod,
            Token::EndObject
        ]),
        Err(StructuralError::UnexpectedToken(Context::Parameter, Token::EndObject))
    );
    assert_eq!(
        get_classes(&[name("A"), name("B")]),
        Err(StructuralError::UnexpectedToken(Context::Arrow, name("B")))
    );
    assert_eq!(
        get_classes(&[name("A"), Token::InheritsTo, Token::Class]),
        Err(StructuralError::UnexpectedToken(Context::ArrowTarget, Token::Class))
    );
}

#[test]
fn unexpected_end() {
    assert_eq!(get_classes(&[Token::Class]), Err(StructuralError::UnexpectedEnd(Context::ClassName)));
    assert_eq!(
        get_classes(&[Token::Class, name("A")]),
        Err(StructuralError::UnexpectedEnd(Context::ObjectStart))
    );
    assert_eq!(
        get_classes(&[Token::Class, name("A"), Token::StartObject]),
        Err(StructuralError::UnexpectedEnd(Context::Member))
    );
    assert_eq!(
        get_classes(&[Token::Class, name("A"), Token::StartObject, variable("x")]),
        Err(StructuralError::UnexpectedEnd(Context::FieldType))
    );
    assert_eq!(
        get_classes(&[Token::Class, name("A"), Token::StartObject, name("f")]),
        Err(StructuralError::UnexpectedEnd(Context::MethodStart))
    );
    assert_eq!(
        get_classes(&[Token::Class, name("A"), Token::StartObject, name("f"), Token::StartMethod]),
        Err(StructuralError::UnexpectedEnd(Context::Parameter))
    );
    assert_eq!(get_classes(&[Token::Abstract]), Err(StructuralError::UnexpectedEnd(Context::ClassKeyword)));
    assert_eq!(get_classes(&[name("A")]), Err(StructuralError::UnexpectedEnd(Context::Arrow)));
    assert_eq!(
        get_classes(&[name("A"), Token::InheritsFrom]),
        Err(StructuralError::UnexpectedEnd(Context::ArrowTarget))
    );
}

#[test]
fn class_without_a_body_is_refused() {
    let r = read_classes("@startuml\nclass A\nclass B {}\n@enduml\n");
    assert_eq!(
        r,
        Err(GeneratorError::Structure(StructuralError::UnexpectedToken(
            Context::ObjectStart,
            Token::Class
        )))
    );
}

#[test]
fn collect_keeps_edges_in_order() {
    let mut tokens = block("A");
    tokens.extend(vec![name("A"), Token::InheritsTo, name("B")]);
    tokens.extend(block("B"));
    tokens.extend(vec![name("A"), Token::InheritsFrom, name("B")]);
    let (classes, edges) = collect(&tokens).unwrap();
    assert_eq!(classes, vec![empty("A"), empty("B")]);
    assert_eq!(
        edges,
        vec![
            Inheritance { parent: "A".to_string(), child: "B".to_string() },
            Inheritance { parent: "B".to_string(), child: "A".to_string() },
        ]
    );
}

#[test]
fn find_class_gives_first_or_length() {
    let classes = vec![empty("A"), empty("B")];
    assert_eq!(find_class(&classes, &"A".to_string()), 0);
    assert_eq!(find_class(&classes, &"B".to_string()), 1);
    assert_eq!(find_class(&classes, &"C".to_string()), 2);
}

#[test]
fn empty_document_has_no_classes() {
    assert_eq!(read_classes("@startuml\n@enduml\n"), Ok(vec![]));
    assert_eq!(generate_files("@startuml\n@enduml\n"), Ok(vec![]));
}

#[test]
fn one_file_per_class() {
    let files = generate_files(ANIMALS).unwrap();
    assert_eq!(files.len(), 2);
    assert_eq!(files[0].name, "Animal.java");
    assert_eq!(files[1].name, "Dog.java");
    assert_eq!(files[0].content, animal().to_java());
    assert_eq!(files[1].content, dog().inherits(animal()).to_java());
    assert_eq!(
        write_class(&empty("A")),
        SourceFile { name: "A.java".to_string(), content: empty("A").to_java() }
    );
}

#[test]
fn document_written_line_by_line() {
    let text = "@startuml\nclass A {\n+f() {static}\ng()\n-x: int\n}\nabstract class B {\n#h() {static} {abstract}\n}\n@enduml\n";
    let classes = read_classes(text).unwrap();
    let method = |name: &str, view: Visibility, is_abstract: bool, is_static: bool| {
        Function::new(
            name.to_string(),
            view,
            Type::Other(String::new()),
            Vec::new(),
            is_abstract,
            is_static,
        )
    };
    let a = empty("A")
        .with_method(method("f", Visibility::Public, false, true))
        .with_method(method("g", Visibility::Default, false, false))
        .with_attribute(attribute(Visibility::Private, "x", "int"));
    let b = Class::build("B".to_string(), Visibility::Public, true)
        .with_method(method("h", Visibility::Protected, true, true));
    assert_eq!(classes, vec![a, b]);
    let files = generate_files(text).unwrap();
    let names: Vec<&str> = files.iter().map(|f| f.name.as_str()).collect();
    assert_eq!(names, vec!["A.java", "B.java"]);
}

#[test]
fn both_arrows_give_the_same_classes_between_declarations() {
    let with = |line: &str| {
        format!("@startuml\nclass A {{\n+x: int\n}}\n{}\nclass B {{\n}}\n@enduml\n", line)
    };
    let to = read_classes(&with("A <|-- B"));
    let from = read_classes(&with("B --|> A"));
    assert!(to.is_ok());
    assert_eq!(to, from);
    assert_eq!(to.unwrap()[1].inherits.as_ref().unwrap().name, "A");
}

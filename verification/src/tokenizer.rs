//! Scans the text of a class diagram into a flat sequence of tokens.
//!
//! The text is read line by line. Lines that are blank or start with `'` are
//! skipped. Everything before the first line that starts with `@startuml` is
//! ignored, and the first line after it that starts with `@enduml` ends the
//! scan. Between the two, a line opens a class, declares an
//! inheritance edge, or, inside the body of a class, declares a field or a
//! method.
use crate::text::{chars_of, index_of, lemma_index_of, is_space, is_space_char, find_char, same_chars, string_of, trim, trim_slice};
use vstd::prelude::*;
use vstd::slice::slice_subrange;

verus! {

/// One lexical unit of a diagram.
///
/// `Name(a), InheritsFrom, Name(b)` says that `a` inherits from `b`;
/// `Name(a), InheritsTo, Name(b)` says that `a` is inherited by `b`.
#[derive(Debug, PartialEq, Eq)]
pub enum Token {
    Class,
    Interface,
    StartObject,
    EndObject,
    StartMethod,
    EndMethod,
    Public,
    Protected,
    Private,
    Abstract,
    Static,
    Type(String),
    Variable(String),
    Name(String),
    InheritsFrom,
    InheritsTo,
    DocumentStart,
    DocumentEnd,
}

/// What a [`Token`] stands for.
pub ghost enum TokenView {
    Class,
    Interface,
    StartObject,
    EndObject,
    StartMethod,
    EndMethod,
    Public,
    Protected,
    Private,
    Abstract,
    Static,
    Type(Seq<char>),
    Variable(Seq<char>),
    Name(Seq<char>),
    InheritsFrom,
    InheritsTo,
    DocumentStart,
    DocumentEnd,
}

impl View for Token {
    type V = TokenView;

    open spec fn view(&self) -> TokenView {
        match self {
            Token::Class => TokenView::Class,
            Token::Interface => TokenView::Interface,
            Token::StartObject => TokenView::StartObject,
            Token::EndObject => TokenView::EndObject,
            Token::StartMethod => TokenView::StartMethod,
            Token::EndMethod => TokenView::EndMethod,
            Token::Public => TokenView::Public,
            Token::Protected => TokenView::Protected,
            Token::Private => TokenView::Private,
            Token::Abstract => TokenView::Abstract,
            Token::Static => TokenView::Static,
            Token::Type(s) => TokenView::Type(s@),
            Token::Variable(s) => TokenView::Variable(s@),
            Token::Name(s) => TokenView::Name(s@),
            Token::InheritsFrom => TokenView::InheritsFrom,
            Token::InheritsTo => TokenView::InheritsTo,
            Token::DocumentStart => TokenView::DocumentStart,
            Token::DocumentEnd => TokenView::DocumentEnd,
        }
    }
}

impl Clone for Token {
    fn clone(&self) -> (r: Self)
        ensures
            r@ == self@,
    {
        match self {
            Token::Class => Token::Class,
            Token::Interface => Token::Interface,
            Token::StartObject => Token::StartObject,
            Token::EndObject => Token::EndObject,
            Token::StartMethod => Token::StartMethod,
            Token::EndMethod => Token::EndMethod,
            Token::Public => Token::Public,
            Token::Protected => Token::Protected,
            Token::Private => Token::Private,
            Token::Abstract => Token::Abstract,
            Token::Static => Token::Static,
            Token::Type(s) => Token::Type(s.clone()),
            Token::Variable(s) => Token::Variable(s.clone()),
            Token::Name(s) => Token::Name(s.clone()),
            Token::InheritsFrom => Token::InheritsFrom,
            Token::InheritsTo => Token::InheritsTo,
            Token::DocumentStart => Token::DocumentStart,
            Token::DocumentEnd => Token::DocumentEnd,
        }
    }
}

/// The views of the tokens of `s`, in order.
pub open spec fn tokens_view(s: Seq<Token>) -> Seq<TokenView> {
    s.map_values(|t: Token| t@)
}

/// Appends `t` to `v`.
pub fn push_token(v: &mut Vec<Token>, t: Token)
    ensures
        final(v)@ == old(v)@.push(t),
        tokens_view(final(v)@) == tokens_view(old(v)@).push(t@),
{
    v.push(t);
    assert(tokens_view(v@) =~= tokens_view(old(v)@).push(t@));
}

/// Why a text is no diagram. The number is that of the offending line, the
/// first line of the text being line 1.
#[derive(Debug, PartialEq, Eq)]
pub enum LexicalError {
    /// No line starts the document.
    MissingStart,
    /// No line ends the document.
    MissingEnd,
    /// The body of the class opened on this line is not closed.
    UnterminatedBody(usize),
    /// The line declares a class without a usable name, or something follows
    /// the opening brace.
    MalformedClass(usize),
    /// The line is neither a field nor a method.
    MalformedMember(usize),
    /// The word between braces, given without its white space, is no
    /// modifier.
    UnknownModifier(usize, String),
    /// The line has an arrow, but not a name on each side of it.
    MalformedInheritance(usize),
}

/// What a [`LexicalError`] stands for.
pub ghost enum LexicalErrorView {
    MissingStart,
    MissingEnd,
    UnterminatedBody(usize),
    MalformedClass(usize),
    MalformedMember(usize),
    UnknownModifier(usize, Seq<char>),
    MalformedInheritance(usize),
}

impl View for LexicalError {
    type V = LexicalErrorView;

    open spec fn view(&self) -> LexicalErrorView {
        match self {
            LexicalError::MissingStart => LexicalErrorView::MissingStart,
            LexicalError::MissingEnd => LexicalErrorView::MissingEnd,
            LexicalError::UnterminatedBody(n) => LexicalErrorView::UnterminatedBody(*n),
            LexicalError::MalformedClass(n) => LexicalErrorView::MalformedClass(*n),
            LexicalError::MalformedMember(n) => LexicalErrorView::MalformedMember(*n),
            LexicalError::UnknownModifier(n, w) => LexicalErrorView::UnknownModifier(*n, w@),
            LexicalError::MalformedInheritance(n) => LexicalErrorView::MalformedInheritance(*n),
        }
    }
}

impl Clone for LexicalError {
    fn clone(&self) -> (r: Self)
        ensures
            r@ == self@,
    {
        match self {
            LexicalError::MissingStart => LexicalError::MissingStart,
            LexicalError::MissingEnd => LexicalError::MissingEnd,
            LexicalError::UnterminatedBody(n) => LexicalError::UnterminatedBody(*n),
            LexicalError::MalformedClass(n) => LexicalError::MalformedClass(*n),
            LexicalError::MalformedMember(n) => LexicalError::MalformedMember(*n),
            LexicalError::UnknownModifier(n, w) => LexicalError::UnknownModifier(*n, w.clone()),
            LexicalError::MalformedInheritance(n) => LexicalError::MalformedInheritance(*n),
        }
    }
}

impl LexicalErrorView {
    /// The line that the error speaks of, if it speaks of one.
    pub open spec fn line(self) -> Option<usize> {
        match self {
            LexicalErrorView::MissingStart | LexicalErrorView::MissingEnd => None,
            LexicalErrorView::UnterminatedBody(n) => Some(n),
            LexicalErrorView::MalformedClass(n) => Some(n),
            LexicalErrorView::MalformedMember(n) => Some(n),
            LexicalErrorView::UnknownModifier(n, _) => Some(n),
            LexicalErrorView::MalformedInheritance(n) => Some(n),
        }
    }

    /// The word that the error speaks of, if it speaks of one.
    pub open spec fn word(self) -> Option<Seq<char>> {
        match self {
            LexicalErrorView::UnknownModifier(_, w) => Some(w),
            _ => None,
        }
    }

    /// The reason in words.
    pub open spec fn reason_text(self) -> Seq<char> {
        match self {
            LexicalErrorView::MissingStart => "no @startuml found"@,
            LexicalErrorView::MissingEnd => "no @enduml found"@,
            LexicalErrorView::UnterminatedBody(_) => "the body of the class is not closed"@,
            LexicalErrorView::MalformedClass(_) => "malformed class declaration"@,
            LexicalErrorView::MalformedMember(_) => "malformed field or method"@,
            LexicalErrorView::UnknownModifier(_, _) => "unknown word between braces"@,
            LexicalErrorView::MalformedInheritance(_) => "an arrow needs a name on each side"@,
        }
    }
}

impl LexicalError {
    /// The line that the error speaks of, if it speaks of one.
    pub fn line(&self) -> (r: Option<usize>)
        ensures
            r == self@.line(),
    {
        match self {
            LexicalError::MissingStart | LexicalError::MissingEnd => None,
            LexicalError::UnterminatedBody(n) => Some(*n),
            LexicalError::MalformedClass(n) => Some(*n),
            LexicalError::MalformedMember(n) => Some(*n),
            LexicalError::UnknownModifier(n, _) => Some(*n),
            LexicalError::MalformedInheritance(n) => Some(*n),
        }
    }

    /// The word that the error speaks of, if it speaks of one.
    pub fn word(&self) -> (r: Option<&String>)
        ensures
            match r {
                Some(w) => self@.word() == Some(w@),
                None => self@.word() is None,
            },
    {
        match self {
            LexicalError::UnknownModifier(_, w) => Some(w),
            _ => None,
        }
    }

    /// The reason in words.
    pub fn reason(&self) -> (r: &'static str)
        ensures
            r@ == self@.reason_text(),
    {
        match self {
            LexicalError::MissingStart => "no @startuml found",
            LexicalError::MissingEnd => "no @enduml found",
            LexicalError::UnterminatedBody(_) => "the body of the class is not closed",
            LexicalError::MalformedClass(_) => "malformed class declaration",
            LexicalError::MalformedMember(_) => "malformed field or method",
            LexicalError::UnknownModifier(_, _) => "unknown word between braces",
            LexicalError::MalformedInheritance(_) => "an arrow needs a name on each side",
        }
    }
}

/// Where in a document the scan stands.
#[derive(Clone, Copy, Debug, PartialEq, Eq, Structural)]
pub enum Scope {
    /// Before the line that starts the document.
    Prologue,
    /// Inside the document, outside any class.
    Global,
    /// Inside the body of the class that was opened on the given line.
    Body(usize),
    /// After the line that ends the document.
    Epilogue,
}

/// What one line adds to the tokens, and where the scan stands after it.
pub type Step = (Seq<TokenView>, Scope);

/// Whether `s` is the word `w`.
pub fn is_word(s: &[char], w: &str) -> (r: bool)
    ensures
        r == (s@ == w@),
{
    let v = chars_of(w);
    same_chars(s, v.as_slice())
}

/// The length of the first word of `s`: the position of its first spacing
/// character, or its length if it has none.
pub open spec fn word_end(s: Seq<char>) -> int
    decreases s.len(),
{
    if s.len() == 0 || is_space(s[0]) {
        0
    } else {
        1 + word_end(s.skip(1))
    }
}

/// The first word of `s`.
pub open spec fn first_word(s: Seq<char>) -> Seq<char> {
    s.take(word_end(s))
}

/// What follows the first word of `s`, without the spacing at its ends.
pub open spec fn after_word(s: Seq<char>) -> Seq<char> {
    trim(s.skip(word_end(s)))
}

/// Measures the first word of `s`.
pub fn find_space(s: &[char]) -> (k: usize)
    ensures
        k == word_end(s@),
        k <= s.len(),
{
    let mut k: usize = 0;
    assert(s@.skip(0) =~= s@);
    while k < s.len() && !is_space_char(s[k])
        invariant
            k <= s.len(),
            word_end(s@) == k + word_end(s@.skip(k as int)),
        decreases s.len() - k,
    {
        assert(s@.skip(k as int).skip(1) =~= s@.skip(k + 1));
        k += 1;
    }
    k
}

/// Splits `s` into its first word and what follows it.
pub fn split_word(s: &[char]) -> (r: (&[char], &[char]))
    ensures
        r.0@ == first_word(s@),
        r.1@ == after_word(s@),
{
    let k = find_space(s);
    (slice_subrange(s, 0, k), trim_slice(slice_subrange(s, k, s.len())))
}

/// `s` without its spacing characters.
pub open spec fn compact(s: Seq<char>) -> Seq<char>
    decreases s.len(),
{
    if s.len() == 0 {
        s
    } else if is_space(s.last()) {
        compact(s.drop_last())
    } else {
        compact(s.drop_last()).push(s.last())
    }
}

/// Removes the spacing characters from `s`.
pub fn compact_chars(s: &[char]) -> (r: Vec<char>)
    ensures
        r@ == compact(s@),
{
    let mut r: Vec<char> = Vec::new();
    let mut i: usize = 0;
    while i < s.len()
        invariant
            i <= s.len(),
            r@ == compact(s@.take(i as int)),
        decreases s.len() - i,
    {
        assert(s@.take(i + 1).drop_last() =~= s@.take(i as int));
        if !is_space_char(s[i]) {
            r.push(s[i]);
        }
        i += 1;
    }
    assert(s@.take(s@.len() as int) =~= s@);
    r
}

/// The direction that an arrow stands for, if `w` is an arrow. Solid and
/// dotted arrows mean the same.
pub open spec fn arrow(w: Seq<char>) -> Option<TokenView> {
    if w == "<|--"@ || w == "<|.."@ {
        Some(TokenView::InheritsTo)
    } else if w == "--|>"@ || w == "..|>"@ {
        Some(TokenView::InheritsFrom)
    } else {
        None
    }
}

/// Reads `w` as an arrow.
pub fn read_arrow(w: &[char]) -> (r: Option<Token>)
    ensures
        match r {
            Some(t) => arrow(w@) == Some(t@),
            None => arrow(w@) is None,
        },
{
    if is_word(w, "<|--") || is_word(w, "<|..") {
        Some(Token::InheritsTo)
    } else if is_word(w, "--|>") || is_word(w, "..|>") {
        Some(Token::InheritsFrom)
    } else {
        None
    }
}

/// The modifier that a word between braces stands for, if it is one.
pub open spec fn modifier(w: Seq<char>) -> Option<TokenView> {
    if w == "static"@ || w == "classifier"@ {
        Some(TokenView::Static)
    } else if w == "abstract"@ {
        Some(TokenView::Abstract)
    } else {
        None
    }
}

/// Reads `w` as a modifier.
pub fn read_modifier(w: &[char]) -> (r: Option<Token>)
    ensures
        match r {
            Some(t) => modifier(w@) == Some(t@),
            None => modifier(w@) is None,
        },
{
    if is_word(w, "static") || is_word(w, "classifier") {
        Some(Token::Static)
    } else if is_word(w, "abstract") {
        Some(Token::Abstract)
    } else {
        None
    }
}

/// The position of the last `c` in `s`, or -1 if there is none.
pub open spec fn last_index_of(s: Seq<char>, c: char) -> int
    decreases s.len(),
{
    if s.len() == 0 {
        -1
    } else if s.last() == c {
        s.len() - 1
    } else {
        last_index_of(s.drop_last(), c)
    }
}

/// What [`last_index_of`] returns is -1 or a position in `s` at which `c`
/// stands.
pub proof fn lemma_last_index_of(s: Seq<char>, c: char)
    ensures
        -1 <= last_index_of(s, c) < s.len(),
        last_index_of(s, c) >= 0 ==> s[last_index_of(s, c)] == c,
    decreases s.len(),
{
    if s.len() > 0 && s.last() != c {
        lemma_last_index_of(s.drop_last(), c);
    }
}

/// Finds the last `c` in `s`.
pub fn find_last_char(s: &[char], c: char) -> (r: Option<usize>)
    ensures
        match r {
            Some(k) => k == last_index_of(s@, c) && k < s.len(),
            None => last_index_of(s@, c) == -1,
        },
{
    let mut k: usize = s.len();
    assert(s@.take(s@.len() as int) =~= s@);
    while k > 0 && s[k - 1] != c
        invariant
            k <= s.len(),
            last_index_of(s@, c) == last_index_of(s@.take(k as int), c),
        decreases k,
    {
        assert(s@.take(k as int).drop_last() =~= s@.take(k - 1));
        k -= 1;
    }
    if k == 0 {
        None
    } else {
        Some(k - 1)
    }
}

/// The tokens so far, and the text that is still to be read.
pub type Progress = (Seq<TokenView>, Seq<char>);

/// Reads the modifiers in braces that `b` starts with: adds their tokens to
/// `acc` and gives what follows them.
pub open spec fn leading_modifiers(b: Seq<char>, acc: Seq<TokenView>, n: usize) -> Result<
    Progress,
    LexicalErrorView,
>
    decreases b.len(),
{
    if b.len() > 0 && b[0] == '{' {
        let k = index_of(b, '}');
        if k < 1 || k >= b.len() {
            Err(LexicalErrorView::MalformedMember(n))
        } else {
            match modifier(b.subrange(1, k)) {
                None => Err(LexicalErrorView::UnknownModifier(n, b.subrange(1, k))),
                Some(t) => leading_modifiers(b.skip(k + 1), acc.push(t), n),
            }
        }
    } else {
        Ok((acc, b))
    }
}

/// Reads the modifiers in braces that `b` ends with: puts their tokens before
/// `acc` and gives what stands before them.
pub open spec fn trailing_modifiers(b: Seq<char>, acc: Seq<TokenView>, n: usize) -> Result<
    Progress,
    LexicalErrorView,
>
    decreases b.len(),
{
    if b.len() > 0 && b.last() == '}' {
        let k = last_index_of(b, '{');
        if k < 0 || k >= b.len() - 1 {
            Err(LexicalErrorView::MalformedMember(n))
        } else {
            match modifier(b.subrange(k + 1, b.len() - 1)) {
                None => Err(LexicalErrorView::UnknownModifier(n, b.subrange(k + 1, b.len() - 1))),
                Some(t) => trailing_modifiers(b.take(k), seq![t] + acc, n),
            }
        }
    } else {
        Ok((acc, b))
    }
}

/// Reads `name:type`, where neither part is empty: adds a `Variable` and a
/// `Type` to `acc`.
pub open spec fn field_tokens(b: Seq<char>, acc: Seq<TokenView>, n: usize) -> Result<
    Seq<TokenView>,
    LexicalErrorView,
> {
    let q = index_of(b, ':');
    if q < 1 || q + 1 >= b.len() {
        Err(LexicalErrorView::MalformedMember(n))
    } else {
        Ok(acc.push(TokenView::Variable(b.take(q))).push(TokenView::Type(b.skip(q + 1))))
    }
}

/// Reads one or more `name:type`, separated by commas.
pub open spec fn parameter_tokens(ps: Seq<char>, acc: Seq<TokenView>, n: usize) -> Result<
    Seq<TokenView>,
    LexicalErrorView,
>
    decreases ps.len(),
{
    let c = index_of(ps, ',');
    match field_tokens(ps.take(c), acc, n) {
        Err(e) => Err(e),
        Ok(ts) => if c < 0 || c >= ps.len() {
            Ok(ts)
        } else {
            parameter_tokens(ps.skip(c + 1), ts, n)
        },
    }
}

/// What stands behind the closing bracket of a method: nothing, or a colon
/// and the return type.
pub open spec fn return_tokens(after: Seq<char>, acc: Seq<TokenView>, n: usize) -> Result<
    Seq<TokenView>,
    LexicalErrorView,
> {
    if after.len() == 0 {
        Ok(acc.push(TokenView::EndMethod))
    } else if after[0] == ':' && after.len() > 1 {
        Ok(acc.push(TokenView::EndMethod).push(TokenView::Type(after.skip(1))))
    } else {
        Err(LexicalErrorView::MalformedMember(n))
    }
}

/// Reads `name(parameters)` or `name(parameters):type`.
pub open spec fn method_tokens(b: Seq<char>, acc: Seq<TokenView>, n: usize) -> Result<
    Seq<TokenView>,
    LexicalErrorView,
> {
    let p = index_of(b, '(');
    let inner = b.skip(p + 1);
    let e = index_of(inner, ')');
    if p < 1 || p >= b.len() || e >= inner.len() {
        Err(LexicalErrorView::MalformedMember(n))
    } else {
        let head = acc.push(TokenView::Name(b.take(p))).push(TokenView::StartMethod);
        let listed = if e == 0 {
            Ok(head)
        } else {
            parameter_tokens(inner.take(e), head, n)
        };
        match listed {
            Err(err) => Err(err),
            Ok(ts) => return_tokens(inner.skip(e + 1), ts, n),
        }
    }
}

/// Reads a member without its sigil and modifiers: a method if a bracket
/// opens before any colon, a field if a colon stands before any bracket.
pub open spec fn member_tokens(b: Seq<char>, acc: Seq<TokenView>, n: usize) -> Result<
    Seq<TokenView>,
    LexicalErrorView,
> {
    let p = index_of(b, '(');
    let q = index_of(b, ':');
    if p < q {
        method_tokens(b, acc, n)
    } else if q < p {
        field_tokens(b, acc, n)
    } else {
        Err(LexicalErrorView::MalformedMember(n))
    }
}

/// Whether `c` is one of the four visibility sigils.
pub open spec fn is_sigil(c: char) -> bool {
    c == '+' || c == '-' || c == '#' || c == '~'
}

/// The token of the sigil that `c` starts with, if it starts with one that
/// has a token: `~` stands for the default visibility and has none.
pub open spec fn sigil_tokens(c: Seq<char>) -> Seq<TokenView> {
    if c.len() > 0 && c[0] == '+' {
        Seq::empty().push(TokenView::Public)
    } else if c.len() > 0 && c[0] == '-' {
        Seq::empty().push(TokenView::Private)
    } else if c.len() > 0 && c[0] == '#' {
        Seq::empty().push(TokenView::Protected)
    } else {
        Seq::empty()
    }
}

/// `c` without the sigil that it starts with, if it starts with one.
pub open spec fn after_sigil(c: Seq<char>) -> Seq<char> {
    if c.len() > 0 && is_sigil(c[0]) {
        c.skip(1)
    } else {
        c
    }
}

/// The tokens of a line that declares a field or a method. The spacing in the
/// line does not count. The sigil stands first, or behind the modifiers that
/// the line starts with. The tokens come in the order of the text, but for
/// the modifiers that stand behind the member: their tokens come before the
/// member's.
pub open spec fn member_line(t: Seq<char>, n: usize) -> Result<Seq<TokenView>, LexicalErrorView> {
    let c = compact(t);
    match leading_modifiers(after_sigil(c), sigil_tokens(c), n) {
        Err(e) => Err(e),
        Ok((first, b0)) => {
            let late = !(c.len() > 0 && is_sigil(c[0]));
            let before = if late {
                first + sigil_tokens(b0)
            } else {
                first
            };
            let b1 = if late {
                after_sigil(b0)
            } else {
                b0
            };
            match trailing_modifiers(b1, Seq::empty(), n) {
                Err(e) => Err(e),
                Ok((after, b2)) => member_tokens(b2, before + after, n),
            }
        },
    }
}

/// Reads the sigil that `c` starts with, if it starts with one: adds its
/// token to `out` and returns its length.
pub fn read_sigil(c: &[char], out: &mut Vec<Token>) -> (k: usize)
    ensures
        k <= c.len(),
        k <= 1,
        (k == 1) == (c@.len() > 0 && is_sigil(c@[0])),
        c@.skip(k as int) == after_sigil(c@),
        tokens_view(final(out)@) == tokens_view(old(out)@) + sigil_tokens(c@),
{
    let mut k: usize = 0;
    if c.len() > 0 {
        if c[0] == '+' {
            push_token(out, Token::Public);
            k = 1;
        } else if c[0] == '-' {
            push_token(out, Token::Private);
            k = 1;
        } else if c[0] == '#' {
            push_token(out, Token::Protected);
            k = 1;
        } else if c[0] == '~' {
            k = 1;
        }
    }
    assert(c@.skip(0) =~= c@);
    assert(tokens_view(out@) =~= tokens_view(old(out)@) + sigil_tokens(c@));
    k
}

/// Reads the modifiers that `b` starts with into `out`, and returns where
/// they end.
pub fn read_leading_modifiers(b: &[char], out: &mut Vec<Token>, n: usize) -> (r: Result<
    usize,
    LexicalError,
>)
    ensures
        match leading_modifiers(b@, tokens_view(old(out)@), n) {
            Ok((ts, rest)) => r is Ok && r->Ok_0 <= b.len() && tokens_view(final(out)@) == ts
                && b@.skip(r->Ok_0 as int) == rest,
            Err(e) => r is Err && r->Err_0@ == e,
        },
{
    let mut lo: usize = 0;
    assert(b@.skip(0) =~= b@);
    while lo < b.len() && b[lo] == '{'
        invariant
            lo <= b.len(),
            leading_modifiers(b@.skip(lo as int), tokens_view(out@), n) == leading_modifiers(
                b@,
                tokens_view(old(out)@),
                n,
            ),
        decreases b.len() - lo,
    {
        let rest = slice_subrange(b, lo, b.len());
        let k = find_char(rest, '}');
        proof {
            lemma_index_of(rest@, '}');
        }
        if k >= rest.len() {
            return Err(LexicalError::MalformedMember(n));
        }
        let word = slice_subrange(rest, 1, k);
        match read_modifier(word) {
            None => {
                return Err(LexicalError::UnknownModifier(n, string_of(word)));
            },
            Some(t) => {
                push_token(out, t);
            },
        }
        assert(rest@.skip(k + 1) =~= b@.skip(lo + k + 1));
        lo = lo + k + 1;
    }
    Ok(lo)
}

/// Reads the modifiers that `b` ends with, and returns their tokens and where
/// they start.
pub fn read_trailing_modifiers(b: &[char], n: usize) -> (r: Result<(Vec<Token>, usize), LexicalError>)
    ensures
        match trailing_modifiers(b@, Seq::empty(), n) {
            Ok((ts, rest)) => r is Ok && r->Ok_0.1 <= b.len() && tokens_view(r->Ok_0.0@) == ts
                && b@.take(r->Ok_0.1 as int) == rest,
            Err(e) => r is Err && r->Err_0@ == e,
        },
{
    let mut out: Vec<Token> = Vec::new();
    let mut hi: usize = b.len();
    assert(b@.take(b@.len() as int) =~= b@);
    assert(tokens_view(out@) =~= Seq::empty());
    while hi > 0 && b[hi - 1] == '}'
        invariant
            hi <= b.len(),
            trailing_modifiers(b@.take(hi as int), tokens_view(out@), n) == trailing_modifiers(
                b@,
                Seq::empty(),
                n,
            ),
        decreases hi,
    {
        let rest = slice_subrange(b, 0, hi);
        match find_last_char(rest, '{') {
            None => {
                return Err(LexicalError::MalformedMember(n));
            },
            Some(k) => {
                proof {
                    lemma_last_index_of(rest@, '{');
                }
                let word = slice_subrange(rest, k + 1, hi - 1);
                match read_modifier(word) {
                    None => {
                        return Err(LexicalError::UnknownModifier(n, string_of(word)));
                    },
                    Some(t) => {
                        let ghost before = out@;
                        out.insert(0, t);
                        assert(tokens_view(out@) =~= seq![t@] + tokens_view(before));
                    },
                }
                assert(rest@.take(k as int) =~= b@.take(k as int));
                hi = k;
            },
        }
    }
    Ok((out, hi))
}

/// Reads `name:type` into `out`.
pub fn read_field(b: &[char], out: &mut Vec<Token>, n: usize) -> (r: Result<(), LexicalError>)
    ensures
        match field_tokens(b@, tokens_view(old(out)@), n) {
            Ok(ts) => r is Ok && tokens_view(final(out)@) == ts,
            Err(e) => r is Err && r->Err_0@ == e,
        },
{
    let q = find_char(b, ':');
    if q < 1 || q >= b.len() - 1 {
        return Err(LexicalError::MalformedMember(n));
    }
    push_token(out, Token::Variable(string_of(slice_subrange(b, 0, q))));
    push_token(out, Token::Type(string_of(slice_subrange(b, q + 1, b.len()))));
    Ok(())
}

/// Reads one or more `name:type`, separated by commas, into `out`.
pub fn read_parameters(ps: &[char], out: &mut Vec<Token>, n: usize) -> (r: Result<(), LexicalError>)
    ensures
        match parameter_tokens(ps@, tokens_view(old(out)@), n) {
            Ok(ts) => r is Ok && tokens_view(final(out)@) == ts,
            Err(e) => r is Err && r->Err_0@ == e,
        },
{
    let mut pos: usize = 0;
    assert(ps@.skip(0) =~= ps@);
    loop
        invariant
            pos <= ps.len(),
            parameter_tokens(ps@.skip(pos as int), tokens_view(out@), n) == parameter_tokens(
                ps@,
                tokens_view(old(out)@),
                n,
            ),
        decreases ps.len() - pos,
    {
        let rest = slice_subrange(ps, pos, ps.len());
        let c = find_char(rest, ',');
        match read_field(slice_subrange(rest, 0, c), out, n) {
            Err(e) => {
                return Err(e);
            },
            Ok(()) => {},
        }
        if c >= rest.len() {
            return Ok(());
        }
        assert(rest@.skip(c + 1) =~= ps@.skip(pos + c + 1));
        pos = pos + c + 1;
    }
}

/// Reads what stands behind the closing bracket of a method into `out`.
pub fn read_return(after: &[char], out: &mut Vec<Token>, n: usize) -> (r: Result<(), LexicalError>)
    ensures
        match return_tokens(after@, tokens_view(old(out)@), n) {
            Ok(ts) => r is Ok && tokens_view(final(out)@) == ts,
            Err(e) => r is Err && r->Err_0@ == e,
        },
{
    if after.len() == 0 {
        push_token(out, Token::EndMethod);
        Ok(())
    } else if after[0] == ':' && after.len() > 1 {
        push_token(out, Token::EndMethod);
        push_token(out, Token::Type(string_of(slice_subrange(after, 1, after.len()))));
        Ok(())
    } else {
        Err(LexicalError::MalformedMember(n))
    }
}

/// Reads `name(parameters)` or `name(parameters):type` into `out`.
pub fn read_method(b: &[char], out: &mut Vec<Token>, n: usize) -> (r: Result<(), LexicalError>)
    ensures
        match method_tokens(b@, tokens_view(old(out)@), n) {
            Ok(ts) => r is Ok && tokens_view(final(out)@) == ts,
            Err(e) => r is Err && r->Err_0@ == e,
        },
{
    let p = find_char(b, '(');
    if p < 1 || p >= b.len() {
        return Err(LexicalError::MalformedMember(n));
    }
    let inner = slice_subrange(b, p + 1, b.len());
    let e = find_char(inner, ')');
    if e >= inner.len() {
        return Err(LexicalError::MalformedMember(n));
    }
    push_token(out, Token::Name(string_of(slice_subrange(b, 0, p))));
    push_token(out, Token::StartMethod);
    if e > 0 {
        match read_parameters(slice_subrange(inner, 0, e), out, n) {
            Err(err) => {
                return Err(err);
            },
            Ok(()) => {},
        }
    }
    read_return(slice_subrange(inner, e + 1, inner.len()), out, n)
}

/// Reads a member without its sigil and modifiers into `out`.
pub fn read_member(b: &[char], out: &mut Vec<Token>, n: usize) -> (r: Result<(), LexicalError>)
    ensures
        match member_tokens(b@, tokens_view(old(out)@), n) {
            Ok(ts) => r is Ok && tokens_view(final(out)@) == ts,
            Err(e) => r is Err && r->Err_0@ == e,
        },
{
    let p = find_char(b, '(');
    let q = find_char(b, ':');
    if p < q {
        read_method(b, out, n)
    } else if q < p {
        read_field(b, out, n)
    } else {
        Err(LexicalError::MalformedMember(n))
    }
}

/// Reads a line that declares a field or a method.
pub fn read_member_line(t: &[char], n: usize) -> (r: Result<Vec<Token>, LexicalError>)
    ensures
        match member_line(t@, n) {
            Ok(ts) => r is Ok && tokens_view(r->Ok_0@) == ts,
            Err(e) => r is Err && r->Err_0@ == e,
        },
{
    let c = compact_chars(t);
    let mut out: Vec<Token> = Vec::new();
    assert(tokens_view(out@) =~= Seq::empty());
    let start = read_sigil(c.as_slice(), &mut out);
    assert(tokens_view(out@) =~= sigil_tokens(c@));
    let b = slice_subrange(c.as_slice(), start, c.len());
    let lo = match read_leading_modifiers(b, &mut out, n) {
        Err(e) => {
            return Err(e);
        },
        Ok(lo) => lo,
    };
    let b0 = slice_subrange(b, lo, b.len());
    let skip = if start == 0 {
        read_sigil(b0, &mut out)
    } else {
        0
    };
    assert(b0@.skip(0) =~= b0@);
    let b1 = slice_subrange(b0, skip, b0.len());
    let (mut tail, hi) = match read_trailing_modifiers(b1, n) {
        Err(e) => {
            return Err(e);
        },
        Ok(found) => found,
    };
    let ghost before = out@;
    let ghost after = tail@;
    out.append(&mut tail);
    assert(tokens_view(out@) =~= tokens_view(before) + tokens_view(after));
    match read_member(slice_subrange(b1, 0, hi), &mut out, n) {
        Err(e) => Err(e),
        Ok(()) => Ok(out),
    }
}

/// Whether `name` can name a class: it is not empty and holds no spacing.
pub open spec fn is_class_name(name: Seq<char>) -> bool {
    name.len() > 0 && word_end(name) == name.len()
}

/// The tokens of a class declaration after its keywords, which gave `intro`.
/// `decl` is the name alone, the name and an opening brace, or the name and
/// an empty pair of braces. With an opening brace alone the body of the class
/// follows.
pub open spec fn class_decl(intro: Seq<TokenView>, decl: Seq<char>, n: usize) -> Result<
    Step,
    LexicalErrorView,
> {
    let k = index_of(decl, '{');
    let name = trim(decl.take(k));
    let after = trim(decl.skip(k + 1));
    if !is_class_name(name) {
        Err(LexicalErrorView::MalformedClass(n))
    } else if k >= decl.len() {
        Ok((intro.push(TokenView::Name(name)), Scope::Global))
    } else if after.len() == 0 {
        Ok((intro.push(TokenView::Name(name)).push(TokenView::StartObject), Scope::Body(n)))
    } else if after.len() == 1 && after[0] == '}' {
        Ok(
            (
                intro.push(TokenView::Name(name)).push(TokenView::StartObject).push(
                    TokenView::EndObject,
                ),
                Scope::Global,
            ),
        )
    } else {
        Err(LexicalErrorView::MalformedClass(n))
    }
}

/// Whether `s` starts with `p`.
pub open spec fn starts_with(s: Seq<char>, p: Seq<char>) -> bool {
    p.len() <= s.len() && s.take(p.len() as int) == p
}

/// What follows the first `p.len()` characters of `s`, without the white
/// space at its ends.
pub open spec fn after_prefix(s: Seq<char>, p: Seq<char>) -> Seq<char> {
    trim(s.skip(p.len() as int))
}

/// Whether `w` is one of the keywords that declare a class.
pub open spec fn is_class_keyword(w: Seq<char>) -> bool {
    w == "class"@ || w == "abstract"@ || w == "interface"@
}

/// A line outside any class. A line that starts with `@enduml` ends the
/// document. A line that starts with `class`, `interface` or `abstract`
/// declares a class, whatever follows the keyword: the name is what stands
/// between the keyword and the brace, and behind `abstract` the word `class`
/// may stand before it. A line that is an opening brace opens the body of the
/// class declared before it. A line whose first or second word is an arrow
/// declares an inheritance edge. Any other line is passed over.
pub open spec fn global_line(t: Seq<char>, n: usize) -> Result<Step, LexicalErrorView> {
    let w0 = first_word(t);
    let r1 = after_word(t);
    let w1 = first_word(r1);
    let r2 = after_word(r1);
    let w2 = first_word(r2);
    let named = after_prefix(t, "abstract"@);
    if starts_with(t, "@enduml"@) {
        Ok((Seq::empty().push(TokenView::DocumentEnd), Scope::Epilogue))
    } else if starts_with(t, "class"@) {
        class_decl(Seq::empty().push(TokenView::Class), after_prefix(t, "class"@), n)
    } else if starts_with(t, "interface"@) {
        class_decl(Seq::empty().push(TokenView::Interface), after_prefix(t, "interface"@), n)
    } else if starts_with(t, "abstract"@) {
        class_decl(
            Seq::empty().push(TokenView::Abstract).push(TokenView::Class),
            if first_word(named) == "class"@ {
                after_word(named)
            } else {
                named
            },
            n,
        )
    } else if t.len() == 1 && t[0] == '{' {
        Ok((Seq::empty().push(TokenView::StartObject), Scope::Body(n)))
    } else if arrow(w0) is Some {
        Err(LexicalErrorView::MalformedInheritance(n))
    } else if arrow(w1) is Some {
        if w2.len() == 0 {
            Err(LexicalErrorView::MalformedInheritance(n))
        } else {
            Ok(
                (
                    Seq::empty().push(TokenView::Name(w0)).push(arrow(w1)->0).push(
                        TokenView::Name(w2),
                    ),
                    Scope::Global,
                ),
            )
        }
    } else {
        Ok((Seq::empty(), Scope::Global))
    }
}

/// A line inside the body of the class opened on line `open`. It closes the
/// body or declares a member; a line that declares a class or ends the
/// document shows that the body was never closed. Inside a body a line
/// declares a class only if its first word is the keyword, so that a member
/// whose name starts with a keyword, such as `className: String`, stays a
/// member.
pub open spec fn body_line(t: Seq<char>, n: usize, open: usize) -> Result<Step, LexicalErrorView> {
    if t.len() == 1 && t[0] == '}' {
        Ok((Seq::empty().push(TokenView::EndObject), Scope::Global))
    } else if starts_with(t, "@enduml"@) || is_class_keyword(first_word(t)) {
        Err(LexicalErrorView::UnterminatedBody(open))
    } else {
        match member_line(t, n) {
            Err(e) => Err(e),
            Ok(ts) => Ok((ts, Scope::Body(open))),
        }
    }
}

/// Whether a line is passed over wherever it stands: it is blank or a
/// comment. `t` is the line without the spacing at its ends.
pub open spec fn is_skipped(t: Seq<char>) -> bool {
    t.len() == 0 || t[0] == '\''
}

/// What line number `n` adds to the tokens when the scan stands in `scope`,
/// and where the scan stands after it.
pub open spec fn line_step(scope: Scope, line: Seq<char>, n: usize) -> Result<Step, LexicalErrorView> {
    let t = trim(line);
    if is_skipped(t) {
        Ok((Seq::empty(), scope))
    } else {
        match scope {
            Scope::Prologue => if starts_with(t, "@startuml"@) {
                Ok((Seq::empty().push(TokenView::DocumentStart), Scope::Global))
            } else {
                Ok((Seq::empty(), Scope::Prologue))
            },
            Scope::Global => global_line(t, n),
            Scope::Body(open) => body_line(t, n, open),
            Scope::Epilogue => Ok((Seq::empty(), Scope::Epilogue)),
        }
    }
}

/// What ends a scan that ran out of text in `scope`.
pub open spec fn end_of_text(scope: Scope, acc: Seq<TokenView>) -> Result<
    Seq<TokenView>,
    LexicalErrorView,
> {
    match scope {
        Scope::Prologue => Err(LexicalErrorView::MissingStart),
        Scope::Global => Err(LexicalErrorView::MissingEnd),
        Scope::Body(open) => Err(LexicalErrorView::UnterminatedBody(open)),
        Scope::Epilogue => Ok(acc),
    }
}

/// The scan of `text`, whose first line has number `n`, from `scope` and with
/// the tokens `acc` found so far. Lines end at a line feed. The scan stops at
/// the first error and at the end of the document.
pub open spec fn tokens_from(text: Seq<char>, n: int, scope: Scope, acc: Seq<TokenView>) -> Result<
    Seq<TokenView>,
    LexicalErrorView,
>
    decreases text.len(),
{
    if scope is Epilogue || text.len() == 0 {
        end_of_text(scope, acc)
    } else {
        let k = index_of(text, '\n');
        match line_step(scope, text.take(k), n as usize) {
            Err(e) => Err(e),
            Ok((ts, next)) => if k < 0 || k >= text.len() {
                end_of_text(next, acc + ts)
            } else {
                tokens_from(text.skip(k + 1), n + 1, next, acc + ts)
            },
        }
    }
}

/// The tokens of the diagram `text`, or why it is none.
pub open spec fn tokens_of(text: Seq<char>) -> Result<Seq<TokenView>, LexicalErrorView> {
    tokens_from(text, 1, Scope::Prologue, Seq::empty())
}

/// Reads a class declaration after its keywords, whose tokens are in `intro`.
pub fn read_class_decl(intro: Vec<Token>, decl: &[char], n: usize) -> (r: Result<
    (Vec<Token>, Scope),
    LexicalError,
>)
    ensures
        match class_decl(tokens_view(intro@), decl@, n) {
            Ok((ts, next)) => r is Ok && tokens_view(r->Ok_0.0@) == ts && r->Ok_0.1 == next,
            Err(e) => r is Err && r->Err_0@ == e,
        },
{
    let mut out = intro;
    let k = find_char(decl, '{');
    let name = trim_slice(slice_subrange(decl, 0, k));
    if name.len() == 0 || find_space(name) != name.len() {
        return Err(LexicalError::MalformedClass(n));
    }
    push_token(&mut out, Token::Name(string_of(name)));
    if k >= decl.len() {
        return Ok((out, Scope::Global));
    }
    let after = trim_slice(slice_subrange(decl, k + 1, decl.len()));
    if after.len() == 0 {
        push_token(&mut out, Token::StartObject);
        Ok((out, Scope::Body(n)))
    } else if after.len() == 1 && after[0] == '}' {
        push_token(&mut out, Token::StartObject);
        push_token(&mut out, Token::EndObject);
        Ok((out, Scope::Global))
    } else {
        Err(LexicalError::MalformedClass(n))
    }
}

/// Cuts `w` off the start of `s`, if `s` starts with it, and the white space
/// off both ends of what is left.
pub fn strip_prefix<'a>(s: &'a [char], w: &str) -> (r: Option<&'a [char]>)
    ensures
        match r {
            Some(rest) => starts_with(s@, w@) && rest@ == after_prefix(s@, w@),
            None => !starts_with(s@, w@),
        },
{
    let p = chars_of(w);
    if p.len() <= s.len() && same_chars(slice_subrange(s, 0, p.len()), p.as_slice()) {
        Some(trim_slice(slice_subrange(s, p.len(), s.len())))
    } else {
        None
    }
}

/// Reads a line outside any class.
pub fn read_global_line(t: &[char], n: usize) -> (r: Result<(Vec<Token>, Scope), LexicalError>)
    ensures
        match global_line(t@, n) {
            Ok((ts, next)) => r is Ok && tokens_view(r->Ok_0.0@) == ts && r->Ok_0.1 == next,
            Err(e) => r is Err && r->Err_0@ == e,
        },
{
    let (w0, r1) = split_word(t);
    let (w1, r2) = split_word(r1);
    let (w2, _) = split_word(r2);
    let mut out: Vec<Token> = Vec::new();
    assert(tokens_view(out@) =~= Seq::empty());
    if strip_prefix(t, "@enduml").is_some() {
        push_token(&mut out, Token::DocumentEnd);
        return Ok((out, Scope::Epilogue));
    }
    if let Some(decl) = strip_prefix(t, "class") {
        push_token(&mut out, Token::Class);
        return read_class_decl(out, decl, n);
    }
    if let Some(decl) = strip_prefix(t, "interface") {
        push_token(&mut out, Token::Interface);
        return read_class_decl(out, decl, n);
    }
    if let Some(named) = strip_prefix(t, "abstract") {
        push_token(&mut out, Token::Abstract);
        push_token(&mut out, Token::Class);
        let (word, decl) = split_word(named);
        if is_word(word, "class") {
            return read_class_decl(out, decl, n);
        } else {
            return read_class_decl(out, named, n);
        }
    }
    if t.len() == 1 && t[0] == '{' {
        push_token(&mut out, Token::StartObject);
        Ok((out, Scope::Body(n)))
    } else if read_arrow(w0).is_some() {
        Err(LexicalError::MalformedInheritance(n))
    } else {
        match read_arrow(w1) {
            Some(direction) => {
                if w2.len() == 0 {
                    Err(LexicalError::MalformedInheritance(n))
                } else {
                    push_token(&mut out, Token::Name(string_of(w0)));
                    push_token(&mut out, direction);
                    push_token(&mut out, Token::Name(string_of(w2)));
                    Ok((out, Scope::Global))
                }
            },
            None => Ok((out, Scope::Global)),
        }
    }
}

/// Reads a line inside the body of the class opened on line `open`.
pub fn read_body_line(t: &[char], n: usize, open: usize) -> (r: Result<
    (Vec<Token>, Scope),
    LexicalError,
>)
    ensures
        match body_line(t@, n, open) {
            Ok((ts, next)) => r is Ok && tokens_view(r->Ok_0.0@) == ts && r->Ok_0.1 == next,
            Err(e) => r is Err && r->Err_0@ == e,
        },
{
    if t.len() == 1 && t[0] == '}' {
        let mut out: Vec<Token> = Vec::new();
        assert(tokens_view(out@) =~= Seq::empty());
        push_token(&mut out, Token::EndObject);
        return Ok((out, Scope::Global));
    }
    let (w0, _) = split_word(t);
    if strip_prefix(t, "@enduml").is_some() || is_word(w0, "class") || is_word(w0, "abstract")
        || is_word(w0, "interface") {
        return Err(LexicalError::UnterminatedBody(open));
    }
    match read_member_line(t, n) {
        Err(e) => Err(e),
        Ok(out) => Ok((out, Scope::Body(open))),
    }
}

/// Reads line number `n` while the scan stands in `scope`: returns the tokens
/// that the line adds and where the scan stands after it.
pub fn parse_line(scope: Scope, line: &[char], n: usize) -> (r: Result<
    (Vec<Token>, Scope),
    LexicalError,
>)
    ensures
        match line_step(scope, line@, n) {
            Ok((ts, next)) => r is Ok && tokens_view(r->Ok_0.0@) == ts && r->Ok_0.1 == next,
            Err(e) => r is Err && r->Err_0@ == e,
        },
{
    let t = trim_slice(line);
    let mut out: Vec<Token> = Vec::new();
    assert(tokens_view(out@) =~= Seq::empty());
    if t.len() == 0 || t[0] == '\'' {
        return Ok((out, scope));
    }
    match scope {
        Scope::Prologue => {
            if strip_prefix(t, "@startuml").is_some() {
                push_token(&mut out, Token::DocumentStart);
                Ok((out, Scope::Global))
            } else {
                Ok((out, Scope::Prologue))
            }
        },
        Scope::Global => read_global_line(t, n),
        Scope::Body(open) => read_body_line(t, n, open),
        Scope::Epilogue => Ok((out, Scope::Epilogue)),
    }
}

/// Ends a scan that ran out of text in `scope`.
pub fn finish(scope: Scope, tokens: Vec<Token>) -> (r: Result<Vec<Token>, LexicalError>)
    ensures
        match end_of_text(scope, tokens_view(tokens@)) {
            Ok(ts) => r is Ok && tokens_view(r->Ok_0@) == ts,
            Err(e) => r is Err && r->Err_0@ == e,
        },
{
    match scope {
        Scope::Prologue => Err(LexicalError::MissingStart),
        Scope::Global => Err(LexicalError::MissingEnd),
        Scope::Body(open) => Err(LexicalError::UnterminatedBody(open)),
        Scope::Epilogue => Ok(tokens),
    }
}

/// Scans the characters of a diagram into tokens.
pub fn tokenize_chars(text: &[char]) -> (r: Result<Vec<Token>, LexicalError>)
    ensures
        match tokens_of(text@) {
            Ok(ts) => r is Ok && tokens_view(r->Ok_0@) == ts,
            Err(e) => r is Err && r->Err_0@ == e,
        },
{
    let mut tokens: Vec<Token> = Vec::new();
    let mut scope = Scope::Prologue;
    let mut pos: usize = 0;
    let mut n: usize = 1;
    assert(tokens_view(tokens@) =~= Seq::empty());
    assert(text@.skip(0) =~= text@);
    while pos < text.len() && scope != Scope::Epilogue
        invariant
            pos <= text.len(),
            1 <= n <= pos + 1,
            tokens_from(text@.skip(pos as int), n as int, scope, tokens_view(tokens@)) == tokens_of(
                text@,
            ),
        decreases text.len() - pos,
    {
        let rest = slice_subrange(text, pos, text.len());
        let k = find_char(rest, '\n');
        let (mut more, next) = match parse_line(scope, slice_subrange(rest, 0, k), n) {
            Err(e) => {
                return Err(e);
            },
            Ok(step) => step,
        };
        let ghost before = tokens@;
        let ghost added = more@;
        tokens.append(&mut more);
        assert(tokens_view(tokens@) =~= tokens_view(before) + tokens_view(added));
        scope = next;
        if k >= rest.len() {
            return finish(scope, tokens);
        }
        assert(rest@.skip(k + 1) =~= text@.skip(pos + k + 1));
        pos = pos + k + 1;
        if pos >= text.len() {
            assert(tokens_from(text@.skip(pos as int), n + 1, scope, tokens_view(tokens@))
                == end_of_text(scope, tokens_view(tokens@)));
            return finish(scope, tokens);
        }
        n = n + 1;
    }
    finish(scope, tokens)
}

/// Scans the text of a diagram into tokens.
pub fn get_identifiers(text: &str) -> (r: Result<Vec<Token>, LexicalError>)
    ensures
        match tokens_of(text@) {
            Ok(ts) => r is Ok && tokens_view(r->Ok_0@) == ts,
            Err(e) => r is Err && r->Err_0@ == e,
        },
{
    let chars = chars_of(text);
    tokenize_chars(chars.as_slice())
}

} // verus!

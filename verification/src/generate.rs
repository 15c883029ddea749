//! Rebuilds the classes of a diagram from its tokens.
//!
//! The tokens are read once from left to right. That pass builds every class
//! and notes every inheritance edge. The edges are resolved afterwards, against
//! all classes of the document, so an edge may stand before the classes that it
//! names.
use crate::model::{
    attributes_view, classes_view, push_attribute, Attribute, AttributeView, Class, ClassView,
    Function, FunctionView, Type, TypeView, Visibility,
};
use crate::tokenizer::{
    get_identifiers, tokens_of, tokens_view, LexicalError, LexicalErrorView, Token, TokenView,
};
use vstd::prelude::*;
use vstd::string::StringExecFns;

verus! {

/// What the builder was looking for when it met a token that does not fit.
#[derive(Clone, Copy, Debug, PartialEq, Eq, Structural)]
pub enum Context {
    /// A class, an inheritance edge or a document marker.
    TopLevel,
    /// `Class` after an `Abstract` outside any class.
    ClassKeyword,
    /// The name of a class.
    ClassName,
    /// The start of the body of a class.
    ObjectStart,
    /// A member of a class, a modifier, or the end of the body.
    Member,
    /// The type of a field or of a parameter.
    FieldType,
    /// The start of the parameters of a method.
    MethodStart,
    /// A parameter, or the end of the parameters.
    Parameter,
    /// The arrow of an inheritance edge.
    Arrow,
    /// The name behind the arrow of an inheritance edge.
    ArrowTarget,
}

/// Why a sequence of tokens describes no set of classes.
#[derive(Debug, PartialEq, Eq)]
pub enum StructuralError {
    /// The token does not fit what was looked for.
    UnexpectedToken(Context, Token),
    /// The tokens ended where something was still looked for.
    UnexpectedEnd(Context),
    /// An inheritance edge names a class that the document does not declare.
    UnknownClass(String),
    /// The document declares a class of this name twice.
    DuplicateClass(String),
}

/// What a [`StructuralError`] stands for.
pub ghost enum StructuralErrorView {
    UnexpectedToken(Context, TokenView),
    UnexpectedEnd(Context),
    UnknownClass(Seq<char>),
    DuplicateClass(Seq<char>),
}

impl View for StructuralError {
    type V = StructuralErrorView;

    open spec fn view(&self) -> StructuralErrorView {
        match self {
            StructuralError::UnexpectedToken(c, t) => StructuralErrorView::UnexpectedToken(*c, t@),
            StructuralError::UnexpectedEnd(c) => StructuralErrorView::UnexpectedEnd(*c),
            StructuralError::UnknownClass(n) => StructuralErrorView::UnknownClass(n@),
            StructuralError::DuplicateClass(n) => StructuralErrorView::DuplicateClass(n@),
        }
    }
}

/// The modifiers that wait for the next member of a class.
#[derive(Clone, Copy, Debug, PartialEq, Eq, Structural)]
pub struct Pending {
    pub view: Visibility,
    pub is_abstract: bool,
    pub is_static: bool,
}

impl Pending {
    /// No modifier waits.
    pub open spec fn none() -> Pending {
        Pending { view: Visibility::Default, is_abstract: false, is_static: false }
    }

    /// No modifier waits.
    pub fn new() -> (r: Pending)
        ensures
            r == Pending::none(),
    {
        Pending { view: Visibility::Default, is_abstract: false, is_static: false }
    }
}

/// An inheritance edge: `child` inherits from `parent`.
#[derive(Debug, PartialEq, Eq)]
pub struct Inheritance {
    pub parent: String,
    pub child: String,
}

/// What an [`Inheritance`] stands for.
pub ghost struct Edge {
    pub parent: Seq<char>,
    pub child: Seq<char>,
}

impl View for Inheritance {
    type V = Edge;

    open spec fn view(&self) -> Edge {
        Edge { parent: self.parent@, child: self.child@ }
    }
}

/// The views of the edges of `s`, in order.
pub open spec fn edges_view(s: Seq<Inheritance>) -> Seq<Edge> {
    s.map_values(|e: Inheritance| e@)
}

/// Appends `e` to `v`.
pub fn push_edge(v: &mut Vec<Inheritance>, e: Inheritance)
    ensures
        final(v)@ == old(v)@.push(e),
        edges_view(final(v)@) == edges_view(old(v)@).push(e@),
{
    v.push(e);
    assert(edges_view(v@) =~= edges_view(old(v)@).push(e@));
}

/// Appends `c` to `v`.
pub fn push_class(v: &mut Vec<Class>, c: Class)
    ensures
        final(v)@ == old(v)@.push(c),
        classes_view(final(v)@) == classes_view(old(v)@).push(c@),
{
    v.push(c);
    assert(classes_view(v@) =~= classes_view(old(v)@).push(c@));
}

/// The parameter `name` of type `vartype`.
pub open spec fn parameter(name: Seq<char>, vartype: Seq<char>) -> AttributeView {
    AttributeView {
        view: Visibility::Default,
        name,
        vartype: TypeView::Other(vartype),
        is_final: false,
    }
}

/// The field `name` of type `vartype` with the visibility that waits in `p`.
pub open spec fn field(p: Pending, name: Seq<char>, vartype: Seq<char>) -> AttributeView {
    AttributeView { view: p.view, name, vartype: TypeView::Other(vartype), is_final: false }
}

/// What was read, and the tokens that follow it.
pub type Parsed<T> = Result<(T, Seq<TokenView>), StructuralErrorView>;

/// Reads the parameters of a method up to and including `EndMethod`: pairs of
/// a `Variable` and a `Type`, added to `acc` in the order in which they come.
pub open spec fn parameters(ts: Seq<TokenView>, acc: Seq<AttributeView>) -> Parsed<
    Seq<AttributeView>,
>
    decreases ts.len(),
{
    if ts.len() == 0 {
        Err(StructuralErrorView::UnexpectedEnd(Context::Parameter))
    } else {
        match ts[0] {
            TokenView::EndMethod => Ok((acc, ts.skip(1))),
            TokenView::Variable(v) => if ts.len() < 2 {
                Err(StructuralErrorView::UnexpectedEnd(Context::FieldType))
            } else {
                match ts[1] {
                    TokenView::Type(t) => parameters(ts.skip(2), acc.push(parameter(v, t))),
                    other => Err(StructuralErrorView::UnexpectedToken(Context::FieldType, other)),
                }
            },
            other => Err(StructuralErrorView::UnexpectedToken(Context::Parameter, other)),
        }
    }
}

/// The method `name` with the modifiers that wait in `p`.
pub open spec fn method_with(
    p: Pending,
    name: Seq<char>,
    returntype: Seq<char>,
    parameters: Seq<AttributeView>,
) -> FunctionView {
    FunctionView {
        name,
        view: p.view,
        returntype: TypeView::Other(returntype),
        parameters,
        is_abstract: p.is_abstract,
        is_static: p.is_static,
    }
}

/// Reads a method behind its name and `StartMethod`: the parameters, then the
/// return type if a `Type` follows. Without one the return type is empty.
pub open spec fn method(ts: Seq<TokenView>, name: Seq<char>, p: Pending) -> Parsed<FunctionView> {
    match parameters(ts, Seq::empty()) {
        Err(e) => Err(e),
        Ok((ps, rest)) => if rest.len() > 0 && rest[0] is Type {
            Ok((method_with(p, name, rest[0]->Type_0, ps), rest.skip(1)))
        } else {
            Ok((method_with(p, name, ""@, ps), rest))
        },
    }
}

/// What [`parameters`] leaves is shorter than what it was given.
pub proof fn lemma_parameters_consume(ts: Seq<TokenView>, acc: Seq<AttributeView>)
    ensures
        parameters(ts, acc) is Ok ==> parameters(ts, acc)->Ok_0.1.len() < ts.len(),
    decreases ts.len(),
{
    if ts.len() >= 2 && ts[0] is Variable && ts[1] is Type {
        lemma_parameters_consume(
            ts.skip(2),
            acc.push(parameter(ts[0]->Variable_0, ts[1]->Type_0)),
        );
    }
}

/// What [`method`] leaves is shorter than what it was given.
pub proof fn lemma_method_consumes(ts: Seq<TokenView>, name: Seq<char>, p: Pending)
    ensures
        method(ts, name, p) is Ok ==> method(ts, name, p)->Ok_0.1.len() < ts.len(),
{
    lemma_parameters_consume(ts, Seq::empty());
}

/// Reads the body of a class up to and including `EndObject`, adding the
/// members to `cls` in the order in which they come.
///
/// A visibility, `Static` and `Abstract` wait in `p` for the next member and
/// for that member only. An abstract member makes the class abstract. A
/// `Variable` and a `Type` are a field; a `Name` and `StartMethod` begin a
/// method.
pub open spec fn members(ts: Seq<TokenView>, cls: ClassView, p: Pending) -> Parsed<ClassView>
    decreases ts.len(),
{
    if ts.len() == 0 {
        Err(StructuralErrorView::UnexpectedEnd(Context::Member))
    } else {
        match ts[0] {
            TokenView::EndObject => Ok((cls, ts.skip(1))),
            TokenView::Public => members(ts.skip(1), cls, Pending { view: Visibility::Public, ..p }),
            TokenView::Protected => members(
                ts.skip(1),
                cls,
                Pending { view: Visibility::Protected, ..p },
            ),
            TokenView::Private => members(
                ts.skip(1),
                cls,
                Pending { view: Visibility::Private, ..p },
            ),
            TokenView::Static => members(ts.skip(1), cls, Pending { is_static: true, ..p }),
            TokenView::Abstract => members(
                ts.skip(1),
                ClassView { is_abstract: true, ..cls },
                Pending { is_abstract: true, ..p },
            ),
            TokenView::Variable(v) => if ts.len() < 2 {
                Err(StructuralErrorView::UnexpectedEnd(Context::FieldType))
            } else {
                match ts[1] {
                    TokenView::Type(t) => members(
                        ts.skip(2),
                        ClassView { attributes: cls.attributes.push(field(p, v, t)), ..cls },
                        Pending::none(),
                    ),
                    other => Err(StructuralErrorView::UnexpectedToken(Context::FieldType, other)),
                }
            },
            TokenView::Name(m) => if ts.len() < 2 {
                Err(StructuralErrorView::UnexpectedEnd(Context::MethodStart))
            } else {
                match ts[1] {
                    TokenView::StartMethod => match method(ts.skip(2), m, p) {
                        Err(e) => Err(e),
                        Ok((f, rest)) => {
                            proof {
                                lemma_method_consumes(ts.skip(2), m, p);
                            }
                            members(
                                rest,
                                ClassView { methods: cls.methods.push(f), ..cls },
                                Pending::none(),
                            )
                        },
                    },
                    other => Err(
                        StructuralErrorView::UnexpectedToken(Context::MethodStart, other),
                    ),
                }
            },
            other => Err(StructuralErrorView::UnexpectedToken(Context::Member, other)),
        }
    }
}

/// What [`members`] leaves is shorter than what it was given.
pub proof fn lemma_members_consume(ts: Seq<TokenView>, cls: ClassView, p: Pending)
    ensures
        members(ts, cls, p) is Ok ==> members(ts, cls, p)->Ok_0.1.len() < ts.len(),
    decreases ts.len(),
{
    if ts.len() > 0 {
        match ts[0] {
            TokenView::Public => lemma_members_consume(
                ts.skip(1),
                cls,
                Pending { view: Visibility::Public, ..p },
            ),
            TokenView::Protected => lemma_members_consume(
                ts.skip(1),
                cls,
                Pending { view: Visibility::Protected, ..p },
            ),
            TokenView::Private => lemma_members_consume(
                ts.skip(1),
                cls,
                Pending { view: Visibility::Private, ..p },
            ),
            TokenView::Static => lemma_members_consume(
                ts.skip(1),
                cls,
                Pending { is_static: true, ..p },
            ),
            TokenView::Abstract => lemma_members_consume(
                ts.skip(1),
                ClassView { is_abstract: true, ..cls },
                Pending { is_abstract: true, ..p },
            ),
            TokenView::Variable(v) => {
                if ts.len() >= 2 && ts[1] is Type {
                    lemma_members_consume(
                        ts.skip(2),
                        ClassView {
                            attributes: cls.attributes.push(field(p, v, ts[1]->Type_0)),
                            ..cls
                        },
                        Pending::none(),
                    );
                }
            },
            TokenView::Name(m) => {
                if ts.len() >= 2 && ts[1] is StartMethod && method(ts.skip(2), m, p) is Ok {
                    lemma_method_consumes(ts.skip(2), m, p);
                    let (f, rest) = method(ts.skip(2), m, p)->Ok_0;
                    lemma_members_consume(
                        rest,
                        ClassView { methods: cls.methods.push(f), ..cls },
                        Pending::none(),
                    );
                }
            },
            _ => {},
        }
    }
}

/// The position of the first class called `name` in `cs`, or the length of
/// `cs` if there is none.
pub open spec fn position(cs: Seq<ClassView>, name: Seq<char>) -> int
    decreases cs.len(),
{
    if cs.len() == 0 {
        0
    } else if cs[0].name == name {
        0
    } else {
        1 + position(cs.skip(1), name)
    }
}

/// Whether `cs` holds a class called `name`.
pub open spec fn declares(cs: Seq<ClassView>, name: Seq<char>) -> bool {
    position(cs, name) < cs.len()
}

/// A public class called `name` without members and without a parent.
pub open spec fn empty_class(name: Seq<char>, is_abstract: bool) -> ClassView {
    ClassView {
        name,
        attributes: Seq::empty(),
        methods: Seq::empty(),
        view: Visibility::Public,
        is_abstract,
        inherits: None,
    }
}

/// Reads a class behind its keyword: the name, `StartObject`, and the body.
/// The name must differ from those of the classes in `known`.
pub open spec fn class_block(ts: Seq<TokenView>, is_abstract: bool, known: Seq<ClassView>) -> Parsed<
    ClassView,
> {
    if ts.len() == 0 {
        Err(StructuralErrorView::UnexpectedEnd(Context::ClassName))
    } else {
        match ts[0] {
            TokenView::Name(name) => if ts.len() < 2 {
                Err(StructuralErrorView::UnexpectedEnd(Context::ObjectStart))
            } else {
                match ts[1] {
                    TokenView::StartObject => if declares(known, name) {
                        Err(StructuralErrorView::DuplicateClass(name))
                    } else {
                        members(ts.skip(2), empty_class(name, is_abstract), Pending::none())
                    },
                    other => Err(
                        StructuralErrorView::UnexpectedToken(Context::ObjectStart, other),
                    ),
                }
            },
            other => Err(StructuralErrorView::UnexpectedToken(Context::ClassName, other)),
        }
    }
}

/// What [`class_block`] leaves is shorter than what it was given.
pub proof fn lemma_class_block_consumes(
    ts: Seq<TokenView>,
    is_abstract: bool,
    known: Seq<ClassView>,
)
    ensures
        class_block(ts, is_abstract, known) is Ok ==> class_block(
            ts,
            is_abstract,
            known,
        )->Ok_0.1.len() < ts.len(),
{
    if ts.len() >= 2 && ts[0] is Name {
        lemma_members_consume(
            ts.skip(2),
            empty_class(ts[0]->Name_0, is_abstract),
            Pending::none(),
        );
    }
}

/// The edge that an arrow between two names stands for: `InheritsTo` makes
/// the left name the parent, `InheritsFrom` the right one.
pub open spec fn edge_of(direction: TokenView, left: Seq<char>, right: Seq<char>) -> Edge {
    if direction is InheritsTo {
        Edge { parent: left, child: right }
    } else {
        Edge { parent: right, child: left }
    }
}

/// Reads an inheritance edge behind its left name: an arrow and the right
/// name.
pub open spec fn edge_block(ts: Seq<TokenView>, left: Seq<char>) -> Parsed<Edge> {
    if ts.len() < 1 {
        Err(StructuralErrorView::UnexpectedEnd(Context::Arrow))
    } else if !(ts[0] is InheritsFrom || ts[0] is InheritsTo) {
        Err(StructuralErrorView::UnexpectedToken(Context::Arrow, ts[0]))
    } else if ts.len() < 2 {
        Err(StructuralErrorView::UnexpectedEnd(Context::ArrowTarget))
    } else {
        match ts[1] {
            TokenView::Name(right) => Ok((edge_of(ts[0], left, right), ts.skip(2))),
            other => Err(StructuralErrorView::UnexpectedToken(Context::ArrowTarget, other)),
        }
    }
}

/// What [`edge_block`] leaves is shorter than what it was given.
pub proof fn lemma_edge_block_consumes(ts: Seq<TokenView>, left: Seq<char>)
    ensures
        edge_block(ts, left) is Ok ==> edge_block(ts, left)->Ok_0.1.len() < ts.len(),
{
}

/// The classes and the inheritance edges of a document.
pub type Declared = (Seq<ClassView>, Seq<Edge>);

/// Reads the tokens outside any class, adding to `acc` each class and each
/// inheritance edge in the order in which they come. The document markers
/// are passed over. Nothing is looked up when an edge is met.
pub open spec fn declarations(ts: Seq<TokenView>, acc: Declared) -> Result<
    Declared,
    StructuralErrorView,
>
    decreases ts.len(),
{
    if ts.len() == 0 {
        Ok(acc)
    } else {
        match ts[0] {
            TokenView::DocumentStart | TokenView::DocumentEnd => declarations(ts.skip(1), acc),
            TokenView::Class => match class_block(ts.skip(1), false, acc.0) {
                Err(e) => Err(e),
                Ok((c, rest)) => {
                    proof {
                        lemma_class_block_consumes(ts.skip(1), false, acc.0);
                    }
                    declarations(rest, (acc.0.push(c), acc.1))
                },
            },
            TokenView::Abstract => if ts.len() < 2 {
                Err(StructuralErrorView::UnexpectedEnd(Context::ClassKeyword))
            } else {
                match ts[1] {
                    TokenView::Class => match class_block(ts.skip(2), true, acc.0) {
                        Err(e) => Err(e),
                        Ok((c, rest)) => {
                            proof {
                                lemma_class_block_consumes(ts.skip(2), true, acc.0);
                            }
                            declarations(rest, (acc.0.push(c), acc.1))
                        },
                    },
                    other => Err(
                        StructuralErrorView::UnexpectedToken(Context::ClassKeyword, other),
                    ),
                }
            },
            TokenView::Name(left) => match edge_block(ts.skip(1), left) {
                Err(e) => Err(e),
                Ok((edge, rest)) => {
                    proof {
                        lemma_edge_block_consumes(ts.skip(1), left);
                    }
                    declarations(rest, (acc.0, acc.1.push(edge)))
                },
            },
            other => Err(StructuralErrorView::UnexpectedToken(Context::TopLevel, other)),
        }
    }
}

/// Resolves the edges in order against the classes `base` of the document,
/// starting from `acc`: each edge gives the child, at its place in `acc`, the
/// record that `base` holds of the parent. A later edge for the same child
/// replaces an earlier one. The first edge that names an undeclared class
/// ends it, with the parent's name if the parent is missing, else with the
/// child's.
pub open spec fn link(base: Seq<ClassView>, edges: Seq<Edge>, acc: Seq<ClassView>) -> Result<
    Seq<ClassView>,
    StructuralErrorView,
>
    decreases edges.len(),
{
    if edges.len() == 0 {
        Ok(acc)
    } else {
        let p = position(base, edges[0].parent);
        let c = position(base, edges[0].child);
        if !declares(base, edges[0].parent) {
            Err(StructuralErrorView::UnknownClass(edges[0].parent))
        } else if !declares(base, edges[0].child) {
            Err(StructuralErrorView::UnknownClass(edges[0].child))
        } else {
            link(
                base,
                edges.skip(1),
                acc.update(c, ClassView { inherits: Some(Box::new(base[p])), ..acc[c] }),
            )
        }
    }
}

/// The classes that the tokens `ts` describe, or why they describe none.
pub open spec fn classes_of(ts: Seq<TokenView>) -> Result<Seq<ClassView>, StructuralErrorView> {
    match declarations(ts, (Seq::empty(), Seq::empty())) {
        Err(e) => Err(e),
        Ok((classes, edges)) => link(classes, edges, classes),
    }
}

/// Reads the parameters of a method from `tokens[start..]`, and returns them
/// with the place behind `EndMethod`.
pub fn gen_parameters(tokens: &[Token], start: usize) -> (r: Result<
    (Vec<Attribute>, usize),
    StructuralError,
>)
    requires
        start <= tokens.len(),
    ensures
        match parameters(tokens_view(tokens@).skip(start as int), Seq::empty()) {
            Ok((ps, rest)) => r is Ok && attributes_view(r->Ok_0.0@) == ps && r->Ok_0.1
                <= tokens.len() && tokens_view(tokens@).skip(r->Ok_0.1 as int) == rest,
            Err(e) => r is Err && r->Err_0@ == e,
        },
{
    let ghost ts = tokens_view(tokens@);
    let mut ps: Vec<Attribute> = Vec::new();
    let mut i: usize = start;
    assert(attributes_view(ps@) =~= Seq::empty());
    loop
        invariant
            start <= i <= tokens.len(),
            ts == tokens_view(tokens@),
            parameters(ts.skip(i as int), attributes_view(ps@)) == parameters(
                ts.skip(start as int),
                Seq::empty(),
            ),
        decreases tokens.len() - i,
    {
        if i >= tokens.len() {
            return Err(StructuralError::UnexpectedEnd(Context::Parameter));
        }
        assert(ts.skip(i as int)[0] == tokens@[i as int]@);
        match &tokens[i] {
            Token::EndMethod => {
                assert(ts.skip(i as int).skip(1) =~= ts.skip(i + 1));
                return Ok((ps, i + 1));
            },
            Token::Variable(v) => {
                if i + 1 >= tokens.len() {
                    return Err(StructuralError::UnexpectedEnd(Context::FieldType));
                }
                assert(ts.skip(i as int)[1] == tokens@[i + 1]@);
                match &tokens[i + 1] {
                    Token::Type(t) => {
                        push_attribute(
                            &mut ps,
                            Attribute::new(
                                Visibility::Default,
                                v.clone(),
                                Type::Other(t.clone()),
                                false,
                            ),
                        );
                        assert(ts.skip(i as int).skip(2) =~= ts.skip(i + 2));
                        i = i + 2;
                    },
                    other => {
                        return Err(
                            StructuralError::UnexpectedToken(Context::FieldType, other.clone()),
                        );
                    },
                }
            },
            other => {
                return Err(StructuralError::UnexpectedToken(Context::Parameter, other.clone()));
            },
        }
    }
}

/// Reads the method `name` from `tokens[start..]`, which stand behind its
/// `StartMethod`, and returns it with the place behind it.
pub fn gen_method(tokens: &[Token], start: usize, name: &String, p: Pending) -> (r: Result<
    (Function, usize),
    StructuralError,
>)
    requires
        start <= tokens.len(),
    ensures
        match method(tokens_view(tokens@).skip(start as int), name@, p) {
            Ok((f, rest)) => r is Ok && r->Ok_0.0@ == f && r->Ok_0.1 <= tokens.len()
                && tokens_view(tokens@).skip(r->Ok_0.1 as int) == rest,
            Err(e) => r is Err && r->Err_0@ == e,
        },
{
    let ghost ts = tokens_view(tokens@);
    let (ps, next) = match gen_parameters(tokens, start) {
        Err(e) => {
            return Err(e);
        },
        Ok(found) => found,
    };
    if next < tokens.len() {
        assert(ts.skip(next as int)[0] == tokens@[next as int]@);
        match &tokens[next] {
            Token::Type(t) => {
                assert(ts.skip(next as int).skip(1) =~= ts.skip(next + 1));
                return Ok(
                    (
                        Function::new(
                            name.clone(),
                            p.view,
                            Type::Other(t.clone()),
                            ps,
                            p.is_abstract,
                            p.is_static,
                        ),
                        next + 1,
                    ),
                );
            },
            _ => {},
        }
    }
    Ok(
        (
            Function::new(
                name.clone(),
                p.view,
                Type::Other(String::from_str("")),
                ps,
                p.is_abstract,
                p.is_static,
            ),
            next,
        ),
    )
}

/// Reads the body of a class from `tokens[start..]` into `class`, and returns
/// the class with the place behind `EndObject`.
pub fn gen_members(tokens: &[Token], start: usize, class: Class) -> (r: Result<
    (Class, usize),
    StructuralError,
>)
    requires
        start <= tokens.len(),
    ensures
        match members(tokens_view(tokens@).skip(start as int), class@, Pending::none()) {
            Ok((c, rest)) => r is Ok && r->Ok_0.0@ == c && r->Ok_0.1 <= tokens.len()
                && tokens_view(tokens@).skip(r->Ok_0.1 as int) == rest,
            Err(e) => r is Err && r->Err_0@ == e,
        },
{
    let ghost ts = tokens_view(tokens@);
    let ghost whole = members(ts.skip(start as int), class@, Pending::none());
    let mut cls = class;
    let mut p = Pending::new();
    let mut i: usize = start;
    loop
        invariant
            start <= i <= tokens.len(),
            ts == tokens_view(tokens@),
            whole == members(ts.skip(start as int), class@, Pending::none()),
            members(ts.skip(i as int), cls@, p) == whole,
        decreases tokens.len() - i,
    {
        if i >= tokens.len() {
            return Err(StructuralError::UnexpectedEnd(Context::Member));
        }
        assert(ts.skip(i as int)[0] == tokens@[i as int]@);
        assert(ts.skip(i as int).skip(1) =~= ts.skip(i + 1));
        match &tokens[i] {
            Token::EndObject => {
                return Ok((cls, i + 1));
            },
            Token::Public => {
                p.view = Visibility::Public;
                i = i + 1;
            },
            Token::Protected => {
                p.view = Visibility::Protected;
                i = i + 1;
            },
            Token::Private => {
                p.view = Visibility::Private;
                i = i + 1;
            },
            Token::Static => {
                p.is_static = true;
                i = i + 1;
            },
            Token::Abstract => {
                p.is_abstract = true;
                cls = cls.with_abstract(true);
                i = i + 1;
            },
            Token::Variable(v) => {
                if i + 1 >= tokens.len() {
                    return Err(StructuralError::UnexpectedEnd(Context::FieldType));
                }
                assert(ts.skip(i as int)[1] == tokens@[i + 1]@);
                match &tokens[i + 1] {
                    Token::Type(t) => {
                        cls = cls.with_attribute(
                            Attribute::new(p.view, v.clone(), Type::Other(t.clone()), false),
                        );
                        p = Pending::new();
                        assert(ts.skip(i as int).skip(2) =~= ts.skip(i + 2));
                        i = i + 2;
                    },
                    other => {
                        return Err(
                            StructuralError::UnexpectedToken(Context::FieldType, other.clone()),
                        );
                    },
                }
            },
            Token::Name(m) => {
                if i + 1 >= tokens.len() {
                    return Err(StructuralError::UnexpectedEnd(Context::MethodStart));
                }
                assert(ts.skip(i as int)[1] == tokens@[i + 1]@);
                match &tokens[i + 1] {
                    Token::StartMethod => {
                        assert(ts.skip(i as int).skip(2) =~= ts.skip(i + 2));
                        proof {
                            lemma_method_consumes(ts.skip(i + 2), m@, p);
                        }
                        let (f, next) = match gen_method(tokens, i + 2, m, p) {
                            Err(e) => {
                                return Err(e);
                            },
                            Ok(found) => found,
                        };
                        cls = cls.with_method(f);
                        p = Pending::new();
                        i = next;
                    },
                    other => {
                        return Err(
                            StructuralError::UnexpectedToken(Context::MethodStart, other.clone()),
                        );
                    },
                }
            },
            other => {
                return Err(StructuralError::UnexpectedToken(Context::Member, other.clone()));
            },
        }
    }
}

/// Finds the first class called `name`.
pub fn find_class(classes: &Vec<Class>, name: &String) -> (k: usize)
    ensures
        k == position(classes_view(classes@), name@),
        k <= classes.len(),
{
    let ghost cs = classes_view(classes@);
    let mut k: usize = 0;
    assert(cs.skip(0) =~= cs);
    while k < classes.len() && !(classes[k].name == *name)
        invariant
            k <= classes.len(),
            cs == classes_view(classes@),
            position(cs, name@) == k + position(cs.skip(k as int), name@),
        decreases classes.len() - k,
    {
        assert(cs.skip(k as int)[0] == classes@[k as int]@);
        assert(cs.skip(k as int).skip(1) =~= cs.skip(k + 1));
        k += 1;
    }
    proof {
        if k < classes.len() {
            assert(cs.skip(k as int)[0] == classes@[k as int]@);
        }
    }
    k
}

/// Reads a class from `tokens[start..]`, which stand behind its keyword, and
/// returns it with the place behind its body.
pub fn gen_class(tokens: &[Token], start: usize, is_abstract: bool, known: &Vec<Class>) -> (r:
    Result<(Class, usize), StructuralError>)
    requires
        start <= tokens.len(),
    ensures
        match class_block(
            tokens_view(tokens@).skip(start as int),
            is_abstract,
            classes_view(known@),
        ) {
            Ok((c, rest)) => r is Ok && r->Ok_0.0@ == c && r->Ok_0.1 <= tokens.len()
                && tokens_view(tokens@).skip(r->Ok_0.1 as int) == rest,
            Err(e) => r is Err && r->Err_0@ == e,
        },
{
    let ghost ts = tokens_view(tokens@);
    if start >= tokens.len() {
        return Err(StructuralError::UnexpectedEnd(Context::ClassName));
    }
    assert(ts.skip(start as int)[0] == tokens@[start as int]@);
    match &tokens[start] {
        Token::Name(name) => {
            if start + 1 >= tokens.len() {
                return Err(StructuralError::UnexpectedEnd(Context::ObjectStart));
            }
            assert(ts.skip(start as int)[1] == tokens@[start + 1]@);
            match &tokens[start + 1] {
                Token::StartObject => {
                    if find_class(known, name) < known.len() {
                        return Err(StructuralError::DuplicateClass(name.clone()));
                    }
                    assert(ts.skip(start as int).skip(2) =~= ts.skip(start + 2));
                    gen_members(
                        tokens,
                        start + 2,
                        Class::build(name.clone(), Visibility::Public, is_abstract),
                    )
                },
                other => Err(
                    StructuralError::UnexpectedToken(Context::ObjectStart, other.clone()),
                ),
            }
        },
        other => Err(StructuralError::UnexpectedToken(Context::ClassName, other.clone())),
    }
}

/// Reads an inheritance edge from `tokens[start..]`, which stand behind its
/// left name, and returns it with the place behind it.
pub fn gen_edge(tokens: &[Token], start: usize, left: &String) -> (r: Result<
    (Inheritance, usize),
    StructuralError,
>)
    requires
        start <= tokens.len(),
    ensures
        match edge_block(tokens_view(tokens@).skip(start as int), left@) {
            Ok((edge, rest)) => r is Ok && r->Ok_0.0@ == edge && r->Ok_0.1 <= tokens.len()
                && tokens_view(tokens@).skip(r->Ok_0.1 as int) == rest,
            Err(e) => r is Err && r->Err_0@ == e,
        },
{
    let ghost ts = tokens_view(tokens@);
    if start >= tokens.len() {
        return Err(StructuralError::UnexpectedEnd(Context::Arrow));
    }
    assert(ts.skip(start as int)[0] == tokens@[start as int]@);
    let left_is_parent = match &tokens[start] {
        Token::InheritsTo => true,
        Token::InheritsFrom => false,
        other => {
            return Err(StructuralError::UnexpectedToken(Context::Arrow, other.clone()));
        },
    };
    if start + 1 >= tokens.len() {
        return Err(StructuralError::UnexpectedEnd(Context::ArrowTarget));
    }
    assert(ts.skip(start as int)[1] == tokens@[start + 1]@);
    match &tokens[start + 1] {
        Token::Name(right) => {
            assert(ts.skip(start as int).skip(2) =~= ts.skip(start + 2));
            let edge = if left_is_parent {
                Inheritance { parent: left.clone(), child: right.clone() }
            } else {
                Inheritance { parent: right.clone(), child: left.clone() }
            };
            Ok((edge, start + 2))
        },
        other => Err(StructuralError::UnexpectedToken(Context::ArrowTarget, other.clone())),
    }
}

/// Reads the classes and the inheritance edges that `tokens` declare.
pub fn collect(tokens: &[Token]) -> (r: Result<(Vec<Class>, Vec<Inheritance>), StructuralError>)
    ensures
        match declarations(tokens_view(tokens@), (Seq::empty(), Seq::empty())) {
            Ok((cs, es)) => r is Ok && classes_view(r->Ok_0.0@) == cs && edges_view(r->Ok_0.1@)
                == es,
            Err(e) => r is Err && r->Err_0@ == e,
        },
{
    let ghost ts = tokens_view(tokens@);
    let ghost whole = declarations(ts, (Seq::empty(), Seq::empty()));
    let mut classes: Vec<Class> = Vec::new();
    let mut edges: Vec<Inheritance> = Vec::new();
    let mut i: usize = 0;
    assert(classes_view(classes@) =~= Seq::empty());
    assert(edges_view(edges@) =~= Seq::empty());
    assert(ts.skip(0) =~= ts);
    while i < tokens.len()
        invariant
            i <= tokens.len(),
            ts == tokens_view(tokens@),
            whole == declarations(ts, (Seq::empty(), Seq::empty())),
            declarations(ts.skip(i as int), (classes_view(classes@), edges_view(edges@)))
                == whole,
        decreases tokens.len() - i,
    {
        assert(ts.skip(i as int)[0] == tokens@[i as int]@);
        assert(ts.skip(i as int).skip(1) =~= ts.skip(i + 1));
        match &tokens[i] {
            Token::DocumentStart | Token::DocumentEnd => {
                i = i + 1;
            },
            Token::Class => {
                proof {
                    lemma_class_block_consumes(ts.skip(i + 1), false, classes_view(classes@));
                }
                let (c, next) = match gen_class(tokens, i + 1, false, &classes) {
                    Err(e) => {
                        return Err(e);
                    },
                    Ok(found) => found,
                };
                push_class(&mut classes, c);
                i = next;
            },
            Token::Abstract => {
                if i + 1 >= tokens.len() {
                    return Err(StructuralError::UnexpectedEnd(Context::ClassKeyword));
                }
                assert(ts.skip(i as int)[1] == tokens@[i + 1]@);
                match &tokens[i + 1] {
                    Token::Class => {
                        assert(ts.skip(i as int).skip(2) =~= ts.skip(i + 2));
                        proof {
                            lemma_class_block_consumes(
                                ts.skip(i + 2),
                                true,
                                classes_view(classes@),
                            );
                        }
                        let (c, next) = match gen_class(tokens, i + 2, true, &classes) {
                            Err(e) => {
                                return Err(e);
                            },
                            Ok(found) => found,
                        };
                        push_class(&mut classes, c);
                        i = next;
                    },
                    other => {
                        return Err(
                            StructuralError::UnexpectedToken(Context::ClassKeyword, other.clone()),
                        );
                    },
                }
            },
            Token::Name(left) => {
                proof {
                    lemma_edge_block_consumes(ts.skip(i + 1), left@);
                }
                let (edge, next) = match gen_edge(tokens, i + 1, left) {
                    Err(e) => {
                        return Err(e);
                    },
                    Ok(found) => found,
                };
                push_edge(&mut edges, edge);
                i = next;
            },
            other => {
                return Err(StructuralError::UnexpectedToken(Context::TopLevel, other.clone()));
            },
        }
    }
    Ok((classes, edges))
}

/// Copies a list of classes.
pub fn clone_classes(v: &Vec<Class>) -> (r: Vec<Class>)
    ensures
        classes_view(r@) == classes_view(v@),
{
    let mut r: Vec<Class> = Vec::new();
    let mut i: usize = 0;
    assert(classes_view(r@) =~= classes_view(v@.take(0)));
    while i < v.len()
        invariant
            i <= v.len(),
            classes_view(r@) == classes_view(v@.take(i as int)),
        decreases v.len() - i,
    {
        push_class(&mut r, v[i].clone());
        assert(classes_view(v@.take(i + 1)) =~= classes_view(v@.take(i as int)).push(
            v@[i as int]@,
        ));
        i += 1;
    }
    assert(v@.take(v@.len() as int) =~= v@);
    r
}

/// Gives each child of an edge the record of its parent, as `base` holds it.
pub fn resolve(base: &Vec<Class>, edges: &Vec<Inheritance>) -> (r: Result<
    Vec<Class>,
    StructuralError,
>)
    ensures
        match link(classes_view(base@), edges_view(edges@), classes_view(base@)) {
            Ok(cs) => r is Ok && classes_view(r->Ok_0@) == cs,
            Err(e) => r is Err && r->Err_0@ == e,
        },
{
    let ghost bv = classes_view(base@);
    let ghost ev = edges_view(edges@);
    let mut linked = clone_classes(base);
    let mut i: usize = 0;
    assert(ev.skip(0) =~= ev);
    while i < edges.len()
        invariant
            i <= edges.len(),
            bv == classes_view(base@),
            ev == edges_view(edges@),
            linked.len() == base.len(),
            link(bv, ev.skip(i as int), classes_view(linked@)) == link(bv, ev, bv),
        decreases edges.len() - i,
    {
        assert(ev.skip(i as int)[0] == edges@[i as int]@);
        assert(ev.skip(i as int).skip(1) =~= ev.skip(i + 1));
        let p = find_class(base, &edges[i].parent);
        if p >= base.len() {
            return Err(StructuralError::UnknownClass(edges[i].parent.clone()));
        }
        let c = find_class(base, &edges[i].child);
        if c >= base.len() {
            return Err(StructuralError::UnknownClass(edges[i].child.clone()));
        }
        let ghost before = classes_view(linked@);
        let mut child = linked[c].clone();
        child.set_inherits(base[p].clone());
        linked.set(c, child);
        assert(classes_view(linked@) =~= before.update(
            c as int,
            ClassView { inherits: Some(Box::new(bv[p as int])), ..before[c as int] },
        ));
        i += 1;
    }
    Ok(linked)
}

/// Builds the classes that `tokens` describe: every class in the order of its
/// declaration, with its members in the order of theirs, and with the parent
/// that the inheritance edges of the document give it.
pub fn get_classes(tokens: &[Token]) -> (r: Result<Vec<Class>, StructuralError>)
    ensures
        match classes_of(tokens_view(tokens@)) {
            Ok(cs) => r is Ok && classes_view(r->Ok_0@) == cs,
            Err(e) => r is Err && r->Err_0@ == e,
        },
{
    match collect(tokens) {
        Err(e) => Err(e),
        Ok((classes, edges)) => resolve(&classes, &edges),
    }
}

/// Why a text yields no classes.
#[derive(Debug, PartialEq, Eq)]
pub enum GeneratorError {
    /// The text is no diagram.
    Lexical(LexicalError),
    /// The tokens of the diagram describe no set of classes.
    Structure(StructuralError),
}

/// What a [`GeneratorError`] stands for.
pub ghost enum GeneratorErrorView {
    Lexical(LexicalErrorView),
    Structure(StructuralErrorView),
}

impl View for GeneratorError {
    type V = GeneratorErrorView;

    open spec fn view(&self) -> GeneratorErrorView {
        match self {
            GeneratorError::Lexical(e) => GeneratorErrorView::Lexical(e@),
            GeneratorError::Structure(e) => GeneratorErrorView::Structure(e@),
        }
    }
}

/// The classes of the diagram `text`: its tokens, built into classes.
pub open spec fn diagram_classes(text: Seq<char>) -> Result<Seq<ClassView>, GeneratorErrorView> {
    match tokens_of(text) {
        Err(e) => Err(GeneratorErrorView::Lexical(e)),
        Ok(ts) => match classes_of(ts) {
            Err(e) => Err(GeneratorErrorView::Structure(e)),
            Ok(cs) => Ok(cs),
        },
    }
}

/// Reads the classes of a diagram from its text.
pub fn read_classes(text: &str) -> (r: Result<Vec<Class>, GeneratorError>)
    ensures
        match diagram_classes(text@) {
            Ok(cs) => r is Ok && classes_view(r->Ok_0@) == cs,
            Err(e) => r is Err && r->Err_0@ == e,
        },
{
    match get_identifiers(text) {
        Err(e) => Err(GeneratorError::Lexical(e)),
        Ok(tokens) => match get_classes(tokens.as_slice()) {
            Err(e) => Err(GeneratorError::Structure(e)),
            Ok(classes) => Ok(classes),
        },
    }
}

/// A source file to be written: its name and what it holds.
#[derive(Debug, PartialEq, Eq)]
pub struct SourceFile {
    pub name: String,
    pub content: String,
}

/// What a [`SourceFile`] stands for.
pub ghost struct SourceFileView {
    pub name: Seq<char>,
    pub content: Seq<char>,
}

impl View for SourceFile {
    type V = SourceFileView;

    open spec fn view(&self) -> SourceFileView {
        SourceFileView { name: self.name@, content: self.content@ }
    }
}

/// The views of the files of `s`, in order.
pub open spec fn files_view(s: Seq<SourceFile>) -> Seq<SourceFileView> {
    s.map_values(|f: SourceFile| f@)
}

/// The Java file of a class: it is named after the class and holds the
/// class's Java text.
pub open spec fn source_file(c: ClassView) -> SourceFileView {
    SourceFileView { name: c.name + ".java"@, content: c.text() }
}

/// The Java files of the classes `cs`, one for each, in order.
pub open spec fn source_files(cs: Seq<ClassView>) -> Seq<SourceFileView> {
    cs.map_values(|c: ClassView| source_file(c))
}

/// Renders the Java file of `class`.
pub fn write_class(class: &Class) -> (r: SourceFile)
    ensures
        r@ == source_file(class@),
{
    let mut name = class.name.clone();
    name.append(".java");
    SourceFile { name, content: class.to_java() }
}

/// Renders the Java file of each class.
pub fn write_classes(classes: &Vec<Class>) -> (r: Vec<SourceFile>)
    ensures
        files_view(r@) == source_files(classes_view(classes@)),
{
    let mut files: Vec<SourceFile> = Vec::new();
    let mut i: usize = 0;
    while i < classes.len()
        invariant
            i <= classes.len(),
            files.len() == i,
            forall|j: int| 0 <= j < i ==> (#[trigger] files@[j])@ == source_file(classes@[j]@),
        decreases classes.len() - i,
    {
        files.push(write_class(&classes[i]));
        i += 1;
    }
    assert(files_view(files@) =~= source_files(classes_view(classes@)));
    files
}

/// The Java files of the diagram `text`: one for each of its classes, in the
/// order of their declaration.
pub open spec fn diagram_files(text: Seq<char>) -> Result<Seq<SourceFileView>, GeneratorErrorView> {
    match diagram_classes(text) {
        Err(e) => Err(e),
        Ok(cs) => Ok(source_files(cs)),
    }
}

/// Generates the Java files of a diagram from its text.
pub fn generate_files(text: &str) -> (r: Result<Vec<SourceFile>, GeneratorError>)
    ensures
        match diagram_files(text@) {
            Ok(fs) => r is Ok && files_view(r->Ok_0@) == fs,
            Err(e) => r is Err && r->Err_0@ == e,
        },
{
    match read_classes(text) {
        Err(e) => Err(e),
        Ok(classes) => Ok(write_classes(&classes)),
    }
}

} // verus!

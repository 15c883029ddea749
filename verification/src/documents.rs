//! Documents without inheritance, and what the builder makes of them: every
//! declared class comes out once, under its name, with its fields and its
//! methods in the order of their declaration.
use crate::generate::{
    class_block, classes_of, declarations, declares, empty_class, members, method, parameter,
    parameters, position, Declared, Pending, StructuralErrorView,
};
use crate::model::{AttributeView, ClassView, FunctionView, TypeView, Visibility};
use crate::tokenizer::TokenView;
use vstd::prelude::*;

verus! {

/// A member of a class, as a document declares it.
pub ghost enum Member {
    Field(AttributeView),
    Method(FunctionView),
}

/// A class as a document declares it: its name, whether it is declared
/// abstract, and its members in the order of their declaration.
pub ghost struct Declaration {
    pub name: Seq<char>,
    pub is_abstract: bool,
    pub members: Seq<Member>,
}

/// `rest` behind the token `t`.
pub open spec fn cons(t: TokenView, rest: Seq<TokenView>) -> Seq<TokenView> {
    seq![t] + rest
}

/// `rest` behind the token of the visibility `v`, if it has one.
pub open spec fn visibility_then(v: Visibility, rest: Seq<TokenView>) -> Seq<TokenView> {
    match v {
        Visibility::Default => rest,
        Visibility::Public => cons(TokenView::Public, rest),
        Visibility::Protected => cons(TokenView::Protected, rest),
        Visibility::Private => cons(TokenView::Private, rest),
    }
}

/// `rest` behind `Static`, if `is_static`.
pub open spec fn static_then(is_static: bool, rest: Seq<TokenView>) -> Seq<TokenView> {
    if is_static {
        cons(TokenView::Static, rest)
    } else {
        rest
    }
}

/// `rest` behind `Abstract`, if `is_abstract`.
pub open spec fn abstract_then(is_abstract: bool, rest: Seq<TokenView>) -> Seq<TokenView> {
    if is_abstract {
        cons(TokenView::Abstract, rest)
    } else {
        rest
    }
}

/// `rest` behind the tokens of the parameters `ps` and `EndMethod`.
pub open spec fn parameters_then(ps: Seq<AttributeView>, rest: Seq<TokenView>) -> Seq<TokenView>
    decreases ps.len(),
{
    if ps.len() == 0 {
        cons(TokenView::EndMethod, rest)
    } else {
        cons(
            TokenView::Variable(ps[0].name),
            cons(TokenView::Type(ps[0].vartype.text()), parameters_then(ps.skip(1), rest)),
        )
    }
}

/// `rest` behind the token of the return type `t`, if `t` is not empty.
pub open spec fn return_then(t: TypeView, rest: Seq<TokenView>) -> Seq<TokenView> {
    if t.text().len() == 0 {
        rest
    } else {
        cons(TokenView::Type(t.text()), rest)
    }
}

/// `rest` behind the tokens of the member `m`: its modifiers, then the member.
pub open spec fn member_then(m: Member, rest: Seq<TokenView>) -> Seq<TokenView> {
    match m {
        Member::Field(a) => visibility_then(
            a.view,
            cons(TokenView::Variable(a.name), cons(TokenView::Type(a.vartype.text()), rest)),
        ),
        Member::Method(f) => visibility_then(
            f.view,
            static_then(
                f.is_static,
                abstract_then(
                    f.is_abstract,
                    cons(
                        TokenView::Name(f.name),
                        cons(
                            TokenView::StartMethod,
                            parameters_then(f.parameters, return_then(f.returntype, rest)),
                        ),
                    ),
                ),
            ),
        ),
    }
}

/// `rest` behind the tokens of the members `ms` and `EndObject`.
pub open spec fn body_then(ms: Seq<Member>, rest: Seq<TokenView>) -> Seq<TokenView>
    decreases ms.len(),
{
    if ms.len() == 0 {
        cons(TokenView::EndObject, rest)
    } else {
        member_then(ms[0], body_then(ms.skip(1), rest))
    }
}

/// `rest` behind the tokens of the class `d`.
pub open spec fn class_then(d: Declaration, rest: Seq<TokenView>) -> Seq<TokenView> {
    abstract_then(
        d.is_abstract,
        cons(
            TokenView::Class,
            cons(TokenView::Name(d.name), cons(TokenView::StartObject, body_then(d.members, rest))),
        ),
    )
}

/// `rest` behind the tokens of the classes `ds`.
pub open spec fn classes_then(ds: Seq<Declaration>, rest: Seq<TokenView>) -> Seq<TokenView>
    decreases ds.len(),
{
    if ds.len() == 0 {
        rest
    } else {
        class_then(ds[0], classes_then(ds.skip(1), rest))
    }
}

/// The tokens of the document that declares the classes `ds` and nothing
/// else.
pub open spec fn document(ds: Seq<Declaration>) -> Seq<TokenView> {
    cons(TokenView::DocumentStart, classes_then(ds, seq![TokenView::DocumentEnd]))
}

/// Whether a document can declare the member: a field is not final, and the
/// parameters of a method have no visibility and are not final.
pub open spec fn is_declarable_member(m: Member) -> bool {
    match m {
        Member::Field(a) => !a.is_final,
        Member::Method(f) => forall|i: int|
            0 <= i < f.parameters.len() ==> (#[trigger] f.parameters[i]).view
                == Visibility::Default && !f.parameters[i].is_final,
    }
}

/// Whether a document can declare every member of `ms`.
pub open spec fn are_declarable(ms: Seq<Member>) -> bool {
    forall|i: int| 0 <= i < ms.len() ==> is_declarable_member(#[trigger] ms[i])
}

/// `cls` with the member `m` added. An abstract method makes the class
/// abstract.
pub open spec fn add_member(cls: ClassView, m: Member) -> ClassView {
    match m {
        Member::Field(a) => ClassView { attributes: cls.attributes.push(a), ..cls },
        Member::Method(f) => ClassView {
            methods: cls.methods.push(f),
            is_abstract: cls.is_abstract || f.is_abstract,
            ..cls
        },
    }
}

/// `cls` with the members `ms` added in order.
pub open spec fn with_members(cls: ClassView, ms: Seq<Member>) -> ClassView
    decreases ms.len(),
{
    if ms.len() == 0 {
        cls
    } else {
        with_members(add_member(cls, ms[0]), ms.skip(1))
    }
}

/// The fields among `ms`, in order.
pub open spec fn fields_of(ms: Seq<Member>) -> Seq<AttributeView>
    decreases ms.len(),
{
    if ms.len() == 0 {
        Seq::empty()
    } else {
        match ms[0] {
            Member::Field(a) => seq![a] + fields_of(ms.skip(1)),
            Member::Method(_) => fields_of(ms.skip(1)),
        }
    }
}

/// The methods among `ms`, in order.
pub open spec fn methods_of(ms: Seq<Member>) -> Seq<FunctionView>
    decreases ms.len(),
{
    if ms.len() == 0 {
        Seq::empty()
    } else {
        match ms[0] {
            Member::Field(_) => methods_of(ms.skip(1)),
            Member::Method(f) => seq![f] + methods_of(ms.skip(1)),
        }
    }
}

/// The record of the class that `d` declares.
pub open spec fn declared_class(d: Declaration) -> ClassView {
    with_members(empty_class(d.name, d.is_abstract), d.members)
}

/// The records of the classes that `ds` declare, in order.
pub open spec fn declared_classes(ds: Seq<Declaration>) -> Seq<ClassView> {
    ds.map_values(|d: Declaration| declared_class(d))
}

/// Adding members keeps the name, the visibility and the parent of the
/// class, and puts the fields behind its attributes and the methods behind
/// its methods, each in their order.
pub proof fn lemma_with_members(cls: ClassView, ms: Seq<Member>)
    ensures
        with_members(cls, ms).name == cls.name,
        with_members(cls, ms).view == cls.view,
        with_members(cls, ms).inherits == cls.inherits,
        with_members(cls, ms).attributes == cls.attributes + fields_of(ms),
        with_members(cls, ms).methods == cls.methods + methods_of(ms),
    decreases ms.len(),
{
    if ms.len() == 0 {
        assert(cls.attributes + fields_of(ms) =~= cls.attributes);
        assert(cls.methods + methods_of(ms) =~= cls.methods);
    } else {
        let next = add_member(cls, ms[0]);
        lemma_with_members(next, ms.skip(1));
        assert(next.attributes + fields_of(ms.skip(1)) =~= cls.attributes + fields_of(ms));
        assert(next.methods + methods_of(ms.skip(1)) =~= cls.methods + methods_of(ms));
    }
}

/// The first token of `cons(t, rest)` is `t`, and `rest` follows it.
pub proof fn lemma_cons(t: TokenView, rest: Seq<TokenView>)
    ensures
        cons(t, rest).len() == rest.len() + 1,
        cons(t, rest)[0] == t,
        cons(t, rest).skip(1) == rest,
{
    assert(cons(t, rest).skip(1) =~= rest);
}

/// The first two tokens of `cons(a, cons(b, rest))` are `a` and `b`, and
/// `rest` follows them.
pub proof fn lemma_cons_twice(a: TokenView, b: TokenView, rest: Seq<TokenView>)
    ensures
        cons(a, cons(b, rest)).len() == rest.len() + 2,
        cons(a, cons(b, rest))[0] == a,
        cons(a, cons(b, rest))[1] == b,
        cons(a, cons(b, rest)).skip(2) == rest,
        cons(a, cons(b, rest)).skip(1) == cons(b, rest),
{
    assert(cons(a, cons(b, rest)).skip(2) =~= rest);
    assert(cons(a, cons(b, rest)).skip(1) =~= cons(b, rest));
}

/// The parameters of a method are read back as they were written.
pub proof fn lemma_parameters_read_back(
    ps: Seq<AttributeView>,
    rest: Seq<TokenView>,
    acc: Seq<AttributeView>,
)
    requires
        forall|i: int|
            0 <= i < ps.len() ==> (#[trigger] ps[i]).view == Visibility::Default
                && !ps[i].is_final,
    ensures
        parameters(parameters_then(ps, rest), acc) == Ok::<
            (Seq<AttributeView>, Seq<TokenView>),
            StructuralErrorView,
        >((acc + ps, rest)),
    decreases ps.len(),
{
    if ps.len() == 0 {
        lemma_cons(TokenView::EndMethod, rest);
        assert(acc + ps =~= acc);
    } else {
        let tail = parameters_then(ps.skip(1), rest);
        lemma_cons_twice(
            TokenView::Variable(ps[0].name),
            TokenView::Type(ps[0].vartype.text()),
            tail,
        );
        assert(ps[0].vartype == TypeView::Other(ps[0].vartype.text()));
        assert(parameter(ps[0].name, ps[0].vartype.text()) == ps[0]);
        assert forall|i: int| 0 <= i < ps.skip(1).len() implies (#[trigger] ps.skip(1)[i]).view
            == Visibility::Default && !ps.skip(1)[i].is_final by {
            assert(ps.skip(1)[i] == ps[i + 1]);
        }
        lemma_parameters_read_back(ps.skip(1), rest, acc.push(ps[0]));
        assert(acc.push(ps[0]) + ps.skip(1) =~= acc + ps);
    }
}

/// A method is read back as it was written, with the modifiers that wait.
pub proof fn lemma_method_reads_back(f: FunctionView, rest: Seq<TokenView>, p: Pending)
    requires
        is_declarable_member(Member::Method(f)),
        p.view == f.view,
        p.is_static == f.is_static,
        p.is_abstract == f.is_abstract,
        rest.len() > 0 ==> !(rest[0] is Type),
    ensures
        method(parameters_then(f.parameters, return_then(f.returntype, rest)), f.name, p) == Ok::<
            (FunctionView, Seq<TokenView>),
            StructuralErrorView,
        >((f, rest)),
{
    let after = return_then(f.returntype, rest);
    lemma_parameters_read_back(f.parameters, after, Seq::empty());
    assert(Seq::<AttributeView>::empty() + f.parameters =~= f.parameters);
    assert(f.returntype == TypeView::Other(f.returntype.text()));
    if f.returntype.text().len() == 0 {
        reveal_strlit("");
        assert(f.returntype.text() =~= ""@);
    } else {
        lemma_cons(TokenView::Type(f.returntype.text()), rest);
    }
}

/// The tokens of a body do not start with a `Type`.
pub proof fn lemma_body_start(ms: Seq<Member>, rest: Seq<TokenView>)
    ensures
        body_then(ms, rest).len() > 0,
        !(body_then(ms, rest)[0] is Type),
    decreases ms.len(),
{
    if ms.len() == 0 {
        lemma_cons(TokenView::EndObject, rest);
    } else {
        let tail = body_then(ms.skip(1), rest);
        match ms[0] {
            Member::Field(a) => {
                let inner = cons(
                    TokenView::Variable(a.name),
                    cons(TokenView::Type(a.vartype.text()), tail),
                );
                lemma_cons(TokenView::Variable(a.name), cons(TokenView::Type(a.vartype.text()), tail));
                lemma_cons(TokenView::Public, inner);
                lemma_cons(TokenView::Protected, inner);
                lemma_cons(TokenView::Private, inner);
            },
            Member::Method(f) => {
                let call = cons(
                    TokenView::Name(f.name),
                    cons(
                        TokenView::StartMethod,
                        parameters_then(f.parameters, return_then(f.returntype, tail)),
                    ),
                );
                lemma_cons(
                    TokenView::Name(f.name),
                    cons(
                        TokenView::StartMethod,
                        parameters_then(f.parameters, return_then(f.returntype, tail)),
                    ),
                );
                let marked = abstract_then(f.is_abstract, call);
                lemma_cons(TokenView::Abstract, call);
                let fixed = static_then(f.is_static, marked);
                lemma_cons(TokenView::Static, marked);
                lemma_cons(TokenView::Public, fixed);
                lemma_cons(TokenView::Protected, fixed);
                lemma_cons(TokenView::Private, fixed);
            },
        }
    }
}

/// A member is read back as it was written: behind it the class has one
/// member more, and no modifier waits.
pub proof fn lemma_member_reads_back(m: Member, rest: Seq<TokenView>, cls: ClassView)
    requires
        is_declarable_member(m),
        rest.len() > 0 ==> !(rest[0] is Type),
    ensures
        members(member_then(m, rest), cls, Pending::none()) == members(
            rest,
            add_member(cls, m),
            Pending::none(),
        ),
{
    match m {
        Member::Field(a) => {
            let inner = cons(
                TokenView::Variable(a.name),
                cons(TokenView::Type(a.vartype.text()), rest),
            );
            lemma_cons_twice(TokenView::Variable(a.name), TokenView::Type(a.vartype.text()), rest);
            let p = Pending { view: a.view, ..Pending::none() };
            assert(a.vartype == TypeView::Other(a.vartype.text()));
            assert(members(inner, cls, p) == members(rest, add_member(cls, m), Pending::none()));
            lemma_cons(TokenView::Public, inner);
            lemma_cons(TokenView::Protected, inner);
            lemma_cons(TokenView::Private, inner);
        },
        Member::Method(f) => {
            let body = parameters_then(f.parameters, return_then(f.returntype, rest));
            let call = cons(TokenView::Name(f.name), cons(TokenView::StartMethod, body));
            let marked = abstract_then(f.is_abstract, call);
            let fixed = static_then(f.is_static, marked);
            let with_view = Pending { view: f.view, ..Pending::none() };
            let with_static = Pending { is_static: f.is_static, ..with_view };
            let with_abstract = Pending { is_abstract: f.is_abstract, ..with_static };
            let cls3 = if f.is_abstract {
                ClassView { is_abstract: true, ..cls }
            } else {
                cls
            };
            lemma_method_reads_back(f, rest, with_abstract);
            lemma_cons_twice(TokenView::Name(f.name), TokenView::StartMethod, body);
            assert(members(call, cls3, with_abstract) == members(
                rest,
                add_member(cls, m),
                Pending::none(),
            ));
            lemma_cons(TokenView::Abstract, call);
            assert(members(marked, cls, with_static) == members(call, cls3, with_abstract));
            lemma_cons(TokenView::Static, marked);
            assert(members(fixed, cls, with_view) == members(marked, cls, with_static));
            lemma_cons(TokenView::Public, fixed);
            lemma_cons(TokenView::Protected, fixed);
            lemma_cons(TokenView::Private, fixed);
            assert(members(member_then(m, rest), cls, Pending::none()) == members(fixed, cls, with_view));
        },
    }
}

/// A body is read back as it was written.
pub proof fn lemma_body_reads_back(ms: Seq<Member>, rest: Seq<TokenView>, cls: ClassView)
    requires
        are_declarable(ms),
    ensures
        members(body_then(ms, rest), cls, Pending::none()) == Ok::<
            (ClassView, Seq<TokenView>),
            StructuralErrorView,
        >((with_members(cls, ms), rest)),
    decreases ms.len(),
{
    if ms.len() == 0 {
        lemma_cons(TokenView::EndObject, rest);
    } else {
        let tail = body_then(ms.skip(1), rest);
        lemma_body_start(ms.skip(1), rest);
        assert(is_declarable_member(ms[0]));
        lemma_member_reads_back(ms[0], tail, cls);
        assert forall|i: int| 0 <= i < ms.skip(1).len() implies is_declarable_member(
            #[trigger] ms.skip(1)[i],
        ) by {
            assert(ms.skip(1)[i] == ms[i + 1]);
        }
        lemma_body_reads_back(ms.skip(1), rest, add_member(cls, ms[0]));
    }
}

/// A list of classes with one class more declares the names that it declared
/// before, and the name of that class.
pub proof fn lemma_declares_push(known: Seq<ClassView>, c: ClassView, name: Seq<char>)
    ensures
        declares(known.push(c), name) <==> declares(known, name) || c.name == name,
    decreases known.len(),
{
    let more = known.push(c);
    if known.len() == 0 {
        assert(more.skip(1) =~= Seq::<ClassView>::empty());
        assert(position(more.skip(1), name) == 0);
    } else if known[0].name != name {
        assert(more.skip(1) =~= known.skip(1).push(c));
        lemma_declares_push(known.skip(1), c, name);
    }
}

/// Whether the names of the classes `ds` differ from each other and from
/// those of the classes `known`.
pub open spec fn are_fresh(ds: Seq<Declaration>, known: Seq<ClassView>) -> bool {
    &&& forall|i: int| 0 <= i < ds.len() ==> !declares(known, #[trigger] ds[i].name)
    &&& forall|i: int, j: int|
        0 <= i < j < ds.len() ==> (#[trigger] ds[i]).name != (#[trigger] ds[j]).name
}

/// Whether a document can declare every member of every class of `ds`.
pub open spec fn all_declarable(ds: Seq<Declaration>) -> bool {
    forall|i: int| 0 <= i < ds.len() ==> are_declarable((#[trigger] ds[i]).members)
}

/// Classes are read back as they were written: behind them the classes that
/// were known have the declared ones behind them, in order, and the edges
/// are as they were.
pub proof fn lemma_classes_read_back(ds: Seq<Declaration>, acc: Declared)
    requires
        are_fresh(ds, acc.0),
        all_declarable(ds),
    ensures
        declarations(classes_then(ds, seq![TokenView::DocumentEnd]), acc) == Ok::<
            Declared,
            StructuralErrorView,
        >((acc.0 + declared_classes(ds), acc.1)),
    decreases ds.len(),
{
    let end = seq![TokenView::DocumentEnd];
    if ds.len() == 0 {
        assert(end.skip(1) =~= Seq::<TokenView>::empty());
        assert(declarations(end.skip(1), acc) == Ok::<Declared, StructuralErrorView>(acc));
        assert(acc.0 + declared_classes(ds) =~= acc.0);
    } else {
        let d = ds[0];
        let tail = classes_then(ds.skip(1), end);
        let body = body_then(d.members, tail);
        let named = cons(TokenView::Name(d.name), cons(TokenView::StartObject, body));
        let block = cons(TokenView::Class, named);
        let c = declared_class(d);
        lemma_cons_twice(TokenView::Name(d.name), TokenView::StartObject, body);
        lemma_cons(TokenView::Class, named);
        lemma_cons_twice(TokenView::Abstract, TokenView::Class, named);
        assert(are_declarable(d.members));
        lemma_body_reads_back(d.members, tail, empty_class(d.name, d.is_abstract));
        assert(class_block(named, d.is_abstract, acc.0) == Ok::<
            (ClassView, Seq<TokenView>),
            StructuralErrorView,
        >((c, tail)));
        let next: Declared = (acc.0.push(c), acc.1);
        assert(declarations(class_then(d, tail), acc) == declarations(tail, next));
        lemma_with_members(empty_class(d.name, d.is_abstract), d.members);
        assert forall|i: int| 0 <= i < ds.skip(1).len() implies !declares(
            next.0,
            #[trigger] ds.skip(1)[i].name,
        ) by {
            assert(ds.skip(1)[i] == ds[i + 1]);
            lemma_declares_push(acc.0, c, ds[i + 1].name);
        }
        assert forall|i: int, j: int| 0 <= i < j < ds.skip(1).len() implies (#[trigger] ds.skip(
            1,
        )[i]).name != (#[trigger] ds.skip(1)[j]).name by {
            assert(ds.skip(1)[i] == ds[i + 1]);
            assert(ds.skip(1)[j] == ds[j + 1]);
        }
        assert forall|i: int| 0 <= i < ds.skip(1).len() implies are_declarable(
            (#[trigger] ds.skip(1)[i]).members,
        ) by {
            assert(ds.skip(1)[i] == ds[i + 1]);
        }
        lemma_classes_read_back(ds.skip(1), next);
        assert(next.0 + declared_classes(ds.skip(1)) =~= acc.0 + declared_classes(ds));
    }
}

/// A document that declares classes under names that differ from each other,
/// and no inheritance, is built into exactly those classes: as many records
/// as declarations, in the order of the declarations, each under the name of
/// its declaration, public and without a parent, with the declared fields as
/// its attributes and the declared methods as its methods, each in the order
/// of their declaration.
pub proof fn lemma_declared_classes_are_built(ds: Seq<Declaration>)
    requires
        forall|i: int, j: int|
            0 <= i < j < ds.len() ==> (#[trigger] ds[i]).name != (#[trigger] ds[j]).name,
        all_declarable(ds),
    ensures
        classes_of(document(ds)) == Ok::<Seq<ClassView>, StructuralErrorView>(
            declared_classes(ds),
        ),
        declared_classes(ds).len() == ds.len(),
        forall|i: int|
            0 <= i < ds.len() ==> {
                &&& (#[trigger] declared_classes(ds)[i]).name == ds[i].name
                &&& declared_classes(ds)[i].inherits is None
                &&& declared_classes(ds)[i].attributes == fields_of(ds[i].members)
                &&& declared_classes(ds)[i].methods == methods_of(ds[i].members)
            },
{
    let none: Declared = (Seq::empty(), Seq::empty());
    let body = classes_then(ds, seq![TokenView::DocumentEnd]);
    lemma_cons(TokenView::DocumentStart, body);
    lemma_classes_read_back(ds, none);
    assert(none.0 + declared_classes(ds) =~= declared_classes(ds));
    assert(declarations(document(ds), none) == declarations(body, none));
    assert forall|i: int| 0 <= i < ds.len() implies {
        &&& (#[trigger] declared_classes(ds)[i]).name == ds[i].name
        &&& declared_classes(ds)[i].inherits is None
        &&& declared_classes(ds)[i].attributes == fields_of(ds[i].members)
        &&& declared_classes(ds)[i].methods == methods_of(ds[i].members)
    } by {
        let start = empty_class(ds[i].name, ds[i].is_abstract);
        lemma_with_members(start, ds[i].members);
        assert(start.attributes + fields_of(ds[i].members) =~= fields_of(ds[i].members));
        assert(start.methods + methods_of(ds[i].members) =~= methods_of(ds[i].members));
    }
}

} // verus!

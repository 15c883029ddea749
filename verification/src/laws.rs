//! What holds of the builder whatever the document: laws that relate the
//! functions of [`crate::generate`] and [`crate::tokenizer`] to each other.
use crate::generate::{
    class_block, classes_of, declarations, declares, diagram_classes, edge_block, edge_of, field,
    lemma_class_block_consumes, link, members, method, position, Declared, Edge, Pending,
    StructuralErrorView,
};
use crate::model::{ClassView, Visibility};
use crate::text::{index_of, is_space, lemma_index_of, trim};
use crate::tokenizer::{
    after_prefix, after_sigil, after_word, arrow, class_decl, compact, field_tokens, first_word,
    global_line, is_sigil, is_skipped, leading_modifiers, line_step, member_line, member_tokens,
    sigil_tokens, starts_with, tokens_from, tokens_of, trailing_modifiers, word_end,
    LexicalErrorView, Scope, Step, TokenView,
};
use vstd::prelude::*;

verus! {

/// Reading a diagram is a function of its text: the same text gives the same
/// tokens and the same classes, or the same error.
pub proof fn lemma_same_text_same_classes(first: Seq<char>, second: Seq<char>)
    requires
        first == second,
    ensures
        tokens_of(first) == tokens_of(second),
        diagram_classes(first) == diagram_classes(second),
{
}

/// The four arrows: those whose head is on the left make the left name the
/// parent, those whose head is on the right the right name. Solid and dotted
/// arrows mean the same.
pub proof fn lemma_arrow_directions()
    ensures
        arrow("<|--"@) == Some(TokenView::InheritsTo),
        arrow("<|.."@) == Some(TokenView::InheritsTo),
        arrow("--|>"@) == Some(TokenView::InheritsFrom),
        arrow("..|>"@) == Some(TokenView::InheritsFrom),
{
    reveal_strlit("<|--");
    reveal_strlit("<|..");
    reveal_strlit("--|>");
    reveal_strlit("..|>");
    assert("--|>"@[0] == '-');
    assert("<|--"@[0] == '<');
    assert("<|.."@[0] == '<');
    assert("..|>"@[0] == '.');
}

/// An inheritance edge that stands outside a class is noted and nothing else:
/// the scan goes on behind it with the same classes, and nothing is looked up.
pub proof fn lemma_edge_is_noted(
    left: Seq<char>,
    direction: TokenView,
    right: Seq<char>,
    rest: Seq<TokenView>,
    acc: Declared,
)
    requires
        direction is InheritsTo || direction is InheritsFrom,
    ensures
        declarations(seq![TokenView::Name(left), direction, TokenView::Name(right)] + rest, acc)
            == declarations(rest, (acc.0, acc.1.push(edge_of(direction, left, right)))),
{
    let ts = seq![TokenView::Name(left), direction, TokenView::Name(right)] + rest;
    assert(ts[0] == TokenView::Name(left));
    assert(ts.skip(1)[0] == direction);
    assert(ts.skip(1)[1] == TokenView::Name(right));
    assert(ts.skip(1).skip(2) =~= rest);
    assert(edge_block(ts.skip(1), left) == Ok::<(Edge, Seq<TokenView>), StructuralErrorView>(
        (edge_of(direction, left, right), rest),
    ));
}

/// The two ways to write an edge agree: `parent <|-- child` and
/// `child --|> parent` give the same classes wherever outside a class they
/// stand, whatever was declared before and whatever follows.
pub proof fn lemma_direction_agnostic(
    parent: Seq<char>,
    child: Seq<char>,
    rest: Seq<TokenView>,
    acc: Declared,
)
    ensures
        edge_of(TokenView::InheritsTo, parent, child) == edge_of(
            TokenView::InheritsFrom,
            child,
            parent,
        ),
        declarations(
            seq![TokenView::Name(parent), TokenView::InheritsTo, TokenView::Name(child)] + rest,
            acc,
        ) == declarations(
            seq![TokenView::Name(child), TokenView::InheritsFrom, TokenView::Name(parent)] + rest,
            acc,
        ),
        classes_of(
            seq![TokenView::Name(parent), TokenView::InheritsTo, TokenView::Name(child)] + rest,
        ) == classes_of(
            seq![TokenView::Name(child), TokenView::InheritsFrom, TokenView::Name(parent)] + rest,
        ),
{
    lemma_edge_is_noted(parent, TokenView::InheritsTo, child, rest, acc);
    lemma_edge_is_noted(child, TokenView::InheritsFrom, parent, rest, acc);
    let none: Declared = (Seq::empty(), Seq::empty());
    lemma_edge_is_noted(parent, TokenView::InheritsTo, child, rest, none);
    lemma_edge_is_noted(child, TokenView::InheritsFrom, parent, rest, none);
}

/// The modifiers that wait apply to the field that follows and to nothing
/// behind it: the field gets the visibility that waits, and the scan goes on
/// behind the field with no modifier waiting.
pub proof fn lemma_field_takes_modifiers(
    name: Seq<char>,
    vartype: Seq<char>,
    rest: Seq<TokenView>,
    cls: ClassView,
    p: Pending,
)
    ensures
        members(seq![TokenView::Variable(name), TokenView::Type(vartype)] + rest, cls, p)
            == members(
            rest,
            ClassView { attributes: cls.attributes.push(field(p, name, vartype)), ..cls },
            Pending::none(),
        ),
        field(p, name, vartype).view == p.view,
{
    let ts = seq![TokenView::Variable(name), TokenView::Type(vartype)] + rest;
    assert(ts[0] == TokenView::Variable(name));
    assert(ts[1] == TokenView::Type(vartype));
    assert(ts.skip(2) =~= rest);
}

/// The modifiers that wait apply to the method that follows and to nothing
/// behind it: the method gets the visibility that waits and is static and
/// abstract as the modifiers say, and the scan goes on behind the method with
/// no modifier waiting.
pub proof fn lemma_method_takes_modifiers(
    name: Seq<char>,
    ts: Seq<TokenView>,
    cls: ClassView,
    p: Pending,
)
    requires
        method(ts, name, p) is Ok,
    ensures
        ({
            let (f, rest) = method(ts, name, p)->Ok_0;
            &&& members(seq![TokenView::Name(name), TokenView::StartMethod] + ts, cls, p)
                == members(
                rest,
                ClassView { methods: cls.methods.push(f), ..cls },
                Pending::none(),
            )
            &&& f.name == name
            &&& f.view == p.view
            &&& f.is_static == p.is_static
            &&& f.is_abstract == p.is_abstract
        }),
{
    let all = seq![TokenView::Name(name), TokenView::StartMethod] + ts;
    assert(all[0] == TokenView::Name(name));
    assert(all[1] == TokenView::StartMethod);
    assert(all.skip(2) =~= ts);
}

/// A modifier waits until a member comes: a visibility replaces the one that
/// waited, `Static` and `Abstract` are added to what waits, and `Abstract`
/// makes the class abstract.
pub proof fn lemma_modifier_waits(rest: Seq<TokenView>, cls: ClassView, p: Pending)
    ensures
        members(seq![TokenView::Public] + rest, cls, p) == members(
            rest,
            cls,
            Pending { view: Visibility::Public, ..p },
        ),
        members(seq![TokenView::Protected] + rest, cls, p) == members(
            rest,
            cls,
            Pending { view: Visibility::Protected, ..p },
        ),
        members(seq![TokenView::Private] + rest, cls, p) == members(
            rest,
            cls,
            Pending { view: Visibility::Private, ..p },
        ),
        members(seq![TokenView::Static] + rest, cls, p) == members(
            rest,
            cls,
            Pending { is_static: true, ..p },
        ),
        members(seq![TokenView::Abstract] + rest, cls, p) == members(
            rest,
            ClassView { is_abstract: true, ..cls },
            Pending { is_abstract: true, ..p },
        ),
{
    assert((seq![TokenView::Public] + rest).skip(1) =~= rest);
    assert((seq![TokenView::Protected] + rest).skip(1) =~= rest);
    assert((seq![TokenView::Private] + rest).skip(1) =~= rest);
    assert((seq![TokenView::Static] + rest).skip(1) =~= rest);
    assert((seq![TokenView::Abstract] + rest).skip(1) =~= rest);
    assert((seq![TokenView::Public] + rest)[0] == TokenView::Public);
    assert((seq![TokenView::Protected] + rest)[0] == TokenView::Protected);
    assert((seq![TokenView::Private] + rest)[0] == TokenView::Private);
    assert((seq![TokenView::Static] + rest)[0] == TokenView::Static);
    assert((seq![TokenView::Abstract] + rest)[0] == TokenView::Abstract);
}

/// What [`position`] returns lies inside `cs` or at its end; inside, it is
/// the first place at which a class called `name` stands.
pub proof fn lemma_position(cs: Seq<ClassView>, name: Seq<char>)
    ensures
        0 <= position(cs, name) <= cs.len(),
        declares(cs, name) ==> cs[position(cs, name)].name == name,
        forall|j: int| 0 <= j < position(cs, name) ==> cs[j].name != name,
    decreases cs.len(),
{
    if cs.len() > 0 && cs[0].name != name {
        lemma_position(cs.skip(1), name);
        assert forall|j: int| 0 <= j < position(cs, name) implies cs[j].name != name by {
            if j > 0 {
                assert(cs.skip(1)[j - 1] == cs[j]);
            }
        }
    }
}

/// Whether `base` declares both classes that the edge names.
pub open spec fn is_known(base: Seq<ClassView>, edge: Edge) -> bool {
    declares(base, edge.parent) && declares(base, edge.child)
}

/// The name on account of which an edge that is not known is refused: the
/// parent's if `base` does not declare it, else the child's.
pub open spec fn missing_name(base: Seq<ClassView>, edge: Edge) -> Seq<char> {
    if !declares(base, edge.parent) {
        edge.parent
    } else {
        edge.child
    }
}

/// The place of the first edge that is not known, or the number of edges if
/// all are known.
pub open spec fn first_unknown(base: Seq<ClassView>, edges: Seq<Edge>) -> int
    decreases edges.len(),
{
    if edges.len() == 0 {
        0
    } else if !is_known(base, edges[0]) {
        0
    } else {
        1 + first_unknown(base, edges.skip(1))
    }
}

/// What [`first_unknown`] returns lies among the edges or at their end; every
/// edge before it is known, and the edge at it is not.
pub proof fn lemma_first_unknown(base: Seq<ClassView>, edges: Seq<Edge>)
    ensures
        0 <= first_unknown(base, edges) <= edges.len(),
        forall|j: int| 0 <= j < first_unknown(base, edges) ==> is_known(base, #[trigger] edges[j]),
        first_unknown(base, edges) < edges.len() ==> !is_known(
            base,
            edges[first_unknown(base, edges)],
        ),
    decreases edges.len(),
{
    if edges.len() > 0 && is_known(base, edges[0]) {
        lemma_first_unknown(base, edges.skip(1));
        assert forall|j: int| 0 <= j < first_unknown(base, edges) implies is_known(
            base,
            #[trigger] edges[j],
        ) by {
            if j > 0 {
                assert(edges.skip(1)[j - 1] == edges[j]);
            }
        }
    }
}

/// An edge is never dropped in silence and an unknown class never passes:
/// the edges are resolved if and only if every one of them names two declared
/// classes. Otherwise the error is `UnknownClass` with the missing name of
/// the first edge that is not known.
pub proof fn lemma_unknown_class_is_named(
    base: Seq<ClassView>,
    edges: Seq<Edge>,
    acc: Seq<ClassView>,
)
    requires
        acc.len() == base.len(),
    ensures
        link(base, edges, acc) is Ok <==> first_unknown(base, edges) == edges.len(),
        link(base, edges, acc) is Ok ==> link(base, edges, acc)->Ok_0.len() == base.len(),
        link(base, edges, acc) is Err ==> link(base, edges, acc) == Err::<
            Seq<ClassView>,
            StructuralErrorView,
        >(
            StructuralErrorView::UnknownClass(
                missing_name(base, edges[first_unknown(base, edges)]),
            ),
        ),
    decreases edges.len(),
{
    if edges.len() > 0 && is_known(base, edges[0]) {
        let p = position(base, edges[0].parent);
        let c = position(base, edges[0].child);
        lemma_position(base, edges[0].parent);
        lemma_position(base, edges[0].child);
        let next = acc.update(c, ClassView { inherits: Some(Box::new(base[p])), ..acc[c] });
        lemma_unknown_class_is_named(base, edges.skip(1), next);
        lemma_first_unknown(base, edges.skip(1));
        if first_unknown(base, edges.skip(1)) < edges.skip(1).len() {
            assert(edges.skip(1)[first_unknown(base, edges.skip(1))] == edges[first_unknown(
                base,
                edges,
            )]);
        }
    }
}

/// Whether two classes differ in their parent at most.
pub open spec fn same_but_parent(a: ClassView, b: ClassView) -> bool {
    a == (ClassView { inherits: a.inherits, ..b })
}

/// Whether no edge behind the one at `j` has the same child.
pub open spec fn is_last_for_child(base: Seq<ClassView>, edges: Seq<Edge>, j: int) -> bool {
    forall|i: int|
        j < i < edges.len() ==> position(base, #[trigger] edges[i].child) != position(
            base,
            edges[j].child,
        )
}

/// What resolving the edges does to the classes: it changes parents only. A
/// class that is the child of no edge stays as it is, and the child of an
/// edge gets the record that `base` holds of that edge's parent, unless a
/// later edge gives it another. The place of an edge in the document does
/// not matter for this: an edge may stand before the classes that it names.
pub proof fn lemma_link_attaches_parents(
    base: Seq<ClassView>,
    edges: Seq<Edge>,
    acc: Seq<ClassView>,
)
    requires
        acc.len() == base.len(),
        link(base, edges, acc) is Ok,
    ensures
        ({
            let linked = link(base, edges, acc)->Ok_0;
            &&& linked.len() == acc.len()
            &&& forall|k: int| 0 <= k < acc.len() ==> same_but_parent(#[trigger] linked[k], acc[k])
            &&& forall|k: int|
                0 <= k < acc.len() && (forall|i: int|
                    0 <= i < edges.len() ==> position(base, #[trigger] edges[i].child) != k)
                    ==> #[trigger] linked[k] == acc[k]
            &&& forall|j: int|
                0 <= j < edges.len() && is_last_for_child(base, edges, j) ==> (#[trigger] linked[position(
                    base,
                    edges[j].child,
                )]).inherits == Some(Box::new(base[position(base, edges[j].parent)]))
        }),
    decreases edges.len(),
{
    if edges.len() > 0 {
        let p = position(base, edges[0].parent);
        let c = position(base, edges[0].child);
        lemma_position(base, edges[0].parent);
        lemma_position(base, edges[0].child);
        let next = acc.update(c, ClassView { inherits: Some(Box::new(base[p])), ..acc[c] });
        let tail = edges.skip(1);
        lemma_link_attaches_parents(base, tail, next);
        let linked = link(base, edges, acc)->Ok_0;
        assert(linked == link(base, tail, next)->Ok_0);
        assert forall|k: int| 0 <= k < acc.len() implies same_but_parent(
            #[trigger] linked[k],
            acc[k],
        ) by {
            assert(same_but_parent(linked[k], next[k]));
        }
        assert forall|k: int|
            0 <= k < acc.len() && (forall|i: int|
                0 <= i < edges.len() ==> position(base, #[trigger] edges[i].child) != k)
                implies #[trigger] linked[k] == acc[k] by {
            assert(position(base, edges[0].child) != k);
            assert forall|i: int| 0 <= i < tail.len() implies position(
                base,
                #[trigger] tail[i].child,
            ) != k by {
                assert(tail[i] == edges[i + 1]);
            }
            assert(linked[k] == next[k]);
        }
        assert forall|j: int|
            0 <= j < edges.len() && is_last_for_child(base, edges, j) implies (#[trigger] linked[position(
                base,
                edges[j].child,
            )]).inherits == Some(Box::new(base[position(base, edges[j].parent)])) by {
            if j == 0 {
                assert forall|i: int| 0 <= i < tail.len() implies position(
                    base,
                    #[trigger] tail[i].child,
                ) != c by {
                    assert(tail[i] == edges[i + 1]);
                }
                assert(linked[c] == next[c]);
            } else {
                assert(tail[j - 1] == edges[j]);
                assert forall|i: int| j - 1 < i < tail.len() implies position(
                    base,
                    #[trigger] tail[i].child,
                ) != position(base, tail[j - 1].child) by {
                    assert(tail[i] == edges[i + 1]);
                }
                assert(is_last_for_child(base, tail, j - 1));
            }
        }
    }
}

/// Edges that were noted before stay in front of those that the tokens add,
/// and do not change what else the tokens declare.
pub proof fn lemma_noted_edges_stay(ts: Seq<TokenView>, acc: Declared, earlier: Seq<Edge>)
    ensures
        match declarations(ts, acc) {
            Ok((cs, es)) => declarations(ts, (acc.0, earlier + acc.1)) == Ok::<
                Declared,
                StructuralErrorView,
            >((cs, earlier + es)),
            Err(e) => declarations(ts, (acc.0, earlier + acc.1)) == Err::<
                Declared,
                StructuralErrorView,
            >(e),
        },
    decreases ts.len(),
{
    let moved: Declared = (acc.0, earlier + acc.1);
    if ts.len() > 0 {
        match ts[0] {
            TokenView::DocumentStart | TokenView::DocumentEnd => {
                lemma_noted_edges_stay(ts.skip(1), acc, earlier);
            },
            TokenView::Class => {
                match class_block(ts.skip(1), false, acc.0) {
                    Ok((c, rest)) => {
                        lemma_class_block_consumes(ts.skip(1), false, acc.0);
                        lemma_noted_edges_stay(rest, (acc.0.push(c), acc.1), earlier);
                    },
                    Err(_) => {},
                }
            },
            TokenView::Abstract => {
                if ts.len() >= 2 && ts[1] is Class {
                    match class_block(ts.skip(2), true, acc.0) {
                        Ok((c, rest)) => {
                            lemma_class_block_consumes(ts.skip(2), true, acc.0);
                            lemma_noted_edges_stay(rest, (acc.0.push(c), acc.1), earlier);
                        },
                        Err(_) => {},
                    }
                }
            },
            TokenView::Name(left) => {
                match edge_block(ts.skip(1), left) {
                    Ok((edge, rest)) => {
                        lemma_noted_edges_stay(rest, (acc.0, acc.1.push(edge)), earlier);
                        assert((earlier + acc.1).push(edge) =~= earlier + acc.1.push(edge));
                    },
                    Err(_) => {},
                }
            },
            _ => {},
        }
    }
}

/// An edge may stand before the classes that it names. If the tokens behind
/// the edge declare the classes `cs`, both of the edge's classes among them,
/// and note the edges `es`, the edge is resolved against `cs` like any other:
/// the child gets the parent's record, and the later edges are resolved from
/// there. Where no edge follows, the classes are `cs` with that one parent
/// attached.
pub proof fn lemma_forward_reference(
    left: Seq<char>,
    direction: TokenView,
    right: Seq<char>,
    rest: Seq<TokenView>,
    cs: Seq<ClassView>,
    es: Seq<Edge>,
)
    requires
        direction is InheritsTo || direction is InheritsFrom,
        declarations(rest, (Seq::empty(), Seq::empty())) == Ok::<Declared, StructuralErrorView>(
            (cs, es),
        ),
        is_known(cs, edge_of(direction, left, right)),
    ensures
        ({
            let edge = edge_of(direction, left, right);
            let c = position(cs, edge.child);
            let p = position(cs, edge.parent);
            let linked = cs.update(c, ClassView { inherits: Some(Box::new(cs[p])), ..cs[c] });
            &&& classes_of(seq![TokenView::Name(left), direction, TokenView::Name(right)] + rest)
                == link(cs, es, linked)
            &&& es.len() == 0 ==> classes_of(
                seq![TokenView::Name(left), direction, TokenView::Name(right)] + rest,
            ) == Ok::<Seq<ClassView>, StructuralErrorView>(linked)
        }),
{
    let edge = edge_of(direction, left, right);
    let none: Declared = (Seq::empty(), Seq::empty());
    lemma_edge_is_noted(left, direction, right, rest, none);
    lemma_noted_edges_stay(rest, none, seq![edge]);
    assert(seq![edge] + Seq::<Edge>::empty() =~= Seq::<Edge>::empty().push(edge));
    let all = seq![edge] + es;
    assert(all[0] == edge);
    assert(all.skip(1) =~= es);
}

/// Where `c` stands in `s` and nowhere before, there [`index_of`] finds it.
pub proof fn lemma_index_of_first(s: Seq<char>, c: char, k: int)
    requires
        0 <= k < s.len(),
        s[k] == c,
        forall|j: int| 0 <= j < k ==> s[j] != c,
    ensures
        index_of(s, c) == k,
{
    lemma_index_of(s, c);
}

/// The scan goes line by line: a line that a line feed ends is read on its
/// own, with its number, and the scan goes on behind the line feed with the
/// next number, in the scope that the line left and with the tokens that it
/// added. An error in the line ends the scan.
pub proof fn lemma_scan_goes_line_by_line(
    line: Seq<char>,
    rest: Seq<char>,
    n: int,
    scope: Scope,
    acc: Seq<TokenView>,
)
    requires
        forall|j: int| 0 <= j < line.len() ==> line[j] != '\n',
        !(scope is Epilogue),
    ensures
        tokens_from(line + seq!['\n'] + rest, n, scope, acc) == match line_step(
            scope,
            line,
            n as usize,
        ) {
            Err(e) => Err(e),
            Ok((ts, next)) => tokens_from(rest, n + 1, next, acc + ts),
        },
{
    let text = line + seq!['\n'] + rest;
    lemma_index_of_first(text, '\n', line.len() as int);
    assert(text.take(line.len() as int) =~= line);
    assert(text.skip(line.len() as int + 1) =~= rest);
}

/// A line that is blank or a comment changes nothing, wherever it stands.
pub proof fn lemma_skipped_line(
    line: Seq<char>,
    rest: Seq<char>,
    n: int,
    scope: Scope,
    acc: Seq<TokenView>,
)
    requires
        forall|j: int| 0 <= j < line.len() ==> line[j] != '\n',
        is_skipped(trim(line)),
        !(scope is Epilogue),
    ensures
        tokens_from(line + seq!['\n'] + rest, n, scope, acc) == tokens_from(
            rest,
            n + 1,
            scope,
            acc,
        ),
{
    lemma_scan_goes_line_by_line(line, rest, n, scope, acc);
    assert(acc + Seq::<TokenView>::empty() =~= acc);
}

/// A field or a parameter whose type is empty is refused, with the number of
/// its line.
pub proof fn lemma_empty_type_is_refused(name: Seq<char>, acc: Seq<TokenView>, n: usize)
    requires
        forall|j: int| 0 <= j < name.len() ==> name[j] != ':',
    ensures
        field_tokens(name + seq![':'], acc, n) == Err::<Seq<TokenView>, LexicalErrorView>(
            LexicalErrorView::MalformedMember(n),
        ),
{
    if name.len() > 0 {
        lemma_index_of_first(name + seq![':'], ':', name.len() as int);
    }
}

/// Whether the tokens `acc` fit the scope in which the scan stands: none
/// before the document starts, `DocumentStart` first once it has started, and
/// `DocumentEnd` last once it has ended.
pub open spec fn is_framed(scope: Scope, acc: Seq<TokenView>) -> bool {
    match scope {
        Scope::Prologue => acc.len() == 0,
        Scope::Epilogue => acc.len() >= 2 && acc[0] == TokenView::DocumentStart && acc.last()
            == TokenView::DocumentEnd,
        _ => acc.len() >= 1 && acc[0] == TokenView::DocumentStart,
    }
}

/// A line keeps the tokens fit for the scope that it leaves.
pub proof fn lemma_line_keeps_frame(scope: Scope, line: Seq<char>, n: usize, acc: Seq<TokenView>)
    requires
        is_framed(scope, acc),
        line_step(scope, line, n) is Ok,
    ensures
        is_framed(line_step(scope, line, n)->Ok_0.1, acc + line_step(scope, line, n)->Ok_0.0),
{
    let (ts, next) = line_step(scope, line, n)->Ok_0;
    if ts.len() == 0 {
        assert(acc + ts =~= acc);
    }
}

/// Whatever the scan has found when it ends well is framed by the document
/// markers.
pub proof fn lemma_scan_keeps_frame(text: Seq<char>, n: int, scope: Scope, acc: Seq<TokenView>)
    requires
        is_framed(scope, acc),
    ensures
        tokens_from(text, n, scope, acc) is Ok ==> is_framed(
            Scope::Epilogue,
            tokens_from(text, n, scope, acc)->Ok_0,
        ),
    decreases text.len(),
{
    if !(scope is Epilogue) && text.len() > 0 {
        let k = index_of(text, '\n');
        lemma_index_of(text, '\n');
        if line_step(scope, text.take(k), n as usize) is Ok {
            let (ts, next) = line_step(scope, text.take(k), n as usize)->Ok_0;
            lemma_line_keeps_frame(scope, text.take(k), n as usize, acc);
            if k < text.len() {
                lemma_scan_keeps_frame(text.skip(k + 1), n + 1, next, acc + ts);
            }
        }
    }
}

/// The tokens of a diagram start with `DocumentStart` and end with
/// `DocumentEnd`.
pub proof fn lemma_tokens_are_framed(text: Seq<char>)
    ensures
        tokens_of(text) is Ok ==> {
            let ts = tokens_of(text)->Ok_0;
            &&& ts.len() >= 2
            &&& ts[0] == TokenView::DocumentStart
            &&& ts.last() == TokenView::DocumentEnd
        },
{
    lemma_scan_keeps_frame(text, 1, Scope::Prologue, Seq::empty());
}

/// Whether `w` is a word: it is not empty and holds no spacing.
pub open spec fn is_word_text(w: Seq<char>) -> bool {
    w.len() > 0 && forall|j: int| 0 <= j < w.len() ==> !is_space(#[trigger] w[j])
}

/// A word ends where spacing or the end of the text follows it.
pub proof fn lemma_word_end(w: Seq<char>, rest: Seq<char>)
    requires
        forall|j: int| 0 <= j < w.len() ==> !is_space(#[trigger] w[j]),
        rest.len() > 0 ==> is_space(rest[0]),
    ensures
        word_end(w + rest) == w.len(),
    decreases w.len(),
{
    if w.len() == 0 {
        assert(w + rest =~= rest);
    } else {
        assert((w + rest)[0] == w[0]);
        assert((w + rest).skip(1) =~= w.skip(1) + rest);
        assert forall|j: int| 0 <= j < w.skip(1).len() implies !is_space(
            #[trigger] w.skip(1)[j],
        ) by {
            assert(w.skip(1)[j] == w[j + 1]);
        }
        lemma_word_end(w.skip(1), rest);
    }
}

/// A text that a word follows after one blank splits into its first word and
/// the rest.
pub proof fn lemma_split_word(w: Seq<char>, rest: Seq<char>)
    requires
        is_word_text(w),
        rest.len() > 0,
        !is_space(rest[0]),
        !is_space(rest.last()),
    ensures
        first_word(w + seq![' '] + rest) == w,
        after_word(w + seq![' '] + rest) == rest,
{
    let t = w + seq![' '] + rest;
    assert(t =~= w + (seq![' '] + rest));
    lemma_word_end(w, seq![' '] + rest);
    assert(t.take(w.len() as int) =~= w);
    let tail = t.skip(w.len() as int);
    assert(tail =~= seq![' '] + rest);
    assert(tail.skip(1) =~= rest);
    assert(is_space(tail[0]));
    assert(trim(tail) == trim(rest));
}

/// An arrow is a word.
pub proof fn lemma_arrow_is_word(w: Seq<char>)
    requires
        arrow(w) is Some,
    ensures
        is_word_text(w),
{
    reveal_strlit("<|--");
    reveal_strlit("<|..");
    reveal_strlit("--|>");
    reveal_strlit("..|>");
    assert forall|j: int| 0 <= j < w.len() implies !is_space(#[trigger] w[j]) by {
        if j == 0 {
        } else if j == 1 {
        } else if j == 2 {
        } else {
        }
    }
}

/// Whether `w` starts with one of the keywords by which a line outside a
/// class declares a class or ends the document.
pub open spec fn starts_with_keyword(w: Seq<char>) -> bool {
    starts_with(w, "class"@) || starts_with(w, "abstract"@) || starts_with(w, "interface"@)
        || starts_with(w, "@enduml"@)
}

/// The keywords are words.
pub proof fn lemma_keywords_are_words()
    ensures
        is_word_text("class"@),
        is_word_text("abstract"@),
        is_word_text("interface"@),
        is_word_text("@enduml"@),
{
    reveal_strlit("class");
    reveal_strlit("abstract");
    reveal_strlit("interface");
    reveal_strlit("@enduml");
    assert forall|j: int| 0 <= j < 5 implies !is_space(#[trigger] "class"@[j]) by {
        if j == 0 {
        } else if j == 1 {
        } else if j == 2 {
        } else if j == 3 {
        } else {
        }
    }
    assert forall|j: int| 0 <= j < 8 implies !is_space(#[trigger] "abstract"@[j]) by {
        if j == 0 {
        } else if j == 1 {
        } else if j == 2 {
        } else if j == 3 {
        } else if j == 4 {
        } else if j == 5 {
        } else if j == 6 {
        } else {
        }
    }
    assert forall|j: int| 0 <= j < 9 implies !is_space(#[trigger] "interface"@[j]) by {
        if j == 0 {
        } else if j == 1 {
        } else if j == 2 {
        } else if j == 3 {
        } else if j == 4 {
        } else if j == 5 {
        } else if j == 6 {
        } else if j == 7 {
        } else {
        }
    }
    assert forall|j: int| 0 <= j < 7 implies !is_space(#[trigger] "@enduml"@[j]) by {
        if j == 0 {
        } else if j == 1 {
        } else if j == 2 {
        } else if j == 3 {
        } else if j == 4 {
        } else if j == 5 {
        } else {
        }
    }
}

/// A text whose first word does not start with the word `p` does not start
/// with `p` either.
pub proof fn lemma_prefix_of_word(left: Seq<char>, rest: Seq<char>, p: Seq<char>)
    requires
        is_word_text(p),
        !starts_with(left, p),
        rest.len() > 0,
        is_space(rest[0]),
    ensures
        !starts_with(left + rest, p),
{
    let t = left + rest;
    if starts_with(t, p) {
        if p.len() <= left.len() {
            assert(left.take(p.len() as int) =~= t.take(p.len() as int));
        } else {
            assert(t.take(p.len() as int)[left.len() as int] == rest[0]);
            assert(p[left.len() as int] == rest[0]);
        }
    }
}

/// Whether `w` can stand in a line as the name of a class: it is a word that
/// starts with no keyword, is no arrow and does not start a comment.
pub open spec fn is_name_text(w: Seq<char>) -> bool {
    is_word_text(w) && !starts_with_keyword(w) && arrow(w) is None && w[0] != '\''
}

/// The line that an inheritance edge is written as: a name, an arrow and a
/// name, with a blank between them.
pub open spec fn edge_line(left: Seq<char>, arrow_text: Seq<char>, right: Seq<char>) -> Seq<char> {
    left + seq![' '] + (arrow_text + seq![' '] + right)
}

/// A line that holds a name, an arrow and a name gives those three tokens,
/// with the direction that the arrow stands for, and the scan stays outside
/// any class.
pub proof fn lemma_edge_line(left: Seq<char>, arrow_text: Seq<char>, right: Seq<char>, n: usize)
    requires
        is_name_text(left),
        arrow(arrow_text) is Some,
        is_word_text(right),
    ensures
        line_step(Scope::Global, edge_line(left, arrow_text, right), n) == Ok::<
            Step,
            LexicalErrorView,
        >(
            (
                Seq::empty().push(TokenView::Name(left)).push(arrow(arrow_text)->0).push(
                    TokenView::Name(right),
                ),
                Scope::Global,
            ),
        ),
{
    lemma_arrow_is_word(arrow_text);
    let r1 = arrow_text + seq![' '] + right;
    let t = edge_line(left, arrow_text, right);
    assert(t =~= left + (seq![' '] + r1));
    lemma_keywords_are_words();
    lemma_prefix_of_word(left, seq![' '] + r1, "class"@);
    lemma_prefix_of_word(left, seq![' '] + r1, "abstract"@);
    lemma_prefix_of_word(left, seq![' '] + r1, "interface"@);
    lemma_prefix_of_word(left, seq![' '] + r1, "@enduml"@);
    assert(r1[0] == arrow_text[0]);
    assert(r1.last() == right.last());
    assert(t == left + seq![' '] + r1);
    lemma_split_word(left, r1);
    lemma_split_word(arrow_text, right);
    lemma_word_end(right, Seq::empty());
    assert(right + Seq::<char>::empty() =~= right);
    assert(right.take(right.len() as int) =~= right);
    assert(first_word(right) == right);
    assert(t[0] == left[0]);
    assert(t.last() == right.last());
    assert(trim(t) == t);
    assert(t.len() >= 3);
    assert(first_word(t) == left);
    assert(after_word(t) == r1);
    assert(first_word(r1) == arrow_text);
    assert(after_word(r1) == right);
    assert(global_line(t, n) == Ok::<Step, LexicalErrorView>(
        (
            Seq::empty().push(TokenView::Name(left)).push(arrow(arrow_text)->0).push(
                TokenView::Name(right),
            ),
            Scope::Global,
        ),
    ));
}

/// The two ways to write an edge give the same edge: the lines
/// `parent <|-- child` and `child --|> parent` are both read as three tokens
/// that stand for the edge from `child` to `parent`.
pub proof fn lemma_both_lines_give_the_edge(parent: Seq<char>, child: Seq<char>, n: usize)
    requires
        is_name_text(parent),
        is_name_text(child),
    ensures
        ({
            let to = line_step(Scope::Global, edge_line(parent, "<|--"@, child), n);
            let from = line_step(Scope::Global, edge_line(child, "--|>"@, parent), n);
            &&& to is Ok
            &&& from is Ok
            &&& to->Ok_0.0 == seq![
                TokenView::Name(parent),
                TokenView::InheritsTo,
                TokenView::Name(child),
            ]
            &&& from->Ok_0.0 == seq![
                TokenView::Name(child),
                TokenView::InheritsFrom,
                TokenView::Name(parent),
            ]
            &&& edge_of(to->Ok_0.0[1], parent, child) == edge_of(from->Ok_0.0[1], child, parent)
            &&& edge_of(to->Ok_0.0[1], parent, child) == Edge { parent, child }
        }),
{
    lemma_arrow_directions();
    lemma_edge_line(parent, "<|--"@, child, n);
    lemma_edge_line(child, "--|>"@, parent, n);
    assert(Seq::empty().push(TokenView::Name(parent)).push(TokenView::InheritsTo).push(
        TokenView::Name(child),
    ) =~= seq![TokenView::Name(parent), TokenView::InheritsTo, TokenView::Name(child)]);
    assert(Seq::empty().push(TokenView::Name(child)).push(TokenView::InheritsFrom).push(
        TokenView::Name(parent),
    ) =~= seq![TokenView::Name(child), TokenView::InheritsFrom, TokenView::Name(parent)]);
}

/// Removing the spacing from a text removes it from each of its parts.
pub proof fn lemma_compact_parts(a: Seq<char>, b: Seq<char>)
    ensures
        compact(a + b) == compact(a) + compact(b),
    decreases b.len(),
{
    if b.len() == 0 {
        assert(a + b =~= a);
        assert(compact(a) + compact(b) =~= compact(a));
    } else {
        assert((a + b).drop_last() =~= a + b.drop_last());
        assert((a + b).last() == b.last());
        lemma_compact_parts(a, b.drop_last());
        assert(compact(a + b) =~= compact(a) + compact(b));
    }
}

/// A text without spacing stays as it is when the spacing is removed.
pub proof fn lemma_compact_word(w: Seq<char>)
    requires
        forall|j: int| 0 <= j < w.len() ==> !is_space(#[trigger] w[j]),
    ensures
        compact(w) == w,
    decreases w.len(),
{
    if w.len() > 0 {
        assert forall|j: int| 0 <= j < w.drop_last().len() implies !is_space(
            #[trigger] w.drop_last()[j],
        ) by {
            assert(w.drop_last()[j] == w[j]);
        }
        lemma_compact_word(w.drop_last());
        assert(w.drop_last().push(w.last()) =~= w);
    }
}

/// The sigil that a visibility is written as; the default visibility has
/// none.
pub open spec fn sigil_text(v: Visibility) -> Seq<char> {
    match v {
        Visibility::Default => Seq::empty(),
        Visibility::Public => seq!['+'],
        Visibility::Private => seq!['-'],
        Visibility::Protected => seq!['#'],
    }
}

/// The token that a visibility is read as; the default visibility has none.
pub open spec fn visibility_tokens(v: Visibility) -> Seq<TokenView> {
    match v {
        Visibility::Default => Seq::empty(),
        Visibility::Public => seq![TokenView::Public],
        Visibility::Private => seq![TokenView::Private],
        Visibility::Protected => seq![TokenView::Protected],
    }
}

/// The line that a field is written as: the sigil of its visibility, its
/// name, a colon, a blank and its type.
pub open spec fn field_line(v: Visibility, name: Seq<char>, vartype: Seq<char>) -> Seq<char> {
    sigil_text(v) + (name + seq![':', ' '] + vartype)
}

/// Whether `name` can stand in a line as the name of a field: it is a word
/// without colon and bracket that starts with neither a sigil nor a brace.
pub open spec fn is_field_name(name: Seq<char>) -> bool {
    &&& is_word_text(name)
    &&& forall|j: int| 0 <= j < name.len() ==> name[j] != ':' && name[j] != '('
    &&& !is_sigil(name[0])
    &&& name[0] != '{'
}

/// A line that holds a sigil, a name, a colon and a type gives the token of
/// the visibility, if the sigil has one, and the name and the type as a
/// `Variable` and a `Type`.
pub proof fn lemma_field_line(v: Visibility, name: Seq<char>, vartype: Seq<char>, n: usize)
    requires
        is_field_name(name),
        is_word_text(vartype),
        vartype.last() != '}',
    ensures
        member_line(field_line(v, name, vartype), n) == Ok::<Seq<TokenView>, LexicalErrorView>(
            visibility_tokens(v) + seq![TokenView::Variable(name), TokenView::Type(vartype)],
        ),
{
    let sigil = sigil_text(v);
    let b = name + seq![':'] + vartype;
    let written = name + seq![':', ' '] + vartype;
    let c = compact(field_line(v, name, vartype));
    assert(c == sigil + b) by {
        lemma_compact_parts(sigil, written);
        lemma_compact_word(sigil);
        lemma_compact_parts(name + seq![':', ' '], vartype);
        lemma_compact_parts(name, seq![':', ' ']);
        lemma_compact_word(name);
        lemma_compact_word(vartype);
        let colon = seq![':', ' '];
        assert(colon.drop_last() =~= seq![':']);
        lemma_compact_word(seq![':']);
        assert(compact(colon) == seq![':']);
    }
    assert(b[0] == name[0]);
    assert(b.last() == vartype.last());
    let first = visibility_tokens(v);
    assert(sigil_tokens(c) =~= first || (v == Visibility::Default && sigil_tokens(c)
        =~= Seq::<TokenView>::empty()));
    if v == Visibility::Default {
        assert(c =~= b);
        assert(after_sigil(c) == b);
        assert(sigil_tokens(b) =~= Seq::<TokenView>::empty());
    } else {
        assert(c.skip(1) =~= b);
        assert(after_sigil(c) == b);
        assert(sigil_tokens(c) =~= first);
    }
    assert(leading_modifiers(b, sigil_tokens(c), n) == Ok::<
        (Seq<TokenView>, Seq<char>),
        LexicalErrorView,
    >((sigil_tokens(c), b)));
    assert(trailing_modifiers(b, Seq::empty(), n) == Ok::<
        (Seq<TokenView>, Seq<char>),
        LexicalErrorView,
    >((Seq::empty(), b)));
    let q = name.len() as int;
    lemma_index_of_first(b, ':', q);
    lemma_index_of(b, '(');
    let p = index_of(b, '(');
    if p <= q {
        if p < q {
            assert(b[p] == name[p]);
        }
    }
    assert(b.take(q) =~= name);
    assert(b.skip(q + 1) =~= vartype);
    assert(first + Seq::<TokenView>::empty() =~= first);
    assert(first.push(TokenView::Variable(name)).push(TokenView::Type(vartype)) =~= first
        + seq![TokenView::Variable(name), TokenView::Type(vartype)]);
    assert(member_tokens(b, first, n) == Ok::<Seq<TokenView>, LexicalErrorView>(
        first + seq![TokenView::Variable(name), TokenView::Type(vartype)],
    ));
}

/// A line that holds a sigil, a name and a colon, and no type behind the
/// colon, is refused with its number.
pub proof fn lemma_field_line_without_type(v: Visibility, name: Seq<char>, n: usize)
    requires
        is_field_name(name),
    ensures
        member_line(sigil_text(v) + (name + seq![':']), n) == Err::<Seq<TokenView>, LexicalErrorView>(
            LexicalErrorView::MalformedMember(n),
        ),
{
    let sigil = sigil_text(v);
    let b = name + seq![':'];
    let c = compact(sigil + b);
    assert(c == sigil + b) by {
        lemma_compact_word(sigil + b);
    }
    assert(b[0] == name[0]);
    assert(b.last() == ':');
    if v == Visibility::Default {
        assert(c =~= b);
        assert(after_sigil(c) == b);
        assert(sigil_tokens(b) =~= Seq::<TokenView>::empty());
    } else {
        assert(c.skip(1) =~= b);
        assert(after_sigil(c) == b);
    }
    assert(leading_modifiers(b, sigil_tokens(c), n) == Ok::<
        (Seq<TokenView>, Seq<char>),
        LexicalErrorView,
    >((sigil_tokens(c), b)));
    assert(trailing_modifiers(b, Seq::empty(), n) == Ok::<
        (Seq<TokenView>, Seq<char>),
        LexicalErrorView,
    >((Seq::empty(), b)));
    let q = name.len() as int;
    lemma_index_of_first(b, ':', q);
    lemma_index_of(b, '(');
    let p = index_of(b, '(');
    if p < q {
        assert(b[p] == name[p]);
    }
    assert(p > q);
}

/// Whether `name` can stand in a line as the name of a class that the line
/// declares: it is a word without a brace.
pub open spec fn is_declared_name(name: Seq<char>) -> bool {
    is_word_text(name) && forall|j: int| 0 <= j < name.len() ==> name[j] != '{'
}

/// A name, a blank and an opening brace behind the keywords of a class give
/// the name and the start of the body, and the body of the class is open
/// from this line on.
pub proof fn lemma_class_decl(intro: Seq<TokenView>, name: Seq<char>, n: usize)
    requires
        is_declared_name(name),
    ensures
        class_decl(intro, name + seq![' ', '{'], n) == Ok::<Step, LexicalErrorView>(
            (intro.push(TokenView::Name(name)).push(TokenView::StartObject), Scope::Body(n)),
        ),
{
    let decl = name + seq![' ', '{'];
    let k = name.len() as int + 1;
    lemma_index_of_first(decl, '{', k);
    let before = decl.take(k);
    assert(before =~= name + seq![' ']);
    assert(before.drop_last() =~= name);
    assert(before[0] == name[0]);
    assert(trim(before) == trim(name));
    assert(trim(name) == name);
    assert(decl.skip(k + 1) =~= Seq::<char>::empty());
    lemma_word_end(name, Seq::empty());
    assert(name + Seq::<char>::empty() =~= name);
}

/// The line `class`, a name and an opening brace gives `Class`, the name and
/// `StartObject`, and opens the body of the class.
pub proof fn lemma_class_line(name: Seq<char>, n: usize)
    requires
        is_declared_name(name),
    ensures
        line_step(Scope::Global, "class"@ + seq![' '] + (name + seq![' ', '{']), n) == Ok::<
            Step,
            LexicalErrorView,
        >(
            (
                seq![TokenView::Class, TokenView::Name(name), TokenView::StartObject],
                Scope::Body(n),
            ),
        ),
{
    reveal_strlit("class");
    reveal_strlit("@enduml");
    lemma_keywords_are_words();
    let keyword = "class"@;
    let decl = name + seq![' ', '{'];
    let t = keyword + seq![' '] + decl;
    assert(decl[0] == name[0]);
    assert(decl.last() == '{');
    assert(t[0] == 'c');
    assert(t.last() == '{');
    assert(trim(t) == t);
    if starts_with(t, "@enduml"@) {
        assert(t.take(7)[0] == "@enduml"@[0]);
    }
    assert(t.take(5) =~= keyword);
    let tail = t.skip(5);
    assert(tail =~= seq![' '] + decl);
    assert(tail.skip(1) =~= decl);
    assert(is_space(tail[0]));
    assert(trim(tail) == trim(decl));
    assert(trim(decl) == decl);
    assert(after_prefix(t, keyword) == decl);
    lemma_class_decl(Seq::empty().push(TokenView::Class), name, n);
    assert(Seq::empty().push(TokenView::Class).push(TokenView::Name(name)).push(
        TokenView::StartObject,
    ) =~= seq![TokenView::Class, TokenView::Name(name), TokenView::StartObject]);
}

} // verus!

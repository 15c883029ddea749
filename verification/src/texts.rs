//! What holds of whole texts: how the scan of a text is made of the scans of
//! its lines, what the classes of a text are when an edge of it is written
//! the other way, and what the classes of a text are that declares classes
//! line by line.
use crate::documents::{
    all_declarable, are_declarable, body_then, classes_then, declared_classes, document,
    fields_of, is_declarable_member, lemma_declared_classes_are_built, member_then, methods_of,
    parameters_then, return_then, Declaration, Member,
};
use crate::generate::{
    class_block, classes_of, declarations, diagram_classes, diagram_files, edge_block,
    empty_class, field, lemma_class_block_consumes, lemma_edge_block_consumes,
    lemma_method_consumes, members, method, parameter, parameters, position, source_files,
    Declared, Edge, GeneratorErrorView, Pending, SourceFileView, StructuralErrorView,
};
use crate::laws::{
    edge_line, field_line, first_unknown, is_declared_name, is_field_name, is_last_for_child,
    is_name_text, is_word_text, lemma_arrow_directions, lemma_arrow_is_word, lemma_class_decl,
    lemma_class_line, lemma_compact_parts, lemma_compact_word, lemma_edge_is_noted,
    lemma_edge_line, lemma_field_line, lemma_index_of_first, lemma_keywords_are_words,
    lemma_link_attaches_parents, lemma_scan_goes_line_by_line, lemma_split_word, lemma_unknown_class_is_named,
    lemma_word_end, missing_name, same_but_parent, sigil_text, visibility_tokens,
};
use crate::model::{AttributeView, ClassView, FunctionView, Visibility};
use crate::text::{index_of, is_space, lemma_index_of, trim};
use crate::tokenizer::{
    after_prefix, after_sigil, arrow, compact, end_of_text, first_word, is_class_keyword,
    is_sigil, last_index_of, leading_modifiers, line_step, member_line, member_tokens,
    modifier, sigil_tokens, starts_with, tokens_from, tokens_of, trailing_modifiers,
    LexicalErrorView, Scope, Step, TokenView,
};
use vstd::prelude::*;

verus! {

/// The text made of the lines `ls`, each ended by a line feed.
pub open spec fn join_lines(ls: Seq<Seq<char>>) -> Seq<char>
    decreases ls.len(),
{
    if ls.len() == 0 {
        Seq::empty()
    } else {
        ls[0] + seq!['\n'] + join_lines(ls.skip(1))
    }
}

/// Whether none of `ls` holds a line feed.
pub open spec fn are_lines(ls: Seq<Seq<char>>) -> bool {
    forall|i: int, j: int|
        0 <= i < ls.len() && 0 <= j < ls[i].len() ==> (#[trigger] ls[i][j]) != '\n'
}

/// The scan of the lines `ls`, the first of which has number `n`, from
/// `scope` and with the tokens `acc` found so far.
pub open spec fn scan_lines(ls: Seq<Seq<char>>, n: int, scope: Scope, acc: Seq<TokenView>) -> Result<
    Seq<TokenView>,
    LexicalErrorView,
>
    decreases ls.len(),
{
    if scope is Epilogue || ls.len() == 0 {
        end_of_text(scope, acc)
    } else {
        match line_step(scope, ls[0], n as usize) {
            Err(e) => Err(e),
            Ok((ts, next)) => scan_lines(ls.skip(1), n + 1, next, acc + ts),
        }
    }
}

/// Where the scan stands behind the lines `ls`, and what it has found.
pub open spec fn scan_state(ls: Seq<Seq<char>>, n: int, scope: Scope, acc: Seq<TokenView>) -> Result<
    (Scope, Seq<TokenView>),
    LexicalErrorView,
>
    decreases ls.len(),
{
    if ls.len() == 0 {
        Ok((scope, acc))
    } else {
        match line_step(scope, ls[0], n as usize) {
            Err(e) => Err(e),
            Ok((ts, next)) => scan_state(ls.skip(1), n + 1, next, acc + ts),
        }
    }
}

/// The scan of a text is the scan of its lines, one after the other, each
/// with its number.
pub proof fn lemma_text_is_scanned_by_lines(
    ls: Seq<Seq<char>>,
    n: int,
    scope: Scope,
    acc: Seq<TokenView>,
)
    requires
        are_lines(ls),
    ensures
        tokens_from(join_lines(ls), n, scope, acc) == scan_lines(ls, n, scope, acc),
    decreases ls.len(),
{
    if !(scope is Epilogue) && ls.len() > 0 {
        let rest = join_lines(ls.skip(1));
        assert forall|j: int| 0 <= j < ls[0].len() implies ls[0][j] != '\n' by {
            assert(ls[0][j] != '\n');
        }
        lemma_scan_goes_line_by_line(ls[0], rest, n, scope, acc);
        assert(are_lines(ls.skip(1))) by {
            assert forall|i: int, j: int|
                0 <= i < ls.skip(1).len() && 0 <= j < ls.skip(1)[i].len() implies (
            #[trigger] ls.skip(1)[i][j]) != '\n' by {
                assert(ls.skip(1)[i] == ls[i + 1]);
                assert(ls[i + 1][j] != '\n');
            }
        }
        match line_step(scope, ls[0], n as usize) {
            Err(e) => {},
            Ok((ts, next)) => {
                lemma_text_is_scanned_by_lines(ls.skip(1), n + 1, next, acc + ts);
            },
        }
    }
}

/// Behind the end of the document the scan stays there.
pub proof fn lemma_epilogue_stays(ls: Seq<Seq<char>>, n: int, acc: Seq<TokenView>)
    ensures
        scan_state(ls, n, Scope::Epilogue, acc) == Ok::<(Scope, Seq<TokenView>), LexicalErrorView>(
            (Scope::Epilogue, acc),
        ),
    decreases ls.len(),
{
    if ls.len() > 0 {
        assert(acc + Seq::<TokenView>::empty() =~= acc);
        lemma_epilogue_stays(ls.skip(1), n + 1, acc);
    }
}

/// The scan of lines goes on behind the first of them from where it stands
/// behind them, as long as the document has not ended there.
pub proof fn lemma_scan_resumes(
    pre: Seq<Seq<char>>,
    rest: Seq<Seq<char>>,
    n: int,
    scope: Scope,
    acc: Seq<TokenView>,
)
    requires
        scan_state(pre, n, scope, acc) is Ok,
        !(scan_state(pre, n, scope, acc)->Ok_0.0 is Epilogue),
    ensures
        scan_lines(pre + rest, n, scope, acc) == scan_lines(
            rest,
            n + pre.len(),
            scan_state(pre, n, scope, acc)->Ok_0.0,
            scan_state(pre, n, scope, acc)->Ok_0.1,
        ),
    decreases pre.len(),
{
    if pre.len() == 0 {
        assert(pre + rest =~= rest);
    } else {
        if scope is Epilogue {
            lemma_epilogue_stays(pre, n, acc);
        }
        assert((pre + rest)[0] == pre[0]);
        assert((pre + rest).skip(1) =~= pre.skip(1) + rest);
        let (ts, next) = line_step(scope, pre[0], n as usize)->Ok_0;
        lemma_scan_resumes(pre.skip(1), rest, n + 1, next, acc + ts);
    }
}

/// The tokens that the scan had found stay in front of those that it adds.
pub proof fn lemma_scan_appends(ls: Seq<Seq<char>>, n: int, scope: Scope, acc: Seq<TokenView>)
    ensures
        scan_lines(ls, n, scope, acc) == match scan_lines(ls, n, scope, Seq::empty()) {
            Ok(ts) => Ok(acc + ts),
            Err(e) => Err(e),
        },
    decreases ls.len(),
{
    let none = Seq::<TokenView>::empty();
    if scope is Epilogue || ls.len() == 0 {
        assert(acc + none =~= acc);
    } else {
        match line_step(scope, ls[0], n as usize) {
            Err(e) => {},
            Ok((ts, next)) => {
                lemma_scan_appends(ls.skip(1), n + 1, next, acc + ts);
                lemma_scan_appends(ls.skip(1), n + 1, next, none + ts);
                assert(none + ts =~= ts);
                match scan_lines(ls.skip(1), n + 1, next, none) {
                    Ok(more) => {
                        assert((acc + ts) + more =~= acc + (ts + more));
                    },
                    Err(e) => {},
                }
            },
        }
    }
}

/// Parameters are read the same whatever follows them.
pub proof fn lemma_parameters_frame(
    ts: Seq<TokenView>,
    acc: Seq<AttributeView>,
    more: Seq<TokenView>,
)
    requires
        parameters(ts, acc) is Ok,
    ensures
        parameters(ts + more, acc) == Ok::<
            (Seq<AttributeView>, Seq<TokenView>),
            StructuralErrorView,
        >((parameters(ts, acc)->Ok_0.0, parameters(ts, acc)->Ok_0.1 + more)),
    decreases ts.len(),
{
    let all = ts + more;
    assert(all[0] == ts[0]);
    assert(all.skip(1) =~= ts.skip(1) + more);
    if ts[0] is Variable {
        assert(all[1] == ts[1]);
        assert(all.skip(2) =~= ts.skip(2) + more);
        lemma_parameters_frame(
            ts.skip(2),
            acc.push(parameter(ts[0]->Variable_0, ts[1]->Type_0)),
            more,
        );
    }
}

/// A method that something follows is read the same whatever follows that.
pub proof fn lemma_method_frame(
    ts: Seq<TokenView>,
    name: Seq<char>,
    p: Pending,
    more: Seq<TokenView>,
)
    requires
        method(ts, name, p) is Ok,
        method(ts, name, p)->Ok_0.1.len() > 0,
    ensures
        method(ts + more, name, p) == Ok::<(FunctionView, Seq<TokenView>), StructuralErrorView>(
            (method(ts, name, p)->Ok_0.0, method(ts, name, p)->Ok_0.1 + more),
        ),
{
    lemma_parameters_frame(ts, Seq::empty(), more);
    let rest = parameters(ts, Seq::empty())->Ok_0.1;
    if rest.len() > 0 {
        assert((rest + more)[0] == rest[0]);
        assert((rest + more).skip(1) =~= rest.skip(1) + more);
    }
}

/// The body of a class is read the same whatever follows it.
pub proof fn lemma_members_frame(
    ts: Seq<TokenView>,
    cls: ClassView,
    p: Pending,
    more: Seq<TokenView>,
)
    requires
        members(ts, cls, p) is Ok,
    ensures
        members(ts + more, cls, p) == Ok::<(ClassView, Seq<TokenView>), StructuralErrorView>(
            (members(ts, cls, p)->Ok_0.0, members(ts, cls, p)->Ok_0.1 + more),
        ),
    decreases ts.len(),
{
    let all = ts + more;
    assert(all[0] == ts[0]);
    assert(all.skip(1) =~= ts.skip(1) + more);
    match ts[0] {
        TokenView::EndObject => {},
        TokenView::Public => lemma_members_frame(
            ts.skip(1),
            cls,
            Pending { view: Visibility::Public, ..p },
            more,
        ),
        TokenView::Protected => lemma_members_frame(
            ts.skip(1),
            cls,
            Pending { view: Visibility::Protected, ..p },
            more,
        ),
        TokenView::Private => lemma_members_frame(
            ts.skip(1),
            cls,
            Pending { view: Visibility::Private, ..p },
            more,
        ),
        TokenView::Static => lemma_members_frame(
            ts.skip(1),
            cls,
            Pending { is_static: true, ..p },
            more,
        ),
        TokenView::Abstract => lemma_members_frame(
            ts.skip(1),
            ClassView { is_abstract: true, ..cls },
            Pending { is_abstract: true, ..p },
            more,
        ),
        TokenView::Variable(v) => {
            assert(all[1] == ts[1]);
            assert(all.skip(2) =~= ts.skip(2) + more);
            lemma_members_frame(
                ts.skip(2),
                ClassView {
                    attributes: cls.attributes.push(
                        field(p, v, ts[1]->Type_0),
                    ),
                    ..cls
                },
                Pending::none(),
                more,
            );
        },
        TokenView::Name(m) => {
            assert(all[1] == ts[1]);
            assert(all.skip(2) =~= ts.skip(2) + more);
            let (f, rest) = method(ts.skip(2), m, p)->Ok_0;
            lemma_method_consumes(ts.skip(2), m, p);
            let next = ClassView { methods: cls.methods.push(f), ..cls };
            assert(members(rest, next, Pending::none()) is Ok);
            assert(rest.len() > 0);
            lemma_method_frame(ts.skip(2), m, p, more);
            lemma_members_frame(
                rest,
                ClassView { methods: cls.methods.push(f), ..cls },
                Pending::none(),
                more,
            );
        },
        _ => {},
    }
}

/// A class is read the same whatever follows it.
pub proof fn lemma_class_block_frame(
    ts: Seq<TokenView>,
    is_abstract: bool,
    known: Seq<ClassView>,
    more: Seq<TokenView>,
)
    requires
        class_block(ts, is_abstract, known) is Ok,
    ensures
        class_block(ts + more, is_abstract, known) == Ok::<
            (ClassView, Seq<TokenView>),
            StructuralErrorView,
        >(
            (
                class_block(ts, is_abstract, known)->Ok_0.0,
                class_block(ts, is_abstract, known)->Ok_0.1 + more,
            ),
        ),
{
    let all = ts + more;
    assert(all[0] == ts[0]);
    assert(all[1] == ts[1]);
    assert(all.skip(2) =~= ts.skip(2) + more);
    lemma_members_frame(
        ts.skip(2),
        empty_class(ts[0]->Name_0, is_abstract),
        Pending::none(),
        more,
    );
}

/// An edge is read the same whatever follows it.
pub proof fn lemma_edge_block_frame(ts: Seq<TokenView>, left: Seq<char>, more: Seq<TokenView>)
    requires
        edge_block(ts, left) is Ok,
    ensures
        edge_block(ts + more, left) == Ok::<(Edge, Seq<TokenView>), StructuralErrorView>(
            (edge_block(ts, left)->Ok_0.0, edge_block(ts, left)->Ok_0.1 + more),
        ),
{
    let all = ts + more;
    assert(all[0] == ts[0]);
    assert(all[1] == ts[1]);
    assert(all.skip(2) =~= ts.skip(2) + more);
}

/// Tokens that declare classes and edges well are read the same whatever
/// follows them, and what follows is read from what they declared.
pub proof fn lemma_declarations_resume(ts: Seq<TokenView>, more: Seq<TokenView>, acc: Declared)
    requires
        declarations(ts, acc) is Ok,
    ensures
        declarations(ts + more, acc) == declarations(more, declarations(ts, acc)->Ok_0),
    decreases ts.len(),
{
    let all = ts + more;
    if ts.len() == 0 {
        assert(all =~= more);
    } else {
        assert(all[0] == ts[0]);
        assert(all.skip(1) =~= ts.skip(1) + more);
        match ts[0] {
            TokenView::DocumentStart | TokenView::DocumentEnd => {
                lemma_declarations_resume(ts.skip(1), more, acc);
            },
            TokenView::Class => {
                let (c, rest) = class_block(ts.skip(1), false, acc.0)->Ok_0;
                lemma_class_block_consumes(ts.skip(1), false, acc.0);
                lemma_class_block_frame(ts.skip(1), false, acc.0, more);
                lemma_declarations_resume(rest, more, (acc.0.push(c), acc.1));
            },
            TokenView::Abstract => {
                assert(all[1] == ts[1]);
                assert(all.skip(2) =~= ts.skip(2) + more);
                let (c, rest) = class_block(ts.skip(2), true, acc.0)->Ok_0;
                lemma_class_block_consumes(ts.skip(2), true, acc.0);
                lemma_class_block_frame(ts.skip(2), true, acc.0, more);
                lemma_declarations_resume(rest, more, (acc.0.push(c), acc.1));
            },
            TokenView::Name(left) => {
                let (edge, rest) = edge_block(ts.skip(1), left)->Ok_0;
                lemma_edge_block_consumes(ts.skip(1), left);
                lemma_edge_block_frame(ts.skip(1), left, more);
                lemma_declarations_resume(rest, more, (acc.0, acc.1.push(edge)));
            },
            _ => {},
        }
    }
}

/// Whether `ts` starts with a name and an arrow.
pub open spec fn starts_an_edge(ts: Seq<TokenView>) -> bool {
    ts.len() >= 2 && ts[0] is Name && (ts[1] is InheritsTo || ts[1] is InheritsFrom)
}

/// Parameters that are read well in front of an edge end before the edge.
pub proof fn lemma_parameters_end_before_edge(
    ts: Seq<TokenView>,
    acc: Seq<AttributeView>,
    more: Seq<TokenView>,
)
    requires
        starts_an_edge(more),
        parameters(ts + more, acc) is Ok,
    ensures
        parameters(ts, acc) is Ok,
    decreases ts.len(),
{
    let all = ts + more;
    if ts.len() == 0 {
        assert(all =~= more);
    } else {
        assert(all[0] == ts[0]);
        if ts[0] is Variable {
            if ts.len() == 1 {
                assert(all[1] == more[0]);
            } else {
                assert(all[1] == ts[1]);
                assert(all.skip(2) =~= ts.skip(2) + more);
                lemma_parameters_end_before_edge(
                    ts.skip(2),
                    acc.push(parameter(ts[0]->Variable_0, ts[1]->Type_0)),
                    more,
                );
            }
        }
    }
}

/// The body of a class that is read well in front of an edge ends before the
/// edge.
pub proof fn lemma_members_end_before_edge(
    ts: Seq<TokenView>,
    cls: ClassView,
    p: Pending,
    more: Seq<TokenView>,
)
    requires
        starts_an_edge(more),
        members(ts + more, cls, p) is Ok,
    ensures
        members(ts, cls, p) is Ok,
    decreases ts.len(),
{
    let all = ts + more;
    if ts.len() == 0 {
        assert(all =~= more);
    } else {
        assert(all[0] == ts[0]);
        assert(all.skip(1) =~= ts.skip(1) + more);
        match ts[0] {
            TokenView::Public => lemma_members_end_before_edge(
                ts.skip(1),
                cls,
                Pending { view: Visibility::Public, ..p },
                more,
            ),
            TokenView::Protected => lemma_members_end_before_edge(
                ts.skip(1),
                cls,
                Pending { view: Visibility::Protected, ..p },
                more,
            ),
            TokenView::Private => lemma_members_end_before_edge(
                ts.skip(1),
                cls,
                Pending { view: Visibility::Private, ..p },
                more,
            ),
            TokenView::Static => lemma_members_end_before_edge(
                ts.skip(1),
                cls,
                Pending { is_static: true, ..p },
                more,
            ),
            TokenView::Abstract => lemma_members_end_before_edge(
                ts.skip(1),
                ClassView { is_abstract: true, ..cls },
                Pending { is_abstract: true, ..p },
                more,
            ),
            TokenView::Variable(v) => {
                if ts.len() == 1 {
                    assert(all[1] == more[0]);
                } else {
                    assert(all[1] == ts[1]);
                    assert(all.skip(2) =~= ts.skip(2) + more);
                    lemma_members_end_before_edge(
                        ts.skip(2),
                        ClassView {
                            attributes: cls.attributes.push(
                                field(p, v, ts[1]->Type_0),
                            ),
                            ..cls
                        },
                        Pending::none(),
                        more,
                    );
                }
            },
            TokenView::Name(m) => {
                if ts.len() == 1 {
                    assert(all[1] == more[0]);
                } else {
                    assert(all[1] == ts[1]);
                    assert(all.skip(2) =~= ts.skip(2) + more);
                    let inner = ts.skip(2);
                    lemma_parameters_end_before_edge(inner, Seq::empty(), more);
                    lemma_parameters_frame(inner, Seq::empty(), more);
                    let (ps, after) = parameters(inner, Seq::empty())->Ok_0;
                    let (f, rest) = method(inner, m, p)->Ok_0;
                    if after.len() > 0 {
                        assert((after + more)[0] == after[0]);
                        assert((after + more).skip(1) =~= after.skip(1) + more);
                    } else {
                        assert(after + more =~= more);
                    }
                    assert(method(inner + more, m, p) == Ok::<
                        (FunctionView, Seq<TokenView>),
                        StructuralErrorView,
                    >((f, rest + more)));
                    lemma_method_consumes(inner, m, p);
                    lemma_members_end_before_edge(
                        rest,
                        ClassView { methods: cls.methods.push(f), ..cls },
                        Pending::none(),
                        more,
                    );
                }
            },
            _ => {},
        }
    }
}

/// A class that is read well in front of an edge ends before the edge.
pub proof fn lemma_class_block_ends_before_edge(
    ts: Seq<TokenView>,
    is_abstract: bool,
    known: Seq<ClassView>,
    more: Seq<TokenView>,
)
    requires
        starts_an_edge(more),
        class_block(ts + more, is_abstract, known) is Ok,
    ensures
        class_block(ts, is_abstract, known) is Ok,
{
    let all = ts + more;
    if ts.len() == 0 {
        assert(all =~= more);
    } else if ts.len() == 1 {
        assert(all[0] == ts[0]);
        assert(all[1] == more[0]);
    } else {
        assert(all[0] == ts[0]);
        assert(all[1] == ts[1]);
        assert(all.skip(2) =~= ts.skip(2) + more);
        lemma_members_end_before_edge(
            ts.skip(2),
            empty_class(ts[0]->Name_0, is_abstract),
            Pending::none(),
            more,
        );
    }
}

/// Tokens that are read well with an edge behind them are read well on their
/// own: the edge stands between declarations, not inside one.
pub proof fn lemma_declarations_end_before_edge(
    ts: Seq<TokenView>,
    more: Seq<TokenView>,
    acc: Declared,
)
    requires
        starts_an_edge(more),
        declarations(ts + more, acc) is Ok,
    ensures
        declarations(ts, acc) is Ok,
    decreases ts.len(),
{
    let all = ts + more;
    if ts.len() > 0 {
        assert(all[0] == ts[0]);
        assert(all.skip(1) =~= ts.skip(1) + more);
        match ts[0] {
            TokenView::DocumentStart | TokenView::DocumentEnd => {
                lemma_declarations_end_before_edge(ts.skip(1), more, acc);
            },
            TokenView::Class => {
                lemma_class_block_ends_before_edge(ts.skip(1), false, acc.0, more);
                lemma_class_block_frame(ts.skip(1), false, acc.0, more);
                lemma_class_block_consumes(ts.skip(1), false, acc.0);
                let (c, rest) = class_block(ts.skip(1), false, acc.0)->Ok_0;
                lemma_declarations_end_before_edge(rest, more, (acc.0.push(c), acc.1));
            },
            TokenView::Abstract => {
                if ts.len() == 1 {
                    assert(all[1] == more[0]);
                } else {
                    assert(all[1] == ts[1]);
                    assert(all.skip(2) =~= ts.skip(2) + more);
                    lemma_class_block_ends_before_edge(ts.skip(2), true, acc.0, more);
                    lemma_class_block_frame(ts.skip(2), true, acc.0, more);
                    lemma_class_block_consumes(ts.skip(2), true, acc.0);
                    let (c, rest) = class_block(ts.skip(2), true, acc.0)->Ok_0;
                    lemma_declarations_end_before_edge(rest, more, (acc.0.push(c), acc.1));
                }
            },
            TokenView::Name(left) => {
                let tail = ts.skip(1);
                if tail.len() == 0 {
                    assert(tail + more =~= more);
                } else if tail.len() == 1 {
                    assert((tail + more)[0] == tail[0]);
                    assert((tail + more)[1] == more[0]);
                    assert((tail + more).skip(2) =~= more.skip(1));
                    assert(more.skip(1)[0] == more[1]);
                    if edge_block(tail + more, left) is Ok {
                        let edge = edge_block(tail + more, left)->Ok_0.0;
                        assert(declarations(more.skip(1), (acc.0, acc.1.push(edge))) is Err);
                    }
                } else {
                    assert((tail + more)[0] == tail[0]);
                    assert((tail + more)[1] == tail[1]);
                    assert((tail + more).skip(2) =~= tail.skip(2) + more);
                    let (edge, rest) = edge_block(tail, left)->Ok_0;
                    lemma_declarations_end_before_edge(rest, more, (acc.0, acc.1.push(edge)));
                }
            },
            _ => {},
        }
    }
}

/// The text made of the lines `pre`, the line `line` and the lines `post`.
pub open spec fn text_with(pre: Seq<Seq<char>>, line: Seq<char>, post: Seq<Seq<char>>) -> Seq<
    char,
> {
    join_lines(pre + (seq![line] + post))
}

/// The tokens of a text in which an inheritance edge stands on a line of its
/// own, outside any class: those of the lines before it, the edge's three
/// tokens, and those of the lines behind it.
pub proof fn lemma_edge_line_in_text(
    pre: Seq<Seq<char>>,
    post: Seq<Seq<char>>,
    left: Seq<char>,
    arrow_text: Seq<char>,
    right: Seq<char>,
)
    requires
        are_lines(pre),
        are_lines(post),
        is_name_text(left),
        arrow(arrow_text) is Some,
        is_word_text(right),
        scan_state(pre, 1, Scope::Prologue, Seq::empty()) is Ok,
        scan_state(pre, 1, Scope::Prologue, Seq::empty())->Ok_0.0 == Scope::Global,
    ensures
        tokens_of(text_with(pre, edge_line(left, arrow_text, right), post)) == match scan_lines(
            post,
            pre.len() as int + 2,
            Scope::Global,
            Seq::empty(),
        ) {
            Ok(behind) => Ok(
                scan_state(pre, 1, Scope::Prologue, Seq::empty())->Ok_0.1 + (seq![
                    TokenView::Name(left),
                    arrow(arrow_text)->0,
                    TokenView::Name(right),
                ] + behind),
            ),
            Err(e) => Err(e),
        },
{
    let line = edge_line(left, arrow_text, right);
    let tail = seq![line] + post;
    let ls = pre + tail;
    let acc = scan_state(pre, 1, Scope::Prologue, Seq::empty())->Ok_0.1;
    let n = pre.len() as int + 1;
    let triple = seq![TokenView::Name(left), arrow(arrow_text)->0, TokenView::Name(right)];
    lemma_arrow_is_word(arrow_text);
    assert forall|j: int| 0 <= j < line.len() implies line[j] != '\n' by {
        let inner = arrow_text + seq![' '] + right;
        if j < left.len() {
            assert(line[j] == left[j]);
        } else if j == left.len() {
            assert(line[j] == ' ');
        } else {
            let k = j - left.len() - 1;
            assert(line[j] == inner[k]);
            if k < arrow_text.len() {
                assert(inner[k] == arrow_text[k]);
            } else if k == arrow_text.len() {
                assert(inner[k] == ' ');
            } else {
                assert(inner[k] == right[k - arrow_text.len() - 1]);
            }
        }
    }
    assert(are_lines(ls)) by {
        assert forall|i: int, j: int| 0 <= i < ls.len() && 0 <= j < ls[i].len() implies (
        #[trigger] ls[i][j]) != '\n' by {
            if i < pre.len() {
                assert(ls[i] == pre[i]);
                assert(pre[i][j] != '\n');
            } else if i == pre.len() {
                assert(ls[i] == line);
            } else {
                assert(ls[i] == post[i - pre.len() - 1]);
                assert(post[i - pre.len() - 1][j] != '\n');
            }
        }
    }
    lemma_text_is_scanned_by_lines(ls, 1, Scope::Prologue, Seq::empty());
    lemma_scan_resumes(pre, tail, 1, Scope::Prologue, Seq::empty());
    lemma_edge_line(left, arrow_text, right, n as usize);
    assert(tail[0] == line);
    assert(tail.skip(1) =~= post);
    assert(Seq::empty().push(TokenView::Name(left)).push(arrow(arrow_text)->0).push(
        TokenView::Name(right),
    ) =~= triple);
    assert(scan_lines(tail, n, Scope::Global, acc) == scan_lines(
        post,
        n + 1,
        Scope::Global,
        acc + triple,
    ));
    lemma_scan_appends(post, n + 1, Scope::Global, acc + triple);
    match scan_lines(post, n + 1, Scope::Global, Seq::empty()) {
        Ok(behind) => {
            assert((acc + triple) + behind =~= acc + (triple + behind));
        },
        Err(e) => {},
    }
}

/// The two ways to write an edge give the same classes. Take a text that is
/// read well and in which the line `parent <|-- child` stands outside any
/// class. The text with the line `child --|> parent` in its place gives the
/// same classes.
pub proof fn lemma_text_direction_agnostic(
    pre: Seq<Seq<char>>,
    post: Seq<Seq<char>>,
    parent: Seq<char>,
    child: Seq<char>,
)
    requires
        are_lines(pre),
        are_lines(post),
        is_name_text(parent),
        is_name_text(child),
        scan_state(pre, 1, Scope::Prologue, Seq::empty()) is Ok,
        scan_state(pre, 1, Scope::Prologue, Seq::empty())->Ok_0.0 == Scope::Global,
        diagram_classes(text_with(pre, edge_line(parent, "<|--"@, child), post)) is Ok,
    ensures
        diagram_classes(text_with(pre, edge_line(child, "--|>"@, parent), post))
            == diagram_classes(text_with(pre, edge_line(parent, "<|--"@, child), post)),
{
    lemma_arrow_directions();
    lemma_edge_line_in_text(pre, post, parent, "<|--"@, child);
    lemma_edge_line_in_text(pre, post, child, "--|>"@, parent);
    let acc = scan_state(pre, 1, Scope::Prologue, Seq::empty())->Ok_0.1;
    let behind = scan_lines(post, pre.len() as int + 2, Scope::Global, Seq::empty())->Ok_0;
    let to = seq![TokenView::Name(parent), TokenView::InheritsTo, TokenView::Name(child)];
    let from = seq![TokenView::Name(child), TokenView::InheritsFrom, TokenView::Name(parent)];
    let none: Declared = (Seq::empty(), Seq::empty());
    assert(classes_of(acc + (to + behind)) is Ok);
    assert((to + behind)[0] == to[0]);
    assert((to + behind)[1] == to[1]);
    lemma_declarations_end_before_edge(acc, to + behind, none);
    lemma_declarations_resume(acc, to + behind, none);
    lemma_declarations_resume(acc, from + behind, none);
    let known = declarations(acc, none)->Ok_0;
    lemma_edge_is_noted(parent, TokenView::InheritsTo, child, behind, known);
    lemma_edge_is_noted(child, TokenView::InheritsFrom, parent, behind, known);
    assert(declarations(acc + (to + behind), none) == declarations(acc + (from + behind), none));
}

/// An unknown class in a text is named, and no edge is passed over. Where
/// the text is read into tokens and the tokens declare classes and edges
/// well, the text gives classes if and only if every edge names two declared
/// classes; else the error is `UnknownClass` with the missing name of the
/// first edge that does not. The classes that it gives are the declared
/// ones with parents attached: the child of every edge has the record of
/// that edge's parent, unless a later edge gives it another, and a class that
/// is the child of no edge is as it was declared.
pub proof fn lemma_text_unknown_class(text: Seq<char>)
    requires
        tokens_of(text) is Ok,
        declarations(tokens_of(text)->Ok_0, (Seq::empty(), Seq::empty())) is Ok,
    ensures
        ({
            let (cs, es) = declarations(tokens_of(text)->Ok_0, (Seq::empty(), Seq::empty()))->Ok_0;
            &&& diagram_classes(text) is Ok <==> first_unknown(cs, es) == es.len()
            &&& diagram_classes(text) is Err ==> diagram_classes(text) == Err::<
                Seq<ClassView>,
                GeneratorErrorView,
            >(
                GeneratorErrorView::Structure(
                    StructuralErrorView::UnknownClass(missing_name(cs, es[first_unknown(cs, es)])),
                ),
            )
            &&& diagram_classes(text) is Ok ==> {
                let built = diagram_classes(text)->Ok_0;
                &&& built.len() == cs.len()
                &&& forall|k: int| 0 <= k < cs.len() ==> same_but_parent(#[trigger] built[k], cs[k])
                &&& forall|k: int|
                    0 <= k < cs.len() && (forall|i: int|
                        0 <= i < es.len() ==> position(cs, #[trigger] es[i].child) != k)
                        ==> #[trigger] built[k] == cs[k]
                &&& forall|j: int|
                    0 <= j < es.len() && is_last_for_child(cs, es, j) ==> (#[trigger] built[position(
                        cs,
                        es[j].child,
                    )]).inherits == Some(Box::new(cs[position(cs, es[j].parent)]))
            }
        }),
{
    let (cs, es) = declarations(tokens_of(text)->Ok_0, (Seq::empty(), Seq::empty()))->Ok_0;
    lemma_unknown_class_is_named(cs, es, cs);
    if diagram_classes(text) is Ok {
        lemma_link_attaches_parents(cs, es, cs);
    }
}

/// The line `@startuml` starts the document.
pub proof fn lemma_start_line(n: usize)
    ensures
        line_step(Scope::Prologue, "@startuml"@, n) == Ok::<Step, LexicalErrorView>(
            (seq![TokenView::DocumentStart], Scope::Global),
        ),
{
    reveal_strlit("@startuml");
    let t = "@startuml"@;
    assert(t[0] == '@');
    assert(t.last() == 'l');
    assert(trim(t) == t);
    assert(t.take(t.len() as int) =~= t);
    assert(Seq::empty().push(TokenView::DocumentStart) =~= seq![TokenView::DocumentStart]);
}

/// The line `@enduml` ends the document.
pub proof fn lemma_end_line(n: usize)
    ensures
        line_step(Scope::Global, "@enduml"@, n) == Ok::<Step, LexicalErrorView>(
            (seq![TokenView::DocumentEnd], Scope::Epilogue),
        ),
{
    reveal_strlit("@enduml");
    let t = "@enduml"@;
    assert(t[0] == '@');
    assert(t.last() == 'l');
    assert(trim(t) == t);
    assert(t.take(t.len() as int) =~= t);
    assert(Seq::empty().push(TokenView::DocumentEnd) =~= seq![TokenView::DocumentEnd]);
}

/// A line that is a closing brace closes the body of a class.
pub proof fn lemma_close_line(n: usize, open: usize)
    ensures
        line_step(Scope::Body(open), seq!['}'], n) == Ok::<Step, LexicalErrorView>(
            (seq![TokenView::EndObject], Scope::Global),
        ),
{
    let t = seq!['}'];
    assert(t[0] == '}');
    assert(t.last() == '}');
    assert(trim(t) == t);
    assert(Seq::empty().push(TokenView::EndObject) =~= seq![TokenView::EndObject]);
}

/// Whether `name` can stand as the name of a field at the start of a line in
/// the body of a class.
pub open spec fn is_written_field_name(name: Seq<char>) -> bool {
    is_field_name(name) && name[0] != '\'' && name[0] != '@'
}

/// A field line in the body of a class gives the field's tokens, and the body
/// stays open.
pub proof fn lemma_field_line_in_body(
    v: Visibility,
    name: Seq<char>,
    vartype: Seq<char>,
    n: usize,
    open: usize,
)
    requires
        is_written_field_name(name),
        is_word_text(vartype),
        vartype.last() != '}',
    ensures
        line_step(Scope::Body(open), field_line(v, name, vartype), n) == Ok::<
            Step,
            LexicalErrorView,
        >(
            (
                visibility_tokens(v) + seq![TokenView::Variable(name), TokenView::Type(vartype)],
                Scope::Body(open),
            ),
        ),
{
    reveal_strlit("class");
    reveal_strlit("abstract");
    reveal_strlit("interface");
    reveal_strlit("@enduml");
    let t = field_line(v, name, vartype);
    let head = sigil_text(v) + name + seq![':'];
    let tail = seq![' '] + vartype;
    assert(t =~= head + tail);
    assert(t[0] == head[0]);
    assert(head[0] == if v == Visibility::Default {
        name[0]
    } else {
        sigil_text(v)[0]
    });
    assert(t.last() == vartype.last());
    assert(trim(t) == t);
    assert forall|j: int| 0 <= j < head.len() implies !is_space(#[trigger] head[j]) by {
        if j < sigil_text(v).len() {
        } else if j < sigil_text(v).len() + name.len() {
            assert(head[j] == name[j - sigil_text(v).len()]);
        } else {
        }
    }
    lemma_word_end(head, tail);
    assert(t.take(head.len() as int) =~= head);
    assert(first_word(t) == head);
    assert(head.last() == ':');
    assert(!is_class_keyword(head)) by {
        if head == "class"@ {
            assert("class"@.last() == 's');
        }
        if head == "abstract"@ {
            assert("abstract"@.last() == 't');
        }
        if head == "interface"@ {
            assert("interface"@.last() == 'e');
        }
    }
    if starts_with(t, "@enduml"@) {
        assert(t.take(7)[0] == "@enduml"@[0]);
    }
    lemma_field_line(v, name, vartype, n);
}

/// Whether this module knows how to write the member as a line. A field
/// is not final, its name can start a line in a body and its type is a word
/// that does not end with a brace. A method has no parameters and no return
/// type, and its name can start a line in a body.
pub open spec fn is_written_member(m: Member) -> bool {
    match m {
        Member::Field(a) => !a.is_final && is_written_field_name(a.name) && is_word_text(
            a.vartype.text(),
        ) && a.vartype.text().last() != '}',
        Member::Method(f) => is_written_method_name(f.name) && f.parameters.len() == 0
            && f.returntype.text().len() == 0,
    }
}

/// The tokens of the line that declares the member.
pub open spec fn member_text_tokens(m: Member) -> Seq<TokenView> {
    match m {
        Member::Field(a) => visibility_tokens(a.view) + seq![
            TokenView::Variable(a.name),
            TokenView::Type(a.vartype.text()),
        ],
        Member::Method(f) => method_line_tokens(f.view, f.name, f.is_static, f.is_abstract),
    }
}

/// Whether this module knows how to write the class as lines: its name is a
/// word without a brace, and each of its members can be written.
pub open spec fn is_written_class(d: Declaration) -> bool {
    &&& is_declared_name(d.name)
    &&& forall|i: int| 0 <= i < d.members.len() ==> is_written_member(#[trigger] d.members[i])
}

/// The line that declares the member.
pub open spec fn member_text(m: Member) -> Seq<char> {
    match m {
        Member::Field(a) => field_line(a.view, a.name, a.vartype.text()),
        Member::Method(f) => method_line(f.view, f.name, f.is_static, f.is_abstract),
    }
}

/// The lines of the members `ms`, the line that closes the body, and `rest`.
pub open spec fn body_lines_then(ms: Seq<Member>, rest: Seq<Seq<char>>) -> Seq<Seq<char>>
    decreases ms.len(),
{
    if ms.len() == 0 {
        seq![seq!['}']] + rest
    } else {
        seq![member_text(ms[0])] + body_lines_then(ms.skip(1), rest)
    }
}

/// The line that opens the class called `name`.
pub open spec fn class_line(name: Seq<char>) -> Seq<char> {
    "class"@ + seq![' '] + (name + seq![' ', '{'])
}

/// The line that opens the class `d`: `abstract` stands before `class` if the
/// class is declared abstract.
pub open spec fn opening_line(d: Declaration) -> Seq<char> {
    if d.is_abstract {
        "abstract"@ + seq![' '] + class_line(d.name)
    } else {
        class_line(d.name)
    }
}

/// The tokens of the line that opens the class `d`.
pub open spec fn opening_tokens(d: Declaration) -> Seq<TokenView> {
    if d.is_abstract {
        seq![
            TokenView::Abstract,
            TokenView::Class,
            TokenView::Name(d.name),
            TokenView::StartObject,
        ]
    } else {
        seq![TokenView::Class, TokenView::Name(d.name), TokenView::StartObject]
    }
}

/// The lines of the classes `ds`, and `rest`.
pub open spec fn classes_lines_then(ds: Seq<Declaration>, rest: Seq<Seq<char>>) -> Seq<Seq<char>>
    decreases ds.len(),
{
    if ds.len() == 0 {
        rest
    } else {
        seq![opening_line(ds[0])] + body_lines_then(
            ds[0].members,
            classes_lines_then(ds.skip(1), rest),
        )
    }
}

/// The lines of the document that declares the classes `ds` and nothing
/// else: the start of the document, for each class the line that opens it,
/// one line for each member and the line that closes it, and the end of the
/// document.
pub open spec fn document_lines(ds: Seq<Declaration>) -> Seq<Seq<char>> {
    seq!["@startuml"@] + classes_lines_then(ds, seq!["@enduml"@])
}

/// The lines of a body give the tokens of the body, and the scan goes on
/// behind them outside any class.
pub proof fn lemma_body_lines(
    ms: Seq<Member>,
    rest: Seq<Seq<char>>,
    n: int,
    open: usize,
)
    requires
        forall|i: int| 0 <= i < ms.len() ==> is_written_member(#[trigger] ms[i]),
    ensures
        scan_lines(body_lines_then(ms, rest), n, Scope::Body(open), Seq::empty()) == match scan_lines(
            rest,
            n + ms.len() + 1,
            Scope::Global,
            Seq::empty(),
        ) {
            Ok(ts) => Ok(body_then(ms, ts)),
            Err(e) => Err(e),
        },
    decreases ms.len(),
{
    let none = Seq::<TokenView>::empty();
    let ls = body_lines_then(ms, rest);
    if ms.len() == 0 {
        assert(ls[0] == seq!['}']);
        assert(ls.skip(1) =~= rest);
        lemma_close_line(n as usize, open);
        let found = none + seq![TokenView::EndObject];
        lemma_scan_appends(rest, n + 1, Scope::Global, found);
        match scan_lines(rest, n + 1, Scope::Global, none) {
            Ok(ts) => {
                assert(found + ts =~= body_then(ms, ts));
            },
            Err(e) => {},
        }
    } else {
        assert(is_written_member(ms[0]));
        let tail = body_lines_then(ms.skip(1), rest);
        assert(ls[0] == member_text(ms[0]));
        assert(ls.skip(1) =~= tail);
        lemma_member_line_in_body(ms[0], n as usize, open);
        let mt = member_text_tokens(ms[0]);
        let found = none + mt;
        lemma_scan_appends(tail, n + 1, Scope::Body(open), found);
        assert forall|i: int| 0 <= i < ms.skip(1).len() implies is_written_member(
            #[trigger] ms.skip(1)[i],
        ) by {
            assert(ms.skip(1)[i] == ms[i + 1]);
        }
        lemma_body_lines(ms.skip(1), rest, n + 1, open);
        match scan_lines(rest, n + ms.len() + 1, Scope::Global, none) {
            Ok(ts) => {
                lemma_member_tokens_then(ms[0], body_then(ms.skip(1), ts));
                assert(found + body_then(ms.skip(1), ts) =~= mt + body_then(ms.skip(1), ts));
            },
            Err(e) => {},
        }
    }
}

/// The lines of classes, with the end of the document behind them, give the
/// tokens of the classes and of the end of the document.
pub proof fn lemma_classes_lines(ds: Seq<Declaration>, n: int)
    requires
        forall|i: int| 0 <= i < ds.len() ==> is_written_class(#[trigger] ds[i]),
    ensures
        scan_lines(classes_lines_then(ds, seq!["@enduml"@]), n, Scope::Global, Seq::empty()) == Ok::<
            Seq<TokenView>,
            LexicalErrorView,
        >(classes_then(ds, seq![TokenView::DocumentEnd])),
    decreases ds.len(),
{
    let none = Seq::<TokenView>::empty();
    let end = seq!["@enduml"@];
    let ls = classes_lines_then(ds, end);
    if ds.len() == 0 {
        assert(ls[0] == "@enduml"@);
        lemma_end_line(n as usize);
        let found = none + seq![TokenView::DocumentEnd];
        assert(found =~= seq![TokenView::DocumentEnd]);
        assert(scan_lines(ls.skip(1), n + 1, Scope::Epilogue, found) == Ok::<
            Seq<TokenView>,
            LexicalErrorView,
        >(found));
    } else {
        let d = ds[0];
        assert(is_written_class(d));
        let behind = classes_lines_then(ds.skip(1), end);
        let body = body_lines_then(d.members, behind);
        assert(ls[0] == opening_line(d));
        assert(ls.skip(1) =~= body);
        lemma_opening_line(d, n as usize);
        let intro = opening_tokens(d);
        let found = none + intro;
        lemma_scan_appends(body, n + 1, Scope::Body(n as usize), found);
        lemma_body_lines(d.members, behind, n + 1, n as usize);
        assert forall|i: int| 0 <= i < ds.skip(1).len() implies is_written_class(
            #[trigger] ds.skip(1)[i],
        ) by {
            assert(ds.skip(1)[i] == ds[i + 1]);
        }
        lemma_classes_lines(ds.skip(1), n + 1 + d.members.len() + 1);
        let ts = classes_then(ds.skip(1), seq![TokenView::DocumentEnd]);
        assert(found + body_then(d.members, ts) =~= classes_then(
            ds,
            seq![TokenView::DocumentEnd],
        ));
    }
}

/// The lines of a document of written classes give the tokens of the
/// document.
pub proof fn lemma_document_lines(ds: Seq<Declaration>)
    requires
        forall|i: int| 0 <= i < ds.len() ==> is_written_class(#[trigger] ds[i]),
    ensures
        scan_lines(document_lines(ds), 1, Scope::Prologue, Seq::empty()) == Ok::<
            Seq<TokenView>,
            LexicalErrorView,
        >(document(ds)),
{
    let none = Seq::<TokenView>::empty();
    let ls = document_lines(ds);
    let behind = classes_lines_then(ds, seq!["@enduml"@]);
    assert(ls[0] == "@startuml"@);
    assert(ls.skip(1) =~= behind);
    lemma_start_line(1);
    let found = none + seq![TokenView::DocumentStart];
    lemma_scan_appends(behind, 2, Scope::Global, found);
    lemma_classes_lines(ds, 2);
    assert(found + classes_then(ds, seq![TokenView::DocumentEnd]) =~= document(ds));
}

/// Whether `l` holds no line feed.
pub open spec fn is_line(l: Seq<char>) -> bool {
    forall|j: int| 0 <= j < l.len() ==> l[j] != '\n'
}

/// A line in front of lines makes lines.
pub proof fn lemma_lines_cons(l: Seq<char>, ls: Seq<Seq<char>>)
    requires
        is_line(l),
        are_lines(ls),
    ensures
        are_lines(seq![l] + ls),
{
    let all = seq![l] + ls;
    assert forall|i: int, j: int| 0 <= i < all.len() && 0 <= j < all[i].len() implies (
    #[trigger] all[i][j]) != '\n' by {
        if i == 0 {
            assert(all[0] == l);
        } else {
            assert(all[i] == ls[i - 1]);
            assert(ls[i - 1][j] != '\n');
        }
    }
}

/// The line of a written member holds no line feed.
pub proof fn lemma_member_text_is_line(m: Member)
    requires
        is_written_member(m),
    ensures
        is_line(member_text(m)),
{
    let l = member_text(m);
    match m {
        Member::Field(a) => {
            let sigil = sigil_text(a.view);
            let inner = a.name + seq![':', ' '] + a.vartype.text();
            assert forall|j: int| 0 <= j < l.len() implies l[j] != '\n' by {
                if j < sigil.len() {
                    assert(l[j] == sigil[j]);
                } else {
                    let k = j - sigil.len();
                    assert(l[j] == inner[k]);
                    if k < a.name.len() {
                        assert(inner[k] == a.name[k]);
                        assert(!is_space(a.name[k]));
                    } else if k < a.name.len() + 2 {
                    } else {
                        assert(inner[k] == a.vartype.text()[k - a.name.len() - 2]);
                        assert(!is_space(a.vartype.text()[k - a.name.len() - 2]));
                    }
                }
            }
        },
        Member::Method(f) => {
            lemma_modifier_words();
            let sigil = sigil_text(f.view);
            let call = f.name + seq!['(', ')'];
            let s1 = suffix(f.is_static, "static"@);
            let s2 = suffix(f.is_abstract, "abstract"@);
            lemma_suffix_is_line(f.is_static, "static"@);
            lemma_suffix_is_line(f.is_abstract, "abstract"@);
            assert forall|j: int| 0 <= j < l.len() implies l[j] != '\n' by {
                if j < sigil.len() {
                    assert(l[j] == sigil[j]);
                } else if j < sigil.len() + call.len() {
                    let k = j - sigil.len();
                    assert(l[j] == call[k]);
                    if k < f.name.len() {
                        assert(call[k] == f.name[k]);
                        assert(!is_space(f.name[k]));
                    }
                } else if j < sigil.len() + call.len() + s1.len() {
                    assert(l[j] == s1[j - sigil.len() - call.len()]);
                } else {
                    assert(l[j] == s2[j - sigil.len() - call.len() - s1.len()]);
                }
            }
        },
    }
}

/// What stands behind a method for a modifier holds no line feed.
pub proof fn lemma_suffix_is_line(present: bool, w: Seq<char>)
    requires
        is_modifier_text(w),
    ensures
        is_line(suffix(present, w)),
{
    let l = suffix(present, w);
    if present {
        let braces = seq!['{'] + w + seq!['}'];
        assert forall|j: int| 0 <= j < l.len() implies l[j] != '\n' by {
            if j > 0 {
                assert(l[j] == braces[j - 1]);
                if 0 < j - 1 <= w.len() {
                    assert(braces[j - 1] == w[j - 2]);
                    assert(!is_space(w[j - 2]));
                }
            }
        }
    }
}

/// The line that opens a class holds no line feed.
pub proof fn lemma_class_line_is_line(name: Seq<char>)
    requires
        is_declared_name(name),
    ensures
        is_line(class_line(name)),
{
    reveal_strlit("class");
    let l = class_line(name);
    let inner = name + seq![' ', '{'];
    assert forall|j: int| 0 <= j < l.len() implies l[j] != '\n' by {
        if j < 5 {
            assert(l[j] == "class"@[j]);
            if j == 0 {
            } else if j == 1 {
            } else if j == 2 {
            } else if j == 3 {
            } else {
            }
        } else if j == 5 {
        } else {
            assert(l[j] == inner[j - 6]);
            if j - 6 < name.len() {
                assert(inner[j - 6] == name[j - 6]);
                assert(!is_space(name[j - 6]));
            }
        }
    }
}

/// The lines of a body of written members are lines.
pub proof fn lemma_body_lines_are_lines(ms: Seq<Member>, rest: Seq<Seq<char>>)
    requires
        forall|i: int| 0 <= i < ms.len() ==> is_written_member(#[trigger] ms[i]),
        are_lines(rest),
    ensures
        are_lines(body_lines_then(ms, rest)),
    decreases ms.len(),
{
    if ms.len() == 0 {
        assert(is_line(seq!['}']));
        lemma_lines_cons(seq!['}'], rest);
    } else {
        assert(is_written_member(ms[0]));
        assert forall|i: int| 0 <= i < ms.skip(1).len() implies is_written_member(
            #[trigger] ms.skip(1)[i],
        ) by {
            assert(ms.skip(1)[i] == ms[i + 1]);
        }
        lemma_body_lines_are_lines(ms.skip(1), rest);
        lemma_member_text_is_line(ms[0]);
        lemma_lines_cons(member_text(ms[0]), body_lines_then(ms.skip(1), rest));
    }
}

/// The lines of written classes are lines.
pub proof fn lemma_classes_lines_are_lines(ds: Seq<Declaration>, rest: Seq<Seq<char>>)
    requires
        forall|i: int| 0 <= i < ds.len() ==> is_written_class(#[trigger] ds[i]),
        are_lines(rest),
    ensures
        are_lines(classes_lines_then(ds, rest)),
    decreases ds.len(),
{
    if ds.len() > 0 {
        assert(is_written_class(ds[0]));
        assert forall|i: int| 0 <= i < ds.skip(1).len() implies is_written_class(
            #[trigger] ds.skip(1)[i],
        ) by {
            assert(ds.skip(1)[i] == ds[i + 1]);
        }
        lemma_classes_lines_are_lines(ds.skip(1), rest);
        let behind = classes_lines_then(ds.skip(1), rest);
        lemma_body_lines_are_lines(ds[0].members, behind);
        lemma_opening_line_is_line(ds[0]);
        lemma_lines_cons(opening_line(ds[0]), body_lines_then(ds[0].members, behind));
    }
}

/// The text of the document that declares the classes `ds` and nothing else.
pub open spec fn document_text(ds: Seq<Declaration>) -> Seq<char> {
    join_lines(document_lines(ds))
}

/// A text that declares written classes under names that differ, and no
/// inheritance, gives exactly those classes: as many records as the text
/// declares classes, in the order of the text, each under its declared name,
/// public and without a parent, with the declared fields as its attributes
/// and the declared methods as its methods, each in the order of their lines
/// and each with the visibility and the modifiers of its own line. The files
/// of the text are named after the classes, in the same order.
pub proof fn lemma_written_document(ds: Seq<Declaration>)
    requires
        forall|i: int| 0 <= i < ds.len() ==> is_written_class(#[trigger] ds[i]),
        forall|i: int, j: int|
            0 <= i < j < ds.len() ==> (#[trigger] ds[i]).name != (#[trigger] ds[j]).name,
    ensures
        tokens_of(document_text(ds)) == Ok::<Seq<TokenView>, LexicalErrorView>(document(ds)),
        diagram_classes(document_text(ds)) == Ok::<Seq<ClassView>, GeneratorErrorView>(
            declared_classes(ds),
        ),
        diagram_files(document_text(ds)) == Ok::<Seq<SourceFileView>, GeneratorErrorView>(
            source_files(declared_classes(ds)),
        ),
        declared_classes(ds).len() == ds.len(),
        source_files(declared_classes(ds)).len() == ds.len(),
        forall|i: int|
            0 <= i < ds.len() ==> {
                &&& (#[trigger] declared_classes(ds)[i]).name == ds[i].name
                &&& declared_classes(ds)[i].inherits is None
                &&& declared_classes(ds)[i].attributes == fields_of(ds[i].members)
                &&& declared_classes(ds)[i].methods == methods_of(ds[i].members)
                &&& source_files(declared_classes(ds))[i].name == ds[i].name + ".java"@
            },
{
    reveal_strlit("@startuml");
    reveal_strlit("@enduml");
    let end = seq!["@enduml"@];
    assert(are_lines(end)) by {
        assert forall|i: int, j: int| 0 <= i < end.len() && 0 <= j < end[i].len() implies (
        #[trigger] end[i][j]) != '\n' by {
            if j == 0 {
            } else if j == 1 {
            } else if j == 2 {
            } else if j == 3 {
            } else if j == 4 {
            } else if j == 5 {
            } else {
            }
        }
    }
    lemma_classes_lines_are_lines(ds, end);
    assert(is_line("@startuml"@)) by {
        assert forall|j: int| 0 <= j < "@startuml"@.len() implies "@startuml"@[j] != '\n' by {
            if j == 0 {
            } else if j == 1 {
            } else if j == 2 {
            } else if j == 3 {
            } else if j == 4 {
            } else if j == 5 {
            } else if j == 6 {
            } else if j == 7 {
            } else {
            }
        }
    }
    lemma_lines_cons("@startuml"@, classes_lines_then(ds, end));
    lemma_text_is_scanned_by_lines(document_lines(ds), 1, Scope::Prologue, Seq::empty());
    lemma_document_lines(ds);
    assert(all_declarable(ds)) by {
        assert forall|i: int| 0 <= i < ds.len() implies are_declarable(
            (#[trigger] ds[i]).members,
        ) by {
            assert(is_written_class(ds[i]));
            assert forall|k: int| 0 <= k < ds[i].members.len() implies is_declarable_member(
                #[trigger] ds[i].members[k],
            ) by {
                assert(is_written_member(ds[i].members[k]));
            }
        }
    }
    lemma_declared_classes_are_built(ds);
}

/// Where `c` stands in `s` and nowhere behind, there [`last_index_of`] finds
/// it.
pub proof fn lemma_last_index_of_last(s: Seq<char>, c: char, k: int)
    requires
        0 <= k < s.len(),
        s[k] == c,
        forall|j: int| k < j < s.len() ==> s[j] != c,
    ensures
        last_index_of(s, c) == k,
    decreases s.len(),
{
    if s.last() != c {
        assert forall|j: int| k < j < s.drop_last().len() implies s.drop_last()[j] != c by {
            assert(s.drop_last()[j] == s[j]);
        }
        lemma_last_index_of_last(s.drop_last(), c, k);
    }
}

/// The words `static` and `abstract` are modifiers, and words without a
/// brace.
pub proof fn lemma_modifier_words()
    ensures
        modifier("static"@) == Some(TokenView::Static),
        modifier("abstract"@) == Some(TokenView::Abstract),
        is_modifier_text("static"@),
        is_modifier_text("abstract"@),
{
    reveal_strlit("static");
    reveal_strlit("abstract");
    reveal_strlit("classifier");
    assert("abstract"@.len() != "static"@.len());
    assert("abstract"@.len() != "classifier"@.len());
    assert forall|j: int| 0 <= j < 6 implies !is_space(#[trigger] "static"@[j]) && "static"@[j]
        != '{' && "static"@[j] != '}' by {
        if j == 0 {
        } else if j == 1 {
        } else if j == 2 {
        } else if j == 3 {
        } else if j == 4 {
        } else {
        }
    }
    assert forall|j: int| 0 <= j < 8 implies !is_space(#[trigger] "abstract"@[j])
        && "abstract"@[j] != '{' && "abstract"@[j] != '}' by {
        if j == 0 {
        } else if j == 1 {
        } else if j == 2 {
        } else if j == 3 {
        } else if j == 4 {
        } else if j == 5 {
        } else if j == 6 {
        } else {
        }
    }
}

/// Whether `w` can stand between braces: it holds no white space and no
/// brace.
pub open spec fn is_modifier_text(w: Seq<char>) -> bool {
    forall|j: int|
        0 <= j < w.len() ==> !is_space(#[trigger] w[j]) && w[j] != '{' && w[j] != '}'
}

/// A modifier in braces at the end of a member is read, and the scan of the
/// modifiers goes on in front of it.
pub proof fn lemma_trailing_modifier(x: Seq<char>, w: Seq<char>, acc: Seq<TokenView>, n: usize)
    requires
        is_modifier_text(w),
        modifier(w) is Some,
    ensures
        trailing_modifiers(x + (seq!['{'] + w + seq!['}']), acc, n) == trailing_modifiers(
            x,
            seq![modifier(w)->0] + acc,
            n,
        ),
{
    let group = seq!['{'] + w + seq!['}'];
    let s = x + group;
    let k = x.len() as int;
    assert(s.last() == '}');
    assert(s[k] == '{');
    assert forall|j: int| k < j < s.len() implies s[j] != '{' by {
        assert(s[j] == group[j - k]);
        if j - k <= w.len() {
            assert(group[j - k] == w[j - k - 1]);
        }
    }
    lemma_last_index_of_last(s, '{', k);
    assert(s.subrange(k + 1, s.len() - 1) =~= w);
    assert(s.take(k) =~= x);
}

/// What stands behind a method for a modifier: nothing, or a blank and the
/// word in braces.
pub open spec fn suffix(present: bool, w: Seq<char>) -> Seq<char> {
    if present {
        seq![' '] + (seq!['{'] + w + seq!['}'])
    } else {
        Seq::empty()
    }
}

/// The line that a method without parameters and without a return type is
/// written as: the sigil of its visibility, its name, a pair of brackets,
/// and its modifiers in braces.
pub open spec fn method_line(v: Visibility, name: Seq<char>, is_static: bool, is_abstract: bool) -> Seq<
    char,
> {
    sigil_text(v) + (name + seq!['(', ')']) + suffix(is_static, "static"@) + suffix(
        is_abstract,
        "abstract"@,
    )
}

/// Whether `name` can stand as the name of a method at the start of a line in
/// the body of a class.
pub open spec fn is_written_method_name(name: Seq<char>) -> bool {
    &&& is_word_text(name)
    &&& forall|j: int|
        0 <= j < name.len() ==> name[j] != ':' && name[j] != '(' && name[j] != '{' && name[j]
            != '}'
    &&& !is_sigil(name[0])
    &&& name[0] != '\''
    &&& name[0] != '@'
}

/// The tokens of `Static` and `Abstract`, as far as each is present.
pub open spec fn modifier_tokens(is_static: bool, is_abstract: bool) -> Seq<TokenView> {
    (if is_static {
        seq![TokenView::Static]
    } else {
        Seq::empty()
    }) + (if is_abstract {
        seq![TokenView::Abstract]
    } else {
        Seq::empty()
    })
}

/// The tokens of a method line: the visibility, the modifiers, and the
/// method without parameters.
pub open spec fn method_line_tokens(
    v: Visibility,
    name: Seq<char>,
    is_static: bool,
    is_abstract: bool,
) -> Seq<TokenView> {
    visibility_tokens(v) + modifier_tokens(is_static, is_abstract) + seq![
        TokenView::Name(name),
        TokenView::StartMethod,
        TokenView::EndMethod,
    ]
}

/// The word `w` in braces, if `present`.
pub open spec fn group(present: bool, w: Seq<char>) -> Seq<char> {
    if present {
        seq!['{'] + w + seq!['}']
    } else {
        Seq::empty()
    }
}

/// Removing the white space from what stands behind a method leaves the word
/// in braces.
pub proof fn lemma_compact_suffix(present: bool, w: Seq<char>)
    requires
        is_modifier_text(w),
    ensures
        compact(suffix(present, w)) == group(present, w),
{
    if present {
        let braces = seq!['{'] + w + seq!['}'];
        let blank = seq![' '];
        lemma_compact_parts(blank, braces);
        assert(blank.last() == ' ');
        assert(blank.drop_last() =~= Seq::<char>::empty());
        assert(compact(Seq::<char>::empty()) == Seq::<char>::empty());
        assert(compact(blank) == Seq::<char>::empty());
        assert forall|j: int| 0 <= j < braces.len() implies !is_space(#[trigger] braces[j]) by {
            if 0 < j <= w.len() {
                assert(braces[j] == w[j - 1]);
            }
        }
        lemma_compact_word(braces);
        assert(Seq::<char>::empty() + braces =~= braces);
    } else {
        assert(compact(Seq::<char>::empty()) == Seq::<char>::empty());
    }
}

/// Without its white space a method line is the sigil, the name, the
/// brackets and the modifiers in braces.
pub proof fn lemma_method_line_compact(
    v: Visibility,
    name: Seq<char>,
    is_static: bool,
    is_abstract: bool,
)
    requires
        is_written_method_name(name),
    ensures
        compact(method_line(v, name, is_static, is_abstract)) == sigil_text(v) + (name + seq![
            '(',
            ')',
        ] + group(is_static, "static"@) + group(is_abstract, "abstract"@)),
{
    lemma_modifier_words();
    let sigil = sigil_text(v);
    let call = name + seq!['(', ')'];
    let s1 = suffix(is_static, "static"@);
    let s2 = suffix(is_abstract, "abstract"@);
    let g1 = group(is_static, "static"@);
    let g2 = group(is_abstract, "abstract"@);
    lemma_compact_suffix(is_static, "static"@);
    lemma_compact_suffix(is_abstract, "abstract"@);
    lemma_compact_parts(sigil + call + s1, s2);
    lemma_compact_parts(sigil + call, s1);
    lemma_compact_parts(sigil, call);
    lemma_compact_word(sigil);
    assert forall|j: int| 0 <= j < call.len() implies !is_space(#[trigger] call[j]) by {
        if j < name.len() {
            assert(call[j] == name[j]);
        }
    }
    lemma_compact_word(call);
    assert(sigil + call + g1 + g2 =~= sigil + (call + g1 + g2));
}

/// The modifiers in braces behind a method are read in their order, and the
/// method is left.
pub proof fn lemma_method_trailing(call: Seq<char>, is_static: bool, is_abstract: bool, n: usize)
    requires
        call.len() > 0,
        call.last() == ')',
    ensures
        trailing_modifiers(
            call + group(is_static, "static"@) + group(is_abstract, "abstract"@),
            Seq::empty(),
            n,
        ) == Ok::<(Seq<TokenView>, Seq<char>), LexicalErrorView>(
            (modifier_tokens(is_static, is_abstract), call),
        ),
{
    lemma_modifier_words();
    let none = Seq::<TokenView>::empty();
    let mods = modifier_tokens(is_static, is_abstract);
    let g1 = group(is_static, "static"@);
    let g2 = group(is_abstract, "abstract"@);
    let b = call + g1 + g2;
    assert(trailing_modifiers(call, mods, n) == Ok::<(Seq<TokenView>, Seq<char>), LexicalErrorView>(
        (mods, call),
    ));
    if is_abstract {
        lemma_trailing_modifier(call + g1, "abstract"@, none, n);
        assert(seq![TokenView::Abstract] + none =~= seq![TokenView::Abstract]);
        if is_static {
            lemma_trailing_modifier(call, "static"@, seq![TokenView::Abstract], n);
            assert(seq![TokenView::Static] + seq![TokenView::Abstract] =~= mods);
        } else {
            assert(call + g1 =~= call);
            assert(seq![TokenView::Abstract] =~= mods);
        }
    } else {
        assert(b =~= call + g1);
        if is_static {
            lemma_trailing_modifier(call, "static"@, none, n);
            assert(seq![TokenView::Static] + none =~= mods);
        } else {
            assert(call + g1 =~= call);
            assert(none =~= mods);
        }
    }
}

/// A name and a pair of brackets are read as a method without parameters and
/// without a return type.
pub proof fn lemma_method_call(name: Seq<char>, acc: Seq<TokenView>, n: usize)
    requires
        is_written_method_name(name),
    ensures
        member_tokens(name + seq!['(', ')'], acc, n) == Ok::<Seq<TokenView>, LexicalErrorView>(
            acc.push(TokenView::Name(name)).push(TokenView::StartMethod).push(
                TokenView::EndMethod,
            ),
        ),
{
    let call = name + seq!['(', ')'];
    let p = name.len() as int;
    lemma_index_of_first(call, '(', p);
    lemma_index_of(call, ':');
    let q = index_of(call, ':');
    if q < call.len() {
        if q < p {
            assert(call[q] == name[q]);
        }
    }
    assert(q == call.len());
    let inner = call.skip(p + 1);
    assert(inner =~= seq![')']);
    assert(index_of(inner, ')') == 0);
    assert(call.take(p) =~= name);
    assert(inner.skip(1) =~= Seq::<char>::empty());
}

/// A method line gives the token of the visibility, if the sigil has one,
/// the tokens of its modifiers, and the method's name between `StartMethod`
/// and `EndMethod`.
pub proof fn lemma_method_line(
    v: Visibility,
    name: Seq<char>,
    is_static: bool,
    is_abstract: bool,
    n: usize,
)
    requires
        is_written_method_name(name),
    ensures
        member_line(method_line(v, name, is_static, is_abstract), n) == Ok::<
            Seq<TokenView>,
            LexicalErrorView,
        >(method_line_tokens(v, name, is_static, is_abstract)),
{
    let sigil = sigil_text(v);
    let call = name + seq!['(', ')'];
    let t = method_line(v, name, is_static, is_abstract);
    let c = compact(t);
    let b = call + group(is_static, "static"@) + group(is_abstract, "abstract"@);
    lemma_method_line_compact(v, name, is_static, is_abstract);
    assert(b[0] == name[0]);
    let first = visibility_tokens(v);
    let mods = modifier_tokens(is_static, is_abstract);
    if v == Visibility::Default {
        assert(c =~= b);
        assert(sigil_tokens(b) =~= Seq::<TokenView>::empty());
    } else {
        assert(c.skip(1) =~= b);
    }
    assert(after_sigil(c) == b);
    assert(sigil_tokens(c) =~= first);
    assert(leading_modifiers(b, sigil_tokens(c), n) == Ok::<
        (Seq<TokenView>, Seq<char>),
        LexicalErrorView,
    >((first, b)));
    assert(first + Seq::<TokenView>::empty() =~= first);
    assert(call.last() == ')');
    lemma_method_trailing(call, is_static, is_abstract, n);
    lemma_method_call(name, first + mods, n);
    assert((first + mods).push(TokenView::Name(name)).push(TokenView::StartMethod).push(
        TokenView::EndMethod,
    ) =~= method_line_tokens(v, name, is_static, is_abstract));
}

/// A method line in the body of a class gives the method's tokens, and the
/// body stays open.
pub proof fn lemma_method_line_in_body(
    v: Visibility,
    name: Seq<char>,
    is_static: bool,
    is_abstract: bool,
    n: usize,
    open: usize,
)
    requires
        is_written_method_name(name),
    ensures
        line_step(Scope::Body(open), method_line(v, name, is_static, is_abstract), n) == Ok::<
            Step,
            LexicalErrorView,
        >((method_line_tokens(v, name, is_static, is_abstract), Scope::Body(open))),
{
    reveal_strlit("class");
    reveal_strlit("abstract");
    reveal_strlit("interface");
    reveal_strlit("@enduml");
    let t = method_line(v, name, is_static, is_abstract);
    let head = sigil_text(v) + (name + seq!['(', ')']);
    let s1 = suffix(is_static, "static"@);
    let s2 = suffix(is_abstract, "abstract"@);
    let tail = s1 + s2;
    assert(t =~= head + tail);
    assert(t[0] == head[0]);
    assert(head[0] == if v == Visibility::Default {
        name[0]
    } else {
        sigil_text(v)[0]
    });
    assert(head.last() == ')');
    assert(t.last() == ')' || t.last() == '}') by {
        if is_abstract {
            assert(t.last() == s2.last());
        } else if is_static {
            assert(tail =~= s1);
            assert(t.last() == s1.last());
        } else {
            assert(tail =~= Seq::<char>::empty());
            assert(t =~= head);
        }
    }
    assert(trim(t) == t);
    assert forall|j: int| 0 <= j < head.len() implies !is_space(#[trigger] head[j]) by {
        if j < sigil_text(v).len() {
        } else if j < sigil_text(v).len() + name.len() {
            assert(head[j] == name[j - sigil_text(v).len()]);
        } else {
        }
    }
    if tail.len() > 0 {
        if is_static {
            assert(tail[0] == s1[0]);
        } else {
            assert(tail =~= s2);
        }
        assert(tail[0] == ' ');
    }
    lemma_word_end(head, tail);
    assert(t.take(head.len() as int) =~= head);
    assert(first_word(t) == head);
    assert(!is_class_keyword(head)) by {
        if head == "class"@ {
            assert("class"@.last() == 's');
        }
        if head == "abstract"@ {
            assert("abstract"@.last() == 't');
        }
        if head == "interface"@ {
            assert("interface"@.last() == 'e');
        }
    }
    if starts_with(t, "@enduml"@) {
        assert(t.take(7)[0] == "@enduml"@[0]);
    }
    lemma_method_line(v, name, is_static, is_abstract, n);
}

/// The line of a written member in the body of a class gives the member's
/// tokens, and the body stays open.
pub proof fn lemma_member_line_in_body(m: Member, n: usize, open: usize)
    requires
        is_written_member(m),
    ensures
        line_step(Scope::Body(open), member_text(m), n) == Ok::<Step, LexicalErrorView>(
            (member_text_tokens(m), Scope::Body(open)),
        ),
{
    match m {
        Member::Field(a) => {
            lemma_field_line_in_body(a.view, a.name, a.vartype.text(), n, open);
        },
        Member::Method(f) => {
            lemma_method_line_in_body(f.view, f.name, f.is_static, f.is_abstract, n, open);
        },
    }
}

/// The tokens of a written member's line are the tokens of the member as a
/// document of tokens holds them.
pub proof fn lemma_member_tokens_then(m: Member, rest: Seq<TokenView>)
    requires
        is_written_member(m),
    ensures
        member_text_tokens(m) + rest == member_then(m, rest),
{
    match m {
        Member::Field(a) => {
            assert(member_text_tokens(m) + rest =~= member_then(m, rest));
        },
        Member::Method(f) => {
            let ended = parameters_then(
                f.parameters,
                return_then(f.returntype, rest),
            );
            assert(ended =~= seq![TokenView::EndMethod] + rest);
            assert(member_text_tokens(m) + rest =~= member_then(m, rest));
        },
    }
}

/// The line that opens a class gives its tokens and opens the body of the
/// class.
pub proof fn lemma_opening_line(d: Declaration, n: usize)
    requires
        is_declared_name(d.name),
    ensures
        line_step(Scope::Global, opening_line(d), n) == Ok::<Step, LexicalErrorView>(
            (opening_tokens(d), Scope::Body(n)),
        ),
{
    if !d.is_abstract {
        lemma_class_line(d.name, n);
    } else {
        reveal_strlit("class");
        reveal_strlit("abstract");
        reveal_strlit("interface");
        reveal_strlit("@enduml");
        lemma_keywords_are_words();
        let decl = d.name + seq![' ', '{'];
        let named = class_line(d.name);
        let t = opening_line(d);
        assert(decl[0] == d.name[0]);
        assert(decl.last() == '{');
        assert(named[0] == 'c');
        assert(named.last() == '{');
        assert(t[0] == 'a');
        assert(t.last() == '{');
        assert(trim(t) == t);
        if starts_with(t, "@enduml"@) {
            assert(t.take(7)[0] == "@enduml"@[0]);
        }
        if starts_with(t, "class"@) {
            assert(t.take(5)[0] == "class"@[0]);
        }
        if starts_with(t, "interface"@) {
            assert(t.take(9)[0] == "interface"@[0]);
        }
        assert(t.take(8) =~= "abstract"@);
        let tail = t.skip(8);
        assert(tail =~= seq![' '] + named);
        assert(tail.skip(1) =~= named);
        assert(is_space(tail[0]));
        assert(trim(tail) == trim(named));
        assert(trim(named) == named);
        assert(after_prefix(t, "abstract"@) == named);
        lemma_split_word("class"@, decl);
        lemma_class_decl(
            Seq::empty().push(TokenView::Abstract).push(TokenView::Class),
            d.name,
            n,
        );
        assert(Seq::empty().push(TokenView::Abstract).push(TokenView::Class).push(
            TokenView::Name(d.name),
        ).push(TokenView::StartObject) =~= opening_tokens(d));
    }
}

/// The line that opens a class holds no line feed.
pub proof fn lemma_opening_line_is_line(d: Declaration)
    requires
        is_declared_name(d.name),
    ensures
        is_line(opening_line(d)),
{
    lemma_class_line_is_line(d.name);
    if d.is_abstract {
        reveal_strlit("abstract");
        let l = opening_line(d);
        let named = class_line(d.name);
        assert forall|j: int| 0 <= j < l.len() implies l[j] != '\n' by {
            if j < 8 {
                assert(l[j] == "abstract"@[j]);
                if j == 0 {
                } else if j == 1 {
                } else if j == 2 {
                } else if j == 3 {
                } else if j == 4 {
                } else if j == 5 {
                } else if j == 6 {
                } else {
                }
            } else if j == 8 {
            } else {
                assert(l[j] == named[j - 9]);
            }
        }
    }
}

/// Modifiers apply to the member of their own line. In the text of a class
/// with the two methods `f` and `g`, in this order, the class that is built
/// has exactly these two methods: each is static, abstract and visible as its
/// own line says, whatever the line of the other says.
pub proof fn lemma_text_modifiers_apply_once(d: Declaration, f: FunctionView, g: FunctionView)
    requires
        is_written_class(d),
        d.members == seq![Member::Method(f), Member::Method(g)],
    ensures
        diagram_classes(document_text(seq![d])) is Ok,
        diagram_classes(document_text(seq![d]))->Ok_0.len() == 1,
        diagram_classes(document_text(seq![d]))->Ok_0[0].methods == seq![f, g],
        diagram_classes(document_text(seq![d]))->Ok_0[0].attributes.len() == 0,
{
    let ds = seq![d];
    assert forall|i: int| 0 <= i < ds.len() implies is_written_class(#[trigger] ds[i]) by {
        assert(ds[i] == d);
    }
    lemma_written_document(ds);
    let ms = d.members;
    assert(ms.skip(1)[0] == Member::Method(g));
    assert(ms.skip(1).skip(1).len() == 0);
    assert(methods_of(ms.skip(1).skip(1)) =~= Seq::<FunctionView>::empty());
    assert(methods_of(ms.skip(1)) =~= seq![g]);
    assert(methods_of(ms) =~= seq![f, g]);
    assert(fields_of(ms.skip(1).skip(1)) =~= Seq::<AttributeView>::empty());
    assert(fields_of(ms.skip(1)) =~= Seq::<AttributeView>::empty());
    assert(fields_of(ms) =~= Seq::<AttributeView>::empty());
}

} // verus!

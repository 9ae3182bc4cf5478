//! Element content: raw markup, escaped text, child elements, state
//! references, and lists of these.

use vstd::prelude::*;

use crate::attribute::StateDescriptor;
use crate::element::{view_element, Element};
use crate::escape;
use crate::model::{
    canon_content, canon_each, content_lit, content_lit_chars, content_list_reactive,
    content_reactive, flatten_drop, give_ids_content, give_ids_list, merge_lits, render_content,
    render_content_list, ContentV,
};
use crate::random_id::{opt_id_view, IdSource, RandomId};
use crate::reactive_js::{
    add_descs, compile_content, compile_element, compile_list, dedup_states,
    flush_group, group_desc, group_tpl, has_state_id, is_text_item, lemma_add_descs_concat,
    lemma_add_descs_single, lemma_dedup_has_id, lemma_first_index_absent, lemma_first_index_at,
    lemma_group_tpl_extend, state_desc_views, states_in, tpl_views, DescV, Reactivity,
    ReactivityDescriptor, Target, TplV,
};
use crate::strutil::str_eq;

verus! {

/// Content of an element.
#[derive(Debug, PartialEq)]
pub enum Content {
    /// Nothing.
    Empty,
    /// Markup emitted exactly as it stands.
    Raw(String),
    /// Text escaped at render time.
    Text(String),
    /// A child element.
    Element(Box<Element>),
    /// The rendered value of a state cell, patched on the client when the
    /// cell changes.
    State(StateDescriptor),
    /// A sequence of contents.
    List(Vec<Content>),
}

/// The ghost mirror of a content value.
pub open spec fn view_content(c: Content) -> ContentV
    decreases c,
{
    match c {
        Content::Empty => ContentV::Empty,
        Content::Raw(s) => ContentV::Raw(s@),
        Content::Text(s) => ContentV::Text(s@),
        Content::Element(e) => ContentV::Element(Box::new(view_element(*e))),
        Content::State(d) => ContentV::State(d@),
        Content::List(l) => ContentV::List(content_views(l@, 0)),
    }
}

/// The ghost mirrors of the contents from index `i` on.
pub open spec fn content_views(l: Seq<Content>, i: int) -> Seq<ContentV>
    decreases l, l.len() - i,
{
    if i < 0 || i >= l.len() {
        Seq::empty()
    } else {
        seq![view_content(l[i])] + content_views(l, i + 1)
    }
}

pub proof fn lemma_content_views_len(l: Seq<Content>, i: int)
    requires
        0 <= i <= l.len(),
    ensures
        content_views(l, i).len() == l.len() - i,
    decreases l.len() - i,
{
    if i < l.len() {
        lemma_content_views_len(l, i + 1);
    }
}

pub proof fn lemma_content_views_index(l: Seq<Content>, i: int, j: int)
    requires
        0 <= i <= j < l.len(),
    ensures
        content_views(l, i)[j - i] == view_content(l[j]),
    decreases j - i,
{
    lemma_content_views_len(l, i);
    if i < j {
        lemma_content_views_index(l, i + 1, j);
    }
}

pub proof fn lemma_content_views_concat(a: Seq<Content>, b: Seq<Content>)
    ensures
        content_views(a + b, 0) == content_views(a, 0) + content_views(b, 0),
{
    let joined = a + b;
    lemma_content_views_len(a, 0);
    lemma_content_views_len(b, 0);
    lemma_content_views_len(joined, 0);
    assert forall|j: int| 0 <= j < joined.len() implies content_views(joined, 0)[j]
        == (content_views(a, 0) + content_views(b, 0))[j] by {
        lemma_content_views_index(joined, 0, j);
        if j < a.len() {
            lemma_content_views_index(a, 0, j);
            assert(joined[j] == a[j]);
        } else {
            lemma_content_views_index(b, 0, j - a.len());
            assert(joined[j] == b[j - a.len()]);
        }
    }
    assert(content_views(a + b, 0) =~= content_views(a, 0) + content_views(b, 0));
}

impl Content {
    /// Whether this content itself reads a state cell. A child element's
    /// reactivity does not count: the child carries its own id.
    pub fn is_reactive(&self) -> (r: bool)
        ensures
            r == content_reactive(view_content(*self)),
        decreases *self,
    {
        match self {
            Content::State(_) => true,
            Content::List(l) => {
                let ghost views = content_views(l@, 0);
                proof {
                    lemma_content_views_len(l@, 0);
                }
                let mut i: usize = 0;
                while i < l.len()
                    invariant
                        0 <= i <= l@.len(),
                        content_list_reactive(views, 0) == content_list_reactive(views, i as int),
                    decreases l@.len() - i,
                {
                    proof {
                        lemma_content_views_index(l@, 0, i as int);
                    }
                    if l[i].is_reactive() {
                        return true;
                    }
                    i = i + 1;
                }
                false
            },
            _ => false,
        }
    }

    /// The state descriptor this content reads, if it is a state reference.
    pub fn state(&self) -> (r: Option<&StateDescriptor>)
        ensures
            r is Some <==> view_content(*self) is State,
            r matches Some(d) ==> view_content(*self) == ContentV::State(d@),
    {
        if let Content::State(d) = self {
            Some(d)
        } else {
            None
        }
    }

    /// Turns a text content into the raw content it renders as in a merged
    /// run.
    pub fn text_to_raw(&mut self)
        ensures
            view_content(*final(self)) == (if view_content(*old(self)) is Text {
                ContentV::Raw(content_lit_chars(view_content(*old(self))))
            } else {
                view_content(*old(self))
            }),
    {
        let mut tmp = Content::Empty;
        core::mem::swap(&mut tmp, self);
        if let Content::Text(t) = tmp {
            *self = Content::Raw(escape::encode_text(t.as_str()));
        } else {
            *self = tmp;
        }
    }

    /// Turns this content into its canonical form: empty lists collapse
    /// away, singleton lists promote to their sole member, nested lists
    /// flatten, and adjacent literal segments merge.
    pub fn optimize(&mut self)
        ensures
            view_content(*final(self)) == canon_content(view_content(*old(self))),
    {
        let mut tmp = Content::Empty;
        core::mem::swap(&mut tmp, self);
        *self = tmp.into_optimized();
    }

    /// Canonicalization, consuming the content.
    pub fn into_optimized(self) -> (r: Content)
        ensures
            view_content(r) == canon_content(view_content(self)),
        decreases self,
    {
        match self {
            Content::Element(e) => {
                let el = *e;
                let el2 = el.into_optimized();
                Content::Element(Box::new(el2))
            },
            Content::List(items) => {
                let ghost orig = content_views(items@, 0);
                proof {
                    lemma_content_views_len(items@, 0);
                }
                let ghost items_snapshot = items@;
                let mut rest = items;
                let mut out: Vec<Content> = Vec::new();
                let ghost k: int = 0;
                proof {
                    assert(content_views(out@, 0) =~= Seq::<ContentV>::empty());
                }
                while rest.len() > 0
                    invariant
                        0 <= k <= items_snapshot.len(),
                        k + rest@.len() == items_snapshot.len(),
                        orig == content_views(items_snapshot, 0),
                        orig.len() == items_snapshot.len(),
                        forall|j: int|
                            0 <= j < rest@.len() ==> #[trigger] rest@[j] == items_snapshot[k + j],
                        canon_each(orig, 0) == content_views(out@, 0) + canon_each(orig, k),
                    decreases rest@.len(),
                {
                    let item = rest.remove(0);
                    proof {
                        assert(item == items_snapshot[k]);
                        lemma_content_views_index(items_snapshot, 0, k);
                        assert(view_content(item) == orig[k]);
                    }
                    let c = item.into_optimized();
                    let ghost out_before = out@;
                    let ghost c_view = view_content(c);
                    out.push(c);
                    proof {
                        let ghost single = seq![out@[out_before.len() as int]];
                        assert(out@ =~= out_before + single);
                        lemma_content_views_concat(out_before, single);
                        lemma_content_views_len(single, 0);
                        lemma_content_views_index(single, 0, 0);
                        assert(content_views(single, 0) =~= seq![c_view]);
                        assert(content_views(out@, 0) =~= content_views(out_before, 0) + seq![
                            c_view,
                        ]);
                        assert(canon_each(orig, k) == seq![canon_content(orig[k])] + canon_each(
                            orig,
                            k + 1,
                        ));
                        k = k + 1;
                    }
                }
                proof {
                    assert(canon_each(orig, items_snapshot.len() as int) =~= Seq::<
                        ContentV,
                    >::empty());
                    assert(content_views(out@, 0) =~= canon_each(orig, 0));
                }
                Self::optimize_list(&mut out);
                let merged = out;
                let ghost merged_seq = merged@;
                let ghost merged_views = content_views(merged@, 0);
                proof {
                    lemma_content_views_len(merged@, 0);
                    assert(merged_views == merge_lits(flatten_drop(canon_each(orig, 0))));
                }
                let mut merged = merged;
                if merged.len() == 0 {
                    Content::Empty
                } else if merged.len() == 1 {
                    let only = merged.remove(0);
                    proof {
                        assert(only == merged_seq[0]);
                        lemma_content_views_index(merged_seq, 0, 0);
                        assert(view_content(only) == merged_views[0]);
                    }
                    only
                } else {
                    Content::List(merged)
                }
            },
            other => other,
        }
    }

    /// The list half of canonicalization: splices nested lists into their
    /// parent, drops empty items, and merges every run of adjacent literal
    /// segments into one raw segment.
    pub fn optimize_list(list: &mut Vec<Content>)
        ensures
            content_views(final(list)@, 0) == merge_lits(
                flatten_drop(content_views(old(list)@, 0)),
            ),
    {
        let ghost orig = content_views(list@, 0);
        proof {
            lemma_content_views_len(list@, 0);
        }
        let mut rest: Vec<Content> = Vec::new();
        core::mem::swap(&mut rest, list);
        let mut out: Vec<Content> = Vec::new();
        proof {
            assert(content_views(out@, 0) =~= Seq::<ContentV>::empty());
        }
        while rest.len() > 0
            invariant
                flatten_drop(orig) == content_views(out@, 0) + flatten_drop(
                    content_views(rest@, 0),
                ),
            decreases rest@.len(),
        {
            let ghost rest_before = rest@;
            let ghost rest_views = content_views(rest_before, 0);
            proof {
                lemma_content_views_len(rest_before, 0);
                lemma_content_views_index(rest_before, 0, 0);
            }
            let item = rest.remove(0);
            let ghost item_view = view_content(item);
            proof {
                assert(item == rest_before[0]);
                assert(rest@ =~= rest_before.drop_first());
                lemma_content_views_len(rest@, 0);
                assert forall|j: int|
                    0 <= j < rest@.len() implies content_views(rest@, 0)[j] == rest_views.drop_first()[j] by {
                    lemma_content_views_index(rest@, 0, j);
                    lemma_content_views_index(rest_before, 0, j + 1);
                    assert(rest@[j] == rest_before[j + 1]);
                }
                assert(content_views(rest@, 0) =~= rest_views.drop_first());
                assert(rest_views.first() == item_view);
                assert(flatten_drop(rest_views) == (match item_view {
                    ContentV::Empty => flatten_drop(rest_views.drop_first()),
                    ContentV::List(inner) => inner + flatten_drop(rest_views.drop_first()),
                    _ => seq![item_view] + flatten_drop(rest_views.drop_first()),
                }));
            }
            match item {
                Content::Empty => {},
                Content::List(mut inner) => {
                    let ghost out_before = out@;
                    let ghost inner_seq = inner@;
                    let ghost inner_views = content_views(inner@, 0);
                    out.append(&mut inner);
                    proof {
                        assert(out@ =~= out_before + inner_seq);
                        lemma_content_views_concat(out_before, inner_seq);
                        assert(content_views(out@, 0) =~= content_views(out_before, 0)
                            + inner_views);
                    }
                },
                other => {
                    let ghost out_before = out@;
                    let ghost other_view = view_content(other);
                    out.push(other);
                    proof {
                        let ghost single = seq![out@[out_before.len() as int]];
                        assert(out@ =~= out_before + single);
                        lemma_content_views_concat(out_before, single);
                        lemma_content_views_len(single, 0);
                        lemma_content_views_index(single, 0, 0);
                        assert(content_views(single, 0) =~= seq![other_view]);
                        assert(content_views(out@, 0) =~= content_views(out_before, 0) + seq![
                            other_view,
                        ]);
                    }
                },
            }
        }
        proof {
            assert(content_views(rest@, 0) =~= Seq::<ContentV>::empty());
            assert(flatten_drop(content_views(rest@, 0)) =~= Seq::<ContentV>::empty());
            assert(content_views(out@, 0) =~= flatten_drop(orig));
        }
        let merged = merge_contents(out);
        *list = merged;
    }

    /// Appends this content's rendering to `output`: raw text as it stands,
    /// text escaped, child elements and list items in order, a state
    /// reference as its display value.
    pub fn render(&self, output: &mut String)
        ensures
            final(output)@ == old(output)@ + render_content(view_content(*self)),
        decreases *self,
    {
        match self {
            Content::Empty => {},
            Content::Raw(raw) => {
                output.append(raw.as_str());
            },
            Content::Text(text) => {
                let escaped = escape::encode_text(text.as_str());
                output.append(escaped.as_str());
            },
            Content::Element(child) => {
                child.render(output);
            },
            Content::State(d) => {
                output.append(d.display.as_str());
            },
            Content::List(l) => {
                let ghost views = content_views(l@, 0);
                proof {
                    lemma_content_views_len(l@, 0);
                }
                let ghost base = output@;
                let mut i: usize = 0;
                while i < l.len()
                    invariant
                        0 <= i <= l@.len(),
                        base + render_content_list(views, 0) == output@ + render_content_list(
                            views,
                            i as int,
                        ),
                    decreases l@.len() - i,
                {
                    proof {
                        lemma_content_views_index(l@, 0, i as int);
                    }
                    l[i].render(output);
                    i = i + 1;
                }
                proof {
                    assert(render_content_list(views, l@.len() as int) =~= Seq::<char>::empty());
                    assert(output@ =~= base + render_content_list(views, 0));
                }
            },
        }
    }

    /// Walks the content and gives every reactive element that lacks an id
    /// the next id of the source.
    pub fn give_ids(&mut self, src: &mut IdSource)
        ensures
            ({
                let (c2, after) = give_ids_content(
                    view_content(*old(self)),
                    old(src).seed(),
                    old(src).drawn(),
                );
                view_content(*final(self)) == c2 && final(src).drawn() == after && final(src).seed() == old(src).seed()
            }),
    {
        let mut tmp = Content::Empty;
        core::mem::swap(&mut tmp, self);
        *self = tmp.with_ids(src);
    }

    /// Id assignment, consuming the content.
    pub fn with_ids(self, src: &mut IdSource) -> (r: Content)
        ensures
            ({
                let (c2, after) = give_ids_content(
                    view_content(self),
                    old(src).seed(),
                    old(src).drawn(),
                );
                view_content(r) == c2 && final(src).drawn() == after && final(src).seed() == old(src).seed()
            }),
        decreases self,
    {
        match self {
            Content::Element(e) => {
                let el = *e;
                let el2 = el.with_ids(src);
                Content::Element(Box::new(el2))
            },
            Content::List(items) => {
                let ghost seed = src.seed();
                let ghost start = src.drawn();
                let ghost orig = content_views(items@, 0);
                proof {
                    lemma_content_views_len(items@, 0);
                }
                let ghost items_snapshot = items@;
                let mut rest = items;
                let mut out: Vec<Content> = Vec::new();
                let ghost k: int = 0;
                while rest.len() > 0
                    invariant
                        0 <= k <= items_snapshot.len(),
                        k + rest@.len() == items_snapshot.len(),
                        orig == content_views(items_snapshot, 0),
                        orig.len() == items_snapshot.len(),
                        forall|j: int|
                            0 <= j < rest@.len() ==> #[trigger] rest@[j] == items_snapshot[k + j],
                        src.seed() == seed,
                        ({
                            let (done, after) = give_ids_list(orig, 0, seed, start);
                            let (rest_ids, rest_after) = give_ids_list(
                                orig,
                                k,
                                seed,
                                src.drawn(),
                            );
                            done == content_views(out@, 0) + rest_ids && after == rest_after
                        }),
                    decreases rest@.len(),
                {
                    let item = rest.remove(0);
                    proof {
                        assert(item == items_snapshot[k]);
                        lemma_content_views_index(items_snapshot, 0, k);
                        assert(view_content(item) == orig[k]);
                    }
                    let ghost pos_before = src.drawn();
                    let c = item.with_ids(src);
                    let ghost out_before = out@;
                    let ghost c_view = view_content(c);
                    out.push(c);
                    proof {
                        let ghost single = seq![out@[out_before.len() as int]];
                        assert(out@ =~= out_before + single);
                        lemma_content_views_concat(out_before, single);
                        lemma_content_views_len(single, 0);
                        lemma_content_views_index(single, 0, 0);
                        assert(content_views(single, 0) =~= seq![c_view]);
                        assert(content_views(out@, 0) =~= content_views(out_before, 0) + seq![
                            c_view,
                        ]);
                        k = k + 1;
                    }
                }
                proof {
                    let (rest_ids, rest_after) = give_ids_list(
                        orig,
                        items_snapshot.len() as int,
                        seed,
                        src.drawn(),
                    );
                    assert(rest_ids =~= Seq::<ContentV>::empty());
                    let (done, after) = give_ids_list(orig, 0, seed, start);
                    assert(done =~= content_views(out@, 0));
                }
                Content::List(out)
            },
            other => other,
        }
    }

    /// Compiles the patch descriptors of this content under the enclosing
    /// element's id: text runs become child-node patches, a bare state
    /// reference patches the whole element, and child elements are compiled
    /// with their own ids.
    pub fn reactivity(&self, element_id: Option<&RandomId>, reactivity: &mut Reactivity)
        requires
            crate::reactive_js::compilable_content(view_content(*self)),
        ensures
            final(reactivity)@ == add_descs(
                old(reactivity)@,
                compile_content(view_content(*self), opt_id_view(element_id)),
                0,
            ),
        decreases *self,
    {
        let ghost eidv = opt_id_view(element_id);
        match self {
            Content::List(l) => {
                let ghost views = content_views(l@, 0);
                proof {
                    lemma_content_views_len(l@, 0);
                    assert(view_content(*self) == ContentV::List(views));
                }
                let ghost target = add_descs(
                    old(reactivity)@,
                    compile_list(views, 0, Seq::empty(), 0, 0, eidv),
                    0,
                );
                let mut group: Vec<Content> = Vec::new();
                let mut group_idx: u32 = 0;
                let mut next_idx: u32 = 0;
                let n = l.len();
                let mut i: usize = 0;
                proof {
                    assert(content_views(group@, 0) =~= Seq::<ContentV>::empty());
                }
                while i < n
                    invariant
                        n == views.len(),
                        0 <= i <= n,
                        next_idx <= i,
                        add_descs(
                            reactivity@,
                            compile_list(
                                views,
                                i as int,
                                content_views(group@, 0),
                                group_idx as int,
                                next_idx as int,
                                eidv,
                            ),
                            0,
                        ) == target,
                    decreases n - i,
                {
                    proof {
                        lemma_content_views_index(l@, 0, i as int);
                        lemma_content_views_len(group@, 0);
                    }
                    let item = &l[i];
                    let text_item = match item {
                        Content::Raw(_) => true,
                        Content::Text(_) => true,
                        Content::State(_) => true,
                        _ => false,
                    };
                    if text_item {
                        let ghost gv0 = content_views(group@, 0);
                        let ghost was_empty = group@.len() == 0;
                        if group.len() == 0 {
                            group_idx = next_idx;
                            next_idx = next_idx + 1;
                        }
                        let ghost gseq_before = group@;
                        let copy = clone_text_item(item);
                        let ghost copy_view = view_content(copy);
                        group.push(copy);
                        proof {
                            let single = seq![group@[gseq_before.len() as int]];
                            assert(group@ =~= gseq_before + single);
                            lemma_content_views_concat(gseq_before, single);
                            lemma_content_views_len(single, 0);
                            lemma_content_views_index(single, 0, 0);
                            assert(content_views(single, 0) =~= seq![copy_view]);
                            assert(content_views(group@, 0) =~= gv0.push(copy_view));
                            assert(copy_view == views[i as int]);
                            if was_empty {
                                assert(gv0.push(copy_view) =~= seq![views[i as int]]);
                            }
                        }
                    } else {
                        let ghost r0 = reactivity@;
                        let ghost gv0 = content_views(group@, 0);
                        let ghost flushed = flush_group(gv0, group_idx as int, eidv);
                        if group.len() > 0 {
                            match element_id {
                                Some(eid) => {
                                    let desc = group_descriptor(&group, group_idx, eid);
                                    let ghost desc_view = desc@;
                                    reactivity.add(desc);
                                    proof {
                                        assert(flushed =~= seq![desc_view]);
                                        lemma_add_descs_single(r0, desc_view);
                                    }
                                },
                                None => {
                                    proof {
                                        assert(flushed =~= Seq::<DescV>::empty());
                                    }
                                },
                            }
                        } else {
                            proof {
                                assert(flushed =~= Seq::<DescV>::empty());
                            }
                        }
                        let ghost r1 = reactivity@;
                        proof {
                            assert(r1 == add_descs(r0, flushed, 0));
                        }
                        group.clear();
                        if let Content::Element(e) = item {
                            proof {
                                assert(crate::reactive_js::compilable_content(views[i as int]));
                            }
                            e.reactivity(reactivity);
                        }
                        let ghost elem_descs = (match views[i as int] {
                            ContentV::Element(e) => compile_element(*e),
                            _ => Seq::<DescV>::empty(),
                        });
                        let ghost r2 = reactivity@;
                        proof {
                            assert(r2 == add_descs(r1, elem_descs, 0));
                            let rest = compile_list(
                                views,
                                i as int + 1,
                                Seq::empty(),
                                0,
                                next_idx as int + 1,
                                eidv,
                            );
                            assert(compile_list(
                                views,
                                i as int,
                                gv0,
                                group_idx as int,
                                next_idx as int,
                                eidv,
                            ) == flushed + elem_descs + rest);
                            lemma_add_descs_concat(r0, flushed + elem_descs, rest);
                            lemma_add_descs_concat(r0, flushed, elem_descs);
                            assert(content_views(group@, 0) =~= Seq::<ContentV>::empty());
                        }
                        next_idx = next_idx + 1;
                        group_idx = 0;
                    }
                    i = i + 1;
                }
                let ghost r0 = reactivity@;
                let ghost gv0 = content_views(group@, 0);
                let ghost flushed = flush_group(gv0, group_idx as int, eidv);
                proof {
                    lemma_content_views_len(group@, 0);
                    assert(compile_list(
                        views,
                        n as int,
                        gv0,
                        group_idx as int,
                        next_idx as int,
                        eidv,
                    ) == flushed);
                }
                if group.len() > 0 {
                    match element_id {
                        Some(eid) => {
                            let desc = group_descriptor(&group, group_idx, eid);
                            let ghost desc_view = desc@;
                            reactivity.add(desc);
                            proof {
                                assert(flushed =~= seq![desc_view]);
                                lemma_add_descs_single(r0, desc_view);
                            }
                        },
                        None => {
                            proof {
                                assert(flushed =~= Seq::<DescV>::empty());
                            }
                        },
                    }
                } else {
                    proof {
                        assert(flushed =~= Seq::<DescV>::empty());
                    }
                }
                proof {
                    assert(reactivity@ == add_descs(r0, flushed, 0));
                    assert(reactivity@ == target);
                }
            },
            Content::State(d) => {
                match element_id {
                    Some(eid) => {
                        let desc = ReactivityDescriptor {
                            element_id: eid.clone(),
                            child_node_idx: None,
                            target: Target::TextContent,
                            state_descriptors: vec![d.clone()],
                            content: vec![crate::reactive_js::Content::Var(0)],
                        };
                        let ghost desc_view = desc@;
                        proof {
                            assert(state_desc_views(desc.state_descriptors@) =~= seq![d@]);
                            assert(tpl_views(desc.content@) =~= seq![TplV::Var(0)]);
                            assert(compile_content(view_content(*self), eidv) =~= seq![desc_view]);
                        }
                        reactivity.add(desc);
                        proof {
                            lemma_add_descs_single(old(reactivity)@, desc_view);
                        }
                    },
                    None => {},
                }
            },
            Content::Element(e) => {
                e.reactivity(reactivity);
            },
            _ => {},
        }
    }
}

/// An owned copy of a text-run item: raw text, escaped text, or a state
/// reference.
fn clone_text_item(c: &Content) -> (r: Content)
    requires
        is_text_item(view_content(*c)),
    ensures
        view_content(r) == view_content(*c),
{
    match c {
        Content::Raw(t) => Content::Raw(t.clone()),
        Content::Text(t) => Content::Text(t.clone()),
        Content::State(d) => Content::State(d.clone()),
        _ => Content::Empty,
    }
}

/// Builds the descriptor of one completed text run: the deduplicated state
/// list and the template with variable slots pointing into it.
fn group_descriptor(group: &Vec<Content>, idx: u32, eid: &RandomId) -> (d: ReactivityDescriptor)
    ensures
        d@ == group_desc(content_views(group@, 0), idx as int, eid@),
{
    let ghost gviews = content_views(group@, 0);
    proof {
        lemma_content_views_len(group@, 0);
    }
    let mut states: Vec<StateDescriptor> = Vec::new();
    let mut template: Vec<crate::reactive_js::Content> = Vec::new();
    let mut i: usize = 0;
    proof {
        assert(gviews.take(0) =~= Seq::<ContentV>::empty());
        assert(state_desc_views(states@) =~= Seq::<crate::model::StateDescV>::empty());
        assert(states_in(gviews.take(0)) =~= Seq::<crate::model::StateDescV>::empty());
        assert(dedup_states(states_in(gviews.take(0))) =~= Seq::<
            crate::model::StateDescV,
        >::empty());
        assert(tpl_views(template@) =~= Seq::<TplV>::empty());
        assert(group_tpl(gviews.take(0), dedup_states(states_in(gviews.take(0)))) =~= Seq::<
            TplV,
        >::empty());
    }
    while i < group.len()
        invariant
            gviews == content_views(group@, 0),
            gviews.len() == group@.len(),
            0 <= i <= gviews.len(),
            state_desc_views(states@) == dedup_states(states_in(gviews.take(i as int))),
            tpl_views(template@) == group_tpl(
                gviews.take(i as int),
                dedup_states(states_in(gviews.take(i as int))),
            ),
            forall|j: int|
                0 <= j < i ==> ((#[trigger] gviews[j]) is State ==> has_state_id(
                    state_desc_views(states@),
                    gviews[j]->State_0.state_id,
                )),
        decreases gviews.len() - i,
    {
        let ghost prefix = gviews.take(i as int);
        let ghost prefix1 = gviews.take(i as int + 1);
        let ghost old_states = state_desc_views(states@);
        proof {
            lemma_content_views_index(group@, 0, i as int);
            assert(prefix1.drop_last() =~= prefix);
            assert(prefix1.last() == gviews[i as int]);
        }
        match &group[i] {
            Content::Raw(t) => {
                let ghost tpl_before = tpl_views(template@);
                template.push(crate::reactive_js::Content::Text(t.clone()));
                proof {
                    assert(states_in(prefix1) =~= states_in(prefix));
                    assert(tpl_views(template@) =~= tpl_before.push(TplV::Text(t@)));
                }
            },
            Content::Text(t) => {
                let escaped = crate::escape::encode_script_single_quoted_text(t.as_str());
                let ghost tpl_before = tpl_views(template@);
                template.push(crate::reactive_js::Content::Text(escaped));
                proof {
                    assert(states_in(prefix1) =~= states_in(prefix));
                    assert(tpl_views(template@) =~= tpl_before.push(
                        TplV::Text(crate::escape::script_single_quoted_text_of(t@)),
                    ));
                }
            },
            Content::State(d) => {
                proof {
                    assert(states_in(prefix1) =~= states_in(prefix).push(d@));
                    assert(states_in(prefix1).drop_last() =~= states_in(prefix));
                    assert(states_in(prefix1).last() == d@);
                }
                let n = states.len();
                let mut j: usize = 0;
                let mut found = n;
                while j < n
                    invariant
                        0 <= j <= n,
                        n == states@.len(),
                        found == n,
                        forall|m: int|
                            0 <= m < j ==> (#[trigger] state_desc_views(states@)[m]).state_id
                                != d@.state_id,
                    decreases n - j,
                {
                    if str_eq(states[j].state_id.as_str(), d.state_id.as_str()) {
                        found = j;
                        break ;
                    }
                    j = j + 1;
                }
                let ghost tpl_before = tpl_views(template@);
                if found < n {
                    proof {
                        assert(state_desc_views(states@)[found as int].state_id == d@.state_id);
                        lemma_first_index_at(old_states, d@.state_id, found as int);
                        assert(has_state_id(old_states, d@.state_id));
                        lemma_dedup_has_id(states_in(prefix), d@.state_id);
                        assert(dedup_states(states_in(prefix1)) == old_states);
                    }
                    template.push(crate::reactive_js::Content::Var(found));
                    proof {
                        assert(tpl_views(template@) =~= tpl_before.push(TplV::Var(found as int)));
                    }
                } else {
                    proof {
                        assert(!has_state_id(old_states, d@.state_id));
                        lemma_dedup_has_id(states_in(prefix), d@.state_id);
                        assert(dedup_states(states_in(prefix1)) == old_states.push(d@));
                        lemma_first_index_absent(old_states, d@);
                        lemma_group_tpl_extend(prefix, old_states, d@);
                    }
                    template.push(crate::reactive_js::Content::Var(states.len()));
                    states.push(d.clone());
                    proof {
                        assert(state_desc_views(states@) =~= old_states.push(d@));
                        assert(tpl_views(template@) =~= tpl_before.push(
                            TplV::Var(old_states.len() as int),
                        ));
                    }
                }
                proof {
                    assert(gviews[i as int] == ContentV::State(d@));
                    assert(has_state_id(state_desc_views(states@), d@.state_id)) by {
                        if has_state_id(old_states, d@.state_id) {
                            let w = choose|m: int|
                                0 <= m < old_states.len() && (#[trigger] old_states[m]).state_id
                                    == d@.state_id;
                            assert(state_desc_views(states@)[w].state_id == d@.state_id);
                        } else {
                            assert(state_desc_views(states@) == old_states.push(d@));
                            assert(state_desc_views(states@)[old_states.len() as int].state_id
                                == d@.state_id);
                        }
                    }
                    assert forall|jj: int| 0 <= jj < i + 1 implies ((
                    #[trigger] gviews[jj]) is State ==> has_state_id(
                        state_desc_views(states@),
                        gviews[jj]->State_0.state_id,
                    )) by {
                        if gviews[jj] is State {
                            if jj < i {
                                assert(has_state_id(old_states, gviews[jj]->State_0.state_id));
                                let w = choose|m: int|
                                    0 <= m < old_states.len() && (#[trigger] old_states[m]).state_id
                                        == gviews[jj]->State_0.state_id;
                                assert(state_desc_views(states@)[w] == old_states[w]);
                                assert(state_desc_views(states@)[w].state_id
                                    == gviews[jj]->State_0.state_id);
                            } else {
                                assert(gviews[jj] == gviews[i as int]);
                            }
                        }
                    }
                }
            },
            _ => {
                let ghost tpl_before = tpl_views(template@);
                template.push(crate::reactive_js::Content::Text(String::new()));
                proof {
                    assert(states_in(prefix1) =~= states_in(prefix));
                    assert(tpl_views(template@) =~= tpl_before.push(
                        TplV::Text(Seq::<char>::empty()),
                    ));
                }
            },
        }
        i = i + 1;
    }
    proof {
        assert(gviews.take(gviews.len() as int) =~= gviews);
    }
    ReactivityDescriptor {
        element_id: eid.clone(),
        child_node_idx: Some(idx),
        target: Target::TextContent,
        state_descriptors: states,
        content: template,
    }
}

fn content_is_lit(c: &Content) -> (r: bool)
    ensures
        r == content_lit(view_content(*c)),
{
    match c {
        Content::Raw(_) => true,
        Content::Text(_) => true,
        _ => false,
    }
}

fn merge_contents(input: Vec<Content>) -> (r: Vec<Content>)
    ensures
        content_views(r@, 0) == merge_lits(content_views(input@, 0)),
    decreases input@.len(),
{
    let mut l = input;
    let ghost input_seq = l@;
    let ghost orig = content_views(input_seq, 0);
    proof {
        lemma_content_views_len(input_seq, 0);
    }
    if l.len() < 2 {
        return l;
    }
    let first_lit = content_is_lit(&l[0]);
    let second_lit = content_is_lit(&l[1]);
    proof {
        lemma_content_views_index(input_seq, 0, 0);
        lemma_content_views_index(input_seq, 0, 1);
    }
    if first_lit && second_lit {
        let mut first = l.remove(0);
        proof {
            assert(first == input_seq[0]);
        }
        let mut second = l.remove(0);
        proof {
            assert(second == input_seq[1]);
            assert(l@ =~= input_seq.skip(2));
        }
        first.text_to_raw();
        second.text_to_raw();
        let mut joined = match first {
            Content::Raw(t) => t,
            _ => String::new(),
        };
        match second {
            Content::Raw(t) => {
                joined.append(t.as_str());
            },
            _ => {},
        }
        proof {
            assert(joined@ == content_lit_chars(orig[0]) + content_lit_chars(orig[1]));
        }
        let ghost joined_view = joined@;
        l.insert(0, Content::Raw(joined));
        proof {
            assert(l@ =~= seq![l@[0]] + input_seq.skip(2));
            lemma_content_views_len(l@, 0);
            assert forall|j: int| 0 <= j < l@.len() implies content_views(l@, 0)[j] == (seq![
                ContentV::Raw(content_lit_chars(orig[0]) + content_lit_chars(orig[1])),
            ] + orig.skip(2))[j] by {
                lemma_content_views_index(l@, 0, j);
                if j == 0 {
                    assert(view_content(l@[0]) == ContentV::Raw(joined_view));
                } else {
                    assert(l@[j] == input_seq[j + 1]);
                    lemma_content_views_index(input_seq, 0, j + 1);
                }
            }
            assert(content_views(l@, 0) =~= seq![
                ContentV::Raw(content_lit_chars(orig[0]) + content_lit_chars(orig[1])),
            ] + orig.skip(2));
        }
        merge_contents(l)
    } else {
        let first = l.remove(0);
        let ghost first_view = view_content(first);
        proof {
            assert(first == input_seq[0]);
            assert(first_view == orig[0]);
            assert(l@ =~= input_seq.skip(1));
            lemma_content_views_len(l@, 0);
            assert forall|j: int| 0 <= j < l@.len() implies content_views(l@, 0)[j] == orig.skip(
                1,
            )[j] by {
                lemma_content_views_index(l@, 0, j);
                assert(l@[j] == input_seq[j + 1]);
                lemma_content_views_index(input_seq, 0, j + 1);
            }
            assert(content_views(l@, 0) =~= orig.skip(1));
        }
        let rest = merge_contents(l);
        let ghost rest_seq = rest@;
        let ghost rest_views = content_views(rest@, 0);
        let mut out = rest;
        out.insert(0, first);
        proof {
            assert(out@ =~= seq![out@[0]] + rest_seq);
            assert(view_content(out@[0]) == first_view);
            lemma_content_views_len(out@, 0);
            lemma_content_views_len(rest_seq, 0);
            assert forall|j: int| 0 <= j < out@.len() implies content_views(out@, 0)[j] == (seq![
                orig[0],
            ] + rest_views)[j] by {
                lemma_content_views_index(out@, 0, j);
                if j > 0 {
                    assert(out@[j] == rest_seq[j - 1]);
                    lemma_content_views_index(rest_seq, 0, j - 1);
                }
            }
            assert(content_views(out@, 0) =~= seq![orig[0]] + rest_views);
        }
        out
    }
}

} // verus!

//! The library's stated laws: what canonicalization guarantees and how it
//! interacts with the reactivity compiler.

use vstd::prelude::*;

use crate::model::{
    attr_value_lit, attr_value_lit_chars, canon_attr, canon_content, canon_each, canon_element,
    content_canonical, content_lit, content_lit_chars, element_reactive, flatten_drop,
    give_ids_element, merge_attr_lits, merge_lits, render_attr, render_attr_value,
    render_attr_values, render_content, render_content_list, render_element, AttrV, AttrValueV,
    ContentV, ElementV,
};
use crate::reactive_js::{
    add_descs, av_item_tpl, av_states, av_tpl, compile_attr, compile_attrs, compile_content,
    compile_element, compile_list, dedup_states, descs_script, first_state_index, flush_group,
    group_desc, group_tpl, has_state_id, inits_script, item_tpl, lemma_dedup_has_id,
    lemma_dedup_unique, states_in, DescV, ReactivityV, TplV,
};
use crate::model::StateDescV;

verus! {

/// Canonicalizing an empty list collapses it away, empty content compiles to
/// no descriptor, adding no descriptors changes nothing, and a compiler
/// state with no descriptors and no initial values generates an empty
/// script.
pub proof fn lemma_empty_list_no_script(eid: Option<Seq<char>>, r: ReactivityV)
    ensures
        canon_content(ContentV::List(Seq::empty())) == ContentV::Empty,
        compile_content(ContentV::Empty, eid) == Seq::<DescV>::empty(),
        add_descs(r, Seq::<DescV>::empty(), 0) == r,
        r.descs.len() == 0 && r.inits.len() == 0 ==> descs_script(r.descs, 0) + inits_script(
            r.inits,
            0,
        ) == Seq::<char>::empty(),
{
    assert(canon_each(Seq::<ContentV>::empty(), 0) =~= Seq::<ContentV>::empty());
    assert(flatten_drop(Seq::<ContentV>::empty()) =~= Seq::<ContentV>::empty());
    assert(merge_lits(Seq::<ContentV>::empty()) =~= Seq::<ContentV>::empty());
    if r.descs.len() == 0 && r.inits.len() == 0 {
        assert(descs_script(r.descs, 0) + inits_script(r.inits, 0) =~= Seq::<char>::empty());
    }
}

/// Every item that canonicalization of a list produces is canonical, is
/// neither empty nor a list, and literals never stand adjacent; a list that
/// survives holds at least two items.
pub proof fn lemma_canon_canonical(c: ContentV)
    ensures
        content_canonical(canon_content(c)),
    decreases c, 0int,
{
    match c {
        ContentV::Element(e) => {
            lemma_canon_canonical(e.content);
        },
        ContentV::List(l) => {
            lemma_canon_each_canonical(l, 0);
            let each = canon_each(l, 0);
            lemma_flatten_drop_items(each);
            let flat = flatten_drop(each);
            lemma_merge_lits_items(flat);
            let items = merge_lits(flat);
            if items.len() >= 2 {
                assert(content_canonical(ContentV::List(items)));
            }
        },
        _ => {},
    }
}

/// Each item of `canon_each` is the canonicalization of the corresponding
/// input item, so canonical.
proof fn lemma_canon_each_canonical(l: Seq<ContentV>, i: int)
    requires
        0 <= i <= l.len(),
    ensures
        canon_each(l, i).len() == l.len() - i,
        forall|k: int|
            0 <= k < l.len() - i ==> content_canonical(#[trigger] canon_each(l, i)[k]) && (
            canon_each(l, i)[k] is List ==> canon_each(l, i)[k]->List_0.len() >= 2),
    decreases l, l.len() - i,
{
    if i < l.len() {
        lemma_canon_canonical(l[i]);
        lemma_canon_each_canonical(l, i + 1);
        assert(canon_each(l, i)[0] == canon_content(l[i]));
        match l[i] {
            ContentV::List(inner) => {
                let items = merge_lits(flatten_drop(canon_each(inner, 0)));
                if items.len() >= 2 {
                    assert(canon_content(l[i])->List_0.len() >= 2);
                }
            },
            _ => {
                assert(!(canon_content(l[i]) is List));
            },
        }
        assert(forall|k: int|
            1 <= k < l.len() - i ==> #[trigger] canon_each(l, i)[k] == canon_each(l, i + 1)[k
                - 1]);
    }
}

/// Flattening a sequence of canonical items yields canonical items that are
/// neither empty nor lists.
proof fn lemma_flatten_drop_items(s: Seq<ContentV>)
    requires
        forall|k: int|
            0 <= k < s.len() ==> content_canonical(#[trigger] s[k]) && (s[k] is List
                ==> s[k]->List_0.len() >= 2),
    ensures
        forall|k: int|
            0 <= k < flatten_drop(s).len() ==> content_canonical(#[trigger] flatten_drop(s)[k])
                && !(flatten_drop(s)[k] is List) && !(flatten_drop(s)[k] is Empty),
    decreases s.len(),
{
    if s.len() > 0 {
        assert(forall|k: int|
            0 <= k < s.drop_first().len() ==> content_canonical(#[trigger] s.drop_first()[k]) && (
            s.drop_first()[k] is List ==> s.drop_first()[k]->List_0.len() >= 2));
        lemma_flatten_drop_items(s.drop_first());
        match s.first() {
            ContentV::Empty => {},
            ContentV::List(inner) => {
                assert(content_canonical(s[0]));
                assert(forall|k: int|
                    0 <= k < inner.len() ==> content_canonical(#[trigger] inner[k]) && !(inner[k]
                        is List) && !(inner[k] is Empty));
                assert(forall|k: int|
                    0 <= k < flatten_drop(s).len() ==> flatten_drop(s)[k] == (if k < inner.len() {
                        inner[k]
                    } else {
                        flatten_drop(s.drop_first())[k - inner.len()]
                    }));
            },
            _ => {
                assert(flatten_drop(s)[0] == s[0]);
                assert(forall|k: int|
                    1 <= k < flatten_drop(s).len() ==> #[trigger] flatten_drop(s)[k]
                        == flatten_drop(s.drop_first())[k - 1]);
            },
        }
    }
}

/// Merging adjacent literals keeps items canonical, non-empty and non-list,
/// and leaves no two adjacent literals: every run has been joined into one
/// raw segment.
proof fn lemma_merge_lits_items(s: Seq<ContentV>)
    requires
        forall|k: int|
            0 <= k < s.len() ==> content_canonical(#[trigger] s[k]) && !(s[k] is List) && !(s[k]
                is Empty),
    ensures
        forall|k: int|
            0 <= k < merge_lits(s).len() ==> content_canonical(#[trigger] merge_lits(s)[k]) && !(
            merge_lits(s)[k] is List) && !(merge_lits(s)[k] is Empty),
        forall|k: int|
            0 <= k < merge_lits(s).len() - 1 ==> !(content_lit(#[trigger] merge_lits(s)[k])
                && content_lit(merge_lits(s)[k + 1])),
        merge_lits(s).len() > 0 ==> s.len() > 0 && (content_lit(merge_lits(s)[0]) ==> content_lit(
            s[0],
        )),
    decreases s.len(),
{
    if s.len() < 2 {
    } else if content_lit(s[0]) && content_lit(s[1]) {
        let joined = seq![
            ContentV::Raw(
                crate::model::content_lit_chars(s[0]) + crate::model::content_lit_chars(s[1]),
            ),
        ] + s.skip(2);
        assert(forall|k: int|
            0 <= k < joined.len() ==> content_canonical(#[trigger] joined[k]) && !(joined[k]
                is List) && !(joined[k] is Empty)) by {
            assert(forall|k: int| 1 <= k < joined.len() ==> #[trigger] joined[k] == s[k + 1]);
        }
        lemma_merge_lits_items(joined);
        assert(content_lit(joined[0]));
    } else {
        assert(forall|k: int|
            0 <= k < s.skip(1).len() ==> content_canonical(#[trigger] s.skip(1)[k]) && !(s.skip(
                1,
            )[k] is List) && !(s.skip(1)[k] is Empty));
        lemma_merge_lits_items(s.skip(1));
        let r = seq![s[0]] + merge_lits(s.skip(1));
        assert(forall|k: int| 1 <= k < r.len() ==> #[trigger] r[k] == merge_lits(s.skip(1))[k - 1]);
        assert forall|k: int| 0 <= k < r.len() - 1 implies !(content_lit(#[trigger] r[k])
            && content_lit(r[k + 1])) by {
            if k == 0 {
                if content_lit(r[0]) && content_lit(r[1]) {
                    assert(content_lit(merge_lits(s.skip(1))[0]));
                    assert(content_lit(s.skip(1)[0]));
                    assert(content_lit(s[1]));
                }
            }
        }
    }
}

/// Merging a list with no adjacent literals changes nothing.
proof fn lemma_merge_lits_identity(s: Seq<ContentV>)
    requires
        forall|k: int| 0 <= k < s.len() - 1 ==> !(content_lit(#[trigger] s[k]) && content_lit(s[k + 1])),
    ensures
        merge_lits(s) == s,
    decreases s.len(),
{
    if s.len() >= 2 {
        assert(!(content_lit(s[0]) && content_lit(s[1])));
        assert(forall|k: int|
            0 <= k < s.skip(1).len() - 1 ==> !(content_lit(#[trigger] s.skip(1)[k]) && content_lit(
                s.skip(1)[k + 1],
            ))) by {
            assert(forall|k: int| 0 <= k < s.skip(1).len() ==> #[trigger] s.skip(1)[k] == s[k + 1]);
        }
        lemma_merge_lits_identity(s.skip(1));
        assert(merge_lits(s) =~= s);
    }
}

/// A canonicalized singleton list is the canonicalization of its sole
/// member: compiling one produces exactly what compiling the other does.
pub proof fn lemma_singleton_list_canon(x: ContentV, eid: Option<Seq<char>>)
    ensures
        canon_content(ContentV::List(seq![x])) == canon_content(x),
        compile_content(canon_content(ContentV::List(seq![x])), eid) == compile_content(
            canon_content(x),
            eid,
        ),
{
    let l = seq![x];
    assert(canon_each(l, 1) =~= Seq::<ContentV>::empty());
    assert(canon_each(l, 0) =~= seq![canon_content(x)]);
    let cx = canon_content(x);
    assert(flatten_drop(seq![cx]).len() >= 0);
    assert(seq![cx].drop_first() =~= Seq::<ContentV>::empty());
    assert(flatten_drop(Seq::<ContentV>::empty()) =~= Seq::<ContentV>::empty());
    match cx {
        ContentV::Empty => {
            assert(flatten_drop(seq![cx]) =~= Seq::<ContentV>::empty());
            assert(merge_lits(Seq::<ContentV>::empty()) =~= Seq::<ContentV>::empty());
            assert(canon_content(ContentV::List(l)) == ContentV::Empty);
        },
        ContentV::List(inner) => {
            assert(flatten_drop(seq![cx]) =~= inner);
            lemma_canon_canonical(x);
            assert(content_canonical(cx));
            assert(forall|k: int|
                0 <= k < inner.len() - 1 ==> !(content_lit(#[trigger] inner[k]) && content_lit(
                    inner[k + 1],
                )));
            lemma_merge_lits_identity(inner);
            assert(inner.len() >= 2);
            assert(canon_content(ContentV::List(l)) == ContentV::List(inner));
        },
        _ => {
            assert(flatten_drop(seq![cx]) =~= seq![cx]);
            assert(merge_lits(seq![cx]) == seq![cx]);
            assert(canon_content(ContentV::List(l)) == cx);
        },
    }
}


/// The shape of a text run's descriptor: its template has exactly one slot
/// per item of the run, and its dependency list carries each state id once,
/// even when a state id appears several times in the run.
pub proof fn lemma_group_descriptor_shape(g: Seq<ContentV>, idx: int, eid: Seq<char>)
    ensures
        group_desc(g, idx, eid).template.len() == g.len(),
        forall|i: int, j: int|
            0 <= i < j < group_desc(g, idx, eid).states.len() ==> (#[trigger] group_desc(
                g,
                idx,
                eid,
            ).states[i]).state_id != (#[trigger] group_desc(g, idx, eid).states[j]).state_id,
{
    lemma_group_tpl_len(g, dedup_states(states_in(g)));
    lemma_dedup_unique(states_in(g));
}

proof fn lemma_group_tpl_len(g: Seq<ContentV>, states: Seq<crate::model::StateDescV>)
    ensures
        group_tpl(g, states).len() == g.len(),
    decreases g.len(),
{
    if g.len() > 0 {
        lemma_group_tpl_len(g.drop_last(), states);
    }
}



proof fn lemma_render_single(x: ContentV)
    ensures
        render_content_list(seq![x], 0) == render_content(x),
{
    assert(render_content_list(seq![x], 1) =~= Seq::<char>::empty());
    assert(seq![x][0] == x);
    assert(render_content_list(seq![x], 0) =~= render_content(x));
}

proof fn lemma_render_list_skip(l: Seq<ContentV>, i: int)
    requires
        0 <= i <= l.len(),
    ensures
        render_content_list(l, i) == render_content_list(l.skip(i), 0),
    decreases l.len() - i,
{
    if i == l.len() {
        assert(l.skip(i).len() == 0);
    } else {
        lemma_render_list_skip(l, i + 1);
        assert(l.skip(i)[0] == l[i]);
        lemma_render_list_skip(l.skip(i), 1);
        assert(l.skip(i).skip(1) =~= l.skip(i + 1));
    }
}

proof fn lemma_render_list_concat(a: Seq<ContentV>, b: Seq<ContentV>)
    ensures
        render_content_list(a + b, 0) == render_content_list(a, 0) + render_content_list(b, 0),
    decreases a.len(),
{
    let joined = a + b;
    if a.len() == 0 {
        assert(joined =~= b);
        assert(render_content_list(a, 0) =~= Seq::<char>::empty());
        assert(render_content_list(joined, 0) =~= render_content_list(a, 0)
            + render_content_list(b, 0));
    } else {
        assert(joined[0] == a[0]);
        lemma_render_list_skip(joined, 1);
        assert(joined.skip(1) =~= a.drop_first() + b);
        lemma_render_list_concat(a.drop_first(), b);
        lemma_render_list_skip(a, 1);
        assert(a.skip(1) =~= a.drop_first());
        assert(render_content_list(joined, 0) =~= render_content_list(a, 0)
            + render_content_list(b, 0));
    }
}

proof fn lemma_flatten_drop_render(s: Seq<ContentV>)
    ensures
        render_content_list(flatten_drop(s), 0) == render_content_list(s, 0),
    decreases s.len(),
{
    if s.len() > 0 {
        lemma_flatten_drop_render(s.drop_first());
        lemma_render_list_skip(s, 1);
        assert(s.skip(1) =~= s.drop_first());
        match s.first() {
            ContentV::Empty => {
                assert(render_content(s[0]) =~= Seq::<char>::empty());
                assert(render_content_list(s, 0) =~= render_content_list(s.drop_first(), 0));
            },
            ContentV::List(inner) => {
                lemma_render_list_concat(inner, flatten_drop(s.drop_first()));
                assert(render_content(s[0]) == render_content_list(inner, 0));
            },
            _ => {
                assert(flatten_drop(s) =~= seq![s.first()] + flatten_drop(s.drop_first()));
                lemma_render_list_concat(seq![s.first()], flatten_drop(s.drop_first()));
                lemma_render_single(s.first());
            },
        }
    }
}

proof fn lemma_merge_lits_render(s: Seq<ContentV>)
    ensures
        render_content_list(merge_lits(s), 0) == render_content_list(s, 0),
    decreases s.len(),
{
    if s.len() < 2 {
    } else if content_lit(s[0]) && content_lit(s[1]) {
        let joined = seq![ContentV::Raw(content_lit_chars(s[0]) + content_lit_chars(s[1]))]
            + s.skip(2);
        lemma_merge_lits_render(joined);
        assert(render_content(s[0]) == content_lit_chars(s[0]));
        assert(render_content(s[1]) == content_lit_chars(s[1]));
        lemma_render_list_concat(
            seq![ContentV::Raw(content_lit_chars(s[0]) + content_lit_chars(s[1]))],
            s.skip(2),
        );
        lemma_render_single(ContentV::Raw(content_lit_chars(s[0]) + content_lit_chars(s[1])));
        lemma_render_list_skip(s, 1);
        assert(s.skip(1) =~= s.drop_first());
        lemma_render_list_skip(s.drop_first(), 1);
        assert(s.drop_first().skip(1) =~= s.skip(2));
        assert(render_content_list(s, 0) =~= content_lit_chars(s[0]) + content_lit_chars(s[1])
            + render_content_list(s.skip(2), 0));
        assert(render_content_list(merge_lits(s), 0) =~= render_content_list(s, 0));
    } else {
        lemma_merge_lits_render(s.skip(1));
        lemma_render_list_concat(seq![s[0]], merge_lits(s.skip(1)));
        lemma_render_single(s[0]);
        lemma_render_list_skip(s, 1);
        assert(render_content_list(merge_lits(s), 0) =~= render_content_list(s, 0));
    }
}

proof fn lemma_canon_each_render(l: Seq<ContentV>, i: int)
    requires
        0 <= i <= l.len(),
    ensures
        render_content_list(canon_each(l, i), 0) == render_content_list(l, i),
    decreases l, l.len() - i,
{
    if i < l.len() {
        lemma_canon_preserves_render(l[i]);
        lemma_canon_each_render(l, i + 1);
        lemma_render_list_concat(seq![canon_content(l[i])], canon_each(l, i + 1));
        lemma_render_single(canon_content(l[i]));
        assert(render_content_list(canon_each(l, i), 0) =~= render_content_list(l, i));
    } else {
        assert(render_content_list(canon_each(l, i), 0) =~= Seq::<char>::empty());
    }
}

/// Canonicalization changes how content is stored, never what it renders
/// as: the canonical form produces the same characters.
pub proof fn lemma_canon_preserves_render(c: ContentV)
    ensures
        render_content(canon_content(c)) == render_content(c),
    decreases c, 0int,
{
    match c {
        ContentV::Element(e) => {
            lemma_canon_preserves_render(e.content);
            lemma_canon_preserves_render_element(*e);
        },
        ContentV::List(l) => {
            lemma_canon_each_render(l, 0);
            lemma_flatten_drop_render(canon_each(l, 0));
            lemma_merge_lits_render(flatten_drop(canon_each(l, 0)));
            let items = merge_lits(flatten_drop(canon_each(l, 0)));
            if items.len() == 0 {
                assert(render_content_list(items, 0) =~= Seq::<char>::empty());
            } else if items.len() == 1 {
                lemma_render_list_skip(items, 1);
                assert(items.skip(1).len() == 0);
                assert(render_content_list(items, 0) =~= render_content(items[0]));
            }
        },
        _ => {},
    }
}

/// The element form of the same fact.
pub proof fn lemma_canon_preserves_render_element(e: ElementV)
    requires
        render_content(canon_content(e.content)) == render_content(e.content),
    ensures
        render_element(canon_element(e)) == render_element(e),
{
}


/// After id assignment, a reactive element always carries an id, and an
/// element that neither had one nor is reactive still has none.
pub proof fn lemma_give_ids_reactive(e: ElementV, seed: u64, start: nat)
    ensures
        element_reactive(e) ==> give_ids_element(e, seed, start).0.id is Some,
        !element_reactive(e) && e.id is None ==> give_ids_element(e, seed, start).0.id is None,
        e.id is Some ==> give_ids_element(e, seed, start).0.id == e.id,
{
}


proof fn lemma_rav_single(x: AttrValueV)
    ensures
        render_attr_values(seq![x], 0) == render_attr_value(x),
{
    assert(render_attr_values(seq![x], 1) =~= Seq::<char>::empty());
    assert(seq![x][0] == x);
    assert(render_attr_values(seq![x], 0) =~= render_attr_value(x));
}

proof fn lemma_rav_skip(l: Seq<AttrValueV>, i: int)
    requires
        0 <= i <= l.len(),
    ensures
        render_attr_values(l, i) == render_attr_values(l.skip(i), 0),
    decreases l.len() - i,
{
    if i == l.len() {
        assert(l.skip(i).len() == 0);
    } else {
        lemma_rav_skip(l, i + 1);
        assert(l.skip(i)[0] == l[i]);
        lemma_rav_skip(l.skip(i), 1);
        assert(l.skip(i).skip(1) =~= l.skip(i + 1));
    }
}

proof fn lemma_rav_concat(a: Seq<AttrValueV>, b: Seq<AttrValueV>)
    ensures
        render_attr_values(a + b, 0) == render_attr_values(a, 0) + render_attr_values(b, 0),
    decreases a.len(),
{
    let joined = a + b;
    if a.len() == 0 {
        assert(joined =~= b);
        assert(render_attr_values(a, 0) =~= Seq::<char>::empty());
        assert(render_attr_values(joined, 0) =~= render_attr_values(a, 0) + render_attr_values(
            b,
            0,
        ));
    } else {
        assert(joined[0] == a[0]);
        lemma_rav_skip(joined, 1);
        assert(joined.skip(1) =~= a.drop_first() + b);
        lemma_rav_concat(a.drop_first(), b);
        lemma_rav_skip(a, 1);
        assert(a.skip(1) =~= a.drop_first());
        assert(render_attr_values(joined, 0) =~= render_attr_values(a, 0) + render_attr_values(
            b,
            0,
        ));
    }
}

proof fn lemma_merge_attr_lits_render(l: Seq<AttrValueV>)
    ensures
        render_attr_values(merge_attr_lits(l), 0) == render_attr_values(l, 0),
    decreases l.len(),
{
    if l.len() < 2 {
    } else if attr_value_lit(l[0]) && attr_value_lit(l[1]) {
        let joined = seq![AttrValueV::Raw(attr_value_lit_chars(l[0]) + attr_value_lit_chars(l[1]))]
            + l.skip(2);
        lemma_merge_attr_lits_render(joined);
        assert(render_attr_value(l[0]) == attr_value_lit_chars(l[0]));
        assert(render_attr_value(l[1]) == attr_value_lit_chars(l[1]));
        lemma_rav_concat(
            seq![AttrValueV::Raw(attr_value_lit_chars(l[0]) + attr_value_lit_chars(l[1]))],
            l.skip(2),
        );
        lemma_rav_single(AttrValueV::Raw(attr_value_lit_chars(l[0]) + attr_value_lit_chars(l[1])));
        lemma_rav_skip(l, 1);
        assert(l.skip(1) =~= l.drop_first());
        lemma_rav_skip(l.drop_first(), 1);
        assert(l.drop_first().skip(1) =~= l.skip(2));
        assert(render_attr_values(l, 0) =~= attr_value_lit_chars(l[0]) + attr_value_lit_chars(
            l[1],
        ) + render_attr_values(l.skip(2), 0));
        assert(render_attr_values(merge_attr_lits(l), 0) =~= render_attr_values(l, 0));
    } else {
        lemma_merge_attr_lits_render(l.skip(1));
        lemma_rav_concat(seq![l[0]], merge_attr_lits(l.skip(1)));
        lemma_rav_single(l[0]);
        lemma_rav_skip(l, 1);
        assert(render_attr_values(merge_attr_lits(l), 0) =~= render_attr_values(l, 0));
    }
}

/// Attribute canonicalization changes how an attribute is stored, never what
/// it renders as: merging adjacent literal values keeps the attribute-escaped
/// text intact.
pub proof fn lemma_canon_attr_preserves_render(a: AttrV)
    ensures
        render_attr(canon_attr(a)) == render_attr(a),
{
    match a {
        AttrV::List(l) => {
            lemma_merge_attr_lits_render(l);
            let items = merge_attr_lits(l);
            if items.len() == 0 {
                assert(render_attr_values(items, 0) =~= Seq::<char>::empty());
            } else if items.len() == 1 {
                lemma_rav_single(items[0]);
                assert(items =~= seq![items[0]]);
            }
        },
        _ => {},
    }
}


/// The shape every compiled descriptor has: its dependency list carries
/// each state id once, every variable slot points inside that list, and
/// there are at least as many template slots as dependencies.
pub open spec fn desc_shaped(d: DescV) -> bool {
    &&& (forall|i: int, j: int|
        0 <= i < j < d.states.len() ==> (#[trigger] d.states[i]).state_id != (
        #[trigger] d.states[j]).state_id)
    &&& (forall|k: int|
        0 <= k < d.template.len() ==> ((#[trigger] d.template[k]) matches TplV::Var(v) ==> 0 <= v
            < d.states.len()))
    &&& d.states.len() <= d.template.len()
}

proof fn lemma_first_index_bound(s: Seq<StateDescV>, id: Seq<char>)
    requires
        has_state_id(s, id),
    ensures
        0 <= first_state_index(s, id) < s.len(),
    decreases s.len(),
{
    if s.first().state_id == id {
    } else {
        let w = choose|i: int| 0 <= i < s.len() && (#[trigger] s[i]).state_id == id;
        assert(s.drop_first()[w - 1].state_id == id);
        lemma_first_index_bound(s.drop_first(), id);
    }
}

proof fn lemma_dedup_len(s: Seq<StateDescV>)
    ensures
        dedup_states(s).len() <= s.len(),
    decreases s.len(),
{
    if s.len() > 0 {
        lemma_dedup_len(s.drop_last());
    }
}

proof fn lemma_states_in_len(g: Seq<ContentV>)
    ensures
        states_in(g).len() <= g.len(),
    decreases g.len(),
{
    if g.len() > 0 {
        lemma_states_in_len(g.drop_last());
    }
}

proof fn lemma_states_in_member(g: Seq<ContentV>, k: int)
    requires
        0 <= k < g.len(),
        g[k] is State,
    ensures
        has_state_id(states_in(g), g[k]->State_0.state_id),
    decreases g.len(),
{
    if k == g.len() - 1 {
        assert(g.last() == g[k]);
        assert(states_in(g)[states_in(g.drop_last()).len() as int].state_id
            == g[k]->State_0.state_id);
    } else {
        assert(g.drop_last()[k] == g[k]);
        lemma_states_in_member(g.drop_last(), k);
        let w = choose|i: int|
            0 <= i < states_in(g.drop_last()).len() && (#[trigger] states_in(g.drop_last())[i]).state_id
                == g[k]->State_0.state_id;
        assert(states_in(g)[w].state_id == g[k]->State_0.state_id);
    }
}

proof fn lemma_group_tpl_var_range(g: Seq<ContentV>, states: Seq<StateDescV>)
    requires
        forall|k: int|
            0 <= k < g.len() ==> ((#[trigger] g[k]) is State ==> has_state_id(
                states,
                g[k]->State_0.state_id,
            )),
    ensures
        forall|k: int|
            0 <= k < group_tpl(g, states).len() ==> ((#[trigger] group_tpl(g, states)[k])
                matches TplV::Var(v) ==> 0 <= v < states.len()),
    decreases g.len(),
{
    if g.len() > 0 {
        assert(forall|k: int|
            0 <= k < g.drop_last().len() ==> ((#[trigger] g.drop_last()[k]) is State
                ==> has_state_id(states, g.drop_last()[k]->State_0.state_id)));
        lemma_group_tpl_var_range(g.drop_last(), states);
        lemma_group_tpl_len(g.drop_last(), states);
        match g.last() {
            ContentV::State(d) => {
                assert(g[g.len() - 1] is State);
                lemma_first_index_bound(states, d.state_id);
            },
            _ => {},
        }
        assert(forall|k: int|
            0 <= k < g.len() - 1 ==> #[trigger] group_tpl(g, states)[k] == group_tpl(
                g.drop_last(),
                states,
            )[k]);
        assert(group_tpl(g, states).last() == item_tpl(g.last(), states));
    }
}

proof fn lemma_group_desc_shaped(g: Seq<ContentV>, idx: int, eid: Seq<char>)
    ensures
        desc_shaped(group_desc(g, idx, eid)),
{
    let states = dedup_states(states_in(g));
    lemma_dedup_unique(states_in(g));
    lemma_dedup_len(states_in(g));
    lemma_states_in_len(g);
    lemma_group_tpl_len(g, states);
    assert(forall|k: int|
        0 <= k < g.len() ==> ((#[trigger] g[k]) is State ==> has_state_id(
            states,
            g[k]->State_0.state_id,
        ))) by {
        assert forall|k: int| 0 <= k < g.len() && (#[trigger] g[k]) is State implies has_state_id(
            states,
            g[k]->State_0.state_id,
        ) by {
            lemma_states_in_member(g, k);
            lemma_dedup_has_id(states_in(g), g[k]->State_0.state_id);
        }
    }
    lemma_group_tpl_var_range(g, states);
}

proof fn lemma_av_states_len(l: Seq<AttrValueV>)
    ensures
        av_states(l).len() <= l.len(),
    decreases l.len(),
{
    if l.len() > 0 {
        lemma_av_states_len(l.drop_last());
    }
}

proof fn lemma_av_states_member(l: Seq<AttrValueV>, k: int)
    requires
        0 <= k < l.len(),
        l[k] is State,
    ensures
        has_state_id(av_states(l), l[k]->State_0.state_id),
    decreases l.len(),
{
    if k == l.len() - 1 {
        assert(l.last() == l[k]);
        assert(av_states(l)[av_states(l.drop_last()).len() as int].state_id
            == l[k]->State_0.state_id);
    } else {
        assert(l.drop_last()[k] == l[k]);
        lemma_av_states_member(l.drop_last(), k);
        let w = choose|i: int|
            0 <= i < av_states(l.drop_last()).len() && (#[trigger] av_states(l.drop_last())[i]).state_id
                == l[k]->State_0.state_id;
        assert(av_states(l)[w].state_id == l[k]->State_0.state_id);
    }
}

proof fn lemma_av_tpl_len(l: Seq<AttrValueV>, states: Seq<StateDescV>)
    ensures
        av_tpl(l, states).len() == l.len(),
    decreases l.len(),
{
    if l.len() > 0 {
        lemma_av_tpl_len(l.drop_last(), states);
    }
}

proof fn lemma_av_tpl_var_range(l: Seq<AttrValueV>, states: Seq<StateDescV>)
    requires
        forall|k: int|
            0 <= k < l.len() ==> ((#[trigger] l[k]) is State ==> has_state_id(
                states,
                l[k]->State_0.state_id,
            )),
    ensures
        forall|k: int|
            0 <= k < av_tpl(l, states).len() ==> ((#[trigger] av_tpl(l, states)[k])
                matches TplV::Var(v) ==> 0 <= v < states.len()),
    decreases l.len(),
{
    if l.len() > 0 {
        assert(forall|k: int|
            0 <= k < l.drop_last().len() ==> ((#[trigger] l.drop_last()[k]) is State
                ==> has_state_id(states, l.drop_last()[k]->State_0.state_id)));
        lemma_av_tpl_var_range(l.drop_last(), states);
        lemma_av_tpl_len(l.drop_last(), states);
        match l.last() {
            AttrValueV::State(d) => {
                assert(l[l.len() - 1] is State);
                lemma_first_index_bound(states, d.state_id);
            },
            _ => {},
        }
        assert(forall|k: int|
            0 <= k < l.len() - 1 ==> #[trigger] av_tpl(l, states)[k] == av_tpl(
                l.drop_last(),
                states,
            )[k]);
        assert(av_tpl(l, states).last() == av_item_tpl(l.last(), states));
    }
}

proof fn lemma_compile_attr_shaped(key: Seq<char>, a: AttrV, eid: Option<Seq<char>>)
    ensures
        forall|k: int|
            0 <= k < compile_attr(key, a, eid).len() ==> desc_shaped(
                #[trigger] compile_attr(key, a, eid)[k],
            ),
{
    match eid {
        Option::None => {},
        Option::Some(id) => match a {
            AttrV::Value(AttrValueV::State(d)) => {
                let one = compile_attr(key, a, eid)[0];
                assert(one.states =~= seq![d]);
                assert(one.template =~= seq![TplV::Var(0)]);
                assert(desc_shaped(one));
            },
            AttrV::List(vals) => {
                let states = dedup_states(av_states(vals));
                lemma_dedup_unique(av_states(vals));
                lemma_dedup_len(av_states(vals));
                lemma_av_states_len(vals);
                lemma_av_tpl_len(vals, states);
                assert(forall|k: int|
                    0 <= k < vals.len() ==> ((#[trigger] vals[k]) is State ==> has_state_id(
                        states,
                        vals[k]->State_0.state_id,
                    ))) by {
                    assert forall|k: int|
                        0 <= k < vals.len() && (#[trigger] vals[k]) is State implies has_state_id(
                        states,
                        vals[k]->State_0.state_id,
                    ) by {
                        lemma_av_states_member(vals, k);
                        lemma_dedup_has_id(av_states(vals), vals[k]->State_0.state_id);
                    }
                }
                lemma_av_tpl_var_range(vals, states);
                assert(desc_shaped(compile_attr(key, a, eid)[0]));
            },
            _ => {},
        },
    }
}

proof fn lemma_compile_attrs_shaped(
    attrs: Seq<(Seq<char>, AttrV)>,
    i: int,
    eid: Option<Seq<char>>,
)
    ensures
        forall|k: int|
            0 <= k < compile_attrs(attrs, i, eid).len() ==> desc_shaped(
                #[trigger] compile_attrs(attrs, i, eid)[k],
            ),
    decreases attrs.len() - i,
{
    if 0 <= i < attrs.len() {
        lemma_compile_attr_shaped(attrs[i].0, attrs[i].1, eid);
        lemma_compile_attrs_shaped(attrs, i + 1, eid);
        let this = compile_attr(attrs[i].0, attrs[i].1, eid);
        let rest = compile_attrs(attrs, i + 1, eid);
        assert forall|k: int|
            0 <= k < compile_attrs(attrs, i, eid).len() implies desc_shaped(
            #[trigger] compile_attrs(attrs, i, eid)[k],
        ) by {
            if k < this.len() {
                assert(compile_attrs(attrs, i, eid)[k] == this[k]);
            } else {
                assert(compile_attrs(attrs, i, eid)[k] == rest[k - this.len()]);
            }
        }
    }
}

proof fn lemma_flush_group_shaped(g: Seq<ContentV>, idx: int, eid: Option<Seq<char>>)
    ensures
        forall|k: int|
            0 <= k < flush_group(g, idx, eid).len() ==> desc_shaped(
                #[trigger] flush_group(g, idx, eid)[k],
            ),
{
    match eid {
        Option::Some(id) => {
            if g.len() > 0 {
                lemma_group_desc_shaped(g, idx, id);
            }
        },
        Option::None => {},
    }
}

/// Every descriptor the compiler emits anywhere in a tree is well shaped:
/// its dependency-id list has no duplicates even when a state id appears
/// several times in a template, every variable slot points at a listed
/// dependency, and the template has at least one slot per dependency.
pub proof fn lemma_compile_descriptors_shaped(c: ContentV, eid: Option<Seq<char>>)
    ensures
        forall|k: int|
            0 <= k < compile_content(c, eid).len() ==> desc_shaped(
                #[trigger] compile_content(c, eid)[k],
            ),
    decreases c, 0int,
{
    match c {
        ContentV::List(l) => {
            lemma_compile_list_shaped(l, 0, Seq::empty(), 0, 0, eid);
            let inner = compile_list(l, 0, Seq::empty(), 0, 0, eid);
            assert forall|k: int| 0 <= k < compile_content(c, eid).len() implies desc_shaped(
                #[trigger] compile_content(c, eid)[k],
            ) by {
                assert(compile_content(c, eid)[k] == inner[k]);
            }
        },
        ContentV::State(d) => {
            match eid {
                Option::Some(id) => {
                    let one = compile_content(c, eid)[0];
                    assert(one.states =~= seq![d]);
                    assert(one.template =~= seq![TplV::Var(0)]);
                    assert(desc_shaped(one));
                },
                Option::None => {},
            }
        },
        ContentV::Element(e) => {
            lemma_compile_element_shaped(*e);
            assert forall|k: int| 0 <= k < compile_content(c, eid).len() implies desc_shaped(
                #[trigger] compile_content(c, eid)[k],
            ) by {
                assert(compile_content(c, eid)[k] == compile_element(*e)[k]);
            }
        },
        _ => {},
    }
}

/// The element form of the same fact.
pub proof fn lemma_compile_element_shaped(e: ElementV)
    ensures
        forall|k: int|
            0 <= k < compile_element(e).len() ==> desc_shaped(#[trigger] compile_element(e)[k]),
    decreases e, 1int,
{
    lemma_compile_descriptors_shaped(e.content, e.id);
    lemma_compile_attrs_shaped(e.attrs, 0, e.id);
    let cs = compile_content(e.content, e.id);
    let asx = compile_attrs(e.attrs, 0, e.id);
    assert forall|k: int| 0 <= k < compile_element(e).len() implies desc_shaped(
        #[trigger] compile_element(e)[k],
    ) by {
        if k < cs.len() {
            assert(compile_element(e)[k] == cs[k]);
        } else {
            assert(compile_element(e)[k] == asx[k - cs.len()]);
        }
    }
}

proof fn lemma_compile_list_shaped(
    l: Seq<ContentV>,
    i: int,
    g: Seq<ContentV>,
    g_idx: int,
    next_idx: int,
    eid: Option<Seq<char>>,
)
    ensures
        forall|k: int|
            0 <= k < compile_list(l, i, g, g_idx, next_idx, eid).len() ==> desc_shaped(
                #[trigger] compile_list(l, i, g, g_idx, next_idx, eid)[k],
            ),
    decreases l, l.len() - i,
{
    let out = compile_list(l, i, g, g_idx, next_idx, eid);
    if i < 0 || i > l.len() {
    } else if i == l.len() {
        lemma_flush_group_shaped(g, g_idx, eid);
        assert forall|k: int| 0 <= k < out.len() implies desc_shaped(#[trigger] out[k]) by {
            assert(out[k] == flush_group(g, g_idx, eid)[k]);
        }
    } else if crate::reactive_js::is_text_item(l[i]) {
        if g.len() == 0 {
            lemma_compile_list_shaped(l, i + 1, seq![l[i]], next_idx, next_idx + 1, eid);
            let inner = compile_list(l, i + 1, seq![l[i]], next_idx, next_idx + 1, eid);
            assert forall|k: int| 0 <= k < out.len() implies desc_shaped(#[trigger] out[k]) by {
                assert(out[k] == inner[k]);
            }
        } else {
            lemma_compile_list_shaped(l, i + 1, g.push(l[i]), g_idx, next_idx, eid);
            let inner = compile_list(l, i + 1, g.push(l[i]), g_idx, next_idx, eid);
            assert forall|k: int| 0 <= k < out.len() implies desc_shaped(#[trigger] out[k]) by {
                assert(out[k] == inner[k]);
            }
        }
    } else {
        lemma_flush_group_shaped(g, g_idx, eid);
        match l[i] {
            ContentV::Element(e) => {
                lemma_compile_element_shaped(*e);
            },
            _ => {},
        }
        lemma_compile_list_shaped(l, i + 1, Seq::empty(), 0, next_idx + 1, eid);
        let flushed = flush_group(g, g_idx, eid);
        let elems = (match l[i] {
            ContentV::Element(e) => compile_element(*e),
            _ => Seq::<DescV>::empty(),
        });
        let rest = compile_list(l, i + 1, Seq::empty(), 0, next_idx + 1, eid);
        assert forall|k: int| 0 <= k < out.len() implies desc_shaped(#[trigger] out[k]) by {
            if k < flushed.len() {
                assert(out[k] == flushed[k]);
            } else if k < flushed.len() + elems.len() {
                assert(out[k] == elems[k - flushed.len()]);
            } else {
                assert(out[k] == rest[k - flushed.len() - elems.len()]);
            }
        }
    }
}

} // verus!

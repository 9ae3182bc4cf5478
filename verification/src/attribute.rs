//! Attribute values: literal text, state references, and closure references.

use vstd::prelude::*;

use crate::escape;
use crate::model::{
    attr_reactive, attr_value_lit, attr_value_lit_chars, attr_value_reactive,
    attr_values_reactive, canon_attr, merge_attr_lits, render_attr, render_attr_value,
    render_attr_values, AttrV, AttrValueV, ClosureDescV, StateDescV,
};
use crate::random_id::{opt_id_view, RandomId};
use crate::reactive_js::{
    add_desc, add_descs, av_states, av_tpl, compile_attr, dedup_states, has_state_id, lemma_av_tpl_extend, lemma_dedup_has_id, lemma_first_index_absent,
    lemma_first_index_at, state_desc_views, tpl_views, DescV, Reactivity, ReactivityDescriptor,
    Target, TplV,
};
use crate::strutil::str_eq;

verus! {

/// A state cell reference inside markup: the value rendered at build time and
/// the id of the cell it came from.
#[derive(Debug, PartialEq)]
pub struct StateDescriptor {
    pub display: String,
    pub state_id: String,
}

impl View for StateDescriptor {
    type V = StateDescV;

    open spec fn view(&self) -> StateDescV {
        StateDescV { display: self.display@, state_id: self.state_id@ }
    }
}

impl Clone for StateDescriptor {
    fn clone(&self) -> (r: Self)
        ensures
            r == *self,
    {
        StateDescriptor { display: self.display.clone(), state_id: self.state_id.clone() }
    }
}

/// A closure reference inside markup, by id.
#[derive(Debug, PartialEq)]
pub struct ClosureDescriptor {
    pub closure_id: RandomId,
}

impl View for ClosureDescriptor {
    type V = ClosureDescV;

    open spec fn view(&self) -> ClosureDescV {
        ClosureDescV { closure_id: self.closure_id@ }
    }
}

/// One value of an attribute.
#[derive(Debug, PartialEq)]
pub enum AttributeValue {
    Raw(String),
    Text(String),
    State(StateDescriptor),
    Closure(ClosureDescriptor),
}

impl View for AttributeValue {
    type V = AttrValueV;

    open spec fn view(&self) -> AttrValueV {
        match self {
            AttributeValue::Raw(t) => AttrValueV::Raw(t@),
            AttributeValue::Text(t) => AttrValueV::Text(t@),
            AttributeValue::State(d) => AttrValueV::State(d@),
            AttributeValue::Closure(c) => AttrValueV::Closure(c@),
        }
    }
}

/// The ghost sequence of views of a vector of attribute values.
pub open spec fn attr_value_views(l: Seq<AttributeValue>) -> Seq<AttrValueV> {
    l.map_values(|v: AttributeValue| v@)
}

impl AttributeValue {
    /// Turns a text value into the raw value it renders as in a merged run:
    /// the attribute-escaped form, so the rendering is unchanged.
    pub fn text_to_raw(&mut self)
        ensures
            final(self)@ == (if old(self)@ is Text {
                AttrValueV::Raw(attr_value_lit_chars(old(self)@))
            } else {
                old(self)@
            }),
    {
        let mut tmp = AttributeValue::Raw(String::new());
        core::mem::swap(&mut tmp, self);
        if let AttributeValue::Text(t) = tmp {
            *self = AttributeValue::Raw(escape::encode_double_quoted_attribute(t.as_str()));
        } else {
            *self = tmp;
        }
    }

    /// The state descriptor this value reads, if any.
    pub fn state(&self) -> (r: Option<&StateDescriptor>)
        ensures
            r is Some <==> self@ is State,
            r matches Some(d) ==> self@ == AttrValueV::State(d@),
    {
        if let AttributeValue::State(d) = self {
            Some(d)
        } else {
            None
        }
    }

    /// Whether this value reads a state cell.
    pub fn is_reactive(&self) -> (r: bool)
        ensures
            r == attr_value_reactive(self@),
    {
        match self {
            AttributeValue::State(_) => true,
            _ => false,
        }
    }

    /// Appends this value's rendering to `output`.
    pub fn render(&self, output: &mut String)
        ensures
            final(output)@ == old(output)@ + render_attr_value(self@),
    {
        match self {
            AttributeValue::Raw(t) => {
                output.append(t.as_str());
            },
            AttributeValue::Text(t) => {
                let escaped = escape::encode_double_quoted_attribute(t.as_str());
                output.append(escaped.as_str());
            },
            AttributeValue::State(d) => {
                output.append(d.display.as_str());
            },
            AttributeValue::Closure(c) => {
                output.append("window.Coaxial.callClosure('");
                c.closure_id.fmt(output);
                output.append("')");
            },
        }
    }
}

/// An attribute: nothing, one value, or a list of values rendered in order.
#[derive(Debug, PartialEq)]
pub enum Attribute {
    Empty,
    Value(AttributeValue),
    List(Vec<AttributeValue>),
}

impl View for Attribute {
    type V = AttrV;

    open spec fn view(&self) -> AttrV {
        match self {
            Attribute::Empty => AttrV::Empty,
            Attribute::Value(v) => AttrV::Value(v@),
            Attribute::List(l) => AttrV::List(attr_value_views(l@)),
        }
    }
}

impl Attribute {
    /// Whether this attribute reads a state cell.
    pub fn is_reactive(&self) -> (r: bool)
        ensures
            r == attr_reactive(self@),
    {
        match self {
            Attribute::Empty => false,
            Attribute::Value(v) => v.is_reactive(),
            Attribute::List(l) => {
                assert(self@ == AttrV::List(attr_value_views(l@)));
                let mut i: usize = 0;
                while i < l.len()
                    invariant
                        self@ == AttrV::List(attr_value_views(l@)),
                        0 <= i <= l@.len(),
                        forall|j: int|
                            0 <= j < i ==> !attr_value_reactive(attr_value_views(l@)[j]),
                    decreases l@.len() - i,
                {
                    if l[i].is_reactive() {
                        proof {
                            let views = attr_value_views(l@);
                            assert(views[i as int] == l@[i as int]@);
                            assert(attr_value_reactive(views[i as int]));
                            assert(attr_values_reactive(views));
                        }
                        return true;
                    }
                    i = i + 1;
                }
                false
            },
        }
    }

    /// Turns this attribute into its canonical form: an empty list collapses
    /// away, a singleton list promotes to its sole value, and adjacent
    /// literal values merge.
    pub fn optimize(&mut self)
        ensures
            final(self)@ == canon_attr(old(self)@),
    {
        let mut tmp = Attribute::Empty;
        core::mem::swap(&mut tmp, self);
        match tmp {
            Attribute::List(mut list) => {
                Self::optimize_list(&mut list);
                if list.len() == 0 {
                    *self = Attribute::Empty;
                } else if list.len() == 1 {
                    let only = list.remove(0);
                    *self = Attribute::Value(only);
                } else {
                    *self = Attribute::List(list);
                }
            },
            other => {
                *self = other;
            },
        }
    }

    /// Merges every run of adjacent literal values in the list into one raw
    /// value.
    pub fn optimize_list(list: &mut Vec<AttributeValue>)
        ensures
            attr_value_views(final(list)@) == merge_attr_lits(attr_value_views(old(list)@)),
    {
        let mut tmp: Vec<AttributeValue> = Vec::new();
        core::mem::swap(&mut tmp, list);
        let merged = merge_values(tmp);
        *list = merged;
    }

    /// Appends this attribute's rendering to `output`.
    pub fn render(&self, output: &mut String)
        ensures
            final(output)@ == old(output)@ + render_attr(self@),
    {
        match self {
            Attribute::Empty => {},
            Attribute::Value(v) => {
                v.render(output);
            },
            Attribute::List(l) => {
                let ghost views = attr_value_views(l@);
                let ghost base = output@;
                let mut i: usize = 0;
                while i < l.len()
                    invariant
                        0 <= i <= l@.len(),
                        views == attr_value_views(l@),
                        base + render_attr_values(views, 0) == output@ + render_attr_values(
                            views,
                            i as int,
                        ),
                    decreases l@.len() - i,
                {
                    l[i].render(output);
                    i = i + 1;
                }
                assert(render_attr_values(views, l@.len() as int) =~= Seq::<char>::empty());
                assert(output@ =~= base + render_attr_values(views, 0));
            },
        }
    }
}

impl Attribute {
    /// Compiles this attribute's patch descriptor, if the enclosing element
    /// has an id and the attribute reads any state.
    pub fn reactivity(
        &self,
        element_id: Option<&RandomId>,
        key: &str,
        reactivity: &mut Reactivity,
    )
        requires
            crate::reactive_js::attr_closure_free(self@),
        ensures
            final(reactivity)@ == add_descs(
                old(reactivity)@,
                compile_attr(key@, self@, opt_id_view(element_id)),
                0,
            ),
    {
        let id = match element_id {
            Some(id) => id,
            None => {
                return ;
            },
        };
        match self {
            Attribute::Value(AttributeValue::State(d)) => {
                let desc = ReactivityDescriptor {
                    element_id: id.clone(),
                    child_node_idx: None,
                    target: Target::Attribute(String::from_str(key)),
                    state_descriptors: vec![d.clone()],
                    content: vec![crate::reactive_js::Content::Var(0)],
                };
                let ghost desc_view = desc@;
                proof {
                    assert(state_desc_views(desc.state_descriptors@) =~= seq![d@]);
                    assert(tpl_views(desc.content@) =~= seq![TplV::Var(0)]);
                    assert(compile_attr(key@, self@, opt_id_view(element_id)) =~= seq![desc_view]);
                }
                reactivity.add(desc);
                proof {
                    lemma_add_single(old(reactivity)@, desc_view);
                }
            },
            Attribute::List(vals) => {
                let ghost views = attr_value_views(vals@);
                let mut states: Vec<StateDescriptor> = Vec::new();
                let mut template: Vec<crate::reactive_js::Content> = Vec::new();
                let mut i: usize = 0;
                proof {
                    assert(views.take(0) =~= Seq::<AttrValueV>::empty());
                    assert(state_desc_views(states@) =~= Seq::<StateDescV>::empty());
                    assert(av_states(views.take(0)) =~= Seq::<StateDescV>::empty());
                    assert(dedup_states(av_states(views.take(0))) =~= Seq::<StateDescV>::empty());
                    assert(tpl_views(template@) =~= Seq::<TplV>::empty());
                    assert(av_tpl(views.take(0), dedup_states(av_states(views.take(0)))) =~= Seq::<
                        TplV,
                    >::empty());
                }
                while i < vals.len()
                    invariant
                        views == attr_value_views(vals@),
                        0 <= i <= views.len(),
                        state_desc_views(states@) == dedup_states(av_states(views.take(i as int))),
                        tpl_views(template@) == av_tpl(
                            views.take(i as int),
                            dedup_states(av_states(views.take(i as int))),
                        ),
                        forall|j: int|
                            0 <= j < i ==> ((#[trigger] views[j]) is State ==> has_state_id(
                                state_desc_views(states@),
                                views[j]->State_0.state_id,
                            )),
                        crate::reactive_js::attr_closure_free(self@),
                        self@ == AttrV::List(views),
                    decreases views.len() - i,
                {
                    let ghost prefix = views.take(i as int);
                    let ghost prefix1 = views.take(i as int + 1);
                    let ghost old_states = state_desc_views(states@);
                    proof {
                        assert(prefix1.drop_last() =~= prefix);
                        assert(prefix1.last() == views[i as int]);
                        assert(av_states(prefix1).drop_last() == av_states(prefix) || av_states(
                            prefix1,
                        ) == av_states(prefix));
                    }
                    match &vals[i] {
                        AttributeValue::Raw(t) => {
                            let ghost tpl_before = tpl_views(template@);
                            template.push(crate::reactive_js::Content::Text(t.clone()));
                            proof {
                                assert(av_states(prefix1) =~= av_states(prefix));
                                assert(tpl_views(template@) =~= tpl_before.push(TplV::Text(t@)));
                            }
                        },
                        AttributeValue::Text(t) => {
                            let escaped = crate::escape::encode_script_single_quoted_text(
                                t.as_str(),
                            );
                            let ghost tpl_before = tpl_views(template@);
                            template.push(crate::reactive_js::Content::Text(escaped));
                            proof {
                                assert(av_states(prefix1) =~= av_states(prefix));
                                assert(tpl_views(template@) =~= tpl_before.push(
                                    TplV::Text(crate::escape::script_single_quoted_text_of(t@)),
                                ));
                            }
                        },
                        AttributeValue::State(d) => {
                            proof {
                                assert(av_states(prefix1) =~= av_states(prefix).push(d@));
                            }
                            let n = states.len();
                            let mut j: usize = 0;
                            let mut found = n;
                            while j < n
                                invariant
                                    0 <= j <= n,
                                    n == states@.len(),
                                    found == n,
                                    forall|m: int|
                                        0 <= m < j ==> (#[trigger] state_desc_views(
                                            states@,
                                        )[m]).state_id != d@.state_id,
                                decreases n - j,
                            {
                                if str_eq(states[j].state_id.as_str(), d.state_id.as_str()) {
                                    found = j;
                                    break ;
                                }
                                j = j + 1;
                            }
                            let ghost tpl_before = tpl_views(template@);
                            if found < n {
                                proof {
                                    assert(state_desc_views(states@)[found as int].state_id
                                        == d@.state_id);
                                    lemma_first_index_at(old_states, d@.state_id, found as int);
                                    assert(has_state_id(old_states, d@.state_id));
                                    lemma_dedup_has_id(av_states(prefix), d@.state_id);
                                    assert(dedup_states(av_states(prefix1)) == old_states);
                                }
                                template.push(crate::reactive_js::Content::Var(found));
                                proof {
                                    assert(tpl_views(template@) =~= tpl_before.push(
                                        TplV::Var(found as int),
                                    ));
                                }
                            } else {
                                proof {
                                    assert(!has_state_id(old_states, d@.state_id));
                                    lemma_dedup_has_id(av_states(prefix), d@.state_id);
                                    assert(dedup_states(av_states(prefix1)) == old_states.push(
                                        d@,
                                    ));
                                    lemma_first_index_absent(old_states, d@);
                                    lemma_av_tpl_extend(prefix, old_states, d@);
                                }
                                template.push(crate::reactive_js::Content::Var(states.len()));
                                states.push(d.clone());
                                proof {
                                    assert(state_desc_views(states@) =~= old_states.push(d@));
                                    assert(tpl_views(template@) =~= tpl_before.push(
                                        TplV::Var(old_states.len() as int),
                                    ));
                                }
                            }
                            proof {
                                assert(views[i as int] == vals@[i as int]@);
                                assert(views[i as int] == AttrValueV::State(d@));
                                assert(has_state_id(state_desc_views(states@), d@.state_id)) by {
                                    if has_state_id(old_states, d@.state_id) {
                                        let w = choose|m: int|
                                            0 <= m < old_states.len() && (
                                            #[trigger] old_states[m]).state_id == d@.state_id;
                                        assert(state_desc_views(states@)[w].state_id
                                            == d@.state_id);
                                    } else {
                                        assert(state_desc_views(states@) == old_states.push(d@));
                                        assert(state_desc_views(states@)[old_states.len() as int].state_id
                                            == d@.state_id);
                                    }
                                }
                                assert forall|jj: int| 0 <= jj < i + 1 implies ((
                                #[trigger] views[jj]) is State ==> has_state_id(
                                    state_desc_views(states@),
                                    views[jj]->State_0.state_id,
                                )) by {
                                    if views[jj] is State {
                                        if jj < i {
                                            assert(has_state_id(
                                                old_states,
                                                views[jj]->State_0.state_id,
                                            ));
                                            let w = choose|m: int|
                                                0 <= m < old_states.len() && (
                                                #[trigger] old_states[m]).state_id
                                                    == views[jj]->State_0.state_id;
                                            assert(state_desc_views(states@)[w]
                                                == old_states[w]);
                                            assert(state_desc_views(states@)[w].state_id
                                                == views[jj]->State_0.state_id);
                                        } else {
                                            assert(views[jj] == views[i as int]);
                                        }
                                    }
                                }
                            }
                        },
                        AttributeValue::Closure(_) => {
                            proof {
                                assert(views[i as int] is Closure);
                                assert(false);
                            }
                        },
                    }
                    i = i + 1;
                }
                proof {
                    assert(views.take(views.len() as int) =~= views);
                }
                let desc = ReactivityDescriptor {
                    element_id: id.clone(),
                    child_node_idx: None,
                    target: Target::Attribute(String::from_str(key)),
                    state_descriptors: states,
                    content: template,
                };
                let ghost desc_view = desc@;
                proof {
                    assert(compile_attr(key@, self@, opt_id_view(element_id)) =~= seq![desc_view]);
                }
                reactivity.add(desc);
                proof {
                    lemma_add_single(old(reactivity)@, desc_view);
                }
            },
            _ => {},
        }
    }
}

proof fn lemma_add_single(r: crate::reactive_js::ReactivityV, d: DescV)
    ensures
        add_descs(r, seq![d], 0) == add_desc(r, d),
{
    assert(add_descs(add_desc(r, d), seq![d], 1) == add_desc(r, d));
}

fn value_is_lit(v: &AttributeValue) -> (r: bool)
    ensures
        r == attr_value_lit(v@),
{
    match v {
        AttributeValue::Raw(_) => true,
        AttributeValue::Text(_) => true,
        _ => false,
    }
}

fn merge_values(input: Vec<AttributeValue>) -> (r: Vec<AttributeValue>)
    ensures
        attr_value_views(r@) == merge_attr_lits(attr_value_views(input@)),
    decreases input@.len(),
{
    let ghost orig = attr_value_views(input@);
    let mut l = input;
    if l.len() < 2 {
        return l;
    }
    let first_lit = value_is_lit(&l[0]);
    let second_lit = value_is_lit(&l[1]);
    if first_lit && second_lit {
        let mut first = l.remove(0);
        let mut second = l.remove(0);
        first.text_to_raw();
        second.text_to_raw();
        let mut joined = match first {
            AttributeValue::Raw(t) => t,
            _ => String::new(),
        };
        match second {
            AttributeValue::Raw(t) => {
                joined.append(t.as_str());
            },
            _ => {},
        }
        l.insert(0, AttributeValue::Raw(joined));
        proof {
            assert(attr_value_views(l@) =~= seq![
                AttrValueV::Raw(attr_value_lit_chars(orig[0]) + attr_value_lit_chars(orig[1])),
            ] + orig.skip(2));
        }
        merge_values(l)
    } else {
        let first = l.remove(0);
        proof {
            assert(attr_value_views(l@) =~= orig.skip(1));
        }
        let rest = merge_values(l);
        let mut out = rest;
        out.insert(0, first);
        proof {
            assert(attr_value_views(out@) =~= seq![orig[0]] + merge_attr_lits(orig.skip(1)));
        }
        out
    }
}

} // verus!

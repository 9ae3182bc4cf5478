//! The reactivity compiler's output: patch descriptors and the client-side
//! script generated from them.
//!
//! A descriptor addresses one DOM location (an element by id, optionally a
//! child node by index, and a target: its text content or one attribute),
//! lists the state cells it depends on, and holds a template of literal text
//! interleaved with variable slots referencing those cells by position.

use vstd::prelude::*;

use crate::attribute::StateDescriptor;
use crate::decimal::dec_digits;
use crate::escape::script_single_quoted_text_of;
use crate::model::{AttrV, AttrValueV, ContentV, ElementV, StateDescV};
use crate::random_id::RandomId;
use crate::strutil::str_eq;

verus! {

/// Ghost mirror of a patch target.
pub enum TargetV {
    TextContent,
    Attribute(Seq<char>),
}

/// Ghost mirror of one template slot.
pub enum TplV {
    Text(Seq<char>),
    Var(int),
}

/// Ghost mirror of a descriptor.
pub struct DescV {
    pub element_id: Seq<char>,
    pub child_node_idx: Option<int>,
    pub target: TargetV,
    pub states: Seq<StateDescV>,
    pub template: Seq<TplV>,
}

// ---------------------------------------------------------------------------
// The script each descriptor compiles to

/// The state ids joined for the subscription list: each id followed by `','`,
/// the last by `'` alone.
pub open spec fn ids_join(states: Seq<StateDescV>, i: int) -> Seq<char>
    decreases states.len() - i,
{
    if i < 0 || i >= states.len() {
        Seq::empty()
    } else if i == states.len() - 1 {
        states[i].state_id + "'"@
    } else {
        states[i].state_id + "','"@ + ids_join(states, i + 1)
    }
}

/// The callback parameters `v0,v1,...`, one per state.
pub open spec fn vars_join(n: int, i: int) -> Seq<char>
    decreases n - i,
{
    if i < 0 || i >= n {
        Seq::empty()
    } else if i == n - 1 {
        "v"@ + dec_digits(i as nat)
    } else {
        "v"@ + dec_digits(i as nat) + ","@ + vars_join(n, i + 1)
    }
}

/// The script of one template slot: quoted literal text, or a variable.
pub open spec fn tpl_script(t: TplV) -> Seq<char> {
    match t {
        TplV::Text(text) => "'"@ + text + "'"@,
        TplV::Var(idx) => "v"@ + dec_digits(idx as nat),
    }
}

/// The template slots joined with commas.
pub open spec fn tpl_join(l: Seq<TplV>, i: int) -> Seq<char>
    decreases l.len() - i,
{
    if i < 0 || i >= l.len() {
        Seq::empty()
    } else if i == l.len() - 1 {
        tpl_script(l[i])
    } else {
        tpl_script(l[i]) + ","@ + tpl_join(l, i + 1)
    }
}

/// The subscription part of a descriptor's statement: the state ids, the
/// callback parameters, and the element lookup.
pub open spec fn desc_script_head(d: DescV) -> Seq<char> {
    "window.Coaxial.onStateChange(['"@ + ids_join(d.states, 0) + "], ("@ + vars_join(
        d.states.len() as int,
        0,
    ) + ") => { if (el = document.querySelector('[coax-id=\""@ + d.element_id + "\"]')) "@
}

/// The patch part of a descriptor's statement: the optional child-node step,
/// the target, and the joined template.
pub open spec fn desc_script_tail(d: DescV) -> Seq<char> {
    (match d.child_node_idx {
        Option::Some(idx) => "if (el = el.childNodes["@ + dec_digits(idx as nat) + "]) "@,
        Option::None => Seq::empty(),
    }) + (match d.target {
        TargetV::TextContent => "el.textContent = "@,
        TargetV::Attribute(key) => "el.setAttribute('"@ + key + "', "@,
    }) + (if d.template.len() == 1 {
        tpl_script(d.template[0])
    } else {
        "["@ + tpl_join(d.template, 0) + "].join('')"@
    }) + (if d.target is Attribute {
        ")"@
    } else {
        Seq::empty()
    }) + "; });\n"@
}

/// The whole subscribe-and-patch statement of one descriptor.
pub open spec fn desc_script(d: DescV) -> Seq<char> {
    desc_script_head(d) + desc_script_tail(d)
}

/// The scripts of a list of descriptors, concatenated.
pub open spec fn descs_script(l: Seq<DescV>, i: int) -> Seq<char>
    decreases l.len() - i,
{
    if i < 0 || i >= l.len() {
        Seq::empty()
    } else {
        desc_script(l[i]) + descs_script(l, i + 1)
    }
}

/// The seeding statements for the clients' initial state values.
pub open spec fn inits_script(m: Seq<(Seq<char>, Seq<char>)>, i: int) -> Seq<char>
    decreases m.len() - i,
{
    if i < 0 || i >= m.len() {
        Seq::empty()
    } else {
        "window.Coaxial.state['"@ + m[i].0 + "'] = '"@ + m[i].1 + "';"@ + inits_script(m, i + 1)
    }
}

// ---------------------------------------------------------------------------
// Registration of initial values

/// Registers one state's initial value: replaces the value under its id, or
/// appends a new pair.
pub open spec fn inits_register(m: Seq<(Seq<char>, Seq<char>)>, sd: StateDescV) -> Seq<
    (Seq<char>, Seq<char>),
>
    decreases m.len(),
{
    if m.len() == 0 {
        seq![(sd.state_id, sd.display)]
    } else if m.first().0 == sd.state_id {
        seq![(sd.state_id, sd.display)] + m.drop_first()
    } else {
        seq![m.first()] + inits_register(m.drop_first(), sd)
    }
}

/// Registers the states of one descriptor, left to right.
pub open spec fn inits_register_all(
    m: Seq<(Seq<char>, Seq<char>)>,
    states: Seq<StateDescV>,
    i: int,
) -> Seq<(Seq<char>, Seq<char>)>
    decreases states.len() - i,
{
    if i < 0 || i >= states.len() {
        m
    } else {
        inits_register_all(inits_register(m, states[i]), states, i + 1)
    }
}

/// The ghost mirror of the whole compiler state: descriptors in order of
/// addition, and the registered initial values.
pub struct ReactivityV {
    pub descs: Seq<DescV>,
    pub inits: Seq<(Seq<char>, Seq<char>)>,
}

/// Adding one descriptor: its states are registered, then it is appended.
pub open spec fn add_desc(r: ReactivityV, d: DescV) -> ReactivityV {
    ReactivityV { descs: r.descs.push(d), inits: inits_register_all(r.inits, d.states, 0) }
}

/// Adding a list of descriptors, left to right.
pub open spec fn add_descs(r: ReactivityV, l: Seq<DescV>, i: int) -> ReactivityV
    decreases l.len() - i,
{
    if i < 0 || i >= l.len() {
        r
    } else {
        add_descs(add_desc(r, l[i]), l, i + 1)
    }
}

// ---------------------------------------------------------------------------
// Executable types

/// What a descriptor patches: the element's text content, or one named
/// attribute.
pub enum Target {
    TextContent,
    Attribute(String),
}

impl View for Target {
    type V = TargetV;

    open spec fn view(&self) -> TargetV {
        match self {
            Target::TextContent => TargetV::TextContent,
            Target::Attribute(key) => TargetV::Attribute(key@),
        }
    }
}

/// One template slot: plain text or an index into the descriptor's state
/// list.
pub enum Content {
    /// Plain text.
    Text(String),
    /// Index into the state id array.
    Var(usize),
}

impl View for Content {
    type V = TplV;

    open spec fn view(&self) -> TplV {
        match self {
            Content::Text(t) => TplV::Text(t@),
            Content::Var(i) => TplV::Var(*i as int),
        }
    }
}

impl Content {
    /// Appends this slot's script to `output`.
    pub fn script(&self, output: &mut String)
        ensures
            final(output)@ == old(output)@ + tpl_script(self@),
    {
        match self {
            Content::Text(text) => {
                output.append("'");
                output.append(text.as_str());
                output.append("'");
            },
            Content::Var(idx) => {
                output.append("v");
                let digits = crate::decimal::usize_to_string(*idx);
                output.append(digits.as_str());
            },
        }
    }
}

/// One compiled patch instruction.
pub struct ReactivityDescriptor {
    /// Id of the element this descriptor applies to.
    pub element_id: RandomId,
    /// Index into `childNodes` to patch; `None` patches the full element.
    pub child_node_idx: Option<u32>,
    /// What to overwrite at that location.
    pub target: Target,
    /// The state cells the patch reads, without duplicates.
    pub state_descriptors: Vec<StateDescriptor>,
    /// The patched text: literals and state slots.
    pub content: Vec<Content>,
}

/// The ghost mirrors of a vector of state descriptors.
pub open spec fn state_desc_views(l: Seq<StateDescriptor>) -> Seq<StateDescV> {
    l.map_values(|s: StateDescriptor| s@)
}

/// The ghost mirrors of a vector of template slots.
pub open spec fn tpl_views(l: Seq<Content>) -> Seq<TplV> {
    l.map_values(|c: Content| c@)
}

impl View for ReactivityDescriptor {
    type V = DescV;

    open spec fn view(&self) -> DescV {
        DescV {
            element_id: self.element_id@,
            child_node_idx: match self.child_node_idx {
                Option::Some(i) => Option::Some(i as int),
                Option::None => Option::None,
            },
            target: self.target@,
            states: state_desc_views(self.state_descriptors@),
            template: tpl_views(self.content@),
        }
    }
}

impl ReactivityDescriptor {
    /// Appends this descriptor's subscribe-and-patch statement to `output`.
    pub fn script(&self, output: &mut String)
        ensures
            final(output)@ == old(output)@ + desc_script(self@),
    {
        self.script_head(output);
        self.script_tail(output);
    }

    fn script_head(&self, output: &mut String)
        ensures
            final(output)@ == old(output)@ + desc_script_head(self@),
    {
        output.append("window.Coaxial.onStateChange(['");

        let state_count = self.state_descriptors.len();
        let ghost states = state_desc_views(self.state_descriptors@);
        let ghost after_ids = output@ + ids_join(states, 0);
        let mut i: usize = 0;
        while i < state_count
            invariant
                state_count == states.len(),
                0 <= i <= state_count,
                after_ids == output@ + ids_join(states, i as int),
            decreases state_count - i,
        {
            output.append(self.state_descriptors[i].state_id.as_str());
            if state_count == i + 1 {
                output.append("'");
            } else {
                output.append("','");
            }
            i = i + 1;
        }
        proof {
            if state_count == 0 {
                assert(ids_join(states, 0) =~= Seq::<char>::empty());
            }
            assert(output@ =~= after_ids);
        }

        output.append("], (");

        let ghost after_vars = output@ + vars_join(state_count as int, 0);
        let mut i: usize = 0;
        while i < state_count
            invariant
                state_count == states.len(),
                0 <= i <= state_count,
                after_vars == output@ + vars_join(state_count as int, i as int),
            decreases state_count - i,
        {
            output.append("v");
            let digits = crate::decimal::usize_to_string(i);
            output.append(digits.as_str());
            if state_count != i + 1 {
                output.append(",");
            }
            i = i + 1;
        }
        proof {
            if state_count == 0 {
                assert(vars_join(0, 0) =~= Seq::<char>::empty());
            }
            assert(output@ =~= after_vars);
        }

        output.append(") => { if (el = document.querySelector('[coax-id=\"");
        self.element_id.fmt(output);
        output.append("\"]')) ");
        proof {
            assert(output@ =~= old(output)@ + desc_script_head(self@));
        }
    }

    #[verifier::rlimit(100)]
    fn script_tail(&self, output: &mut String)
        ensures
            final(output)@ == old(output)@ + desc_script_tail(self@),
    {
        let ghost base = output@;
        if let Some(child_node_idx) = self.child_node_idx {
            output.append("if (el = el.childNodes[");
            let digits = crate::decimal::u32_to_string(child_node_idx);
            output.append(digits.as_str());
            output.append("]) ");
        }

        let ghost after_child = output@;
        proof {
            assert(after_child =~= base + (match self@.child_node_idx {
                Option::Some(idx) => "if (el = el.childNodes["@ + dec_digits(idx as nat) + "]) "@,
                Option::None => Seq::<char>::empty(),
            }));
        }

        match &self.target {
            Target::TextContent => {
                output.append("el.textContent = ");
            },
            Target::Attribute(key) => {
                output.append("el.setAttribute('");
                output.append(key.as_str());
                output.append("', ");
            },
        }
        let ghost after_target = output@;
        proof {
            assert(after_target =~= after_child + (match self@.target {
                TargetV::TextContent => "el.textContent = "@,
                TargetV::Attribute(key) => "el.setAttribute('"@ + key + "', "@,
            }));
        }

        let ghost template = tpl_views(self.content@);
        if self.content.len() == 1 {
            self.content[0].script(output);
        } else {
            output.append("[");
            let ghost after_tpl = output@ + tpl_join(template, 0);
            let n = self.content.len();
            let mut i: usize = 0;
            while i < n
                invariant
                    n == template.len(),
                    0 <= i <= n,
                    after_tpl == output@ + tpl_join(template, i as int),
                decreases n - i,
            {
                self.content[i].script(output);
                if i + 1 != n {
                    output.append(",");
                }
                i = i + 1;
            }
            proof {
                if n == 0 {
                    assert(tpl_join(template, 0) =~= Seq::<char>::empty());
                }
                assert(output@ =~= after_tpl);
            }
            output.append("].join('')");
        }

        let ghost after_content = output@;
        proof {
            assert(after_content =~= after_target + (if self@.template.len() == 1 {
                tpl_script(self@.template[0])
            } else {
                "["@ + tpl_join(self@.template, 0) + "].join('')"@
            }));
        }

        if matches!(&self.target, Target::Attribute(_)) {
            output.append(")");
        }
        output.append("; });\n");
        proof {
            assert(output@ =~= after_content + (if self@.target is Attribute {
                ")"@
            } else {
                Seq::<char>::empty()
            }) + "; });\n"@);
            assert(output@ =~= base + desc_script_tail(self@));
        }
    }
}

/// The compiler state: every descriptor added during the tree walk, plus the
/// initial value of every state cell any descriptor reads.
pub struct Reactivity {
    descriptors: Vec<ReactivityDescriptor>,
    state_field_initial_values: Vec<(String, String)>,
}

impl View for Reactivity {
    type V = ReactivityV;

    closed spec fn view(&self) -> ReactivityV {
        ReactivityV {
            descs: self.descriptors@.map_values(|d: ReactivityDescriptor| d@),
            inits: self.state_field_initial_values@.map_values(
                |p: (String, String)| (p.0@, p.1@),
            ),
        }
    }
}

impl Reactivity {
    /// A compiler state with no descriptors and no initial values.
    pub fn new() -> (r: Reactivity)
        ensures
            r@.descs == Seq::<DescV>::empty(),
            r@.inits == Seq::<(Seq<char>, Seq<char>)>::empty(),
    {
        let r = Reactivity { descriptors: Vec::new(), state_field_initial_values: Vec::new() };
        proof {
            assert(r@.descs =~= Seq::<DescV>::empty());
            assert(r@.inits =~= Seq::<(Seq<char>, Seq<char>)>::empty());
        }
        r
    }

    /// Records the initial display value of one state cell, replacing any
    /// value already recorded under the same id.
    pub fn register_state(&mut self, state_descriptor: &StateDescriptor)
        ensures
            final(self)@.descs == old(self)@.descs,
            final(self)@.inits == inits_register(old(self)@.inits, state_descriptor@),
    {
        let ghost orig = self@.inits;
        let n = self.state_field_initial_values.len();
        let mut i: usize = 0;
        while i < n
            invariant
                n == orig.len(),
                0 <= i <= n,
                forall|j: int| 0 <= j < i ==> (#[trigger] orig[j]).0 != state_descriptor@.state_id,
                self@.inits == orig,
                self@.descs == old(self)@.descs,
            decreases n - i,
        {
            if str_eq(
                self.state_field_initial_values[i].0.as_str(),
                state_descriptor.state_id.as_str(),
            ) {
                let ghost pre = self.state_field_initial_values@;
                let _ = self.state_field_initial_values.remove(i);
                self.state_field_initial_values.insert(
                    i,
                    (state_descriptor.state_id.clone(), state_descriptor.display.clone()),
                );
                proof {
                    assert(self.state_field_initial_values@ =~= pre.update(
                        i as int,
                        self.state_field_initial_values@[i as int],
                    ));
                    assert(self@.inits =~= orig.update(
                        i as int,
                        (state_descriptor@.state_id, state_descriptor@.display),
                    ));
                    lemma_inits_register_found(orig, state_descriptor@, i as int);
                }
                return ;
            }
            i = i + 1;
        }
        self.state_field_initial_values.push(
            (state_descriptor.state_id.clone(), state_descriptor.display.clone()),
        );
        proof {
            assert(self@.inits =~= orig + seq![
                (state_descriptor@.state_id, state_descriptor@.display),
            ]);
            lemma_inits_register_absent(orig, state_descriptor@);
        }
    }

    /// Adds one descriptor: registers the initial values of the states it
    /// reads, then appends it.
    pub fn add(&mut self, descriptor: ReactivityDescriptor)
        ensures
            final(self)@ == add_desc(old(self)@, descriptor@),
    {
        let ghost desc_view = descriptor@;
        let ghost states = state_desc_views(descriptor.state_descriptors@);
        let n = descriptor.state_descriptors.len();
        let mut i: usize = 0;
        while i < n
            invariant
                n == states.len(),
                states == state_desc_views(descriptor.state_descriptors@),
                desc_view == descriptor@,
                0 <= i <= n,
                self@.descs == old(self)@.descs,
                inits_register_all(old(self)@.inits, states, 0) == inits_register_all(
                    self@.inits,
                    states,
                    i as int,
                ),
            decreases n - i,
        {
            self.register_state(&descriptor.state_descriptors[i]);
            i = i + 1;
        }
        let ghost pre = self@;
        self.descriptors.push(descriptor);
        proof {
            assert(self@.inits =~= pre.inits);
            assert(self@.descs =~= pre.descs.push(desc_view));
            assert(inits_register_all(pre.inits, states, n as int) == pre.inits);
            assert(self@ == add_desc(old(self)@, desc_view));
        }
    }

    /// The full generated script: each descriptor's statement in order of
    /// addition, then the initial-value seeding statements.
    pub fn script(&self) -> (r: String)
        ensures
            r@ == descs_script(self@.descs, 0) + inits_script(self@.inits, 0),
    {
        let mut output = String::new();

        let ghost descs = self@.descs;
        let ghost after_descs = descs_script(descs, 0);
        let n = self.descriptors.len();
        let mut i: usize = 0;
        while i < n
            invariant
                n == descs.len(),
                0 <= i <= n,
                after_descs == output@ + descs_script(descs, i as int),
            decreases n - i,
        {
            self.descriptors[i].script(&mut output);
            i = i + 1;
        }
        proof {
            assert(descs_script(descs, n as int) =~= Seq::<char>::empty());
            assert(output@ =~= after_descs);
        }

        self.state_field_initial_values_script(&mut output);
        output
    }

    /// Appends the statements that seed the client-side initial value of
    /// every registered state cell.
    pub fn state_field_initial_values_script(&self, output: &mut String)
        ensures
            final(output)@ == old(output)@ + inits_script(self@.inits, 0),
    {
        let ghost inits = self@.inits;
        let ghost base = output@;
        let n = self.state_field_initial_values.len();
        let mut i: usize = 0;
        while i < n
            invariant
                n == inits.len(),
                0 <= i <= n,
                base + inits_script(inits, 0) == output@ + inits_script(inits, i as int),
            decreases n - i,
        {
            output.append("window.Coaxial.state['");
            output.append(self.state_field_initial_values[i].0.as_str());
            output.append("'] = '");
            output.append(self.state_field_initial_values[i].1.as_str());
            output.append("';");
            i = i + 1;
        }
        proof {
            assert(inits_script(inits, n as int) =~= Seq::<char>::empty());
            assert(output@ =~= base + inits_script(inits, 0));
        }
    }
}

proof fn lemma_inits_register_found(m: Seq<(Seq<char>, Seq<char>)>, sd: StateDescV, p: int)
    requires
        0 <= p < m.len(),
        m[p].0 == sd.state_id,
        forall|j: int| 0 <= j < p ==> (#[trigger] m[j]).0 != sd.state_id,
    ensures
        inits_register(m, sd) == m.update(p, (sd.state_id, sd.display)),
    decreases m.len(),
{
    if p == 0 {
        assert(inits_register(m, sd) =~= m.update(0, (sd.state_id, sd.display)));
    } else {
        assert(m.first().0 != sd.state_id);
        assert(forall|j: int|
            0 <= j < p - 1 ==> (#[trigger] m.drop_first()[j]).0 != sd.state_id);
        lemma_inits_register_found(m.drop_first(), sd, p - 1);
        assert(inits_register(m, sd) =~= m.update(p, (sd.state_id, sd.display)));
    }
}

proof fn lemma_inits_register_absent(m: Seq<(Seq<char>, Seq<char>)>, sd: StateDescV)
    requires
        forall|j: int| 0 <= j < m.len() ==> (#[trigger] m[j]).0 != sd.state_id,
    ensures
        inits_register(m, sd) == m + seq![(sd.state_id, sd.display)],
    decreases m.len(),
{
    if m.len() == 0 {
        assert(inits_register(m, sd) =~= m + seq![(sd.state_id, sd.display)]);
    } else {
        assert(forall|j: int|
            0 <= j < m.drop_first().len() ==> (#[trigger] m.drop_first()[j]).0 != sd.state_id);
        lemma_inits_register_absent(m.drop_first(), sd);
        assert(inits_register(m, sd) =~= m + seq![(sd.state_id, sd.display)]);
    }
}


// ---------------------------------------------------------------------------
// The compiler: from a canonicalized tree to descriptors

/// True for content that joins a text run: literals and state references.
pub open spec fn is_text_item(c: ContentV) -> bool {
    c is Raw || c is Text || c is State
}

/// The state descriptors appearing in a text run, in order, duplicates
/// included.
pub open spec fn states_in(g: Seq<ContentV>) -> Seq<StateDescV>
    decreases g.len(),
{
    if g.len() == 0 {
        Seq::empty()
    } else {
        states_in(g.drop_last()) + (match g.last() {
            ContentV::State(d) => seq![d],
            _ => Seq::empty(),
        })
    }
}

/// True when some descriptor in the list carries the state id.
pub open spec fn has_state_id(s: Seq<StateDescV>, id: Seq<char>) -> bool {
    exists|i: int| 0 <= i < s.len() && (#[trigger] s[i]).state_id == id
}

/// Keeps the first descriptor of each state id and drops later repeats.
pub open spec fn dedup_states(s: Seq<StateDescV>) -> Seq<StateDescV>
    decreases s.len(),
{
    if s.len() == 0 {
        s
    } else {
        let rest = dedup_states(s.drop_last());
        if has_state_id(s.drop_last(), s.last().state_id) {
            rest
        } else {
            rest.push(s.last())
        }
    }
}

/// The position of the first descriptor with the given state id.
pub open spec fn first_state_index(s: Seq<StateDescV>, id: Seq<char>) -> int
    decreases s.len(),
{
    if s.len() == 0 {
        0
    } else if s.first().state_id == id {
        0
    } else {
        1 + first_state_index(s.drop_first(), id)
    }
}

/// The template slot of one text-run item: raw text stands as it is, plain
/// text is script-escaped, and a state reference becomes a variable slot
/// pointing at the first descriptor with its id.
pub open spec fn item_tpl(c: ContentV, states: Seq<StateDescV>) -> TplV {
    match c {
        ContentV::Raw(t) => TplV::Text(t),
        ContentV::Text(t) => TplV::Text(script_single_quoted_text_of(t)),
        ContentV::State(d) => TplV::Var(first_state_index(states, d.state_id)),
        _ => TplV::Text(Seq::empty()),
    }
}

/// The template of a whole text run.
pub open spec fn group_tpl(g: Seq<ContentV>, states: Seq<StateDescV>) -> Seq<TplV>
    decreases g.len(),
{
    if g.len() == 0 {
        Seq::empty()
    } else {
        group_tpl(g.drop_last(), states).push(item_tpl(g.last(), states))
    }
}

/// The descriptor of one text run: addressed as the child node at `idx`, its
/// text content replaced by the joined template.
pub open spec fn group_desc(g: Seq<ContentV>, idx: int, eid: Seq<char>) -> DescV {
    let states = dedup_states(states_in(g));
    DescV {
        element_id: eid,
        child_node_idx: Option::Some(idx),
        target: TargetV::TextContent,
        states,
        template: group_tpl(g, states),
    }
}

/// The descriptors a pending text run contributes: one, unless the run is
/// empty or the element has no id.
pub open spec fn flush_group(g: Seq<ContentV>, idx: int, eid: Option<Seq<char>>) -> Seq<DescV> {
    match eid {
        Option::Some(id) => if g.len() > 0 {
            seq![group_desc(g, idx, id)]
        } else {
            Seq::empty()
        },
        Option::None => Seq::empty(),
    }
}

/// The compiler's walk over a content list: text-run items accumulate in a
/// pending group that takes one child-node index; every other item takes the
/// next index, flushing the pending run first; child elements are compiled
/// recursively.
pub open spec fn compile_list(
    l: Seq<ContentV>,
    i: int,
    g: Seq<ContentV>,
    g_idx: int,
    next_idx: int,
    eid: Option<Seq<char>>,
) -> Seq<DescV>
    decreases l, l.len() - i,
{
    if i < 0 || i > l.len() {
        Seq::empty()
    } else if i == l.len() {
        flush_group(g, g_idx, eid)
    } else if is_text_item(l[i]) {
        if g.len() == 0 {
            compile_list(l, i + 1, seq![l[i]], next_idx, next_idx + 1, eid)
        } else {
            compile_list(l, i + 1, g.push(l[i]), g_idx, next_idx, eid)
        }
    } else {
        flush_group(g, g_idx, eid) + (match l[i] {
            ContentV::Element(e) => compile_element(*e),
            _ => Seq::empty(),
        }) + compile_list(l, i + 1, Seq::empty(), 0, next_idx + 1, eid)
    }
}

/// The descriptors of one content value under an enclosing element id: a
/// bare state reference patches the whole element's text; a list is walked
/// in groups; a child element is compiled with its own id.
pub open spec fn compile_content(c: ContentV, eid: Option<Seq<char>>) -> Seq<DescV>
    decreases c,
{
    match c {
        ContentV::List(l) => compile_list(l, 0, Seq::empty(), 0, 0, eid),
        ContentV::State(d) => match eid {
            Option::Some(id) => seq![
                DescV {
                    element_id: id,
                    child_node_idx: Option::None,
                    target: TargetV::TextContent,
                    states: seq![d],
                    template: seq![TplV::Var(0)],
                },
            ],
            Option::None => Seq::empty(),
        },
        ContentV::Element(e) => compile_element(*e),
        _ => Seq::empty(),
    }
}

/// The descriptors of an element: its content's, then its attributes'.
pub open spec fn compile_element(e: ElementV) -> Seq<DescV>
    decreases e,
{
    compile_content(e.content, e.id) + compile_attrs(e.attrs, 0, e.id)
}

/// The descriptors of an attribute list, in key order.
pub open spec fn compile_attrs(
    attrs: Seq<(Seq<char>, AttrV)>,
    i: int,
    eid: Option<Seq<char>>,
) -> Seq<DescV>
    decreases attrs.len() - i,
{
    if i < 0 || i >= attrs.len() {
        Seq::empty()
    } else {
        compile_attr(attrs[i].0, attrs[i].1, eid) + compile_attrs(attrs, i + 1, eid)
    }
}

/// The state descriptors appearing in an attribute value list.
pub open spec fn av_states(l: Seq<AttrValueV>) -> Seq<StateDescV>
    decreases l.len(),
{
    if l.len() == 0 {
        Seq::empty()
    } else {
        av_states(l.drop_last()) + (match l.last() {
            AttrValueV::State(d) => seq![d],
            _ => Seq::empty(),
        })
    }
}

/// The template slot of one attribute value.
pub open spec fn av_item_tpl(v: AttrValueV, states: Seq<StateDescV>) -> TplV {
    match v {
        AttrValueV::Raw(t) => TplV::Text(t),
        AttrValueV::Text(t) => TplV::Text(script_single_quoted_text_of(t)),
        AttrValueV::State(d) => TplV::Var(first_state_index(states, d.state_id)),
        AttrValueV::Closure(_) => TplV::Text(Seq::empty()),
    }
}

/// The template of an attribute value list.
pub open spec fn av_tpl(l: Seq<AttrValueV>, states: Seq<StateDescV>) -> Seq<TplV>
    decreases l.len(),
{
    if l.len() == 0 {
        Seq::empty()
    } else {
        av_tpl(l.drop_last(), states).push(av_item_tpl(l.last(), states))
    }
}

/// The descriptors of one attribute: a single state reference or a value
/// list patches the attribute under its key; anything else patches nothing.
pub open spec fn compile_attr(key: Seq<char>, a: AttrV, eid: Option<Seq<char>>) -> Seq<DescV> {
    match eid {
        Option::None => Seq::empty(),
        Option::Some(id) => match a {
            AttrV::Value(AttrValueV::State(d)) => seq![
                DescV {
                    element_id: id,
                    child_node_idx: Option::None,
                    target: TargetV::Attribute(key),
                    states: seq![d],
                    template: seq![TplV::Var(0)],
                },
            ],
            AttrV::List(vals) => {
                let states = dedup_states(av_states(vals));
                seq![
                    DescV {
                        element_id: id,
                        child_node_idx: Option::None,
                        target: TargetV::Attribute(key),
                        states,
                        template: av_tpl(vals, states),
                    },
                ]
            },
            _ => Seq::empty(),
        },
    }
}

/// What the compiler accepts: every list short enough for child-node
/// indices, and no closure reference inside an attribute value list.
pub open spec fn compilable_content(c: ContentV) -> bool
    decreases c,
{
    match c {
        ContentV::List(l) => l.len() <= u32::MAX && (forall|i: int|
            0 <= i < l.len() ==> compilable_content(#[trigger] l[i])),
        ContentV::Element(e) => compilable_element(*e),
        _ => true,
    }
}

/// True when the attribute holds no closure reference in a value list.
pub open spec fn attr_closure_free(a: AttrV) -> bool {
    match a {
        AttrV::List(vals) => forall|i: int| 0 <= i < vals.len() ==> !((#[trigger] vals[i]) is Closure),
        _ => true,
    }
}

/// What the compiler accepts of an element.
pub open spec fn compilable_element(e: ElementV) -> bool
    decreases e,
{
    compilable_content(e.content) && (forall|i: int|
        0 <= i < e.attrs.len() ==> attr_closure_free((#[trigger] e.attrs[i]).1))
}

// ---------------------------------------------------------------------------
// Facts the compiler's callers and proofs rest on

/// Walking a list from index `i` equals walking the suffix from its start.
pub proof fn lemma_add_descs_skip(r: ReactivityV, l: Seq<DescV>, i: int)
    requires
        0 <= i <= l.len(),
    ensures
        add_descs(r, l, i) == add_descs(r, l.skip(i), 0),
    decreases l.len() - i,
{
    if i == l.len() {
        assert(l.skip(i).len() == 0);
    } else {
        let r1 = add_desc(r, l[i]);
        lemma_add_descs_skip(r1, l, i + 1);
        assert(l.skip(i)[0] == l[i]);
        lemma_add_descs_skip(r1, l.skip(i), 1);
        assert(l.skip(i).skip(1) =~= l.skip(i + 1));
    }
}

/// Adding a concatenation of descriptor lists adds the first, then the
/// second.
pub proof fn lemma_add_descs_concat(r: ReactivityV, a: Seq<DescV>, b: Seq<DescV>)
    ensures
        add_descs(r, a + b, 0) == add_descs(add_descs(r, a, 0), b, 0),
    decreases a.len(),
{
    let joined = a + b;
    if a.len() == 0 {
        assert(joined =~= b);
    } else {
        let r1 = add_desc(r, joined[0]);
        assert(joined[0] == a[0]);
        lemma_add_descs_skip(r1, joined, 1);
        assert(joined.skip(1) =~= a.drop_first() + b);
        lemma_add_descs_concat(r1, a.drop_first(), b);
        lemma_add_descs_skip(r1, a, 1);
        assert(a.skip(1) =~= a.drop_first());
    }
}

/// A state id found in a deduplicated list was in the list it came from, and
/// the other way round.
pub proof fn lemma_dedup_has_id(s: Seq<StateDescV>, id: Seq<char>)
    ensures
        has_state_id(dedup_states(s), id) == has_state_id(s, id),
    decreases s.len(),
{
    if s.len() > 0 {
        lemma_dedup_has_id(s.drop_last(), id);
        let rest = dedup_states(s.drop_last());
        if has_state_id(s.drop_last(), s.last().state_id) {
            if has_state_id(s, id) {
                let w = choose|i: int| 0 <= i < s.len() && (#[trigger] s[i]).state_id == id;
                if w < s.len() - 1 {
                    assert(s.drop_last()[w].state_id == id);
                } else {
                    assert(has_state_id(s.drop_last(), id));
                }
            }
            if has_state_id(s.drop_last(), id) {
                let w = choose|i: int|
                    0 <= i < s.drop_last().len() && (#[trigger] s.drop_last()[i]).state_id == id;
                assert(s[w].state_id == id);
            }
        } else {
            if has_state_id(s, id) {
                let w = choose|i: int| 0 <= i < s.len() && (#[trigger] s[i]).state_id == id;
                if w < s.len() - 1 {
                    assert(s.drop_last()[w].state_id == id);
                    let v = choose|i: int|
                        0 <= i < rest.len() && (#[trigger] rest[i]).state_id == id;
                    assert(rest.push(s.last())[v].state_id == id);
                } else {
                    assert(rest.push(s.last()).last().state_id == id);
                }
            }
            if has_state_id(rest.push(s.last()), id) {
                let w = choose|i: int|
                    0 <= i < rest.push(s.last()).len() && (#[trigger] rest.push(s.last())[i]).state_id
                        == id;
                if w < rest.len() {
                    assert(rest[w].state_id == id);
                    let v = choose|i: int|
                        0 <= i < s.drop_last().len() && (#[trigger] s.drop_last()[i]).state_id
                            == id;
                    assert(s[v].state_id == id);
                } else {
                    assert(s.last().state_id == id);
                    assert(s[s.len() - 1].state_id == id);
                }
            }
        }
    }
}

/// A deduplicated list holds each state id at most once.
pub proof fn lemma_dedup_unique(s: Seq<StateDescV>)
    ensures
        forall|i: int, j: int|
            0 <= i < j < dedup_states(s).len() ==> (#[trigger] dedup_states(s)[i]).state_id != (
            #[trigger] dedup_states(s)[j]).state_id,
    decreases s.len(),
{
    if s.len() > 0 {
        lemma_dedup_unique(s.drop_last());
        let rest = dedup_states(s.drop_last());
        if !has_state_id(s.drop_last(), s.last().state_id) {
            lemma_dedup_has_id(s.drop_last(), s.last().state_id);
            assert forall|i: int, j: int|
                0 <= i < j < rest.push(s.last()).len() implies (#[trigger] rest.push(s.last())[i]).state_id
                != (#[trigger] rest.push(s.last())[j]).state_id by {
                if j < rest.len() {
                    assert(rest[i].state_id != rest[j].state_id);
                } else {
                    assert(rest.push(s.last())[j] == s.last());
                    if rest[i].state_id == s.last().state_id {
                        assert(has_state_id(rest, s.last().state_id));
                    }
                }
            }
        }
    }
}

/// The first index of an id already present does not move when the list
/// grows.
pub proof fn lemma_first_index_extend(s: Seq<StateDescV>, x: StateDescV, id: Seq<char>)
    requires
        has_state_id(s, id),
    ensures
        first_state_index(s.push(x), id) == first_state_index(s, id),
        0 <= first_state_index(s, id) < s.len(),
    decreases s.len(),
{
    let w = choose|i: int| 0 <= i < s.len() && (#[trigger] s[i]).state_id == id;
    if s.first().state_id == id {
        assert(s.push(x).first().state_id == id);
    } else {
        assert(s.drop_first()[w - 1].state_id == id);
        lemma_first_index_extend(s.drop_first(), x, id);
        assert(s.push(x).drop_first() =~= s.drop_first().push(x));
        assert(s.push(x).first() == s.first());
    }
}

/// The first index of a fresh id is the position it is pushed at.
pub proof fn lemma_first_index_absent(s: Seq<StateDescV>, x: StateDescV)
    requires
        !has_state_id(s, x.state_id),
        x.state_id == x.state_id,
    ensures
        first_state_index(s.push(x), x.state_id) == s.len(),
    decreases s.len(),
{
    if s.len() == 0 {
        assert(s.push(x).first().state_id == x.state_id);
    } else {
        assert(s.first().state_id != x.state_id) by {
            if s.first().state_id == x.state_id {
                assert(has_state_id(s, x.state_id));
            }
        }
        assert(!has_state_id(s.drop_first(), x.state_id)) by {
            if has_state_id(s.drop_first(), x.state_id) {
                let w = choose|i: int|
                    0 <= i < s.drop_first().len() && (#[trigger] s.drop_first()[i]).state_id
                        == x.state_id;
                assert(s[w + 1].state_id == x.state_id);
            }
        }
        lemma_first_index_absent(s.drop_first(), x);
        assert(s.push(x).drop_first() =~= s.drop_first().push(x));
        assert(s.push(x).first() == s.first());
    }
}

/// A template stays the same when the state list grows, as long as every
/// state the run reads is already listed.
pub proof fn lemma_group_tpl_extend(g: Seq<ContentV>, s: Seq<StateDescV>, x: StateDescV)
    requires
        forall|i: int|
            0 <= i < g.len() ==> ((#[trigger] g[i]) is State ==> has_state_id(s, g[i]->State_0.state_id)),
    ensures
        group_tpl(g, s.push(x)) == group_tpl(g, s),
    decreases g.len(),
{
    if g.len() > 0 {
        assert(forall|i: int|
            0 <= i < g.drop_last().len() ==> ((#[trigger] g.drop_last()[i]) is State
                ==> has_state_id(s, g.drop_last()[i]->State_0.state_id)));
        lemma_group_tpl_extend(g.drop_last(), s, x);
        match g.last() {
            ContentV::State(d) => {
                assert(g[g.len() - 1] is State);
                lemma_first_index_extend(s, x, d.state_id);
            },
            _ => {},
        }
    }
}

/// The attribute-value form of the same fact.
pub proof fn lemma_av_tpl_extend(l: Seq<AttrValueV>, s: Seq<StateDescV>, x: StateDescV)
    requires
        forall|i: int|
            0 <= i < l.len() ==> ((#[trigger] l[i]) is State ==> has_state_id(s, l[i]->State_0.state_id)),
    ensures
        av_tpl(l, s.push(x)) == av_tpl(l, s),
    decreases l.len(),
{
    if l.len() > 0 {
        assert(forall|i: int|
            0 <= i < l.drop_last().len() ==> ((#[trigger] l.drop_last()[i]) is State
                ==> has_state_id(s, l.drop_last()[i]->State_0.state_id)));
        lemma_av_tpl_extend(l.drop_last(), s, x);
        match l.last() {
            AttrValueV::State(d) => {
                assert(l[l.len() - 1] is State);
                lemma_first_index_extend(s, x, d.state_id);
            },
            _ => {},
        }
    }
}


/// The first matching index is the one linear search finds.
pub proof fn lemma_first_index_at(s: Seq<StateDescV>, id: Seq<char>, j: int)
    requires
        0 <= j < s.len(),
        s[j].state_id == id,
        forall|m: int| 0 <= m < j ==> (#[trigger] s[m]).state_id != id,
    ensures
        first_state_index(s, id) == j,
    decreases j,
{
    if j > 0 {
        assert(s.first().state_id != id);
        assert(s.drop_first()[j - 1].state_id == id);
        assert(forall|m: int| 0 <= m < j - 1 ==> (#[trigger] s.drop_first()[m]).state_id != id);
        lemma_first_index_at(s.drop_first(), id, j - 1);
    }
}


/// Adding a single descriptor is one `add`.
pub proof fn lemma_add_descs_single(r: ReactivityV, d: DescV)
    ensures
        add_descs(r, seq![d], 0) == add_desc(r, d),
{
    assert(add_descs(add_desc(r, d), seq![d], 1) == add_desc(r, d));
}

} // verus!

//! The per-session context: the id source, the state arena, the computed
//! graph, and the closure and event registries, owned together for the
//! session's lifetime.

use vstd::prelude::*;

use crate::closures::Closures;
use crate::computed::{ComputedState, Computeds, InitialValue};
use crate::escape;
use crate::events::{has_event, param_views, EventV, Events};
use crate::model::{ContentV, ElementV};
use crate::random_id::{seeded_id_chars, IdSource, RandomId};
use crate::states::{lookup_cell, update_cell, State, States};
use crate::value::Value;

verus! {

/// One field of a listener registration: forward only the declared payload
/// fields.
pub open spec fn field_part(field: Seq<char>) -> Seq<char> {
    field + ": params."@ + field + ","@
}

/// The forwarded-field object body of one listener registration.
pub open spec fn fields_part(params: Seq<Seq<char>>, i: int) -> Seq<char>
    decreases params.len() - i,
{
    if i < 0 || i >= params.len() {
        Seq::empty()
    } else {
        field_part(params[i]) + fields_part(params, i + 1)
    }
}

/// The client-side listener registration of one event.
pub open spec fn listener_script(name: Seq<char>, params: Seq<Seq<char>>) -> Seq<char> {
    "document.addEventListener('"@ + name + "', params=>{params={"@ + fields_part(params, 0)
        + "};if (window.Coaxial) window.Coaxial.onEvent('"@ + name + "', params);});"@
}

/// The listener registrations of all events, in registration order.
pub open spec fn listeners_script<H>(evs: Seq<EventV<H>>, i: int) -> Seq<char>
    decreases evs.len() - i,
{
    if i < 0 || i >= evs.len() {
        Seq::empty()
    } else {
        listener_script(evs[i].name, evs[i].params) + listeners_script(evs, i + 1)
    }
}

/// The whole adapter script: the base client code, the listener
/// registrations, and the reactivity subscriptions run once the document
/// has loaded.
pub open spec fn adapter_script<H>(base: Seq<char>, evs: Seq<EventV<H>>, reactive: Seq<char>) -> Seq<
    char,
> {
    base + listeners_script(evs, 0) + "document.addEventListener(\"DOMContentLoaded\", () => { "@
        + reactive + " });"@
}

/// The per-session context. `C` is the stored closure representation and
/// `H` the stored event-handler representation; the surrounding runtime
/// chooses both.
pub struct Context<C, H> {
    /// The seeded id source.
    pub ids: IdSource,
    /// Whether a live connection is active; background recomputation is only
    /// scheduled then.
    pub in_websocket: bool,
    /// The state arena and change bus.
    pub states: States,
    /// The computed graph.
    pub computeds: Computeds,
    /// The closure registry.
    pub closures: Closures<C>,
    /// The event registry.
    pub events: Events<H>,
}

impl<C, H> Context<C, H> {
    /// A fresh context seeded with `seed`: the same seed reproduces the same
    /// id sequence, which is how the live connection reconstructs the ids
    /// minted during the initial render.
    pub fn new(seed: u64, in_websocket: bool) -> (r: Context<C, H>)
        ensures
            r.ids.seed() == seed,
            r.ids.drawn() == 0,
            r.in_websocket == in_websocket,
            r.states.cells() == Seq::<(Seq<char>, Value)>::empty(),
            r.states.changes() == Seq::<(Seq<char>, Seq<char>)>::empty(),
            r.computeds.sync() == Seq::<crate::computed::ListenerV>::empty(),
            r.computeds.asyncs() == Seq::<crate::computed::ListenerV>::empty(),
            r.closures.ids() == Seq::<Seq<char>>::empty(),
            r.closures.pending() == Seq::<Seq<char>>::empty(),
            r.events.view_events() == Seq::<EventV<H>>::empty(),
    {
        Context {
            ids: IdSource::from_seed(seed),
            in_websocket,
            states: States::new(),
            computeds: Computeds::new(),
            closures: Closures::new(),
            events: Events::new(),
        }
    }

    /// Declares a state cell holding `value`: mints the next id of the
    /// session's stream and registers the cell under it.
    pub fn use_state(&mut self, value: Value) -> (r: State)
        ensures
            r.id@ == seeded_id_chars(old(self).ids.seed(), old(self).ids.drawn()),
            final(self).states.cells() == update_cell(old(self).states.cells(), r.id@, value),
            final(self).states.changes() == old(self).states.changes(),
            final(self).ids.seed() == old(self).ids.seed(),
            final(self).ids.drawn() == old(self).ids.drawn()
                + crate::random_id::RANDOM_ID_LENGTH,
            final(self).computeds == old(self).computeds,
            final(self).closures == old(self).closures,
            final(self).events == old(self).events,
            final(self).in_websocket == old(self).in_websocket,
    {
        let id = RandomId::from_rng(&mut self.ids);
        self.states.insert(&id, value);
        State { id }
    }

    /// Registers a closure under the next id of the session's stream: the
    /// callback itself is stored under that id.
    pub fn use_closure(&mut self, closure: C) -> (r: crate::closures::Closure)
        ensures
            r.id@ == seeded_id_chars(old(self).ids.seed(), old(self).ids.drawn()),
            final(self).closures.entries() == old(self).closures.entries().push(
                (r.id@, closure),
            ),
            final(self).closures.pending() == old(self).closures.pending(),
            final(self).ids.seed() == old(self).ids.seed(),
            final(self).ids.drawn() == old(self).ids.drawn()
                + crate::random_id::RANDOM_ID_LENGTH,
            final(self).states == old(self).states,
            final(self).computeds == old(self).computeds,
            final(self).events == old(self).events,
            final(self).in_websocket == old(self).in_websocket,
    {
        let id = RandomId::from_rng(&mut self.ids);
        let handle = crate::closures::Closure { id: id.clone() };
        self.closures.insert(id, closure);
        handle
    }

    /// Derives a cell from upstream cells: evaluates `compute` once,
    /// synchronously, against their current values for the initial value,
    /// then registers the derivation so dependency changes recompute it.
    /// It fails, changing nothing, exactly when a dependency cell is
    /// missing; otherwise the new cell holds a result of `compute` on the
    /// current dependency values.
    pub fn use_computed<F: Fn(Vec<Value>) -> Value>(&mut self, deps: Vec<RandomId>, compute: &F)
        -> (r: Option<ComputedState>)
        requires
            forall|vals: Vec<Value>| call_requires(*compute, (vals,)),
        ensures
            r is None <==> exists|j: int|
                0 <= j < deps@.len() && lookup_cell(
                    old(self).states.cells(),
                    (#[trigger] deps@[j])@,
                ) is None,
            r is None ==> *final(self) == *old(self),
            r matches Some(c) ==> {
                &&& c.state.id@ == seeded_id_chars(old(self).ids.seed(), old(self).ids.drawn())
                &&& exists|vals: Vec<Value>, out: Value|
                    {
                        &&& vals@.len() == deps@.len()
                        &&& (forall|j: int|
                            0 <= j < vals@.len() ==> Option::Some(#[trigger] vals@[j])
                                == lookup_cell(old(self).states.cells(), deps@[j]@))
                        &&& call_ensures(*compute, (vals,), out)
                        &&& final(self).states.cells() == update_cell(
                            old(self).states.cells(),
                            c.state.id@,
                            out,
                        )
                    }
                &&& final(self).states.changes() == old(self).states.changes()
                &&& final(self).computeds.sync() == old(self).computeds.sync().push(
                    crate::computed::ListenerV {
                        cell: c.state.id@,
                        deps: crate::computed::dep_views(deps@),
                    },
                )
                &&& final(self).computeds.asyncs() == old(self).computeds.asyncs()
                &&& final(self).ids.seed() == old(self).ids.seed()
                &&& final(self).ids.drawn() == old(self).ids.drawn()
                    + crate::random_id::RANDOM_ID_LENGTH
                &&& final(self).closures == old(self).closures
                &&& final(self).events == old(self).events
                &&& final(self).in_websocket == old(self).in_websocket
            },
    {
        let vals = match gather_values(&self.states, &deps) {
            Some(vals) => vals,
            None => {
                return None;
            },
        };
        proof {
            assert(forall|j: int|
                0 <= j < deps@.len() ==> Option::Some(vals@[j]) == lookup_cell(
                    self.states.cells(),
                    (#[trigger] deps@[j])@,
                ));
        }
        let ghost vals_g = vals;
        let initial = compute(vals);
        let ghost out_g = initial;
        let state = self.use_state(initial);
        let cell_id = state.id.clone();
        self.computeds.add_computed(cell_id, deps);
        proof {
            assert(call_ensures(*compute, (vals_g,), out_g));
        }
        Some(ComputedState { state })
    }

    /// Derives a cell with an explicit starting policy: an explicit value,
    /// or an explicit value recomputed right away, which for this blocking
    /// form means evaluating `compute` now and ignoring the provided value.
    /// With an explicit value it always succeeds, seeding the new cell with
    /// exactly that value; with immediate recomputation it fails exactly
    /// when a dependency cell is missing.
    pub fn use_computed_with<F: Fn(Vec<Value>) -> Value>(
        &mut self,
        deps: Vec<RandomId>,
        compute: &F,
        initial: InitialValue<Value>,
    ) -> (r: Option<ComputedState>)
        requires
            forall|vals: Vec<Value>| call_requires(*compute, (vals,)),
        ensures
            r is None <==> (initial is ValueAndCompute && exists|j: int|
                0 <= j < deps@.len() && lookup_cell(
                    old(self).states.cells(),
                    (#[trigger] deps@[j])@,
                ) is None),
            r is None ==> *final(self) == *old(self),
            r matches Some(c) ==> {
                &&& c.state.id@ == seeded_id_chars(old(self).ids.seed(), old(self).ids.drawn())
                &&& final(self).computeds.sync() == old(self).computeds.sync().push(
                    crate::computed::ListenerV {
                        cell: c.state.id@,
                        deps: crate::computed::dep_views(deps@),
                    },
                )
                &&& final(self).states.changes() == old(self).states.changes()
                &&& match initial {
                    InitialValue::Value(v) => final(self).states.cells() == update_cell(
                        old(self).states.cells(),
                        c.state.id@,
                        v,
                    ),
                    InitialValue::ValueAndCompute(_) => exists|vals: Vec<Value>, out: Value|
                        {
                            &&& vals@.len() == deps@.len()
                            &&& (forall|j: int|
                                0 <= j < vals@.len() ==> Option::Some(#[trigger] vals@[j])
                                    == lookup_cell(old(self).states.cells(), deps@[j]@))
                            &&& call_ensures(*compute, (vals,), out)
                            &&& final(self).states.cells() == update_cell(
                                old(self).states.cells(),
                                c.state.id@,
                                out,
                            )
                        },
                }
            },
    {
        match initial {
            InitialValue::Value(value) => {
                let state = self.use_state(value);
                let cell_id = state.id.clone();
                self.computeds.add_computed(cell_id, deps);
                Some(ComputedState { state })
            },
            InitialValue::ValueAndCompute(_value) => self.use_computed(deps, compute),
        }
    }

    /// Derives a cell recomputed in the background: seeds it from the given
    /// value and registers the asynchronous derivation. Returns the cell
    /// and whether the runtime should recompute immediately, which it is
    /// asked to only inside an active live connection.
    pub fn use_computed_async_with(
        &mut self,
        deps: Vec<RandomId>,
        initial: InitialValue<Value>,
    ) -> (r: (ComputedState, bool))
        ensures
            r.0.state.id@ == seeded_id_chars(old(self).ids.seed(), old(self).ids.drawn()),
            final(self).states.cells() == update_cell(
                old(self).states.cells(),
                r.0.state.id@,
                (match initial {
                    InitialValue::Value(v) => v,
                    InitialValue::ValueAndCompute(v) => v,
                }),
            ),
            final(self).states.changes() == old(self).states.changes(),
            final(self).computeds.asyncs() == old(self).computeds.asyncs().push(
                crate::computed::ListenerV {
                    cell: r.0.state.id@,
                    deps: crate::computed::dep_views(deps@),
                },
            ),
            final(self).computeds.sync() == old(self).computeds.sync(),
            r.1 == (old(self).in_websocket && initial is ValueAndCompute),
    {
        let (value, needs_recompute) = match initial {
            InitialValue::Value(value) => (value, false),
            InitialValue::ValueAndCompute(value) => (value, true),
        };
        let state = self.use_state(value);
        let cell_id = state.id.clone();
        let schedule = self.computeds.add_computed_async(
            cell_id,
            deps,
            needs_recompute && self.in_websocket,
        );
        (ComputedState { state }, schedule)
    }

    /// Registers a handler for a named client event, with the payload
    /// fields it reads.
    pub fn on(&mut self, name: String, fields: Vec<String>, handler: H)
        ensures
            has_event(final(self).events.view_events(), name@),
    {
        let ghost evs = self.events.view_events();
        let ghost h = handler;
        self.events.add(name, fields, handler);
        proof {
            if has_event(evs, name@) {
                let i = choose|i: int|
                    {
                        &&& 0 <= i < evs.len()
                        &&& (#[trigger] evs[i]).name == name@
                        &&& self.events.view_events() == evs.update(
                            i,
                            EventV {
                                name: name@,
                                params: crate::events::union_params(
                                    evs[i].params,
                                    param_views(fields@),
                                ),
                                handlers: evs[i].handlers.push(h),
                            },
                        )
                    };
                assert(self.events.view_events()[i].name == name@);
            } else {
                assert(self.events.view_events().last().name == name@);
            }
        }
    }

    /// Builds the `<script>` element carrying the client adapter: the base
    /// adapter code, one listener registration per event forwarding only
    /// the declared fields, and the reactivity subscriptions, all
    /// script-escaped.
    pub fn adapter_script_element(&self, base: &str, reactive_scripts: &str) -> (r:
        crate::element::Element)
        ensures
            crate::element::view_element(r) == (ElementV {
                id: Option::None,
                name: "script"@,
                content: ContentV::Raw(
                    crate::escape::script_text_of(
                        adapter_script(base@, self.events.view_events(), reactive_scripts@),
                    ),
                ),
                attrs: Seq::empty(),
            }),
    {
        let mut script = String::from_str(base);
        let listeners = self.event_listeners_script();
        script.append(listeners.as_str());
        script.append("document.addEventListener(\"DOMContentLoaded\", () => { ");
        script.append(reactive_scripts);
        script.append(" });");
        let escaped = escape::encode_script(script.as_str());
        crate::funcs::script(
            crate::content::Content::Raw(escaped),
            crate::attributes::Attributes::new_empty(),
        )
    }

    /// Builds the listener registrations of every event.
    pub fn event_listeners_script(&self) -> (r: String)
        ensures
            r@ == listeners_script(self.events.view_events(), 0),
    {
        let ghost evs = self.events.view_events();
        let list = self.events.list();
        let mut out = String::new();
        let ghost target = listeners_script(evs, 0);
        let n = list.len();
        let mut i: usize = 0;
        while i < n
            invariant
                n == list@.len(),
                n == evs.len(),
                forall|j: int|
                    0 <= j < n ==> (#[trigger] list@[j]).0@ == evs[j].name && param_views(
                        list@[j].1@,
                    ) == evs[j].params,
                0 <= i <= n,
                target == out@ + listeners_script(evs, i as int),
            decreases n - i,
        {
            let entry = &list[i];
            out.append("document.addEventListener('");
            out.append(entry.0.as_str());
            out.append("', params=>{params={");
            let ghost params = evs[i as int].params;
            let ghost after_fields = out@ + fields_part(params, 0);
            let m = entry.1.len();
            let mut j: usize = 0;
            while j < m
                invariant
                    m == entry.1@.len(),
                    m == params.len(),
                    param_views(entry.1@) == params,
                    0 <= j <= m,
                    after_fields == out@ + fields_part(params, j as int),
                decreases m - j,
            {
                out.append(entry.1[j].as_str());
                out.append(": params.");
                out.append(entry.1[j].as_str());
                out.append(",");
                j = j + 1;
            }
            proof {
                assert(fields_part(params, m as int) =~= Seq::<char>::empty());
                assert(out@ =~= after_fields);
            }
            out.append("};if (window.Coaxial) window.Coaxial.onEvent('");
            out.append(entry.0.as_str());
            out.append("', params);});");
            i = i + 1;
        }
        proof {
            assert(listeners_script(evs, n as int) =~= Seq::<char>::empty());
            assert(out@ =~= target);
        }
        out
    }
}

/// Reads the current values of a list of cells; `None` exactly when one is
/// missing.
fn gather_values(states: &States, deps: &Vec<RandomId>) -> (r: Option<Vec<Value>>)
    ensures
        r matches Some(vals) ==> {
            &&& vals@.len() == deps@.len()
            &&& forall|j: int|
                0 <= j < vals@.len() ==> Option::Some(#[trigger] vals@[j]) == lookup_cell(
                    states.cells(),
                    deps@[j]@,
                )
        },
        r is None ==> exists|j: int|
            0 <= j < deps@.len() && lookup_cell(states.cells(), (#[trigger] deps@[j])@) is None,
{
    let mut vals: Vec<Value> = Vec::new();
    let n = deps.len();
    let mut i: usize = 0;
    while i < n
        invariant
            n == deps@.len(),
            0 <= i <= n,
            vals@.len() == i,
            forall|j: int|
                0 <= j < i ==> Option::Some(#[trigger] vals@[j]) == lookup_cell(
                    states.cells(),
                    deps@[j]@,
                ),
        decreases n - i,
    {
        match states.get(&deps[i]) {
            Some(v) => {
                vals.push(v.clone());
            },
            None => {
                proof {
                    assert(lookup_cell(states.cells(), deps@[i as int]@) is None);
                }
                return None;
            },
        }
        i = i + 1;
    }
    Some(vals)
}

} // verus!

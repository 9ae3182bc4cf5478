//! The computed graph: derived values and their recomputation.
//!
//! Each derived cell records the ordered list of upstream cell ids it
//! depends on. When a dependency changes, the protocol asks which listeners
//! to run; synchronous ones are recomputed inline through `recompute_with`,
//! asynchronous ones are handed to the runtime.

use vstd::prelude::*;

use crate::random_id::RandomId;
use crate::states::{lookup_cell, update_cell, State, StateError, States};
use crate::value::Value;

verus! {

/// How an asynchronously derived cell starts.
pub enum InitialValue<O> {
    /// Set the initial value.
    Value(O),
    /// Set the initial value, and recompute in the background.
    ValueAndCompute(O),
}

/// A state cell whose value is only ever written by its recompute function.
pub struct ComputedState {
    /// The handle of the underlying cell.
    pub state: State,
}

impl ComputedState {
    /// Reads the derived cell's current value.
    pub fn get(&self, states: &States) -> (r: Value)
        requires
            lookup_cell(states.cells(), self.state.id@) is Some,
        ensures
            Option::Some(r) == lookup_cell(states.cells(), self.state.id@),
    {
        self.state.get(states)
    }
}

/// One registered derivation: the derived cell and its ordered upstream
/// dependencies.
pub struct Listener {
    /// The derived cell's id.
    pub cell: RandomId,
    /// The ids of the cells the derivation reads, in order.
    pub deps: Vec<RandomId>,
}

/// The ghost mirror of a listener.
pub struct ListenerV {
    pub cell: Seq<char>,
    pub deps: Seq<Seq<char>>,
}

/// The ghost mirror of a dependency list.
pub open spec fn dep_views(l: Seq<RandomId>) -> Seq<Seq<char>> {
    l.map_values(|id: RandomId| id@)
}

/// The ghost mirror of a listener list.
pub open spec fn listener_views(l: Seq<Listener>) -> Seq<ListenerV> {
    l.map_values(|x: Listener| ListenerV { cell: x.cell@, deps: dep_views(x.deps@) })
}

/// True when the listener depends on the id.
pub open spec fn listener_depends(x: ListenerV, id: Seq<char>) -> bool {
    exists|i: int| 0 <= i < x.deps.len() && x.deps[i] == id
}

/// The registry of derived cells.
pub struct Computeds {
    sync_listeners: Vec<Listener>,
    async_listeners: Vec<Listener>,
}

impl Computeds {
    /// The synchronous listeners, in registration order.
    pub closed spec fn sync(&self) -> Seq<ListenerV> {
        listener_views(self.sync_listeners@)
    }

    /// The asynchronous listeners, in registration order.
    pub closed spec fn asyncs(&self) -> Seq<ListenerV> {
        listener_views(self.async_listeners@)
    }

    /// An empty registry.
    pub fn new() -> (r: Computeds)
        ensures
            r.sync() == Seq::<ListenerV>::empty(),
            r.asyncs() == Seq::<ListenerV>::empty(),
    {
        let r = Computeds { sync_listeners: Vec::new(), async_listeners: Vec::new() };
        proof {
            assert(r.sync() =~= Seq::<ListenerV>::empty());
            assert(r.asyncs() =~= Seq::<ListenerV>::empty());
        }
        r
    }

    /// Registers a synchronous derivation.
    pub fn add_computed(&mut self, cell: RandomId, deps: Vec<RandomId>)
        ensures
            final(self).sync() == old(self).sync().push(
                ListenerV { cell: cell@, deps: dep_views(deps@) },
            ),
            final(self).asyncs() == old(self).asyncs(),
    {
        let ghost v = ListenerV { cell: cell@, deps: dep_views(deps@) };
        self.sync_listeners.push(Listener { cell, deps });
        proof {
            assert(self.sync() =~= old(self).sync().push(v));
        }
    }

    /// Registers an asynchronous derivation; returns whether the runtime
    /// should recompute it right away, which is asked for only inside an
    /// active live connection.
    pub fn add_computed_async(
        &mut self,
        cell: RandomId,
        deps: Vec<RandomId>,
        immediately_recompute: bool,
    ) -> (r: bool)
        ensures
            final(self).asyncs() == old(self).asyncs().push(
                ListenerV { cell: cell@, deps: dep_views(deps@) },
            ),
            final(self).sync() == old(self).sync(),
            r == immediately_recompute,
    {
        let ghost v = ListenerV { cell: cell@, deps: dep_views(deps@) };
        self.async_listeners.push(Listener { cell, deps });
        proof {
            assert(self.asyncs() =~= old(self).asyncs().push(v));
        }
        immediately_recompute
    }

    /// The positions of the synchronous listeners that depend on the changed
    /// id, in registration order; each listener appears at most once, so it
    /// runs exactly once per triggering change.
    pub fn sync_dependents(&self, id: &RandomId) -> (r: Vec<usize>)
        ensures
            forall|k: int, m: int| 0 <= k < m < r@.len() ==> r@[k] < r@[m],
            forall|k: int| 0 <= k < r@.len() ==> #[trigger] r@[k] < self.sync().len(),
            forall|k: int|
                0 <= k < r@.len() ==> listener_depends(self.sync()[#[trigger] r@[k] as int], id@),
            forall|j: int|
                0 <= j < self.sync().len() && listener_depends(#[trigger] self.sync()[j], id@)
                    ==> exists|k: int| 0 <= k < r@.len() && r@[k] == j,
    {
        dependents_of(&self.sync_listeners, id)
    }

    /// The positions of the asynchronous listeners that depend on the
    /// changed id.
    pub fn async_dependents(&self, id: &RandomId) -> (r: Vec<usize>)
        ensures
            forall|k: int, m: int| 0 <= k < m < r@.len() ==> r@[k] < r@[m],
            forall|k: int| 0 <= k < r@.len() ==> #[trigger] r@[k] < self.asyncs().len(),
            forall|k: int|
                0 <= k < r@.len() ==> listener_depends(
                    self.asyncs()[#[trigger] r@[k] as int],
                    id@,
                ),
            forall|j: int|
                0 <= j < self.asyncs().len() && listener_depends(#[trigger] self.asyncs()[j], id@)
                    ==> exists|k: int| 0 <= k < r@.len() && r@[k] == j,
    {
        dependents_of(&self.async_listeners, id)
    }

    /// How many synchronous listeners are registered.
    pub fn sync_count(&self) -> (r: usize)
        ensures
            r == self.sync().len(),
    {
        self.sync_listeners.len()
    }

    /// How many asynchronous listeners are registered.
    pub fn async_count(&self) -> (r: usize)
        ensures
            r == self.asyncs().len(),
    {
        self.async_listeners.len()
    }

    /// The derived cell id of one asynchronous listener, for the runtime to
    /// write the computed value back to.
    pub fn async_listener(&self, idx: usize) -> (r: (RandomId, Vec<RandomId>))
        requires
            idx < self.asyncs().len(),
        ensures
            r.0@ == self.asyncs()[idx as int].cell,
            dep_views(r.1@) == self.asyncs()[idx as int].deps,
    {
        let x = &self.async_listeners[idx];
        let mut deps: Vec<RandomId> = Vec::new();
        let n = x.deps.len();
        let mut i: usize = 0;
        while i < n
            invariant
                n == x.deps@.len(),
                0 <= i <= n,
                deps@.len() == i,
                forall|j: int| 0 <= j < i ==> #[trigger] deps@[j]@ == x.deps@[j]@,
            decreases n - i,
        {
            deps.push(x.deps[i].clone());
            i = i + 1;
        }
        proof {
            assert(dep_views(deps@) =~= dep_views(x.deps@));
        }
        (x.cell.clone(), deps)
    }

    /// Reads the current values of one synchronous listener's dependencies.
    pub fn sync_dep_values(&self, idx: usize, states: &States) -> (r: Option<Vec<Value>>)
        requires
            idx < self.sync().len(),
        ensures
            r matches Some(vals) ==> {
                &&& vals@.len() == self.sync()[idx as int].deps.len()
                &&& forall|j: int|
                    0 <= j < vals@.len() ==> Option::Some(#[trigger] vals@[j]) == lookup_cell(
                        states.cells(),
                        self.sync()[idx as int].deps[j],
                    )
            },
            r is None ==> exists|j: int|
                0 <= j < self.sync()[idx as int].deps.len() && lookup_cell(
                    states.cells(),
                    #[trigger] self.sync()[idx as int].deps[j],
                ) is None,
    {
        let x = &self.sync_listeners[idx];
        let mut vals: Vec<Value> = Vec::new();
        let n = x.deps.len();
        let mut i: usize = 0;
        while i < n
            invariant
                n == x.deps@.len(),
                dep_views(x.deps@) == self.sync()[idx as int].deps,
                0 <= i <= n,
                vals@.len() == i,
                forall|j: int|
                    0 <= j < i ==> Option::Some(#[trigger] vals@[j]) == lookup_cell(
                        states.cells(),
                        self.sync()[idx as int].deps[j],
                    ),
            decreases n - i,
        {
            match states.get(&x.deps[i]) {
                Some(v) => {
                    vals.push(v.clone());
                },
                None => {
                    proof {
                        assert(lookup_cell(states.cells(), self.sync()[idx as int].deps[i as int])
                            is None);
                    }
                    return None;
                },
            }
            i = i + 1;
        }
        Some(vals)
    }

    /// Runs one synchronous listener: reads the current dependency values,
    /// applies the compute function, and writes the result to the derived
    /// cell, enqueueing its change event. After the call, the derived cell
    /// holds exactly a result of `compute` on the current dependency values.
    /// It fails with `UnknownState` exactly when a dependency cell or the
    /// derived cell is missing, and with `KindMismatch` only when the
    /// computed result is of the wrong kind for the derived cell; so when
    /// every cell exists and every possible compute result has the cell's
    /// kind, it succeeds.
    pub fn recompute_with<F: Fn(Vec<Value>) -> Value>(
        &self,
        idx: usize,
        states: &mut States,
        compute: &F,
    ) -> (r: Result<(), StateError>)
        requires
            idx < self.sync().len(),
            forall|vals: Vec<Value>| call_requires(*compute, (vals,)),
        ensures
            r is Err ==> *final(states) == *old(states),
            r matches Err(StateError::UnknownState) <==> ((exists|j: int|
                0 <= j < self.sync()[idx as int].deps.len() && lookup_cell(
                    old(states).cells(),
                    #[trigger] self.sync()[idx as int].deps[j],
                ) is None) || lookup_cell(
                old(states).cells(),
                self.sync()[idx as int].cell,
            ) is None),
            r matches Err(StateError::KindMismatch) ==> exists|vals: Vec<Value>, out: Value|
                {
                    &&& vals@.len() == self.sync()[idx as int].deps.len()
                    &&& (forall|j: int|
                        0 <= j < vals@.len() ==> Option::Some(#[trigger] vals@[j]) == lookup_cell(
                            old(states).cells(),
                            self.sync()[idx as int].deps[j],
                        ))
                    &&& call_ensures(*compute, (vals,), out)
                    &&& lookup_cell(old(states).cells(), self.sync()[idx as int].cell)
                        matches Some(cur) && !cur.same_kind(&out)
                },
            r is Ok ==> exists|vals: Vec<Value>, out: Value|
                {
                    &&& vals@.len() == self.sync()[idx as int].deps.len()
                    &&& (forall|j: int|
                        0 <= j < vals@.len() ==> Option::Some(#[trigger] vals@[j]) == lookup_cell(
                            old(states).cells(),
                            self.sync()[idx as int].deps[j],
                        ))
                    &&& call_ensures(*compute, (vals,), out)
                    &&& final(states).cells() == update_cell(
                        old(states).cells(),
                        self.sync()[idx as int].cell,
                        out,
                    )
                    &&& final(states).changes() == old(states).changes().push(
                        (self.sync()[idx as int].cell, out.display_seq()),
                    )
                },
    {
        let vals = match self.sync_dep_values(idx, states) {
            Some(vals) => vals,
            None => {
                return Err(StateError::UnknownState);
            },
        };
        proof {
            assert forall|j: int| 0 <= j < self.sync()[idx as int].deps.len() implies lookup_cell(
                states.cells(),
                #[trigger] self.sync()[idx as int].deps[j],
            ) is Some by {
                assert(Option::Some(vals@[j]) == lookup_cell(
                    states.cells(),
                    self.sync()[idx as int].deps[j],
                ));
            }
        }
        let ghost vals_g = vals;
        let out = compute(vals);
        let ghost out_g = out;
        let cell = &self.sync_listeners[idx].cell;
        proof {
            assert(cell@ == self.sync()[idx as int].cell);
        }
        match states.get(cell) {
            Some(current) => {
                if !current.kind_matches(&out) {
                    proof {
                        assert(call_ensures(*compute, (vals_g,), out_g));
                    }
                    return Err(StateError::KindMismatch);
                }
            },
            None => {
                return Err(StateError::UnknownState);
            },
        }
        let serialized = out.display();
        let ghost pre_cells = states.cells();
        let ghost pre_changes = states.changes();
        let outcome = states.set(cell, out);
        proof {
            match outcome {
                Ok(_) => {
                    assert(call_ensures(*compute, (vals_g,), out_g));
                },
                Err(_) => {
                    assert(false);
                },
            }
        }
        Ok(())
    }
}

fn dependents_of(listeners: &Vec<Listener>, id: &RandomId) -> (r: Vec<usize>)
    ensures
        forall|k: int, m: int| 0 <= k < m < r@.len() ==> r@[k] < r@[m],
        forall|k: int| 0 <= k < r@.len() ==> #[trigger] r@[k] < listener_views(listeners@).len(),
        forall|k: int|
            0 <= k < r@.len() ==> listener_depends(
                listener_views(listeners@)[#[trigger] r@[k] as int],
                id@,
            ),
        forall|j: int|
            0 <= j < listener_views(listeners@).len() && listener_depends(
                #[trigger] listener_views(listeners@)[j],
                id@,
            ) ==> exists|k: int| 0 <= k < r@.len() && r@[k] == j,
{
    let ghost views = listener_views(listeners@);
    let mut out: Vec<usize> = Vec::new();
    let n = listeners.len();
    let mut i: usize = 0;
    while i < n
        invariant
            n == listeners@.len(),
            views == listener_views(listeners@),
            0 <= i <= n,
            forall|k: int, m: int| 0 <= k < m < out@.len() ==> out@[k] < out@[m],
            forall|k: int| 0 <= k < out@.len() ==> #[trigger] out@[k] < i,
            forall|k: int|
                0 <= k < out@.len() ==> listener_depends(views[#[trigger] out@[k] as int], id@),
            forall|j: int|
                0 <= j < i && listener_depends(#[trigger] views[j], id@) ==> exists|k: int|
                    0 <= k < out@.len() && out@[k] == j,
        decreases n - i,
    {
        let x = &listeners[i];
        let m = x.deps.len();
        let mut j: usize = 0;
        let mut depends = false;
        while j < m
            invariant
                m == x.deps@.len(),
                dep_views(x.deps@) == views[i as int].deps,
                0 <= j <= m,
                depends ==> listener_depends(views[i as int], id@),
                !depends ==> forall|p: int| 0 <= p < j ==> views[i as int].deps[p] != id@,
            decreases m - j,
        {
            if x.deps[j].eq(id) {
                proof {
                    assert(views[i as int].deps[j as int] == id@);
                }
                depends = true;
                break ;
            }
            j = j + 1;
        }
        if depends {
            let ghost pre = out@;
            out.push(i);
            proof {
                assert(out@ =~= pre.push(i as nat as usize));
                assert forall|jj: int|
                    0 <= jj < i + 1 && listener_depends(#[trigger] views[jj], id@) implies exists|
                    k: int,
                |
                    0 <= k < out@.len() && out@[k] == jj by {
                    if jj < i {
                        let k = choose|k: int| 0 <= k < pre.len() && pre[k] == jj;
                        assert(out@[k] == jj);
                    } else {
                        assert(out@[out@.len() - 1] == jj);
                    }
                }
            }
        } else {
            proof {
                assert(!listener_depends(views[i as int], id@));
            }
        }
        i = i + 1;
    }
    out
}

} // verus!

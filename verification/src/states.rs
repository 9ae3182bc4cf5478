//! The state arena and the change bus.
//!
//! The arena owns every state cell of a session, keyed by id. Every
//! successful write stores the new value and enqueues exactly one change
//! event carrying the id and the value serialized at write time; the
//! protocol loop drains the queue in batches.

use vstd::prelude::*;

use crate::random_id::RandomId;
use crate::value::{coerce_spec, Value};

verus! {

/// The ghost mirror of the cells: id characters paired with values, in
/// declaration order.
pub open spec fn cell_views(l: Seq<(RandomId, Value)>) -> Seq<(Seq<char>, Value)> {
    l.map_values(|c: (RandomId, Value)| (c.0@, c.1))
}

/// The ghost mirror of the change queue.
pub open spec fn change_views(l: Seq<(RandomId, String)>) -> Seq<(Seq<char>, Seq<char>)> {
    l.map_values(|c: (RandomId, String)| (c.0@, c.1@))
}

/// True when some cell carries the id.
pub open spec fn has_cell(cells: Seq<(Seq<char>, Value)>, id: Seq<char>) -> bool {
    exists|i: int| 0 <= i < cells.len() && (#[trigger] cells[i]).0 == id
}

/// The value of the first cell with the id.
pub open spec fn lookup_cell(cells: Seq<(Seq<char>, Value)>, id: Seq<char>) -> Option<Value>
    decreases cells.len(),
{
    if cells.len() == 0 {
        Option::None
    } else if cells.first().0 == id {
        Option::Some(cells.first().1)
    } else {
        lookup_cell(cells.drop_first(), id)
    }
}

/// Overwrites the first cell with the id, or appends a new cell.
pub open spec fn update_cell(cells: Seq<(Seq<char>, Value)>, id: Seq<char>, v: Value) -> Seq<
    (Seq<char>, Value),
>
    decreases cells.len(),
{
    if cells.len() == 0 {
        seq![(id, v)]
    } else if cells.first().0 == id {
        seq![(id, v)] + cells.drop_first()
    } else {
        seq![cells.first()] + update_cell(cells.drop_first(), id, v)
    }
}

/// Writing a cell and reading it back yields the written value: `get()`
/// immediately after `set(v)` returns `v`.
pub proof fn lemma_set_then_get(cells: Seq<(Seq<char>, Value)>, id: Seq<char>, v: Value)
    ensures
        lookup_cell(update_cell(cells, id, v), id) == Option::Some(v),
    decreases cells.len(),
{
    if cells.len() == 0 {
    } else if cells.first().0 == id {
        assert(update_cell(cells, id, v).first() == (id, v));
    } else {
        lemma_set_then_get(cells.drop_first(), id, v);
        assert(update_cell(cells, id, v).drop_first() =~= update_cell(cells.drop_first(), id, v));
    }
}

/// Writing one cell leaves every other cell unchanged.
pub proof fn lemma_set_preserves_others(
    cells: Seq<(Seq<char>, Value)>,
    id: Seq<char>,
    v: Value,
    other: Seq<char>,
)
    requires
        other != id,
    ensures
        lookup_cell(update_cell(cells, id, v), other) == lookup_cell(cells, other),
    decreases cells.len(),
{
    let u = update_cell(cells, id, v);
    if cells.len() == 0 {
        assert(u =~= seq![(id, v)]);
        assert(u.first().0 != other);
        assert(u.drop_first() =~= Seq::<(Seq<char>, Value)>::empty());
        assert(lookup_cell(u, other) == lookup_cell(u.drop_first(), other));
    } else if cells.first().0 == id {
        assert(u.first() == (id, v));
        assert(u.len() == cells.len());
        assert(u.drop_first() =~= cells.drop_first());
        assert(lookup_cell(u, other) == lookup_cell(u.drop_first(), other));
        assert(lookup_cell(cells, other) == lookup_cell(cells.drop_first(), other));
    } else {
        lemma_set_preserves_others(cells.drop_first(), id, v, other);
        assert(u.first() == cells.first());
        assert(u.drop_first() =~= update_cell(cells.drop_first(), id, v));
        if cells.first().0 == other {
            assert(lookup_cell(u, other) == Option::Some(u.first().1));
            assert(lookup_cell(cells, other) == Option::Some(cells.first().1));
        } else {
            assert(lookup_cell(u, other) == lookup_cell(u.drop_first(), other));
            assert(lookup_cell(cells, other) == lookup_cell(cells.drop_first(), other));
        }
    }
}

/// An error of a state write.
#[derive(Debug, PartialEq)]
pub enum StateError {
    /// No cell carries the id.
    UnknownState,
    /// The payload cannot be read at the cell's kind.
    KindMismatch,
}

/// The arena of state cells plus the ordered change queue.
pub struct States {
    cells: Vec<(RandomId, Value)>,
    changes: Vec<(RandomId, String)>,
}

impl States {
    /// The cells, as ghost pairs of id and value.
    pub closed spec fn cells(&self) -> Seq<(Seq<char>, Value)> {
        cell_views(self.cells@)
    }

    /// The pending change events, oldest first.
    pub closed spec fn changes(&self) -> Seq<(Seq<char>, Seq<char>)> {
        change_views(self.changes@)
    }

    /// An empty arena with an empty change queue.
    pub fn new() -> (r: States)
        ensures
            r.cells() == Seq::<(Seq<char>, Value)>::empty(),
            r.changes() == Seq::<(Seq<char>, Seq<char>)>::empty(),
    {
        let r = States { cells: Vec::new(), changes: Vec::new() };
        proof {
            assert(r.cells() =~= Seq::<(Seq<char>, Value)>::empty());
            assert(r.changes() =~= Seq::<(Seq<char>, Seq<char>)>::empty());
        }
        r
    }

    /// Registers a cell under an id, overwriting any cell already under it.
    /// No change event is enqueued: declaring a cell is not a write.
    pub fn insert(&mut self, id: &RandomId, value: Value)
        ensures
            final(self).cells() == update_cell(old(self).cells(), id@, value),
            final(self).changes() == old(self).changes(),
    {
        let ghost target = update_cell(self.cells(), id@, value);
        let n = self.cells.len();
        let mut i: usize = 0;
        while i < n
            invariant
                n == self.cells@.len(),
                0 <= i <= n,
                forall|j: int| 0 <= j < i ==> (#[trigger] self.cells()[j]).0 != id@,
                self.cells() == old(self).cells(),
                self.changes() == old(self).changes(),
                target == update_cell(self.cells(), id@, value),
            decreases n - i,
        {
            if self.cells[i].0.eq(id) {
                let ghost pre = self.cells@;
                let _ = self.cells.remove(i);
                self.cells.insert(i, (id.clone(), value));
                proof {
                    assert(self.cells@ =~= pre.update(i as int, self.cells@[i as int]));
                    assert(self.cells() =~= cell_views(pre).update(i as int, (id@, value)));
                    lemma_update_cell_at(cell_views(pre), id@, value, i as int);
                }
                return ;
            }
            i = i + 1;
        }
        self.cells.push((id.clone(), value));
        proof {
            assert(self.cells() =~= old(self).cells() + seq![(id@, value)]);
            lemma_update_cell_absent(old(self).cells(), id@, value);
        }
    }

    /// Reads the current value of the cell under `id`.
    pub fn get(&self, id: &RandomId) -> (r: Option<&Value>)
        ensures
            match r {
                Option::Some(v) => lookup_cell(self.cells(), id@) == Option::Some(*v),
                Option::None => lookup_cell(self.cells(), id@) is None,
            },
    {
        let n = self.cells.len();
        let mut i: usize = 0;
        proof {
            assert(self.cells().skip(0) =~= self.cells());
        }
        while i < n
            invariant
                n == self.cells@.len(),
                0 <= i <= n,
                forall|j: int| 0 <= j < i ==> (#[trigger] self.cells()[j]).0 != id@,
                lookup_cell(self.cells(), id@) == lookup_cell(
                    self.cells().skip(i as int),
                    id@,
                ),
            decreases n - i,
        {
            if self.cells[i].0.eq(id) {
                proof {
                    assert(self.cells().skip(i as int).first() == (id@, self.cells@[i as int].1));
                }
                return Some(&self.cells[i].1);
            }
            proof {
                assert(self.cells().skip(i as int).drop_first() =~= self.cells().skip(
                    i as int + 1,
                ));
            }
            i = i + 1;
        }
        proof {
            assert(self.cells().skip(n as int).len() == 0);
        }
        None
    }

    /// Writes a value of the cell's own kind: stores it and enqueues exactly
    /// one change event carrying the id and the serialized value.
    pub fn set(&mut self, id: &RandomId, value: Value) -> (r: Result<(), StateError>)
        ensures
            match r {
                Ok(_) => {
                    &&& lookup_cell(old(self).cells(), id@) matches Some(prev)
                        && prev.same_kind(&value)
                    &&& final(self).cells() == update_cell(old(self).cells(), id@, value)
                    &&& final(self).changes() == old(self).changes().push(
                        (id@, value.display_seq()),
                    )
                },
                Err(StateError::UnknownState) => {
                    &&& lookup_cell(old(self).cells(), id@) is None
                    &&& *final(self) == *old(self)
                },
                Err(StateError::KindMismatch) => {
                    &&& lookup_cell(old(self).cells(), id@) matches Some(prev)
                        && !prev.same_kind(&value)
                    &&& *final(self) == *old(self)
                },
            },
    {
        let matches_kind = match self.get(id) {
            Some(current) => current.kind_matches(&value),
            None => {
                return Err(StateError::UnknownState);
            },
        };
        if !matches_kind {
            return Err(StateError::KindMismatch);
        }
        let serialized = value.display();
        self.set_raw(id, value, serialized);
        Ok(())
    }

    /// The remote-write path: accepts a dynamically typed payload, coerces
    /// it to the cell's kind (parsing pre-stringified numbers and booleans),
    /// and fails the single write without touching anything when the id is
    /// unknown or the shape does not match.
    pub fn set_value(&mut self, id: &RandomId, incoming: Value) -> (r: Result<(), StateError>)
        ensures
            match r {
                Ok(_) => {
                    &&& lookup_cell(old(self).cells(), id@) matches Some(prev)
                    &&& coerce_spec(prev, incoming) matches Some(coerced)
                    &&& final(self).cells() == update_cell(old(self).cells(), id@, coerced)
                    &&& final(self).changes() == old(self).changes().push(
                        (id@, coerced.display_seq()),
                    )
                },
                Err(StateError::UnknownState) => {
                    &&& lookup_cell(old(self).cells(), id@) is None
                    &&& *final(self) == *old(self)
                },
                Err(StateError::KindMismatch) => {
                    &&& lookup_cell(old(self).cells(), id@) matches Some(prev) && coerce_spec(
                        prev,
                        incoming,
                    ) is None
                    &&& *final(self) == *old(self)
                },
            },
    {
        let coerced = match self.get(id) {
            Some(current) => crate::value::coerce(current, incoming),
            None => {
                return Err(StateError::UnknownState);
            },
        };
        let coerced = match coerced {
            Some(v) => v,
            None => {
                return Err(StateError::KindMismatch);
            },
        };
        let serialized = coerced.display();
        self.set_raw(id, coerced, serialized);
        Ok(())
    }

    /// Stores a value and enqueues its change event.
    fn set_raw(&mut self, id: &RandomId, value: Value, serialized: String)
        requires
            serialized@ == value.display_seq(),
        ensures
            final(self).cells() == update_cell(old(self).cells(), id@, value),
            final(self).changes() == old(self).changes().push((id@, value.display_seq())),
    {
        let ghost pre_changes = self.changes();
        let id2 = id.clone();
        self.changes.push((id2, serialized));
        proof {
            assert(self.changes() =~= pre_changes.push((id@, value.display_seq())));
        }
        self.insert(id, value);
    }

    /// Hands out the queued change events in order and leaves the queue
    /// empty: the protocol's batch drain.
    pub fn drain_changes(&mut self) -> (r: Vec<(RandomId, String)>)
        ensures
            change_views(r@) == old(self).changes(),
            final(self).changes() == Seq::<(Seq<char>, Seq<char>)>::empty(),
            final(self).cells() == old(self).cells(),
    {
        let mut out: Vec<(RandomId, String)> = Vec::new();
        core::mem::swap(&mut out, &mut self.changes);
        proof {
            assert(self.changes() =~= Seq::<(Seq<char>, Seq<char>)>::empty());
        }
        out
    }
}

proof fn lemma_update_cell_at(cells: Seq<(Seq<char>, Value)>, id: Seq<char>, v: Value, p: int)
    requires
        0 <= p < cells.len(),
        cells[p].0 == id,
        forall|j: int| 0 <= j < p ==> (#[trigger] cells[j]).0 != id,
    ensures
        update_cell(cells, id, v) == cells.update(p, (id, v)),
    decreases cells.len(),
{
    if p == 0 {
        assert(update_cell(cells, id, v) =~= cells.update(0, (id, v)));
    } else {
        assert(cells.first().0 != id);
        assert(forall|j: int| 0 <= j < p - 1 ==> (#[trigger] cells.drop_first()[j]).0 != id);
        lemma_update_cell_at(cells.drop_first(), id, v, p - 1);
        assert(update_cell(cells, id, v) =~= cells.update(p, (id, v)));
    }
}

proof fn lemma_update_cell_absent(cells: Seq<(Seq<char>, Value)>, id: Seq<char>, v: Value)
    requires
        forall|j: int| 0 <= j < cells.len() ==> (#[trigger] cells[j]).0 != id,
    ensures
        update_cell(cells, id, v) == cells + seq![(id, v)],
    decreases cells.len(),
{
    if cells.len() == 0 {
        assert(update_cell(cells, id, v) =~= cells + seq![(id, v)]);
    } else {
        assert(forall|j: int|
            0 <= j < cells.drop_first().len() ==> (#[trigger] cells.drop_first()[j]).0 != id);
        lemma_update_cell_absent(cells.drop_first(), id, v);
        assert(update_cell(cells, id, v) =~= cells + seq![(id, v)]);
    }
}

/// A lightweight copyable handle to one state cell: it carries only the id
/// and reaches the cell through the arena.
pub struct State {
    /// The cell's id.
    pub id: RandomId,
}

impl Clone for State {
    fn clone(&self) -> (r: Self)
        ensures
            r.id@ == self.id@,
    {
        State { id: self.id.clone() }
    }
}

impl State {
    /// Reads the cell's current value, which must exist.
    pub fn get(&self, states: &States) -> (r: Value)
        requires
            lookup_cell(states.cells(), self.id@) is Some,
        ensures
            Option::Some(r) == lookup_cell(states.cells(), self.id@),
    {
        match self.try_get(states) {
            Some(v) => v,
            None => Value::Null,
        }
    }

    /// Reads the cell's current value, if the cell exists.
    pub fn try_get(&self, states: &States) -> (r: Option<Value>)
        ensures
            r == lookup_cell(states.cells(), self.id@),
    {
        match states.get(&self.id) {
            Some(v) => Some(v.clone()),
            None => None,
        }
    }

    /// Writes a value of the cell's kind and enqueues one change event.
    pub fn set(&self, states: &mut States, value: Value)
        requires
            lookup_cell(old(states).cells(), self.id@) matches Some(prev) && prev.same_kind(
                &value,
            ),
        ensures
            final(states).cells() == update_cell(old(states).cells(), self.id@, value),
            final(states).changes() == old(states).changes().push(
                (self.id@, value.display_seq()),
            ),
    {
        let _ = states.set(&self.id, value);
    }

    /// Writes a value, reporting an unknown cell or a kind mismatch.
    pub fn try_set(&self, states: &mut States, value: Value) -> (r: Result<(), StateError>)
        ensures
            match r {
                Ok(_) => {
                    &&& lookup_cell(old(states).cells(), self.id@) matches Some(prev)
                        && prev.same_kind(&value)
                    &&& final(states).cells() == update_cell(old(states).cells(), self.id@, value)
                    &&& final(states).changes() == old(states).changes().push(
                        (self.id@, value.display_seq()),
                    )
                },
                Err(StateError::UnknownState) => {
                    &&& lookup_cell(old(states).cells(), self.id@) is None
                    &&& *final(states) == *old(states)
                },
                Err(StateError::KindMismatch) => {
                    &&& lookup_cell(old(states).cells(), self.id@) matches Some(prev)
                        && !prev.same_kind(&value)
                    &&& *final(states) == *old(states)
                },
            },
    {
        states.set(&self.id, value)
    }

    /// Applies `f` to the current value and writes the result, reporting an
    /// unknown cell or a result of the wrong kind.
    pub fn try_modify<F: Fn(Value) -> Value>(&self, states: &mut States, f: &F) -> (r: Result<
        (),
        StateError,
    >)
        requires
            forall|v: Value| call_requires(*f, (v,)),
        ensures
            match r {
                Ok(_) => {
                    &&& lookup_cell(old(states).cells(), self.id@) matches Some(prev) && (exists|
                        nv: Value,
                    |
                        {
                            &&& call_ensures(*f, (prev,), nv)
                            &&& prev.same_kind(&nv)
                            &&& final(states).cells() == update_cell(
                                old(states).cells(),
                                self.id@,
                                nv,
                            )
                            &&& final(states).changes() == old(states).changes().push(
                                (self.id@, nv.display_seq()),
                            )
                        })
                },
                Err(StateError::UnknownState) => {
                    &&& lookup_cell(old(states).cells(), self.id@) is None
                    &&& *final(states) == *old(states)
                },
                Err(StateError::KindMismatch) => {
                    &&& *final(states) == *old(states)
                    &&& lookup_cell(old(states).cells(), self.id@) matches Some(prev) && (exists|
                        nv: Value,
                    | call_ensures(*f, (prev,), nv) && !prev.same_kind(&nv))
                },
            },
    {
        let current = match self.try_get(states) {
            Some(v) => v,
            None => {
                return Err(StateError::UnknownState);
            },
        };
        let ghost cur_g = current;
        let next = f(current);
        let ghost next_g = next;
        let outcome = self.try_set(states, next);
        proof {
            assert(call_ensures(*f, (cur_g,), next_g));
            match outcome {
                Ok(_) => {
                    assert(cur_g.same_kind(&next_g));
                    assert(states.cells() == update_cell(old(states).cells(), self.id@, next_g));
                    assert(states.changes() == old(states).changes().push(
                        (self.id@, next_g.display_seq()),
                    ));
                    assert(exists|nv: Value|
                        {
                            &&& call_ensures(*f, (cur_g,), nv)
                            &&& cur_g.same_kind(&nv)
                            &&& states.cells() == update_cell(old(states).cells(), self.id@, nv)
                            &&& states.changes() == old(states).changes().push(
                                (self.id@, nv.display_seq()),
                            )
                        });
                },
                Err(StateError::UnknownState) => {},
                Err(StateError::KindMismatch) => {
                    assert(!cur_g.same_kind(&next_g));
                    assert(exists|nv: Value|
                        call_ensures(*f, (cur_g,), nv) && !cur_g.same_kind(&nv));
                },
            }
        }
        outcome
    }

    /// Applies `f` to the current value and writes the result; `f` must
    /// preserve the value's kind and the cell must exist.
    pub fn modify<F: Fn(Value) -> Value>(&self, states: &mut States, f: &F)
        requires
            forall|v: Value| call_requires(*f, (v,)),
            lookup_cell(old(states).cells(), self.id@) is Some,
            forall|v: Value, nv: Value| call_ensures(*f, (v,), nv) ==> v.same_kind(&nv),
        ensures
            lookup_cell(old(states).cells(), self.id@) matches Some(prev) && (exists|nv: Value|
                {
                    &&& call_ensures(*f, (prev,), nv)
                    &&& final(states).cells() == update_cell(old(states).cells(), self.id@, nv)
                    &&& final(states).changes() == old(states).changes().push(
                        (self.id@, nv.display_seq()),
                    )
                }),
    {
        let outcome = self.try_modify(states, f);
        proof {
            match outcome {
                Ok(_) => {},
                Err(StateError::UnknownState) => {
                    assert(false);
                },
                Err(StateError::KindMismatch) => {
                    assert(false);
                },
            }
        }
    }
}

} // verus!

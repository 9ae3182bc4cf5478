//! The closure registry: erased server-side callbacks keyed by id, and the
//! queue of self-invocation requests.

use vstd::prelude::*;

use crate::attribute::ClosureDescriptor;
use crate::random_id::RandomId;

verus! {

/// A handle to a registered closure, by id.
pub struct Closure {
    /// The closure's id.
    pub id: RandomId,
}

impl Clone for Closure {
    fn clone(&self) -> (r: Self)
        ensures
            r.id@ == self.id@,
    {
        Closure { id: self.id.clone() }
    }
}

impl Closure {
    /// The markup descriptor that invokes this closure from the client.
    pub fn descriptor(&self) -> (r: ClosureDescriptor)
        ensures
            r@.closure_id == self.id@,
    {
        ClosureDescriptor { closure_id: self.id.clone() }
    }
}

/// The ghost mirror of the stored closures: id characters paired with the
/// stored callbacks, in registration order.
pub open spec fn closure_entries<C>(l: Seq<(RandomId, C)>) -> Seq<(Seq<char>, C)> {
    l.map_values(|e: (RandomId, C)| (e.0@, e.1))
}

/// True when some entry carries the id.
pub open spec fn has_closure(ids: Seq<Seq<char>>, id: Seq<char>) -> bool {
    exists|i: int| 0 <= i < ids.len() && #[trigger] ids[i] == id
}

/// The callback stored under the first entry with the id.
pub open spec fn closure_lookup<C>(entries: Seq<(Seq<char>, C)>, id: Seq<char>) -> Option<C>
    decreases entries.len(),
{
    if entries.len() == 0 {
        Option::None
    } else if entries.first().0 == id {
        Option::Some(entries.first().1)
    } else {
        closure_lookup(entries.drop_first(), id)
    }
}

/// The registry of erased callbacks, plus the queue of invocation requests
/// closures file for themselves.
pub struct Closures<C> {
    items: Vec<(RandomId, C)>,
    pending: Vec<RandomId>,
}

impl<C> Closures<C> {
    /// The stored closures: id characters paired with callbacks, in
    /// registration order.
    pub closed spec fn entries(&self) -> Seq<(Seq<char>, C)> {
        closure_entries(self.items@)
    }

    /// The ids of the stored closures, in registration order.
    pub open spec fn ids(&self) -> Seq<Seq<char>> {
        self.entries().map_values(|e: (Seq<char>, C)| e.0)
    }

    /// The queued invocation requests, oldest first.
    pub closed spec fn pending(&self) -> Seq<Seq<char>> {
        self.pending@.map_values(|id: RandomId| id@)
    }

    /// An empty registry.
    pub fn new() -> (r: Closures<C>)
        ensures
            r.entries() == Seq::<(Seq<char>, C)>::empty(),
            r.pending() == Seq::<Seq<char>>::empty(),
    {
        let r = Closures { items: Vec::new(), pending: Vec::new() };
        proof {
            assert(r.entries() =~= Seq::<(Seq<char>, C)>::empty());
            assert(r.pending() =~= Seq::<Seq<char>>::empty());
        }
        r
    }

    /// Stores a callback under an id.
    pub fn insert(&mut self, id: RandomId, closure: C)
        ensures
            final(self).entries() == old(self).entries().push((id@, closure)),
            final(self).pending() == old(self).pending(),
    {
        let ghost idv = id@;
        let ghost cl = closure;
        self.items.push((id, closure));
        proof {
            assert(self.entries() =~= old(self).entries().push((idv, cl)));
        }
    }

    /// Looks a callback up by id: returns exactly the callback stored under
    /// the first entry with that id, and `None` exactly when the id is
    /// unknown — the caller's fatal protocol error.
    pub fn get(&self, id: &RandomId) -> (r: Option<&C>)
        ensures
            match r {
                Option::Some(c) => closure_lookup(self.entries(), id@) == Option::Some(*c),
                Option::None => closure_lookup(self.entries(), id@) is None,
            },
            r is Some <==> has_closure(self.ids(), id@),
    {
        let n = self.items.len();
        let mut i: usize = 0;
        proof {
            assert(self.entries().skip(0) =~= self.entries());
        }
        while i < n
            invariant
                n == self.items@.len(),
                0 <= i <= n,
                forall|j: int| 0 <= j < i ==> (#[trigger] self.entries()[j]).0 != id@,
                closure_lookup(self.entries(), id@) == closure_lookup(
                    self.entries().skip(i as int),
                    id@,
                ),
            decreases n - i,
        {
            if self.items[i].0.eq(id) {
                proof {
                    assert(self.entries().skip(i as int).first() == (
                        id@,
                        self.items@[i as int].1,
                    ));
                    assert(self.ids()[i as int] == id@);
                }
                return Some(&self.items[i].1);
            }
            proof {
                assert(self.entries().skip(i as int).drop_first() =~= self.entries().skip(
                    i as int + 1,
                ));
            }
            i = i + 1;
        }
        proof {
            assert(self.entries().skip(n as int).len() == 0);
            if has_closure(self.ids(), id@) {
                let w = choose|j: int| 0 <= j < self.ids().len() && #[trigger] self.ids()[j] == id@;
                assert(self.entries()[w].0 == id@);
            }
        }
        None
    }

    /// Queues an invocation request; the closure runs when the protocol
    /// loop drains the queue, not immediately.
    pub fn enqueue(&mut self, id: RandomId)
        ensures
            final(self).pending() == old(self).pending().push(id@),
            final(self).ids() == old(self).ids(),
    {
        let ghost idv = id@;
        self.pending.push(id);
        proof {
            assert(self.pending() =~= old(self).pending().push(idv));
        }
    }

    /// Hands out the queued invocation requests in order and empties the
    /// queue.
    pub fn drain_calls(&mut self) -> (r: Vec<RandomId>)
        ensures
            r@.map_values(|id: RandomId| id@) == old(self).pending(),
            final(self).pending() == Seq::<Seq<char>>::empty(),
            final(self).ids() == old(self).ids(),
    {
        let mut out: Vec<RandomId> = Vec::new();
        core::mem::swap(&mut out, &mut self.pending);
        proof {
            assert(self.pending() =~= Seq::<Seq<char>>::empty());
        }
        out
    }
}

/// A wrapper that adapts one concrete callback signature to the registry's
/// erased storage.
pub struct ClosureWrapper<T, P> {
    /// The wrapped callback.
    pub func: T,
    phantom: core::marker::PhantomData<P>,
}

/// Turns a plain function into a storable wrapper.
pub trait IntoClosure<P, S> {
    /// Wraps `func`.
    fn wrap<F>(func: F) -> (r: ClosureWrapper<F, P>) {
        ClosureWrapper { func, phantom: core::marker::PhantomData }
    }
}

} // verus!

//! The client-event registry.
//!
//! A named client event carries one or more erased handlers; the registry
//! also tracks the union of payload field names any handler of the event
//! reads, so the client forwards only those.

use vstd::prelude::*;

use crate::strutil::str_eq;

verus! {

/// One registered event: its name, the union of the payload fields its
/// handlers read, and the handlers in registration order.
pub struct Event<H> {
    /// The client-side event name.
    pub name: String,
    /// The union of payload field names, in order of first registration.
    pub params: Vec<String>,
    /// The erased handlers.
    pub handlers: Vec<H>,
}

/// The ghost mirror of one event: name, field set, and the stored handlers
/// in registration order.
pub struct EventV<H> {
    pub name: Seq<char>,
    pub params: Seq<Seq<char>>,
    pub handlers: Seq<H>,
}

/// The ghost mirror of a field-name list.
pub open spec fn param_views(l: Seq<String>) -> Seq<Seq<char>> {
    l.map_values(|s: String| s@)
}

/// The ghost mirror of the registry.
pub open spec fn event_views<H>(l: Seq<Event<H>>) -> Seq<EventV<H>> {
    l.map_values(
        |e: Event<H>| EventV {
            name: e.name@,
            params: param_views(e.params@),
            handlers: e.handlers@,
        },
    )
}

/// True when some event carries the name.
pub open spec fn has_event<H>(evs: Seq<EventV<H>>, name: Seq<char>) -> bool {
    exists|i: int| 0 <= i < evs.len() && (#[trigger] evs[i]).name == name
}

/// The first event registered under the name.
pub open spec fn event_lookup<H>(evs: Seq<EventV<H>>, name: Seq<char>) -> Option<EventV<H>>
    decreases evs.len(),
{
    if evs.len() == 0 {
        Option::None
    } else if evs.first().name == name {
        Option::Some(evs.first())
    } else {
        event_lookup(evs.drop_first(), name)
    }
}

/// True when the field list holds the name.
pub open spec fn has_param(params: Seq<Seq<char>>, p: Seq<char>) -> bool {
    exists|i: int| 0 <= i < params.len() && #[trigger] params[i] == p
}

/// The union of a field set with new fields, keeping first-seen order and
/// never repeating a field.
pub open spec fn union_params(params: Seq<Seq<char>>, fresh: Seq<Seq<char>>) -> Seq<Seq<char>>
    decreases fresh.len(),
{
    if fresh.len() == 0 {
        params
    } else {
        let grown = if has_param(params, fresh.first()) {
            params
        } else {
            params.push(fresh.first())
        };
        union_params(grown, fresh.drop_first())
    }
}

/// The event registry.
pub struct Events<H> {
    events: Vec<Event<H>>,
}

impl<H> Events<H> {
    /// The registered events, in registration order.
    pub closed spec fn view_events(&self) -> Seq<EventV<H>> {
        event_views(self.events@)
    }

    /// An empty registry.
    pub fn new() -> (r: Events<H>)
        ensures
            r.view_events() == Seq::<EventV<H>>::empty(),
    {
        let r = Events { events: Vec::new() };
        proof {
            assert(r.view_events() =~= Seq::<EventV<H>>::empty());
        }
        r
    }

    /// Appends a handler for a named event. If the event already has
    /// handlers, the new handler's payload fields are unioned into the
    /// event's field set and the handler is appended after the earlier
    /// ones, which stay exactly as they were: listeners on the same name
    /// are additive, never replaced.
    pub fn add(&mut self, name: String, fields: Vec<String>, handler: H)
        ensures
            ({
                let evs = old(self).view_events();
                let fresh = param_views(fields@);
                if has_event(evs, name@) {
                    exists|i: int|
                        {
                            &&& 0 <= i < evs.len()
                            &&& (#[trigger] evs[i]).name == name@
                            &&& final(self).view_events() == evs.update(
                                i,
                                EventV {
                                    name: name@,
                                    params: union_params(evs[i].params, fresh),
                                    handlers: evs[i].handlers.push(handler),
                                },
                            )
                        }
                } else {
                    final(self).view_events() == evs.push(
                        EventV {
                            name: name@,
                            params: union_params(Seq::empty(), fresh),
                            handlers: seq![handler],
                        },
                    )
                }
            }),
    {
        let ghost evs = self.view_events();
        let ghost fresh = param_views(fields@);
        let n = self.events.len();
        let mut i: usize = 0;
        while i < n
            invariant
                n == self.events@.len(),
                0 <= i <= n,
                forall|j: int| 0 <= j < i ==> (#[trigger] self.view_events()[j]).name != name@,
                self.view_events() == evs,
            decreases n - i,
        {
            if str_eq(self.events[i].name.as_str(), name.as_str()) {
                let ghost pre = self.events@;
                let ghost h = handler;
                let mut entry = self.events.remove(i);
                let ghost params0 = param_views(entry.params@);
                let ghost handlers0 = entry.handlers@;
                union_into(&mut entry.params, fields);
                entry.handlers.push(handler);
                self.events.insert(i, entry);
                proof {
                    assert(self.events@ =~= pre.update(i as int, self.events@[i as int]));
                    assert(self.view_events() =~= event_views(pre).update(
                        i as int,
                        self.view_events()[i as int],
                    ));
                    assert(handlers0 == evs[i as int].handlers);
                    assert(self.view_events()[i as int] == EventV {
                        name: name@,
                        params: union_params(evs[i as int].params, fresh),
                        handlers: evs[i as int].handlers.push(h),
                    });
                    assert(has_event(evs, name@)) by {
                        assert(evs[i as int].name == name@);
                    }
                }
                return ;
            }
            i = i + 1;
        }
        let mut params: Vec<String> = Vec::new();
        proof {
            assert(param_views(params@) =~= Seq::<Seq<char>>::empty());
        }
        union_into(&mut params, fields);
        let ghost h = handler;
        let mut handlers: Vec<H> = Vec::new();
        handlers.push(handler);
        self.events.push(Event { name, params, handlers });
        proof {
            assert(self.events@.last().handlers@ =~= seq![h]);
            assert(self.view_events() =~= evs.push(
                EventV {
                    name: self.events@.last().name@,
                    params: union_params(Seq::empty(), fresh),
                    handlers: seq![h],
                },
            ));
        }
    }

    /// The handlers registered for a client event, to be run on its
    /// payload: exactly those stored under the first event with the name,
    /// every one of them, in registration order. An unknown name has none,
    /// and dispatching it is a no-op.
    pub fn handle(&self, name: &str) -> (r: Option<&Vec<H>>)
        ensures
            r is Some <==> has_event(self.view_events(), name@),
            match r {
                Option::Some(hs) => event_lookup(self.view_events(), name@) matches Some(e) && hs@
                    == e.handlers,
                Option::None => event_lookup(self.view_events(), name@) is None,
            },
    {
        let n = self.events.len();
        let mut i: usize = 0;
        proof {
            assert(self.view_events().skip(0) =~= self.view_events());
        }
        while i < n
            invariant
                n == self.events@.len(),
                0 <= i <= n,
                forall|j: int| 0 <= j < i ==> (#[trigger] self.view_events()[j]).name != name@,
                event_lookup(self.view_events(), name@) == event_lookup(
                    self.view_events().skip(i as int),
                    name@,
                ),
            decreases n - i,
        {
            if str_eq(self.events[i].name.as_str(), name) {
                proof {
                    assert(self.view_events()[i as int].name == name@);
                    assert(self.view_events().skip(i as int).first() == self.view_events()[
                        i as int
                    ]);
                }
                return Some(&self.events[i].handlers);
            }
            proof {
                assert(self.view_events().skip(i as int).drop_first() =~= self.view_events().skip(
                    i as int + 1,
                ));
            }
            i = i + 1;
        }
        proof {
            assert(self.view_events().skip(n as int).len() == 0);
        }
        None
    }

    /// The (event name, field names) pairs, for generating the client-side
    /// listener registrations.
    pub fn list(&self) -> (r: Vec<(String, Vec<String>)>)
        ensures
            r@.len() == self.view_events().len(),
            forall|i: int|
                0 <= i < r@.len() ==> (#[trigger] r@[i]).0@ == self.view_events()[i].name
                    && param_views(r@[i].1@) == self.view_events()[i].params,
    {
        let mut out: Vec<(String, Vec<String>)> = Vec::new();
        let n = self.events.len();
        let mut i: usize = 0;
        while i < n
            invariant
                n == self.events@.len(),
                0 <= i <= n,
                out@.len() == i,
                forall|j: int|
                    0 <= j < i ==> (#[trigger] out@[j]).0@ == self.view_events()[j].name
                        && param_views(out@[j].1@) == self.view_events()[j].params,
            decreases n - i,
        {
            let e = &self.events[i];
            let name = e.name.clone();
            let mut params: Vec<String> = Vec::new();
            let m = e.params.len();
            let mut j: usize = 0;
            while j < m
                invariant
                    m == e.params@.len(),
                    0 <= j <= m,
                    params@.len() == j,
                    forall|p: int| 0 <= p < j ==> #[trigger] params@[p]@ == e.params@[p]@,
                decreases m - j,
            {
                params.push(e.params[j].clone());
                j = j + 1;
            }
            proof {
                assert(param_views(params@) =~= param_views(e.params@));
            }
            out.push((name, params));
            i = i + 1;
        }
        out
    }
}

/// Adds each fresh field that the list does not already hold.
fn union_into(params: &mut Vec<String>, fresh: Vec<String>)
    ensures
        param_views(final(params)@) == union_params(
            param_views(old(params)@),
            param_views(fresh@),
        ),
{
    let ghost fresh_views = param_views(fresh@);
    let mut rest = fresh;
    let ghost k: int = 0;
    proof {
        assert(fresh_views.skip(0) =~= fresh_views);
    }
    while rest.len() > 0
        invariant
            0 <= k <= fresh_views.len(),
            k + rest@.len() == fresh_views.len(),
            forall|j: int| 0 <= j < rest@.len() ==> #[trigger] rest@[j]@ == fresh_views[k + j],
            union_params(param_views(params@), fresh_views.skip(k)) == union_params(
                param_views(old(params)@),
                fresh_views,
            ),
        decreases rest@.len(),
    {
        let field = rest.remove(0);
        let ghost fv = field@;
        proof {
            assert(fv == fresh_views[k]);
            assert(fresh_views.skip(k).first() == fv);
            assert(fresh_views.skip(k).drop_first() =~= fresh_views.skip(k + 1));
        }
        let n = params.len();
        let mut i: usize = 0;
        let mut present = false;
        while i < n
            invariant
                n == params@.len(),
                0 <= i <= n,
                present ==> has_param(param_views(params@), fv),
                !present ==> forall|j: int| 0 <= j < i ==> #[trigger] params@[j]@ != fv,
            decreases n - i,
        {
            if str_eq(params[i].as_str(), field.as_str()) {
                proof {
                    assert(param_views(params@)[i as int] == fv);
                }
                present = true;
                break ;
            }
            i = i + 1;
        }
        if !present {
            proof {
                assert(!has_param(param_views(params@), fv)) by {
                    if has_param(param_views(params@), fv) {
                        let w = choose|j: int|
                            0 <= j < param_views(params@).len() && #[trigger] param_views(
                                params@,
                            )[j] == fv;
                        assert(params@[w]@ == fv);
                    }
                }
            }
            let ghost pre = param_views(params@);
            params.push(field);
            proof {
                assert(param_views(params@) =~= pre.push(fv));
            }
        }
        proof {
            k = k + 1;
        }
    }
    proof {
        assert(fresh_views.skip(fresh_views.len() as int) =~= Seq::<Seq<char>>::empty());
        assert(union_params(param_views(params@), Seq::empty()) == param_views(params@));
    }
}

/// A field registered on an event stays registered when more handlers are
/// added: the field set only grows, toward the union of what every handler
/// reads.
pub proof fn lemma_union_keeps_fields(params: Seq<Seq<char>>, fresh: Seq<Seq<char>>, p: Seq<char>)
    requires
        has_param(params, p) || has_param(fresh, p),
    ensures
        has_param(union_params(params, fresh), p),
    decreases fresh.len(),
{
    if fresh.len() == 0 {
    } else {
        let grown = if has_param(params, fresh.first()) {
            params
        } else {
            params.push(fresh.first())
        };
        if has_param(params, p) {
            let w = choose|i: int| 0 <= i < params.len() && #[trigger] params[i] == p;
            assert(grown[w] == p);
            lemma_union_keeps_fields(grown, fresh.drop_first(), p);
        } else {
            let w = choose|i: int| 0 <= i < fresh.len() && #[trigger] fresh[i] == p;
            if w == 0 {
                if has_param(params, fresh.first()) {
                } else {
                    assert(grown[grown.len() - 1] == p);
                }
                lemma_union_keeps_fields(grown, fresh.drop_first(), p);
            } else {
                assert(fresh.drop_first()[w - 1] == p);
                assert(has_param(fresh.drop_first(), p));
                lemma_union_keeps_fields(grown, fresh.drop_first(), p);
            }
        }
    }
}

/// A wrapper that adapts one concrete handler signature to the registry's
/// erased storage.
pub struct EventHandlerWrapper<P, F, T> {
    /// The wrapped handler.
    pub func: T,
    phantom: core::marker::PhantomData<(P, F)>,
}

impl<P, F, T> EventHandlerWrapper<P, F, T> {
    /// Wraps a handler.
    pub fn new(func: T) -> (r: Self) {
        EventHandlerWrapper { func, phantom: core::marker::PhantomData }
    }
}

} // verus!

//! The live-session protocol's decision steps.
//!
//! The surrounding runtime owns the socket and the task pool; everything it
//! must decide — how an inbound message routes, what a change batch carries,
//! and what the initial document looks like — is computed here.

use vstd::prelude::*;

use crate::closures::Closures;
use crate::element::{view_element, Element};
use crate::model::{canon_element, give_ids_element, render_element};
use crate::random_id::{IdSource, RandomId};
use crate::reactive_js::{
    add_descs, compile_element, descs_script, inits_script, Reactivity,
};
use crate::states::{States, StateError};
use crate::value::Value;

verus! {

/// An inbound client message.
pub enum InMessage {
    /// Invoke a registered closure.
    Closure {
        /// The closure's id.
        closure: RandomId,
    },
    /// A client-originated event with its payload.
    Event {
        /// The event name.
        name: String,
        /// The payload.
        params: Value,
    },
    /// A direct write to a state cell.
    SetState {
        /// The cell's id.
        id: RandomId,
        /// The payload.
        value: Value,
    },
}

/// An outbound message: one batch of state updates, each the cell id and
/// the value serialized at write time.
pub enum OutMessage {
    /// The update batch.
    Update {
        /// The (id, serialized value) pairs, in write order.
        fields: Vec<(String, String)>,
    },
}

/// How the protocol loop reacts to a frame it cannot route.
pub enum SocketError {
    /// The connection cannot continue safely.
    Fatal,
    /// Skip this frame and continue.
    SkipMessage,
}

/// What remains for the runtime after routing one message.
pub enum Routed {
    /// Nothing: the message was fully absorbed.
    Done,
    /// Run the handlers of this client event on the payload.
    DispatchEvent {
        /// The event name.
        name: String,
        /// The payload to clone to every handler.
        params: Value,
    },
}

/// Routes one inbound message. A closure invocation is queued; a state
/// write is coerced and applied, and a failed write is absorbed without
/// touching anything: the single write fails and the loop continues. An
/// event is handed back for dispatch, where an unknown name is a no-op.
pub fn handle_socket_message<C>(
    msg: InMessage,
    states: &mut States,
    closures: &mut Closures<C>,
) -> (r: Result<Routed, SocketError>)
    ensures
        match msg {
            InMessage::Closure { closure } => {
                &&& r matches Ok(Routed::Done)
                &&& final(closures).pending() == old(closures).pending().push(closure@)
                &&& final(closures).ids() == old(closures).ids()
                &&& *final(states) == *old(states)
            },
            InMessage::Event { name, params } => {
                &&& r matches Ok(Routed::DispatchEvent { name: n, params: p }) && n == name && p
                    == params
                &&& *final(states) == *old(states)
                &&& *final(closures) == *old(closures)
            },
            InMessage::SetState { id, value } => {
                &&& r matches Ok(Routed::Done)
                &&& *final(closures) == *old(closures)
                &&& match crate::states::lookup_cell(old(states).cells(), id@) {
                    Option::Some(prev) => match crate::value::coerce_spec(prev, value) {
                        Option::Some(coerced) => final(states).cells()
                            == crate::states::update_cell(old(states).cells(), id@, coerced)
                            && final(states).changes() == old(states).changes().push(
                            (id@, coerced.display_seq()),
                        ),
                        Option::None => *final(states) == *old(states),
                    },
                    Option::None => *final(states) == *old(states),
                }
            },
        },
{
    match msg {
        InMessage::Closure { closure } => {
            closures.enqueue(closure);
            Ok(Routed::Done)
        },
        InMessage::Event { name, params } => Ok(Routed::DispatchEvent { name, params }),
        InMessage::SetState { id, value } => {
            let outcome = states.set_value(&id, value);
            proof {
                match outcome {
                    Ok(_) => {},
                    Err(StateError::UnknownState) => {},
                    Err(StateError::KindMismatch) => {},
                }
            }
            Ok(Routed::Done)
        },
    }
}

/// Turns a drained change batch into the fields of one update message: the
/// ids rendered as text, values and order kept.
pub fn update_fields(batch: Vec<(RandomId, String)>) -> (r: Vec<(String, String)>)
    ensures
        r@.len() == batch@.len(),
        forall|i: int|
            0 <= i < r@.len() ==> (#[trigger] r@[i]).0@ == batch@[i].0@ && r@[i].1@
                == batch@[i].1@,
{
    let mut out: Vec<(String, String)> = Vec::new();
    let mut rest = batch;
    let ghost orig = rest@;
    let ghost k: int = 0;
    while rest.len() > 0
        invariant
            0 <= k <= orig.len(),
            k + rest@.len() == orig.len(),
            forall|j: int| 0 <= j < rest@.len() ==> #[trigger] rest@[j] == orig[k + j],
            out@.len() == k,
            forall|i: int|
                0 <= i < k ==> (#[trigger] out@[i]).0@ == orig[i].0@ && out@[i].1@ == orig[i].1@,
        decreases rest@.len(),
    {
        let (id, value) = rest.remove(0);
        out.push((id.to_text(), value));
        proof {
            k = k + 1;
        }
    }
    out
}

/// The render phase of a request: canonicalizes the tree, assigns ids to
/// the reactive elements from the session's seeded stream, compiles the
/// patch descriptors, and returns the generated script. The element is left
/// exactly in its canonical, id-carrying form.
pub fn compile_page(element: &mut Element, ids: &mut IdSource, reactivity: &mut Reactivity) -> (r:
    String)
    requires
        ({
            let (e2, _) = give_ids_element(
                canon_element(view_element(*old(element))),
                old(ids).seed(),
                old(ids).drawn(),
            );
            crate::reactive_js::compilable_element(e2)
        }),
    ensures
        ({
            let (e2, after) = give_ids_element(
                canon_element(view_element(*old(element))),
                old(ids).seed(),
                old(ids).drawn(),
            );
            &&& view_element(*final(element)) == e2
            &&& final(ids).drawn() == after
            &&& final(ids).seed() == old(ids).seed()
            &&& final(reactivity)@ == add_descs(old(reactivity)@, compile_element(e2), 0)
            &&& r@ == descs_script(final(reactivity)@.descs, 0) + inits_script(
                final(reactivity)@.inits,
                0,
            )
        }),
{
    element.optimize();
    element.give_ids(ids);
    element.reactivity(reactivity);
    reactivity.script()
}

/// Renders a compiled document: the doctype followed by the root element.
pub fn render_document(root: &Element) -> (r: String)
    ensures
        r@ == "<!DOCTYPE html>"@ + render_element(view_element(*root)),
{
    let mut out = String::from_str("<!DOCTYPE html>");
    root.render(&mut out);
    out
}

} // verus!

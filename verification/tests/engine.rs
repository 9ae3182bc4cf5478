use coaxial::computed::InitialValue;
use coaxial::context::Context;
use coaxial::protocol::{handle_socket_message, update_fields, InMessage, Routed};
use coaxial::states::{StateError, States};
use coaxial::value::Value;

type PlainContext = Context<(), ()>;
type ClosureFn = Box<dyn Fn(&mut States)>;

fn text(s: &str) -> String {
    String::from(s)
}

fn int_of(v: &Value) -> i64 {
    match v {
        Value::Int(n) => *n,
        _ => panic!("expected an integer value"),
    }
}

#[test]
fn test_u32_computed_state() {
    let mut ctx = PlainContext::new(0, true);

    let state = ctx.use_state(Value::Int(0));

    let compute = |vals: Vec<Value>| -> Value { Value::Int(int_of(&vals[0]) + 1) };
    let computed = ctx.use_computed(vec![state.id.clone()], &compute).unwrap();

    assert_eq!(Value::Int(1), computed.get(&ctx.states));
}

#[test]
fn test_string_computed_state() {
    let mut ctx = PlainContext::new(0, true);

    let state = ctx.use_state(Value::Int(0));

    let compute = |vals: Vec<Value>| -> Value { Value::Text(vals[0].display()) };
    let computed = ctx.use_computed(vec![state.id.clone()], &compute).unwrap();

    assert_eq!(Value::Text(text("0")), computed.get(&ctx.states));
}

#[test]
fn test_string_computed_state_async_uses_initial_value() {
    let mut ctx = PlainContext::new(0, true);

    let state = ctx.use_state(Value::Int(0));

    let (computed, _schedule) = ctx.use_computed_async_with(
        vec![state.id.clone()],
        InitialValue::Value(Value::Text(text("initial"))),
    );

    assert_eq!(Value::Text(text("initial")), computed.get(&ctx.states));
}

#[test]
fn test_sync_gets_recomputed() {
    let mut ctx = PlainContext::new(0, true);

    let state = ctx.use_state(Value::Int(0));
    let compute = |vals: Vec<Value>| -> Value { Value::Text(vals[0].display()) };
    let computed = ctx.use_computed(vec![state.id.clone()], &compute).unwrap();

    assert_eq!(Value::Text(text("0")), computed.get(&ctx.states));

    state.set(&mut ctx.states, Value::Int(1));

    for idx in ctx.computeds.sync_dependents(&state.id) {
        ctx.computeds
            .recompute_with(idx, &mut ctx.states, &compute)
            .unwrap();
    }

    assert_eq!(Value::Text(text("1")), computed.get(&ctx.states));
}

#[test]
fn doubled_state_follows_its_dependency() {
    let mut ctx = PlainContext::new(0, true);

    let counter = ctx.use_state(Value::Int(0));
    let compute = |vals: Vec<Value>| -> Value { Value::Int(int_of(&vals[0]) * 2) };
    let doubled = ctx.use_computed(vec![counter.id.clone()], &compute).unwrap();

    assert_eq!(Value::Int(0), doubled.get(&ctx.states));

    counter.set(&mut ctx.states, Value::Int(5));

    for idx in ctx.computeds.sync_dependents(&counter.id) {
        ctx.computeds
            .recompute_with(idx, &mut ctx.states, &compute)
            .unwrap();
    }

    assert_eq!(Value::Int(10), doubled.get(&ctx.states));
}

#[test]
fn invoked_closure_yields_one_update_batch() {
    let mut ctx: Context<ClosureFn, ()> = Context::new(0, true);

    let counter = ctx.use_state(Value::Int(0));
    let handle = counter.clone();
    let closure = ctx.use_closure(Box::new(move |states: &mut States| {
        handle.set(states, Value::Int(1));
    }));

    let func = ctx.closures.get(&closure.id).unwrap();
    func(&mut ctx.states);

    let batch = ctx.states.drain_changes();
    let fields = update_fields(batch);

    assert_eq!(1, fields.len());
    assert_eq!(counter.id.to_text(), fields[0].0);
    assert_eq!("1", fields[0].1);

    let later = ctx.states.drain_changes();
    assert_eq!(0, later.len());
}

#[test]
fn two_click_handlers_union_their_fields() {
    let mut ctx = PlainContext::new(0, true);

    ctx.on(text("click"), vec![text("x")], ());
    ctx.on(text("click"), vec![text("y")], ());

    let list = ctx.events.list();
    assert_eq!(1, list.len());
    assert_eq!("click", list[0].0);
    assert_eq!(vec![text("x"), text("y")], list[0].1);
}

#[test]
fn same_seed_mints_the_same_ids() {
    let mut first = PlainContext::new(42, false);
    let mut second = PlainContext::new(42, true);

    let a1 = first.use_state(Value::Int(1));
    let a2 = first.use_state(Value::Text(text("x")));
    let a3 = first.use_state(Value::Bool(true));

    let b1 = second.use_state(Value::Int(9));
    let b2 = second.use_state(Value::Null);
    let b3 = second.use_state(Value::Int(3));

    assert_eq!(a1.id.to_text(), b1.id.to_text());
    assert_eq!(a2.id.to_text(), b2.id.to_text());
    assert_eq!(a3.id.to_text(), b3.id.to_text());

    let mut other = PlainContext::new(43, false);
    let c1 = other.use_state(Value::Int(1));
    assert_ne!(a1.id.to_text(), c1.id.to_text());
}

#[test]
fn get_after_set_returns_the_value() {
    let mut ctx = PlainContext::new(0, true);
    let cell = ctx.use_state(Value::Text(text("my string")));

    cell.set(&mut ctx.states, Value::Text(text("other string")));
    assert_eq!(Value::Text(text("other string")), cell.get(&ctx.states));

    let numbers = ctx.use_state(Value::Int(41));
    numbers.set(&mut ctx.states, Value::Int(42));
    assert_eq!(Value::Int(42), numbers.get(&ctx.states));
}

#[test]
fn remote_writes_parse_stringified_payloads() {
    let mut ctx = PlainContext::new(0, true);
    let cell = ctx.use_state(Value::Int(0));

    let outcome = ctx.states.set_value(&cell.id, Value::Text(text("5")));
    assert_eq!(Ok(()), outcome);
    assert_eq!(Value::Int(5), cell.get(&ctx.states));

    let outcome = ctx.states.set_value(&cell.id, Value::Int(-7));
    assert_eq!(Ok(()), outcome);
    assert_eq!(Value::Int(-7), cell.get(&ctx.states));
}

#[test]
fn remote_writes_reject_bad_payloads() {
    let mut ctx = PlainContext::new(0, true);
    let cell = ctx.use_state(Value::Int(0));

    let outcome = ctx.states.set_value(&cell.id, Value::Text(text("five")));
    assert_eq!(Err(StateError::KindMismatch), outcome);
    assert_eq!(Value::Int(0), cell.get(&ctx.states));

    let outcome = ctx.states.set_value(&cell.id, Value::Bool(true));
    assert_eq!(Err(StateError::KindMismatch), outcome);

    let stranger = coaxial::random_id::RandomId::from_str("zzzzzzzz");
    let outcome = ctx.states.set_value(&stranger, Value::Int(1));
    assert_eq!(Err(StateError::UnknownState), outcome);
}

#[test]
fn routing_messages_updates_queues_and_cells() {
    let mut ctx: Context<ClosureFn, ()> = Context::new(0, true);
    let cell = ctx.use_state(Value::Int(0));
    let noop = ctx.use_closure(Box::new(|_: &mut States| {}));

    let routed = handle_socket_message(
        InMessage::Closure {
            closure: noop.id.clone(),
        },
        &mut ctx.states,
        &mut ctx.closures,
    );
    assert!(matches!(routed, Ok(Routed::Done)));
    let calls = ctx.closures.drain_calls();
    assert_eq!(1, calls.len());
    assert_eq!(noop.id.to_text(), calls[0].to_text());

    let routed = handle_socket_message(
        InMessage::SetState {
            id: cell.id.clone(),
            value: Value::Text(text("12")),
        },
        &mut ctx.states,
        &mut ctx.closures,
    );
    assert!(matches!(routed, Ok(Routed::Done)));
    assert_eq!(Value::Int(12), cell.get(&ctx.states));

    let routed = handle_socket_message(
        InMessage::Event {
            name: text("click"),
            params: Value::Null,
        },
        &mut ctx.states,
        &mut ctx.closures,
    );
    match routed {
        Ok(Routed::DispatchEvent { name, params }) => {
            assert_eq!("click", name);
            assert_eq!(Value::Null, params);
            // unknown event names have no handlers and dispatch is a no-op
            assert!(ctx.events.handle(&name).is_none());
        }
        _ => panic!("an event message must come back for dispatch"),
    }
}

#[test]
fn event_handlers_run_on_dispatch() {
    let mut ctx: Context<(), ClosureFn> = Context::new(0, true);
    let cell = ctx.use_state(Value::Text(text("not clicked :(")));

    let handle = cell.clone();
    ctx.on(
        text("click"),
        vec![],
        Box::new(move |states: &mut States| {
            handle.set(states, Value::Text(text("clicked :D")));
        }),
    );

    let handlers: Vec<&ClosureFn> = ctx.events.handle("click").unwrap().iter().collect();
    for handler in handlers {
        handler(&mut ctx.states);
    }

    assert_eq!(Value::Text(text("clicked :D")), cell.get(&ctx.states));
}

#[test]
fn deriving_from_a_missing_cell_fails_without_effect() {
    let mut ctx = PlainContext::new(0, true);
    let real = ctx.use_state(Value::Int(1));
    let stranger = coaxial::random_id::RandomId::from_str("zzzzzzzz");

    let compute = |vals: Vec<Value>| -> Value { vals.into_iter().next().unwrap_or(Value::Null) };
    let derived = ctx.use_computed(vec![real.id.clone(), stranger], &compute);
    assert!(derived.is_none());
    assert_eq!(0, ctx.computeds.sync_count());

    let derived = ctx.use_computed(vec![real.id.clone()], &compute);
    assert!(derived.is_some());
    assert_eq!(1, ctx.computeds.sync_count());
}

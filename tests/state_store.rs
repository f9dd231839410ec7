use ic_context::context::{delete, get, get_maybe, get_mut, http_request_cycles, store, IcContext};

const COUNTER: u64 = 1;
const NAME: u64 = 2;

#[derive(Clone, Debug, PartialEq)]
enum Slot {
    Counter { count: u64 },
    Name(String),
    Empty,
}

#[test]
fn default_on_absent_kind_then_lookup() {
    let mut ctx: IcContext<Slot> = IcContext::new();
    let v = ctx.get(COUNTER, Slot::Counter { count: 7 }).clone();
    assert_eq!(v, Slot::Counter { count: 7 });
    assert_eq!(ctx.get_maybe(COUNTER), Some(&Slot::Counter { count: 7 }));
}

#[test]
fn default_does_not_replace_present_value() {
    let mut ctx: IcContext<u64> = IcContext::new();
    ctx.store(COUNTER, 5);
    assert_eq!(*ctx.get(COUNTER, 0), 5);
    assert_eq!(*ctx.get_mut(COUNTER, 0), 5);
}

#[test]
fn get_maybe_does_not_create() {
    let ctx: IcContext<u64> = IcContext::new();
    assert_eq!(ctx.get_maybe(COUNTER), None);
    assert_eq!(ctx.get_maybe(COUNTER), None);
}

#[test]
fn counter_increment_is_visible() {
    let mut ctx: IcContext<Slot> = IcContext::new();
    ctx.store(COUNTER, Slot::Counter { count: 0 });
    if let Slot::Counter { count } = ctx.get_mut(COUNTER, Slot::Counter { count: 0 }) {
        *count += 1;
    }
    assert_eq!(ctx.get_maybe(COUNTER), Some(&Slot::Counter { count: 1 }));
}

#[test]
fn store_overwrites_and_kinds_are_separate() {
    let mut ctx: IcContext<Slot> = IcContext::new();
    ctx.store(NAME, Slot::Name("a".to_string()));
    ctx.store(NAME, Slot::Name("b".to_string()));
    ctx.store(COUNTER, Slot::Counter { count: 3 });
    assert_eq!(ctx.get_maybe(NAME), Some(&Slot::Name("b".to_string())));
    assert_eq!(ctx.get_maybe(COUNTER), Some(&Slot::Counter { count: 3 }));
}

#[test]
fn delete_reports_presence() {
    let mut ctx: IcContext<Slot> = IcContext::new();
    assert!(!ctx.delete(COUNTER));
    ctx.store(COUNTER, Slot::Empty);
    assert!(ctx.delete(COUNTER));
    assert_eq!(ctx.get_maybe(COUNTER), None);
    assert!(!ctx.delete(COUNTER));
}

#[test]
fn free_functions_act_on_the_given_context() {
    let mut ctx: IcContext<u64> = IcContext::new();
    store(&mut ctx, NAME, 4);
    assert_eq!(get_maybe(&ctx, NAME), Some(&4));
    *get_mut(&mut ctx, COUNTER, 10) += 2;
    assert_eq!(*get(&mut ctx, COUNTER, 0), 12);
    assert!(delete(&mut ctx, COUNTER));
    assert_eq!(get_maybe(&ctx, COUNTER), None);
}

#[test]
fn http_cycles_default_response_limit() {
    assert_eq!(http_request_cycles(0, None), 400_000_000 + 100_000 * (12 + 2_097_152));
}

#[test]
fn http_cycles_with_response_limit() {
    assert_eq!(http_request_cycles(100, Some(1000)), 400_000_000 + 100_000 * 1112);
    assert_eq!(http_request_cycles(0, Some(0)), 401_200_000);
}

#[test]
fn http_cycles_largest_inputs() {
    let r = http_request_cycles(usize::MAX, Some(u64::MAX));
    assert_eq!(r, 400_000_000 + 100_000 * (usize::MAX as u128 + 12 + u64::MAX as u128));
}

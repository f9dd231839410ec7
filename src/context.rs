use std::collections::HashMap;
use vstd::prelude::*;

pub use crate::throws::{require, throw};

verus! {

broadcast use vstd::std_specs::hash::group_hash_axioms;

/// The store after a defaulting access to `kind`: unchanged where `kind` is
/// present, `d` inserted under `kind` otherwise.
pub open spec fn fill_default<V>(m: Map<u64, V>, kind: u64, d: V) -> Map<u64, V> {
    if m.contains_key(kind) {
        m
    } else {
        m.insert(kind, d)
    }
}

/// What a lookup of `kind` yields, as an optional value.
pub open spec fn lookup<V>(m: Map<u64, V>, kind: u64) -> Option<V> {
    if m.contains_key(kind) {
        Some(m[kind])
    } else {
        None
    }
}

/// The optional value behind an optional reference.
pub open spec fn opt_value<V>(r: Option<&V>) -> Option<V> {
    match r {
        Some(v) => Some(*v),
        None => None,
    }
}

/// A store that holds at most one value per state kind. Kinds are stable
/// integer tags chosen by the callers, one per shape of state; `V` is the
/// tagged variant that carries the value of each shape.
pub struct IcContext<V> {
    storage: HashMap<u64, V>,
}

impl<V> View for IcContext<V> {
    type V = Map<u64, V>;

    closed spec fn view(&self) -> Map<u64, V> {
        self.storage@
    }
}

impl<V> IcContext<V> {
    /// An empty store.
    pub fn new() -> (r: Self)
        ensures
            r@ == Map::<u64, V>::empty(),
    {
        IcContext { storage: HashMap::new() }
    }

    /// Stores `data` under `kind`, replacing any earlier value of that kind.
    pub fn store(&mut self, kind: u64, data: V)
        ensures
            final(self)@ == old(self)@.insert(kind, data),
    {
        self.storage.insert(kind, data);
    }

    /// The value of `kind`, if there is one; nothing is created.
    pub fn get_maybe(&self, kind: u64) -> (r: Option<&V>)
        ensures
            opt_value(r) == lookup(self@, kind),
    {
        self.storage.get(&kind)
    }

    /// The value of `kind`; where there is none, `default` is stored first.
    pub fn get(&mut self, kind: u64, default: V) -> (r: &V)
        ensures
            final(self)@ == fill_default(old(self)@, kind, default),
            final(self)@.contains_key(kind),
            *r == final(self)@[kind],
    {
        if !self.storage.contains_key(&kind) {
            self.storage.insert(kind, default);
        }
        let r = self.storage.get(&kind);
        r.unwrap()
    }

    /// Exclusive access to the value of `kind`; where there is none,
    /// `default` is stored first. What is written through the reference is
    /// what the store holds afterwards.
    pub fn get_mut(&mut self, kind: u64, default: V) -> (r: &mut V)
        ensures
            *r == fill_default(old(self)@, kind, default)[kind],
            final(self)@ == old(self)@.insert(kind, *final(r)),
    {
        self.storage.entry(kind).or_insert(default)
    }

    /// Removes the value of `kind`; says whether there was one.
    pub fn delete(&mut self, kind: u64) -> (r: bool)
        ensures
            r == old(self)@.contains_key(kind),
            final(self)@ == old(self)@.remove(kind),
    {
        self.storage.remove(&kind).is_some()
    }
}

/// Stores `data` under `kind` in `ctx`.
pub fn store<V>(ctx: &mut IcContext<V>, kind: u64, data: V)
    ensures
        final(ctx)@ == old(ctx)@.insert(kind, data),
{
    ctx.store(kind, data)
}

/// The value of `kind` in `ctx`, if there is one.
pub fn get_maybe<V>(ctx: &IcContext<V>, kind: u64) -> (r: Option<&V>)
    ensures
        opt_value(r) == lookup(ctx@, kind),
{
    ctx.get_maybe(kind)
}

/// The value of `kind` in `ctx`, created from `default` where absent.
pub fn get<V>(ctx: &mut IcContext<V>, kind: u64, default: V) -> (r: &V)
    ensures
        final(ctx)@ == fill_default(old(ctx)@, kind, default),
        *r == final(ctx)@[kind],
{
    ctx.get(kind, default)
}

/// Exclusive access to the value of `kind` in `ctx`, created from `default`
/// where absent. The reference must not be held across a suspension point.
pub fn get_mut<V>(ctx: &mut IcContext<V>, kind: u64, default: V) -> (r: &mut V)
    ensures
        *r == fill_default(old(ctx)@, kind, default)[kind],
        final(ctx)@ == old(ctx)@.insert(kind, *final(r)),
{
    ctx.get_mut(kind, default)
}

/// Removes the value of `kind` from `ctx`; says whether there was one.
pub fn delete<V>(ctx: &mut IcContext<V>, kind: u64) -> (r: bool)
    ensures
        r == old(ctx)@.contains_key(kind),
        final(ctx)@ == old(ctx)@.remove(kind),
{
    ctx.delete(kind)
}

/// A defaulting access to an absent kind stores the default, and a later
/// lookup of that kind yields that same default.
pub proof fn lemma_default_then_lookup<V>(m: Map<u64, V>, kind: u64, d: V)
    requires
        !m.contains_key(kind),
    ensures
        fill_default(m, kind, d)[kind] == d,
        lookup(fill_default(m, kind, d), kind) == Some(d),
{
}

/// A value written through the exclusive accessor is what a later lookup yields.
pub proof fn lemma_written_then_lookup<V>(m: Map<u64, V>, kind: u64, w: V)
    ensures
        lookup(m.insert(kind, w), kind) == Some(w),
{
}

/// Cycles charged per request, before the per-byte part.
pub const HTTP_REQUEST_BASE_CYCLES: u128 = 400_000_000;

/// Cycles charged per byte of request and response.
pub const HTTP_REQUEST_CYCLES_PER_BYTE: u128 = 100_000;

/// Bytes of the method name counted with each request.
pub const HTTP_REQUEST_METHOD_NAME_LEN: u128 = 12;

/// The response size assumed where a request sets no limit: 2 MiB.
pub const HTTP_DEFAULT_MAX_RESPONSE_BYTES: u128 = 2_097_152;

/// The cycles that an outgoing HTTP request costs, from the length of its
/// encoded argument and its response limit.
pub open spec fn http_cycles_spec(arg_len: nat, max_response_bytes: Option<u64>) -> int {
    let response = match max_response_bytes {
        Some(n) => n as int,
        None => HTTP_DEFAULT_MAX_RESPONSE_BYTES as int,
    };
    HTTP_REQUEST_BASE_CYCLES + HTTP_REQUEST_CYCLES_PER_BYTE * (arg_len + HTTP_REQUEST_METHOD_NAME_LEN + response)
}

/// The cycles that an outgoing HTTP request costs, given the length of its
/// encoded argument and its response limit.
pub fn http_request_cycles(arg_len: usize, max_response_bytes: Option<u64>) -> (r: u128)
    ensures
        r == http_cycles_spec(arg_len as nat, max_response_bytes),
{
    let response: u128 = match max_response_bytes {
        Some(n) => n as u128,
        None => HTTP_DEFAULT_MAX_RESPONSE_BYTES,
    };
    let bytes: u128 = arg_len as u128 + HTTP_REQUEST_METHOD_NAME_LEN + response;
    assert(HTTP_REQUEST_CYCLES_PER_BYTE * bytes <= 100_000 * 0x3_0000_0000_0000_0000) by (nonlinear_arith)
        requires
            bytes <= 0x3_0000_0000_0000_0000,
    ;
    HTTP_REQUEST_BASE_CYCLES + HTTP_REQUEST_CYCLES_PER_BYTE * bytes
}

} // verus!

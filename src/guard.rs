use vstd::prelude::*;

verus! {

/// A caller identity, held as the bytes of its principal.
#[derive(Clone, Debug)]
pub struct Identity {
    bytes: Vec<u8>,
}

impl View for Identity {
    type V = Seq<u8>;

    closed spec fn view(&self) -> Seq<u8> {
        self.bytes@
    }
}

impl Identity {
    /// The identity whose principal has these bytes.
    pub fn from_bytes(bytes: Vec<u8>) -> (r: Self)
        ensures
            r@ == bytes@,
    {
        Identity { bytes }
    }

    /// The bytes of the principal.
    pub fn as_bytes(&self) -> (r: &Vec<u8>)
        ensures
            r@ == self@,
    {
        &self.bytes
    }

    /// Whether two identities are the same.
    pub fn same(&self, other: &Identity) -> (r: bool)
        ensures
            r == (self@ == other@),
    {
        if self.bytes.len() != other.bytes.len() {
            return false;
        }
        let mut i: usize = 0;
        while i < self.bytes.len()
            invariant
                self.bytes@.len() == other.bytes@.len(),
                i <= self.bytes@.len(),
                forall|j: int| 0 <= j < i ==> self.bytes@[j] == other.bytes@[j],
            decreases self.bytes@.len() - i,
        {
            if self.bytes[i] != other.bytes[i] {
                return false;
            }
            i = i + 1;
        }
        assert(self.bytes@ =~= other.bytes@);
        true
    }
}

/// The identities that are being served, each at most once.
pub struct State {
    pending_requests: Vec<Identity>,
}

impl View for State {
    type V = Set<Seq<u8>>;

    closed spec fn view(&self) -> Set<Seq<u8>> {
        Set::new(|b: Seq<u8>| exists|i: int| 0 <= i < self.pending_requests@.len() && #[trigger] self.pending_requests@[i]@ == b)
    }
}

impl State {
    /// Each identity is registered at most once.
    pub closed spec fn wf(&self) -> bool {
        forall|i: int, j: int|
            0 <= i < self.pending_requests@.len() && 0 <= j < self.pending_requests@.len() && i != j
                ==> self.pending_requests@[i]@ != self.pending_requests@[j]@
    }

    /// A state in which no identity is being served.
    pub fn new() -> (r: Self)
        ensures
            r.wf(),
            r@ == Set::<Seq<u8>>::empty(),
    {
        let r = State { pending_requests: Vec::new() };
        assert(r@ =~= Set::<Seq<u8>>::empty());
        r
    }

    /// Whether `principal` is being served.
    pub fn is_pending(&self, principal: &Identity) -> (r: bool)
        requires
            self.wf(),
        ensures
            r == self@.contains(principal@),
    {
        match self.position(principal) {
            Some(_) => true,
            None => false,
        }
    }

    fn position(&self, principal: &Identity) -> (r: Option<usize>)
        requires
            self.wf(),
        ensures
            match r {
                Some(i) => i < self.pending_requests@.len() && self.pending_requests@[i as int]@
                    == principal@ && self@.contains(principal@),
                None => !self@.contains(principal@),
            },
    {
        let mut i: usize = 0;
        while i < self.pending_requests.len()
            invariant
                i <= self.pending_requests@.len(),
                forall|j: int| 0 <= j < i ==> self.pending_requests@[j]@ != principal@,
            decreases self.pending_requests@.len() - i,
        {
            if self.pending_requests[i].same(principal) {
                assert(self@.contains(principal@));
                return Some(i);
            }
            i = i + 1;
        }
        None
    }

    /// Registers `principal`, which must not be registered yet.
    fn insert(&mut self, principal: Identity)
        requires
            old(self).wf(),
            !old(self)@.contains(principal@),
        ensures
            final(self).wf(),
            final(self)@ == old(self)@.insert(principal@),
    {
        let ghost p = principal@;
        self.pending_requests.push(principal);
        proof {
            let old_v = old(self).pending_requests@;
            let new_v = self.pending_requests@;
            assert forall|b: Seq<u8>| self@.contains(b) <==> old(self)@.insert(p).contains(b) by {
                if self@.contains(b) {
                    let i = choose|i: int| 0 <= i < new_v.len() && #[trigger] new_v[i]@ == b;
                    if i < old_v.len() {
                        assert(old_v[i]@ == b);
                    }
                }
                if old(self)@.contains(b) {
                    let i = choose|i: int| 0 <= i < old_v.len() && #[trigger] old_v[i]@ == b;
                    assert(new_v[i]@ == b);
                }
                if b == p {
                    assert(new_v[old_v.len() as int]@ == b);
                }
            }
            assert(self@ =~= old(self)@.insert(p));
            assert forall|i: int, j: int|
                0 <= i < new_v.len() && 0 <= j < new_v.len() && i != j implies new_v[i]@ != new_v[j]@ by {
                if i == old_v.len() {
                    assert(old(self)@.contains(new_v[j]@));
                } else if j == old_v.len() {
                    assert(old(self)@.contains(new_v[i]@));
                }
            }
        }
    }

    /// Unregisters `principal`; does nothing where it is not registered.
    fn remove(&mut self, principal: &Identity)
        requires
            old(self).wf(),
        ensures
            final(self).wf(),
            final(self)@ == old(self)@.remove(principal@),
    {
        match self.position(principal) {
            Some(k) => {
                self.pending_requests.remove(k);
                proof {
                    let old_v = old(self).pending_requests@;
                    let new_v = self.pending_requests@;
                    let p = principal@;
                    assert forall|b: Seq<u8>| self@.contains(b) <==> old(self)@.remove(p).contains(b) by {
                        if self@.contains(b) {
                            let i = choose|i: int| 0 <= i < new_v.len() && #[trigger] new_v[i]@ == b;
                            let i2 = if i < k { i } else { i + 1 };
                            assert(new_v[i] == old_v[i2]);
                            assert(old(self)@.contains(b));
                            assert(i2 != k);
                        }
                        if old(self)@.remove(p).contains(b) {
                            let i = choose|i: int| 0 <= i < old_v.len() && #[trigger] old_v[i]@ == b;
                            assert(i != k);
                            let i2 = if i < k { i } else { i - 1 };
                            assert(new_v[i2] == old_v[i]);
                        }
                    }
                    assert(self@ =~= old(self)@.remove(p));
                    assert forall|i: int, j: int|
                        0 <= i < new_v.len() && 0 <= j < new_v.len() && i != j implies new_v[i]@
                        != new_v[j]@ by {
                        let i2 = if i < k { i } else { i + 1 };
                        let j2 = if j < k { j } else { j + 1 };
                        assert(new_v[i] == old_v[i2] && new_v[j] == old_v[j2]);
                    }
                }
            },
            None => {
                assert(self@ =~= old(self)@.remove(principal@));
            },
        }
    }
}

/// The text of the contention error for `principal`.
/// Relies on std's `format!` and the `Debug` text of a byte vector; nothing
/// is stated of the text.
#[verifier::external_body]
fn duplicate_message(principal: &Identity) -> String {
    format!("Already processing a request for principal {:?}", principal.bytes)
}

/// An admission ticket: while it is live, its identity is registered in the
/// guard state, and a second ticket for the same identity is refused.
pub struct CallerGuard {
    principal: Identity,
}

impl View for CallerGuard {
    type V = Seq<u8>;

    closed spec fn view(&self) -> Seq<u8> {
        self.principal@
    }
}

impl CallerGuard {
    /// Admits `principal`. Fails, leaving `state` as it was, where a request
    /// for `principal` is already being served.
    pub fn new(state: &mut State, principal: Identity) -> (r: Result<Self, String>)
        requires
            old(state).wf(),
        ensures
            final(state).wf(),
            r is Err <==> old(state)@.contains(principal@),
            r is Err ==> final(state)@ == old(state)@,
            r is Ok ==> r->Ok_0@ == principal@ && final(state)@ == old(state)@.insert(principal@),
    {
        if state.is_pending(&principal) {
            return Err(duplicate_message(&principal));
        }
        let copy = Identity { bytes: principal.bytes.clone() };
        assert(copy@ =~= principal@);
        state.insert(copy);
        Ok(CallerGuard { principal })
    }

    /// Unregisters `principal`, whether or not a ticket for it is live.
    pub fn unlock(state: &mut State, principal: &Identity)
        requires
            old(state).wf(),
        ensures
            final(state).wf(),
            final(state)@ == old(state)@.remove(principal@),
    {
        state.remove(principal)
    }

    /// Ends the ticket and unregisters its identity.
    pub fn release(self, state: &mut State)
        requires
            old(state).wf(),
        ensures
            final(state).wf(),
            final(state)@ == old(state)@.remove(self@),
    {
        state.remove(&self.principal)
    }

    /// The identity this ticket admits.
    pub fn principal(&self) -> (r: &Identity)
        ensures
            r@ == self@,
    {
        &self.principal
    }
}

/// While a ticket for `p` is live, a second admission of `p` is refused; once
/// that ticket is released, `p` is admitted again.
pub proof fn lemma_acquire_release_acquire(s: Set<Seq<u8>>, p: Seq<u8>)
    requires
        !s.contains(p),
    ensures
        s.insert(p).contains(p),
        !s.insert(p).remove(p).contains(p),
        s.insert(p).remove(p) == s,
{
    assert(s.insert(p).remove(p) =~= s);
}

/// Releasing twice is the same as releasing once, and releasing `p` leaves
/// every other identity's registration as it was.
pub proof fn lemma_release_idempotent(s: Set<Seq<u8>>, p: Seq<u8>, q: Seq<u8>)
    ensures
        s.remove(p).remove(p) == s.remove(p),
        q != p ==> (s.remove(p).contains(q) == s.contains(q)),
{
    assert(s.remove(p).remove(p) =~= s.remove(p));
}

} // verus!

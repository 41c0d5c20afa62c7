//! The decisions of the in-process transport handshake. A transport that
//! wants a connection sends an `Init` carrying its address; the receiving
//! side allocates its channel, answers `Ack`, and both surface one
//! connection. What is kept here is the bookkeeping: which initiated
//! connections still await their `Ack`, and whether an arriving `Ack` was
//! ever asked for. The channels themselves live with the event loop.

use vstd::prelude::*;

verus! {

/// The first occurrence of `x` removed; the sequence unchanged when `x` is
/// not in it.
pub open spec fn spec_remove_first(s: Seq<usize>, x: usize) -> Seq<usize>
    decreases s.len(),
{
    if s.len() == 0 {
        s
    } else if s[0] == x {
        s.drop_first()
    } else {
        seq![s[0]] + spec_remove_first(s.drop_first(), x)
    }
}

/// The handshake state of one transport: its address id, the peers it will
/// initiate connections to, and the peers whose `Ack` is still awaited.
pub struct MPSCTransport {
    pub id: usize,
    pub seeds: Vec<usize>,
    pub pending: Vec<usize>,
}

impl MPSCTransport {
    /// A transport with no seeds and nothing pending.
    pub fn new(address_id: usize) -> (r: MPSCTransport)
        ensures
            r.id == address_id,
            r.seeds@.len() == 0,
            r.pending@.len() == 0,
    {
        MPSCTransport { id: address_id, seeds: Vec::new(), pending: Vec::new() }
    }

    /// Adds one peer to initiate a connection to.
    pub fn include_seed(&mut self, address_id: usize)
        ensures
            final(self).seeds@ == old(self).seeds@.push(address_id),
            final(self).id == old(self).id,
            final(self).pending@ == old(self).pending@,
    {
        self.seeds.push(address_id);
    }

    /// Starts the handshake: every seed is owed an `Init` and goes on the
    /// pending list, in order.
    pub fn initiate(&mut self) -> (r: Vec<usize>)
        ensures
            r@ == old(self).seeds@,
            final(self).pending@ == old(self).pending@ + old(self).seeds@,
            final(self).id == old(self).id,
            final(self).seeds@ == old(self).seeds@,
    {
        let n = self.seeds.len();
        let mut r: Vec<usize> = Vec::new();
        let mut i: usize = 0;
        while i < n
            invariant
                n == self.seeds@.len(),
                self == old(self),
                i <= n,
                r@ == self.seeds@.take(i as int),
            decreases n - i,
        {
            r.push(self.seeds[i]);
            proof {
                assert(self.seeds@.take(i as int).push(self.seeds@[i as int]) =~= self.seeds@.take(
                    i + 1,
                ));
            }
            i = i + 1;
        }
        proof {
            assert(self.seeds@.take(n as int) =~= self.seeds@);
        }
        let mut k: usize = 0;
        while k < n
            invariant
                n == self.seeds@.len(),
                self.seeds@ == old(self).seeds@,
                self.id == old(self).id,
                k <= n,
                self.pending@ == old(self).pending@ + self.seeds@.take(k as int),
            decreases n - k,
        {
            let s = self.seeds[k];
            self.pending.push(s);
            proof {
                assert(self.seeds@.take(k as int).push(self.seeds@[k as int]) =~= self.seeds@.take(
                    k + 1,
                ));
                assert(self.pending@ =~= old(self).pending@ + self.seeds@.take(k + 1));
            }
            k = k + 1;
        }
        proof {
            assert(self.seeds@.take(n as int) =~= self.seeds@);
        }
        r
    }

    /// An `Init` arrived from `from_id`: the answer is an `Ack` back to that
    /// address, and a connection is surfaced at once. Nothing of this
    /// transport's own state changes.
    pub fn on_init(&self, from_id: usize) -> (ack_to: usize)
        ensures
            ack_to == from_id,
    {
        from_id
    }

    /// An `Ack` arrived from `from_id`: it is honoured exactly when this
    /// transport still awaited it, and that single wait is then over.
    pub fn on_ack(&mut self, from_id: usize) -> (found: bool)
        ensures
            found == old(self).pending@.contains(from_id),
            final(self).pending@ == spec_remove_first(old(self).pending@, from_id),
            final(self).id == old(self).id,
            final(self).seeds@ == old(self).seeds@,
    {
        let n = self.pending.len();
        let mut i: usize = 0;
        while i < n
            invariant
                n == self.pending@.len(),
                self == old(self),
                i <= n,
                forall|j: int| 0 <= j < i ==> self.pending@[j] != from_id,
            decreases n - i,
        {
            if self.pending[i] == from_id {
                proof {
                    assert(self.pending@[i as int] == from_id);
                    lemma_remove_first_at(self.pending@, from_id, i as int);
                }
                self.pending.remove(i);
                proof {
                    assert(self.pending@ =~= spec_remove_first(old(self).pending@, from_id));
                }
                return true;
            }
            i = i + 1;
        }
        proof {
            lemma_remove_first_absent(self.pending@, from_id);
        }
        false
    }
}

/// Removing the first occurrence takes out exactly the element at the first
/// index where it stands.
proof fn lemma_remove_first_at(s: Seq<usize>, x: usize, i: int)
    requires
        0 <= i < s.len(),
        s[i] == x,
        forall|j: int| 0 <= j < i ==> s[j] != x,
    ensures
        spec_remove_first(s, x) =~= s.take(i) + s.skip(i + 1),
        s.contains(x),
    decreases i,
{
    if i == 0 {
        assert(s.take(0) + s.skip(1) =~= s.drop_first());
    } else {
        lemma_remove_first_at(s.drop_first(), x, i - 1);
        assert(s.drop_first().take(i - 1) =~= s.take(i).drop_first());
        assert(s.drop_first().skip(i) =~= s.skip(i + 1));
        assert(seq![s[0]] + (s.drop_first().take(i - 1) + s.drop_first().skip(i)) =~= s.take(i)
            + s.skip(i + 1));
    }
}

/// Removing an element that is not there changes nothing.
proof fn lemma_remove_first_absent(s: Seq<usize>, x: usize)
    requires
        forall|j: int| 0 <= j < s.len() ==> s[j] != x,
    ensures
        spec_remove_first(s, x) =~= s,
        !s.contains(x),
    decreases s.len(),
{
    if s.len() > 0 {
        lemma_remove_first_absent(s.drop_first(), x);
        assert(seq![s[0]] + s.drop_first() =~= s);
    }
}

} // verus!

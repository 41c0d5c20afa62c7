//! The proof-of-work primitives: a 256-bit difficulty threshold compared
//! byte-wise big-endian, and the 64-bit mining counter.
//!
//! A hash `h` satisfies the proof of work exactly when `h < T` for the
//! threshold `T`, both read as big-endian integers; this module proves that
//! the byte-wise comparison the code performs agrees with that integer
//! comparison.

use vstd::prelude::*;
use vstd::arithmetic::power2::{pow2, lemma_pow2_adds, lemma2_to64};
use vstd::arithmetic::mul::lemma_mul_inequality;

verus! {

/// The value of a byte sequence read as a big-endian unsigned integer.
pub open spec fn be_int(s: Seq<u8>) -> nat
    decreases s.len(),
{
    if s.len() == 0 {
        0
    } else {
        (s[0] as nat) * pow2((8 * (s.len() - 1)) as nat) + be_int(s.drop_first())
    }
}

/// Byte-wise lexicographic order: the first differing byte decides.
pub open spec fn lex_less(a: Seq<u8>, b: Seq<u8>) -> bool
    decreases a.len(),
{
    if a.len() == 0 || b.len() == 0 {
        false
    } else if a[0] != b[0] {
        a[0] < b[0]
    } else {
        lex_less(a.drop_first(), b.drop_first())
    }
}

/// A big-endian integer fits below `2^(8 * length)`.
pub proof fn lemma_be_int_bound(s: Seq<u8>)
    ensures
        be_int(s) < pow2((8 * s.len()) as nat),
    decreases s.len(),
{
    if s.len() == 0 {
        assert(pow2(0) == 1) by {
            lemma2_to64();
        }
    } else {
        lemma_be_int_bound(s.drop_first());
        let w = pow2((8 * (s.len() - 1)) as nat);
        assert(pow2((8 * s.len()) as nat) == 256 * w) by {
            lemma_pow2_adds(8, (8 * (s.len() - 1)) as nat);
            lemma2_to64();
        }
        assert((s[0] as int + 1) * w == (s[0] as nat) * w + w) by {
            vstd::arithmetic::mul::lemma_mul_is_distributive_add_other_way(
                w as int,
                s[0] as int,
                1,
            );
        }
        assert((s[0] as int + 1) * w <= 256 * w) by {
            lemma_mul_inequality(s[0] as int + 1, 256, w as int);
        }
    }
}

/// On sequences of one length, the byte-wise order is exactly the order of
/// the big-endian integer values.
pub proof fn lemma_lex_less_is_be_int_less(a: Seq<u8>, b: Seq<u8>)
    requires
        a.len() == b.len(),
    ensures
        lex_less(a, b) <==> be_int(a) < be_int(b),
    decreases a.len(),
{
    if a.len() == 0 {
    } else {
        let w = pow2((8 * (a.len() - 1)) as nat) as int;
        lemma_be_int_bound(a.drop_first());
        lemma_be_int_bound(b.drop_first());
        lemma_lex_less_is_be_int_less(a.drop_first(), b.drop_first());
        if a[0] < b[0] {
            assert((a[0] as int + 1) * w <= b[0] as int * w) by {
                lemma_mul_inequality(a[0] as int + 1, b[0] as int, w);
            }
            assert((a[0] as int + 1) * w == a[0] as int * w + w) by {
                vstd::arithmetic::mul::lemma_mul_is_distributive_add_other_way(
                    w,
                    a[0] as int,
                    1,
                );
            }
        } else if b[0] < a[0] {
            assert((b[0] as int + 1) * w <= a[0] as int * w) by {
                lemma_mul_inequality(b[0] as int + 1, a[0] as int, w);
            }
            assert((b[0] as int + 1) * w == b[0] as int * w + w) by {
                vstd::arithmetic::mul::lemma_mul_is_distributive_add_other_way(
                    w,
                    b[0] as int,
                    1,
                );
            }
        }
    }
}

/// A sequence whose first `i` bytes are zero has the value of its remainder.
pub proof fn lemma_be_int_zero_prefix(s: Seq<u8>, i: int)
    requires
        0 <= i <= s.len(),
        forall|j: int| 0 <= j < i ==> s[j] == 0,
    ensures
        be_int(s) == be_int(s.skip(i)),
    decreases i,
{
    if i > 0 {
        lemma_be_int_zero_prefix(s.drop_first(), i - 1);
        assert(s.drop_first().skip(i - 1) =~= s.skip(i));
    } else {
        assert(s.skip(0) =~= s);
    }
}

/// Index of the first nonzero byte; the length when every byte is zero.
pub open spec fn first_nonzero(s: Seq<u8>) -> int
    decreases s.len(),
{
    if s.len() == 0 {
        0
    } else if s[0] != 0 {
        0
    } else {
        1 + first_nonzero(s.drop_first())
    }
}

/// What `first_nonzero` promises: zeros before it, nonzero at it.
pub proof fn lemma_first_nonzero(s: Seq<u8>)
    ensures
        0 <= first_nonzero(s) <= s.len(),
        forall|j: int| 0 <= j < first_nonzero(s) ==> s[j] == 0,
        first_nonzero(s) < s.len() ==> s[first_nonzero(s)] != 0,
    decreases s.len(),
{
    if s.len() > 0 && s[0] == 0 {
        lemma_first_nonzero(s.drop_first());
        assert forall|j: int| 0 <= j < first_nonzero(s) implies s[j] == 0 by {
            if j > 0 {
                assert(s[j] == s.drop_first()[j - 1]);
            }
        }
    }
}

/// Compares two byte strings of one length from the most significant byte
/// down; `true` exactly when `one` comes lexicographically before `other`.
pub fn less_than_u8(one: &[u8], other: &[u8]) -> (r: bool)
    requires
        one@.len() == other@.len(),
    ensures
        r == lex_less(one@, other@),
{
    let len = one.len();
    let mut i: usize = 0;
    while i < len
        invariant
            len == one@.len() == other@.len(),
            i <= len,
            forall|j: int| 0 <= j < i ==> one@[j] == other@[j],
        decreases len - i,
    {
        if one[i] < other[i] {
            proof {
                lemma_lex_less_prefix(one@, other@, i as int);
            }
            return true;
        }
        if one[i] > other[i] {
            proof {
                lemma_lex_less_prefix(one@, other@, i as int);
            }
            return false;
        }
        i = i + 1;
    }
    proof {
        lemma_lex_less_all_equal(one@, other@);
    }
    false
}

/// When the bytes before `i` agree, the byte at `i` decides the order.
proof fn lemma_lex_less_prefix(a: Seq<u8>, b: Seq<u8>, i: int)
    requires
        a.len() == b.len(),
        0 <= i < a.len(),
        forall|j: int| 0 <= j < i ==> a[j] == b[j],
        a[i] != b[i],
    ensures
        lex_less(a, b) == (a[i] < b[i]),
    decreases i,
{
    if i > 0 {
        lemma_lex_less_prefix(a.drop_first(), b.drop_first(), i - 1);
    }
}

/// Two equal byte strings are not ordered.
proof fn lemma_lex_less_all_equal(a: Seq<u8>, b: Seq<u8>)
    requires
        a.len() == b.len(),
        forall|j: int| 0 <= j < a.len() ==> a[j] == b[j],
    ensures
        !lex_less(a, b),
    decreases a.len(),
{
    if a.len() > 0 {
        lemma_lex_less_all_equal(a.drop_first(), b.drop_first());
    }
}

/// The all-ones threshold that every hash satisfies.
pub open spec fn spec_max_threshold() -> Seq<u8> {
    Seq::new(32, |i: int| 0xffu8)
}

/// The one step of difficulty increase: the first nonzero byte is halved;
/// when it reaches zero, the next byte is set to `0x7f` instead.
pub open spec fn spec_increase(s: Seq<u8>) -> Seq<u8> {
    let i = first_nonzero(s);
    if s[i] / 2 > 0 {
        s.update(i, s[i] / 2)
    } else {
        s.update(i, 0u8).update(i + 1, 0x7fu8)
    }
}

/// The 32-byte proof-of-work threshold: a block hash is accepted exactly
/// when it is below this value, both read big-endian.
pub struct Difficulty {
    pub threshold: Vec<u8>,
}

impl View for Difficulty {
    type V = Seq<u8>;

    open spec fn view(&self) -> Seq<u8> {
        self.threshold@
    }
}

impl Clone for Difficulty {
    fn clone(&self) -> (r: Self)
        ensures
            r@ == self@,
    {
        let threshold = self.threshold.clone();
        assert(threshold@ =~= self.threshold@);
        Difficulty { threshold }
    }
}

impl PartialEq for Difficulty {
    fn eq(&self, other: &Difficulty) -> (r: bool) {
        crate::crypto::bytes_equal(self.threshold.as_slice(), other.threshold.as_slice())
    }
}

impl vstd::std_specs::cmp::PartialEqSpecImpl for Difficulty {
    open spec fn obeys_eq_spec() -> bool {
        true
    }

    open spec fn eq_spec(&self, other: &Difficulty) -> bool {
        self.threshold@ == other.threshold@
    }
}

impl Difficulty {
    /// Length of a well-formed threshold.
    pub open spec fn wf(&self) -> bool {
        self.threshold@.len() == 32
    }

    /// The threshold as an integer.
    pub open spec fn threshold_int(&self) -> nat {
        be_int(self@)
    }

    /// The weakest difficulty: every byte `0xff`, so that every hash but the
    /// all-ones value is below it.
    pub fn min_difficulty() -> (d: Difficulty)
        ensures
            d@ == spec_max_threshold(),
            d.wf(),
    {
        let threshold = vec![0xffu8; 32];
        assert(threshold@ =~= spec_max_threshold());
        Difficulty { threshold }
    }

    /// Whether one more [`Self::increase`] is possible: the threshold still
    /// holds an integer of at least 2.
    pub fn can_increase(&self) -> (r: bool)
        requires
            self.wf(),
        ensures
            r == (self.threshold_int() >= 2),
    {
        let mut i: usize = 0;
        while i < 31
            invariant
                self.wf(),
                i <= 31,
                forall|j: int| 0 <= j < i ==> self@[j] == 0,
            decreases 31 - i,
        {
            if self.threshold[i] != 0 {
                proof {
                    lemma_be_int_zero_prefix(self@, i as int);
                    lemma_be_int_bound(self@.skip(i as int).drop_first());
                    assert(self@.skip(i as int)[0] == self@[i as int]);
                    assert(be_int(self@.skip(i as int)) >= (self@[i as int] as nat) * pow2(
                        (8 * (31 - i)) as nat,
                    ));
                    assert((self@[i as int] as nat) * pow2((8 * (31 - i)) as nat) >= 1 * pow2(
                        (8 * (31 - i)) as nat,
                    )) by {
                        lemma_mul_inequality(1, self@[i as int] as int, pow2(
                            (8 * (31 - i)) as nat,
                        ) as int);
                    }
                    assert(pow2((8 * (31 - i)) as nat) >= 2) by {
                        vstd::arithmetic::power2::lemma_pow2_strictly_increases(
                            0,
                            (8 * (31 - i)) as nat,
                        );
                        lemma2_to64();
                    }
                }
                return true;
            }
            i = i + 1;
        }
        proof {
            lemma_be_int_zero_prefix(self@, 31);
            assert(self@.skip(31).len() == 1);
            assert(self@.skip(31).drop_first().len() == 0);
            assert(be_int(self@.skip(31).drop_first()) == 0);
            assert(self@.skip(31)[0] == self@[31]);
            assert(pow2(0) == 1) by {
                lemma2_to64();
            }
            assert(be_int(self@.skip(31)) == (self@[31] as nat) * pow2(0));
            assert(be_int(self@) == self@[31] as nat);
        }
        self.threshold[31] >= 2
    }

    /// Strengthens the proof-of-work demand one step, as
    /// [`spec_increase`] describes. The threshold must still hold an
    /// integer of at least 2; below that there is nothing left to halve.
    pub fn increase(&mut self)
        requires
            old(self).wf(),
            old(self).threshold_int() >= 2,
        ensures
            final(self).wf(),
            final(self)@ == spec_increase(old(self)@),
    {
        proof {
            lemma_first_nonzero(old(self)@);
            if first_nonzero(old(self)@) == 32 {
                lemma_be_int_zero_prefix(old(self)@, 32);
                assert(old(self)@.skip(32).len() == 0);
            }
        }
        let ghost fnz = first_nonzero(old(self)@);
        assert(fnz < 32);
        let mut index_to_split: usize = 0;
        while self.threshold[index_to_split] == 0
            invariant
                self == old(self),
                self.wf(),
                index_to_split <= fnz < 32,
                self@[fnz] != 0,
                forall|j: int| 0 <= j < fnz ==> self@[j] == 0,
            decreases 32 - index_to_split,
        {
            index_to_split = index_to_split + 1;
        }
        assert(index_to_split == fnz);
        let halved = self.threshold[index_to_split] / 2;
        self.threshold.set(index_to_split, halved);

        if halved == 0 {
            proof {
                if index_to_split == 31 {
                    lemma_be_int_zero_prefix(old(self)@, 31);
                    assert(old(self)@.skip(31).len() == 1);
                    assert(be_int(old(self)@.skip(31).drop_first()) == 0);
                    assert(pow2(0) == 1) by {
                        lemma2_to64();
                    }
                    assert(old(self)@.skip(31)[0] == old(self)@[31]);
                    assert(old(self)@.skip(31).drop_first().len() == 0);
                    assert(be_int(old(self)@.skip(31)) == (old(self)@[31] as nat) * pow2(0));
                    assert(be_int(old(self)@) == old(self)@[31]);
                }
            }
            let next_index = index_to_split + 1;
            self.threshold.set(next_index, 0x7f);
        }
        assert(final(self)@ =~= spec_increase(old(self)@));
    }

    /// Whether this threshold lies byte-wise below `hash`: the hash is then
    /// too high to be accepted.
    pub fn is_lower_than(&self, hash: &crate::crypto::Hash) -> (r: bool)
        requires
            self.wf(),
            hash.wf(),
        ensures
            r == lex_less(self@, hash@),
            r == (self.threshold_int() < be_int(hash@)),
    {
        proof {
            lemma_lex_less_is_be_int_less(self@, hash@);
        }
        less_than_u8(self.threshold.as_slice(), hash.bytes())
    }
}

impl crate::crypto::Hash {
    /// Whether this hash meets the proof of work: byte-wise (equivalently,
    /// as big-endian integers) strictly below the threshold.
    pub fn less_than(&self, difficulty: &Difficulty) -> (r: bool)
        requires
            self.wf(),
            difficulty.wf(),
        ensures
            r == lex_less(self@, difficulty@),
            r == (be_int(self@) < difficulty.threshold_int()),
    {
        proof {
            lemma_lex_less_is_be_int_less(self@, difficulty@);
        }
        less_than_u8(self.bytes(), difficulty.threshold.as_slice())
    }
}

/// An all-ones byte string holds the largest value of its length.
pub proof fn lemma_be_int_all_ff(s: Seq<u8>)
    requires
        forall|j: int| 0 <= j < s.len() ==> s[j] == 0xff,
    ensures
        be_int(s) + 1 == pow2((8 * s.len()) as nat),
    decreases s.len(),
{
    if s.len() == 0 {
        lemma2_to64();
    } else {
        lemma_be_int_all_ff(s.drop_first());
        let w = pow2((8 * (s.len() - 1)) as nat);
        assert(pow2((8 * s.len()) as nat) == 256 * w) by {
            lemma_pow2_adds(8, (8 * (s.len() - 1)) as nat);
            lemma2_to64();
        }
        assert(255 * w + w == 256 * w) by {
            vstd::arithmetic::mul::lemma_mul_is_distributive_add_other_way(w as int, 255, 1);
        }
    }
}

/// Two byte strings of one length with one big-endian value are equal.
pub proof fn lemma_be_int_injective(a: Seq<u8>, b: Seq<u8>)
    requires
        a.len() == b.len(),
        be_int(a) == be_int(b),
    ensures
        a =~= b,
    decreases a.len(),
{
    if a.len() > 0 {
        lemma_lex_less_is_be_int_less(a, b);
        lemma_lex_less_is_be_int_less(b, a);
        if a[0] != b[0] {
            // the first byte would already decide the order
            assert(lex_less(a, b) || lex_less(b, a));
        } else {
            lemma_be_int_injective(a.drop_first(), b.drop_first());
            assert forall|j: int| 0 <= j < a.len() implies a[j] == b[j] by {
                if j > 0 {
                    assert(a[j] == a.drop_first()[j - 1]);
                    assert(b[j] == b.drop_first()[j - 1]);
                }
            }
        }
    }
}

/// The byte string of length 32 whose value is `2^j - 1`: a run of `0xff`
/// bytes at the low end, below one partial byte when `j` is not a multiple
/// of eight.
pub open spec fn spec_pow_threshold(j: nat) -> Seq<u8>
    recommends
        1 <= j <= 256,
{
    let full = (j / 8) as int;
    let rem = (j % 8) as nat;
    if rem == 0 {
        Seq::new(32, |i: int| if i < 32 - full { 0u8 } else { 0xffu8 })
    } else {
        Seq::new(
            32,
            |i: int|
                if i < 31 - full {
                    0u8
                } else if i == 31 - full {
                    (pow2(rem) - 1) as u8
                } else {
                    0xffu8
                },
        )
    }
}

/// The value of [`spec_pow_threshold`] is what its name promises.
pub proof fn lemma_pow_threshold_value(j: nat)
    requires
        1 <= j <= 256,
    ensures
        be_int(spec_pow_threshold(j)) + 1 == pow2(j),
{
    let s = spec_pow_threshold(j);
    let full = (j / 8) as int;
    let rem = (j % 8) as nat;
    lemma2_to64();
    if rem == 0 {
        lemma_be_int_zero_prefix(s, 32 - full);
        let t = s.skip(32 - full);
        assert(forall|i: int| 0 <= i < t.len() ==> t[i] == 0xff);
        lemma_be_int_all_ff(t);
        assert(8 * t.len() == j);
    } else {
        lemma_be_int_zero_prefix(s, 31 - full);
        let t = s.skip(31 - full);
        assert(t.len() == full + 1);
        let u = t.drop_first();
        assert(forall|i: int| 0 <= i < u.len() ==> u[i] == 0xff);
        lemma_be_int_all_ff(u);
        let w = pow2((8 * full) as nat);
        assert(t[0] == (pow2(rem) - 1) as u8);
        assert(pow2(rem) <= 256) by {
            if rem < 8 {
                vstd::arithmetic::power2::lemma_pow2_strictly_increases(rem, 8);
            }
        }
        assert(be_int(t) == (pow2(rem) - 1) * w + (w - 1));
        assert((pow2(rem) - 1) * w == pow2(rem) * w - w) by {
            vstd::arithmetic::mul::lemma_mul_is_distributive_sub_other_way(
                w as int,
                pow2(rem) as int,
                1,
            );
        }
        assert(pow2(rem) * w == pow2(j)) by {
            lemma_pow2_adds(rem, (8 * full) as nat);
        }
    }
}

/// The exponent that one `increase` step leaves behind: down by one, or by
/// two when the single remaining bit of the leading byte rolls over into the
/// next byte.
pub open spec fn spec_decreased_exp(j: nat) -> nat {
    if j % 8 == 1 {
        (j - 2) as nat
    } else {
        (j - 1) as nat
    }
}

/// A threshold holding `2^j - 1` still holds one less than a power of two
/// after an increase: halving the leading byte of a run of ones keeps the
/// run shape, so each step of `increase` halves the share of hashes that
/// pass (quartering it when the leading bit crosses a byte boundary).
pub proof fn lemma_increase_keeps_power(s: Seq<u8>, j: nat)
    requires
        s.len() == 32,
        2 <= j <= 256,
        be_int(s) + 1 == pow2(j),
    ensures
        be_int(spec_increase(s)) + 1 == pow2(spec_decreased_exp(j)),
        1 <= spec_decreased_exp(j) < j,
{
    lemma_pow_threshold_value(j);
    lemma_be_int_injective(s, spec_pow_threshold(j));
    let full = (j / 8) as int;
    let rem = (j % 8) as nat;
    lemma2_to64();
    assert(pow2(rem) <= 256) by {
        if rem < 8 {
            vstd::arithmetic::power2::lemma_pow2_strictly_increases(rem, 8);
        }
    }
    let p = if rem == 0 { 32 - full } else { 31 - full };
    lemma_first_nonzero(s);
    assert(s[p] != 0);
    assert(first_nonzero(s) == p) by {
        let f = first_nonzero(s);
        if f < p {
            assert(s[f] == 0);
        }
        if f > p {
            assert(s[p] == 0);
        }
    }
    let j2 = spec_decreased_exp(j);
    lemma_pow_threshold_value(j2);
    if rem == 1 {
        // the leading byte is 1: it rolls over into the next byte
        assert(s[p] == 1);
        assert(full >= 1);
        assert(j2 % 8 == 7 && j2 / 8 == full - 1) by (nonlinear_arith)
            requires
                j % 8 == 1,
                j2 == j - 2,
                j >= 2,
                full == j / 8,
        ;
        assert(spec_increase(s) =~= spec_pow_threshold(j2));
    } else if rem == 0 {
        // the leading byte is 0xff: it is halved in place
        assert(s[p] == 0xff);
        assert(s[p] / 2 == 0x7f);
        assert(j2 % 8 == 7 && j2 / 8 == full - 1) by (nonlinear_arith)
            requires
                j % 8 == 0,
                j2 == j - 1,
                j >= 2,
                full == j / 8,
        ;
        assert(spec_increase(s) =~= spec_pow_threshold(j2));
    } else {
        // the leading byte keeps at least one bit: it is halved in place
        assert(pow2(rem) == 2 * pow2((rem - 1) as nat)) by {
            lemma_pow2_adds(1, (rem - 1) as nat);
        }
        assert(s[p] == (pow2(rem) - 1) as u8);
        assert(s[p] / 2 == (pow2((rem - 1) as nat) - 1) as u8);
        assert(s[p] / 2 > 0);
        assert(j2 % 8 == rem - 1 && j2 / 8 == full) by (nonlinear_arith)
            requires
                j % 8 == rem,
                2 <= rem < 8,
                j2 == j - 1,
                j >= 2,
                full == j / 8,
        ;
        assert(spec_increase(s) =~= spec_pow_threshold(j2));
    }
}

/// One increase strictly lowers the threshold and never empties it: as long
/// as the threshold holds at least 2, the step neither wraps around nor
/// silently reaches all-zero.
pub proof fn lemma_increase_in_range(s: Seq<u8>)
    requires
        s.len() == 32,
        be_int(s) >= 2,
    ensures
        1 <= be_int(spec_increase(s)) < be_int(s),
{
    lemma_first_nonzero(s);
    let i = first_nonzero(s);
    if i == 32 {
        lemma_be_int_zero_prefix(s, 32);
        assert(s.skip(32).len() == 0);
    }
    assert(i < 32);
    let s2 = spec_increase(s);
    lemma2_to64();
    if s[i] / 2 > 0 {
        assert(s2 == s.update(i, s[i] / 2));
        assert(s2.len() == 32);
        // strictly smaller: the first differing byte shrank
        assert(forall|j: int| 0 <= j < i ==> s2[j] == s[j]);
        assert(s2[i] == s[i] / 2);
        assert(s2[i] < s[i]);
        lemma_lex_less_prefix(s2, s, i);
        lemma_lex_less_is_be_int_less(s2, s);
        // still nonzero: the halved byte leads the remainder
        assert(forall|j: int| 0 <= j < i ==> s2[j] == 0);
        lemma_be_int_zero_prefix(s2, i);
        let t = s2.skip(i);
        assert(t[0] == s2[i]);
        assert(be_int(t) >= (t[0] as nat) * pow2((8 * (t.len() - 1)) as nat));
        assert((t[0] as nat) * pow2((8 * (t.len() - 1)) as nat) >= 1 * pow2(
            (8 * (t.len() - 1)) as nat,
        )) by {
            lemma_mul_inequality(1, t[0] as int, pow2((8 * (t.len() - 1)) as nat) as int);
        }
        assert(pow2((8 * (t.len() - 1)) as nat) >= 1) by {
            vstd::arithmetic::power2::lemma_pow2_pos((8 * (t.len() - 1)) as nat);
        }
    } else {
        // the leading byte was 1 and rolls over into the next byte
        assert(s[i] == 1);
        if i == 31 {
            lemma_be_int_zero_prefix(s, 31);
            assert(s.skip(31).len() == 1);
            assert(s.skip(31).drop_first().len() == 0);
            assert(be_int(s.skip(31).drop_first()) == 0);
            assert(s.skip(31)[0] == s[31]);
            assert(be_int(s.skip(31)) == (s[31] as nat) * pow2(0));
            assert(be_int(s) == 1);
        }
        assert(i < 31);
        assert(s2 == s.update(i, 0u8).update(i + 1, 0x7fu8));
        assert(s2.len() == 32);
        // strictly smaller: the byte at the first difference went to zero
        assert(forall|j: int| 0 <= j < i ==> s2[j] == s[j]);
        assert(s2[i] == 0);
        assert(s2[i] < s[i]);
        lemma_lex_less_prefix(s2, s, i);
        lemma_lex_less_is_be_int_less(s2, s);
        // still nonzero: the next byte now leads the remainder
        assert(forall|j: int| 0 <= j < i + 1 ==> s2[j] == 0);
        lemma_be_int_zero_prefix(s2, i + 1);
        let t = s2.skip(i + 1);
        assert(t[0] == s2[i + 1]);
        assert(t[0] == 0x7f);
        assert(be_int(t) >= (t[0] as nat) * pow2((8 * (t.len() - 1)) as nat));
        assert((t[0] as nat) * pow2((8 * (t.len() - 1)) as nat) >= 1 * pow2(
            (8 * (t.len() - 1)) as nat,
        )) by {
            lemma_mul_inequality(1, t[0] as int, pow2((8 * (t.len() - 1)) as nat) as int);
        }
        assert(pow2((8 * (t.len() - 1)) as nat) >= 1) by {
            vstd::arithmetic::power2::lemma_pow2_pos((8 * (t.len() - 1)) as nat);
        }
    }
}

/// The weakest threshold holds one less than `2^256`: the starting point of
/// the halving law, which [`lemma_increase_keeps_power`] carries through
/// every later step.
pub proof fn lemma_max_threshold_value()
    ensures
        be_int(spec_max_threshold()) + 1 == pow2(256),
{
    lemma_be_int_all_ff(spec_max_threshold());
}

/// Applies [`spec_increase`] `k` times, stopping quietly once the threshold
/// is too small to halve further.
pub open spec fn spec_increase_n(s: Seq<u8>, k: nat) -> Seq<u8>
    decreases k,
{
    if k == 0 {
        s
    } else {
        let t = spec_increase_n(s, (k - 1) as nat);
        if be_int(t) >= 2 {
            spec_increase(t)
        } else {
            t
        }
    }
}

/// The threshold the simulation starts from: the weakest difficulty
/// strengthened `difficulty_factor` times.
pub fn initial_difficulty(difficulty_factor: u8) -> (d: Difficulty)
    ensures
        d.wf(),
        d@ == spec_increase_n(spec_max_threshold(), difficulty_factor as nat),
{
    let mut difficulty = Difficulty::min_difficulty();
    let mut i: u8 = 0;
    while i < difficulty_factor
        invariant
            i <= difficulty_factor,
            difficulty.wf(),
            difficulty@ == spec_increase_n(spec_max_threshold(), i as nat),
        decreases difficulty_factor - i,
    {
        if difficulty.can_increase() {
            difficulty.increase();
        }
        i = i + 1;
    }
    difficulty
}

/// The lower-case hexadecimal digit for a value below 16.
pub open spec fn spec_hex_char(n: u8) -> char {
    seq!['0', '1', '2', '3', '4', '5', '6', '7', '8', '9', 'a', 'b', 'c', 'd', 'e', 'f'][n as int]
}

/// Two lower-case hexadecimal digits per byte, in order.
pub open spec fn spec_hex(bytes: Seq<u8>) -> Seq<char>
    decreases bytes.len(),
{
    if bytes.len() == 0 {
        Seq::empty()
    } else {
        seq![spec_hex_char(bytes[0] / 16), spec_hex_char(bytes[0] % 16)] + spec_hex(
            bytes.drop_first(),
        )
    }
}

/// Relies on `alloc::string::String::push`: appends one character.
#[verifier::external_body]
fn string_push(s: &mut String, c: char)
    ensures
        final(s)@ == old(s)@ + seq![c],
{
    s.push(c);
}

/// The lower-case hexadecimal digit for a value below 16.
fn hex_char(n: u8) -> (r: char)
    requires
        n < 16,
    ensures
        r == spec_hex_char(n),
{
    match n {
        0 => '0',
        1 => '1',
        2 => '2',
        3 => '3',
        4 => '4',
        5 => '5',
        6 => '6',
        7 => '7',
        8 => '8',
        9 => '9',
        10 => 'a',
        11 => 'b',
        12 => 'c',
        13 => 'd',
        14 => 'e',
        _ => 'f',
    }
}

/// Renders bytes as lower-case hexadecimal, two digits per byte: how a hash
/// or a threshold is shown.
pub fn print_u8_as_hexa(bytes: &[u8]) -> (r: String)
    ensures
        r@ == spec_hex(bytes@),
{
    let n = bytes.len();
    let mut concatenated = String::new();
    proof {
        assert(bytes@.skip(0) =~= bytes@);
        assert(concatenated@ + spec_hex(bytes@) =~= spec_hex(bytes@));
    }
    let mut i: usize = 0;
    while i < n
        invariant
            n == bytes@.len(),
            i <= n,
            concatenated@ + spec_hex(bytes@.skip(i as int)) == spec_hex(bytes@),
        decreases n - i,
    {
        let byte = bytes[i];
        string_push(&mut concatenated, hex_char(byte / 16));
        string_push(&mut concatenated, hex_char(byte % 16));
        proof {
            assert(bytes@.skip(i as int)[0] == bytes@[i as int]);
            assert(bytes@.skip(i as int).drop_first() =~= bytes@.skip(i + 1));
            assert(concatenated@ + spec_hex(bytes@.skip(i + 1)) =~= spec_hex(bytes@));
        }
        i = i + 1;
    }
    proof {
        assert(bytes@.skip(n as int).len() == 0);
        assert(concatenated@ =~= spec_hex(bytes@));
    }
    concatenated
}

/// The 64-bit counter a miner varies to search for an acceptable hash.
#[derive(Clone, Copy, PartialEq, Eq, Structural, Debug)]
pub struct Nonce(pub u64);

impl Nonce {
    /// The counter starts at zero.
    pub fn new() -> (n: Nonce)
        ensures
            n.0 == 0,
    {
        Nonce(0u64)
    }

    /// Adds one to the counter.
    pub fn increment(&mut self)
        requires
            old(self).0 < u64::MAX,
        ensures
            final(self).0 == old(self).0 + 1,
    {
        self.0 = self.0 + 1;
    }
}

} // verus!

//! Unsigned LEB128 integers of at most 64 bits.

use vstd::arithmetic::power2::{lemma2_to64, lemma2_to64_rest, lemma_pow2_adds, lemma_pow2_pos, pow2};
use vstd::prelude::*;

verus! {

/// The longest encoding that a 64-bit value may have.
pub const MAX_VARINT_LEN_64: u32 = 10;

/// Why a byte sequence is not a 64-bit LEB128 integer.
#[derive(Copy, Clone, Debug, PartialEq, Eq, Structural)]
pub enum UvarintError {
    /// The tenth byte carries more than the one bit that is left.
    Overflow,
    /// The tenth byte still announces another one.
    TooLong,
}

/// What has been learned from the bytes of an encoding so far.
#[derive(Copy, Clone, Debug, PartialEq, Eq, Structural)]
pub enum UvarintStep {
    /// Another byte is needed.
    More,
    /// The encoding is complete.
    Done(u64),
    /// The bytes are no encoding of a 64-bit value.
    Invalid(UvarintError),
}

/// Whether `b` announces another byte.
pub open spec fn continues(b: u8) -> bool {
    b >= 0x80
}

/// The number of leading bytes of `s` that announce another byte.
pub open spec fn continuation_len(s: Seq<u8>) -> nat
    decreases s.len(),
{
    if s.len() == 0 || !continues(s[0]) {
        0
    } else {
        1 + continuation_len(s.skip(1))
    }
}

/// The number that the seven low bits of each byte of `s` make up, least significant group first.
pub open spec fn groups_value(s: Seq<u8>) -> nat
    decreases s.len(),
{
    if s.len() == 0 {
        0
    } else {
        (s[0] % 128) as nat + 128 * groups_value(s.skip(1))
    }
}

/// What the bytes at the front of `s` encode: the value and the number of bytes it takes,
/// `None` where `s` ends before the encoding does.
pub open spec fn decoded(s: Seq<u8>) -> Option<(Result<u64, UvarintError>, nat)> {
    let n = continuation_len(s);
    if n >= 10 {
        Some((Err(UvarintError::TooLong), 10))
    } else if n >= s.len() {
        None
    } else if n == 9 && s[9] > 1 {
        Some((Err(UvarintError::Overflow), 10))
    } else {
        Some((Ok(groups_value(s.take(n as int + 1)) as u64), n + 1))
    }
}

/// The shortest LEB128 encoding of `v`.
pub open spec fn encoded(v: nat) -> Seq<u8>
    decreases v,
{
    if v < 128 {
        seq![v as u8]
    } else {
        seq![(128 + v % 128) as u8] + encoded(v / 128)
    }
}

/// `b` after bytes that all announce another one extends the run by one if it does so too.
proof fn lemma_continuation_push(s: Seq<u8>, b: u8)
    requires
        forall|i: int| 0 <= i < s.len() ==> continues(#[trigger] s[i]),
    ensures
        continuation_len(s.push(b)) == s.len() + if continues(b) { 1nat } else { 0nat },
    decreases s.len(),
{
    reveal_with_fuel(continuation_len, 2);
    if s.len() > 0 {
        assert(s.push(b).skip(1) =~= s.skip(1).push(b));
        assert forall|i: int| 0 <= i < s.skip(1).len() implies continues(#[trigger] s.skip(1)[i]) by {
            assert(s.skip(1)[i] == s[i + 1]);
        }
        lemma_continuation_push(s.skip(1), b);
    } else {
        assert(s.push(b).skip(1) =~= Seq::<u8>::empty());
    }
}

/// Each group is worth 128 times the one before it.
proof fn lemma_groups_push(s: Seq<u8>, b: u8)
    ensures
        groups_value(s.push(b)) == groups_value(s) + (b % 128) as nat * pow2(7 * s.len()),
        groups_value(s) < pow2(7 * s.len()),
    decreases s.len(),
{
    reveal_with_fuel(groups_value, 2);
    lemma2_to64();
    if s.len() == 0 {
        assert(s.push(b).skip(1) =~= Seq::<u8>::empty());
        assert(pow2(7 * s.len()) == 1);
        assert((b % 128) as nat * 1 == (b % 128) as nat);
    } else {
        let t = s.skip(1);
        assert(s.push(b).skip(1) =~= t.push(b));
        lemma_groups_push(t, b);
        lemma_pow2_adds(7, 7 * t.len());
        assert(7 * s.len() == 7 + 7 * t.len());
        let g = (b % 128) as int;
        let p = pow2(7 * t.len()) as int;
        assert(128 * (g * p) == g * (128 * p)) by (nonlinear_arith);
        let v = groups_value(t) as int;
        assert((s[0] % 128) + 128 * v < 128 * p);
        assert(128 * (v + g * p) == 128 * v + g * (128 * p)) by (nonlinear_arith);
        assert(s.push(b)[0] == s[0]);
    }
}

/// A decoder that is handed one byte at a time.
#[derive(Copy, Clone)]
pub struct UvarintDecoder {
    value: u64,
    shift: u32,
    seen: Ghost<Seq<u8>>,
}

impl View for UvarintDecoder {
    type V = Seq<u8>;

    /// The bytes taken since the last complete encoding.
    closed spec fn view(&self) -> Seq<u8> {
        self.seen@
    }
}

impl UvarintDecoder {
    #[verifier::type_invariant]
    closed spec fn inv(self) -> bool {
        &&& self.seen@.len() <= 9
        &&& forall|i: int| 0 <= i < self.seen@.len() ==> continues(#[trigger] self.seen@[i])
        &&& self.shift == 7 * self.seen@.len()
        &&& self.value == groups_value(self.seen@)
    }

    /// A decoder that has seen no byte.
    pub fn new() -> (r: UvarintDecoder)
        ensures
            r@ == Seq::<u8>::empty(),
    {
        UvarintDecoder { value: 0, shift: 0, seen: Ghost(Seq::empty()) }
    }

    /// Takes the next byte; once an encoding has ended, the next byte starts another.
    pub fn push(&mut self, b: u8) -> (r: UvarintStep)
        ensures
            match decoded(old(self)@.push(b)) {
                None => r == UvarintStep::More && final(self)@ == old(self)@.push(b),
                Some((Ok(v), n)) => r == UvarintStep::Done(v) && n == old(self)@.len() + 1
                    && final(self)@.len() == 0,
                Some((Err(e), n)) => r == UvarintStep::Invalid(e) && n == old(self)@.len() + 1
                    && final(self)@.len() == 0,
            },
    {
        let ghost seen = self.seen@;
        proof {
            use_type_invariant(&*self);
            lemma_continuation_push(seen, b);
            lemma_groups_push(seen, b);
            assert(seen.push(b).take(seen.len() as int + 1) =~= seen.push(b));
        }
        let value = self.value;
        let shift = self.shift;
        if b >= 0x80 {
            if shift == 63 {
                *self = UvarintDecoder::new();
                return UvarintStep::Invalid(UvarintError::TooLong);
            }
            let group: u64 = (b & 0x7f) as u64;
            proof {
                assert((b & 0x7f) == b % 128) by (bit_vector);
                lemma_join(value, group, shift, seen.len());
            }
            *self = UvarintDecoder {
                value: value | (group << shift),
                shift: shift + 7,
                seen: Ghost(seen.push(b)),
            };
            UvarintStep::More
        } else {
            if shift == 63 && b > 1 {
                *self = UvarintDecoder::new();
                return UvarintStep::Invalid(UvarintError::Overflow);
            }
            proof {
                lemma_join(value, b as u64, shift, seen.len());
            }
            *self = UvarintDecoder::new();
            UvarintStep::Done(value | ((b as u64) << shift))
        }
    }
}

/// Putting a group above the bits already decoded adds its worth.
proof fn lemma_join(value: u64, group: u64, shift: u32, groups: nat)
    requires
        shift == 7 * groups,
        groups <= 9,
        group < 128,
        groups == 9 ==> group <= 1,
        value < pow2(7 * groups),
    ensures
        value | (group << shift) == value + group * pow2(7 * groups),
{
    lemma2_to64();
    lemma2_to64_rest();
    assert(group * pow2(shift as nat) <= u64::MAX) by (nonlinear_arith)
        requires
            group < 128 && pow2(shift as nat) <= 0x100000000000000 || group <= 1 && pow2(
                shift as nat,
            ) <= 0x8000000000000000,
    ;
    vstd::bits::lemma_u64_shl_is_mul(group, shift as u64);
    vstd::bits::lemma_u64_shl_is_mul(1, shift as u64);
    assert(value | (group << (shift as u64)) == value + (group << (shift as u64))) by (bit_vector)
        requires
            value < (1u64 << (shift as u64)),
            shift < 64,
    ;
}

/// `encoded(v)` is a run of bytes that announce another one, then one that does not; its groups
/// make up `v`.
proof fn lemma_encoded_shape(v: nat, rest: Seq<u8>)
    ensures
        encoded(v).len() > 0,
        continuation_len(encoded(v) + rest) == encoded(v).len() - 1,
        groups_value(encoded(v)) == v,
    decreases v,
{
    reveal_with_fuel(groups_value, 2);
    let e = encoded(v);
    if v < 128 {
        assert(e.skip(1) =~= Seq::<u8>::empty());
    } else {
        lemma_encoded_shape(v / 128, rest);
        assert(e.skip(1) =~= encoded(v / 128));
        assert((e + rest).skip(1) =~= encoded(v / 128) + rest);
        assert((e + rest)[0] == e[0]);
    }
}

/// `k` groups are enough for a value below `128^k`.
proof fn lemma_encoded_len(v: nat, k: nat)
    requires
        k >= 1,
        v < pow2(7 * k),
    ensures
        1 <= encoded(v).len() <= k,
        encoded(v).len() == k ==> encoded(v).last() * pow2((7 * (k - 1)) as nat) <= v,
    decreases k,
{
    lemma2_to64();
    if v < 128 {
        if k == 1 {
            assert(pow2(0) == 1);
            assert((v as u8) * 1 == v);
        }
    } else {
        assert(k > 1);
        let j = (k - 1) as nat;
        lemma_pow2_adds(7, 7 * j);
        assert(7 + 7 * j == 7 * k);
        assert(v / 128 < pow2(7 * j));
        lemma_encoded_len(v / 128, j);
        if encoded(v).len() == k {
            let last = encoded(v).last() as int;
            assert(last == encoded(v / 128).last());
            let q = pow2((7 * (j - 1)) as nat) as int;
            lemma_pow2_adds(7, (7 * (j - 1)) as nat);
            assert(7 + 7 * (j - 1) == 7 * j);
            assert(last * (128 * q) == 128 * (last * q)) by (nonlinear_arith);
            assert(128 * (v / 128) <= v);
        }
    }
}

/// Decoding undoes encoding, whatever follows, and takes exactly the encoding.
pub proof fn law_decode_encode(v: u64, rest: Seq<u8>)
    ensures
        decoded(encoded(v as nat) + rest) == Some((Ok::<u64, UvarintError>(v), encoded(v as nat).len())),
        1 <= encoded(v as nat).len() <= 10,
{
    let e = encoded(v as nat);
    lemma2_to64();
    lemma2_to64_rest();
    lemma_pow2_adds(64, 6);
    assert(pow2(70) == pow2(64) * pow2(6));
    lemma_encoded_shape(v as nat, rest);
    lemma_encoded_len(v as nat, 10);
    let n = e.len() - 1;
    assert((e + rest).take(n + 1) =~= e);
    if n == 9 {
        assert(e.last() * pow2(63) <= v);
        assert((e + rest)[9] == e.last());
    }
}

/// An encoding stands on its own: bytes that follow it change neither its value nor its length.
pub proof fn law_decode_prefix(s: Seq<u8>, rest: Seq<u8>)
    requires
        decoded(s) is Some,
    ensures
        decoded(s + rest) == decoded(s),
        1 <= decoded(s).unwrap().1 <= 10,
        decoded(s).unwrap().1 <= s.len(),
{
    lemma_continuation_prefix(s, rest);
    let n = continuation_len(s);
    if n < 9 {
        assert((s + rest).take(n as int + 1) =~= s.take(n as int + 1));
    } else if n == 9 {
        assert((s + rest)[9] == s[9]);
        assert((s + rest).take(10) =~= s.take(10));
    }
}

proof fn lemma_continuation_prefix(s: Seq<u8>, rest: Seq<u8>)
    ensures
        continuation_len(s) <= s.len(),
        continuation_len(s) < s.len() ==> continuation_len(s + rest) == continuation_len(s),
        continuation_len(s) == s.len() ==> continuation_len(s + rest) >= s.len(),
    decreases s.len(),
{
    if s.len() > 0 {
        assert((s + rest)[0] == s[0]);
        assert((s + rest).skip(1) =~= s.skip(1) + rest);
        lemma_continuation_prefix(s.skip(1), rest);
    }
}

/// What the seven low bits of each byte are worth together, the first byte least.
pub open spec fn low_bits_sum(s: Seq<u8>) -> int
    decreases s.len(),
{
    if s.len() == 0 {
        0
    } else {
        low_bits_sum(s.drop_last()) + (s.last() % 128) * pow2((7 * (s.len() - 1)) as nat)
    }
}

proof fn lemma_low_bits_sum(s: Seq<u8>)
    ensures
        groups_value(s) == low_bits_sum(s),
    decreases s.len(),
{
    if s.len() > 0 {
        let front = s.drop_last();
        assert(front.push(s.last()) =~= s);
        lemma_groups_push(front, s.last());
        lemma_low_bits_sum(front);
    }
}

proof fn lemma_run(s: Seq<u8>, rest: Seq<u8>)
    requires
        forall|i: int| 0 <= i < s.len() ==> #[trigger] s[i] >= 0x80,
    ensures
        continuation_len(s + rest) == s.len() + continuation_len(rest),
    decreases s.len(),
{
    if s.len() == 0 {
        assert(s + rest =~= rest);
    } else {
        assert((s + rest)[0] == s[0]);
        assert((s + rest).skip(1) =~= s.skip(1) + rest);
        assert forall|i: int| 0 <= i < s.skip(1).len() implies #[trigger] s.skip(1)[i] >= 0x80 by {
            assert(s.skip(1)[i] == s[i + 1]);
        }
        lemma_run(s.skip(1), rest);
    }
}

/// At most nine bytes with their high bit set, and one without, are an integer: their low bits,
/// seven per byte. It takes just these bytes, padded or not; the tenth byte has room for one bit.
pub proof fn law_decodes(front: Seq<u8>, last: u8, rest: Seq<u8>)
    requires
        front.len() <= 9,
        forall|i: int| 0 <= i < front.len() ==> #[trigger] front[i] >= 0x80,
        last < 0x80,
        front.len() == 9 ==> last <= 1,
    ensures
        0 <= low_bits_sum(front.push(last)) <= u64::MAX,
        decoded(front.push(last) + rest) == Some(
            (
                Ok::<u64, UvarintError>(low_bits_sum(front.push(last)) as u64),
                (front.len() + 1) as nat,
            ),
        ),
{
    let s = front.push(last) + rest;
    assert(s =~= front + (seq![last] + rest));
    lemma_run(front, seq![last] + rest);
    assert((seq![last] + rest)[0] == last);
    assert(s.take(front.len() as int + 1) =~= front.push(last));
    assert(s[front.len() as int] == last);
    lemma_low_bits_sum(front.push(last));
    lemma_groups_push(front, last);
    lemma2_to64();
    lemma2_to64_rest();
    let k = 7 * front.len();
    let p = pow2(k) as int;
    assert((last as int) * p + p <= 0x1_0000_0000_0000_0000) by (nonlinear_arith)
        requires
            last < 128 && 0 <= p <= 0x100000000000000 || last <= 1 && 0 <= p <= 0x8000000000000000,
    ;
    assert(last % 128 == last);
}

/// Bytes that are no integer: a tenth byte with more than the one bit that is left, or with its
/// high bit set; and bytes that end while each still has its high bit set.
pub proof fn law_refuses_to_decode(front: Seq<u8>, tenth: u8, rest: Seq<u8>)
    requires
        forall|i: int| 0 <= i < front.len() ==> #[trigger] front[i] >= 0x80,
    ensures
        front.len() == 9 && 1 < tenth < 0x80 ==> decoded(front.push(tenth) + rest) == Some(
            (Err::<u64, UvarintError>(UvarintError::Overflow), 10nat),
        ),
        front.len() == 9 && tenth >= 0x80 ==> decoded(front.push(tenth) + rest) == Some(
            (Err::<u64, UvarintError>(UvarintError::TooLong), 10nat),
        ),
        front.len() <= 9 ==> decoded(front) is None,
{
    let tail = seq![tenth] + rest;
    let s = front.push(tenth) + rest;
    assert(s =~= front + tail);
    lemma_run(front, tail);
    assert(tail[0] == tenth);
    lemma_run(front, Seq::empty());
    assert(front + Seq::<u8>::empty() =~= front);
    if front.len() == 9 {
        assert(s[9] == tenth);
    }
}

/// The shortest encoding sets the high bit of every byte but the last, and has no group of zeros
/// at its end.
pub proof fn law_encodes(v: nat)
    ensures
        encoded(v).len() > 0,
        encoded(v).last() < 0x80,
        encoded(v).last() == 0 ==> v == 0,
        forall|i: int| 0 <= i < encoded(v).len() - 1 ==> #[trigger] encoded(v)[i] >= 0x80,
        low_bits_sum(encoded(v)) == v,
    decreases v,
{
    lemma_encoded_shape(v, Seq::empty());
    lemma_low_bits_sum(encoded(v));
    if v >= 128 {
        let tail = encoded(v / 128);
        law_encodes(v / 128);
        assert(encoded(v).last() == tail.last());
        assert forall|i: int| 0 <= i < encoded(v).len() - 1 implies #[trigger] encoded(v)[i] >= 0x80 by {
            if i > 0 {
                assert(encoded(v)[i] == tail[i - 1]);
            }
        }
    }
}

} // verus!

//! Base-128 variable-length integers, the building block of the wire format.
//!
//! An integer is written low group first, seven bits to a byte; every byte
//! but the last has its top bit set.

use vstd::prelude::*;

verus! {

/// The longest encoding that a reader accepts: enough for 64 bits.
pub const MAX_VARINT_LEN: usize = 10;

/// The encoding of `n`.
pub open spec fn spec_varint(n: nat) -> Seq<u8>
    decreases n,
{
    if n < 128 {
        seq![n as u8]
    } else {
        seq![(n % 128 + 128) as u8] + spec_varint(n / 128)
    }
}

/// Reads one encoded integer from the head of `bytes`, looking at no more than
/// `limit` bytes: its value and the number of bytes it takes. `None` where
/// the bytes or the limit end before a byte without the top bit.
pub open spec fn spec_read_varint_within(bytes: Seq<u8>, limit: nat) -> Option<(nat, nat)>
    decreases limit,
{
    if limit == 0 || bytes.len() == 0 {
        None
    } else if bytes[0] < 128 {
        Some((bytes[0] as nat, 1))
    } else {
        match spec_read_varint_within(bytes.drop_first(), (limit - 1) as nat) {
            Some((value, len)) => Some(((bytes[0] - 128) as nat + 128 * value, len + 1)),
            None => None,
        }
    }
}

/// Reads one encoded integer from the head of `bytes`. It must end within
/// `MAX_VARINT_LEN` bytes and fit in 64 bits; encodings with needless zero
/// groups are accepted.
pub open spec fn spec_read_varint(bytes: Seq<u8>) -> Option<(u64, nat)> {
    match spec_read_varint_within(bytes, MAX_VARINT_LEN as nat) {
        Some((value, len)) => if value <= u64::MAX {
            Some((value as u64, len))
        } else {
            None
        },
        None => None,
    }
}

/// 128 to the power `k`.
spec fn spec_pow128(k: nat) -> nat
    decreases k,
{
    if k == 0 {
        1
    } else {
        128 * spec_pow128((k - 1) as nat)
    }
}

/// Appends the encoding of `value` to `out`.
pub fn write_varint(value: u64, out: &mut Vec<u8>)
    ensures
        final(out)@ == old(out)@ + spec_varint(value as nat),
{
    let ghost before = out@;
    let mut rest: u64 = value;
    while rest >= 128
        invariant
            out@ + spec_varint(rest as nat) == before + spec_varint(value as nat),
        decreases rest,
    {
        let ghost written = out@;
        out.push((rest % 128 + 128) as u8);
        assert(out@ + spec_varint((rest / 128) as nat) == written + spec_varint(rest as nat)) by {
            assert(spec_varint(rest as nat) == seq![(rest % 128 + 128) as u8] + spec_varint(
                (rest / 128) as nat,
            ));
        }
        rest = rest / 128;
    }
    out.push(rest as u8);
}

/// A run of bytes that all have the top bit set holds no complete integer,
/// if the run reaches the end of the bytes or the limit.
pub proof fn lemma_unfinished_varint(bytes: Seq<u8>, limit: nat, run: nat)
    requires
        run <= bytes.len(),
        forall|j: int| 0 <= j < run ==> bytes[j] >= 128,
        run == bytes.len() || run >= limit,
    ensures
        spec_read_varint_within(bytes, limit) is None,
    decreases limit,
{
    if limit > 0 && bytes.len() > 0 {
        lemma_unfinished_varint(bytes.drop_first(), (limit - 1) as nat, (run - 1) as nat);
    }
}

/// An integer that is read takes at least one byte, and no more than the
/// limit and the bytes allow.
pub proof fn lemma_read_varint_bounds(bytes: Seq<u8>, limit: nat)
    ensures
        spec_read_varint_within(bytes, limit) matches Some((_, len)) ==> 1 <= len <= limit && len
            <= bytes.len(),
    decreases limit,
{
    if limit > 0 && bytes.len() > 0 && bytes[0] >= 128 {
        lemma_read_varint_bounds(bytes.drop_first(), (limit - 1) as nat);
    }
}

/// Reads one encoded integer from the head of `bytes`: its value and the
/// number of bytes it takes.
pub fn read_varint(bytes: &[u8]) -> (r: Option<(u64, usize)>)
    ensures
        match r {
            Some((value, len)) => spec_read_varint(bytes@) == Some((value, len as nat)) && 1 <= len
                <= bytes@.len() && len <= MAX_VARINT_LEN,
            None => spec_read_varint(bytes@) is None,
        },
{
    let n = bytes.len();
    let mut last: usize = 0;
    while last < n && last < MAX_VARINT_LEN && bytes[last] >= 128
        invariant
            n == bytes@.len(),
            last <= n,
            last <= MAX_VARINT_LEN,
            forall|j: int| 0 <= j < last ==> bytes@[j] >= 128,
        decreases n - last,
    {
        last = last + 1;
    }
    if last >= n || last >= MAX_VARINT_LEN {
        proof {
            lemma_unfinished_varint(bytes@, MAX_VARINT_LEN as nat, last as nat);
        }
        return None;
    }
    let mut value: u128 = bytes[last] as u128;
    let mut i: usize = last;
    proof {
        reveal_with_fuel(spec_pow128, 2);
    }
    while i > 0
        invariant
            i <= last < n,
            last < MAX_VARINT_LEN,
            n == bytes@.len(),
            forall|j: int| 0 <= j < last ==> bytes@[j] >= 128,
            spec_read_varint_within(bytes@.skip(i as int), (MAX_VARINT_LEN - i) as nat) == Some(
                (value as nat, (last + 1 - i) as nat),
            ),
            value < spec_pow128((last + 1 - i) as nat),
        decreases i,
    {
        proof {
            lemma_pow128_monotonic((last + 1 - i) as nat, MAX_VARINT_LEN as nat);
            lemma_pow128_of_max_len();
        }
        i = i - 1;
        value = value * 128 + (bytes[i] - 128) as u128;
        proof {
            assert(bytes@.skip(i as int).drop_first() == bytes@.skip(i + 1));
        }
    }
    proof {
        assert(bytes@.skip(0) == bytes@);
    }
    if value > u64::MAX as u128 {
        None
    } else {
        Some((value as u64, last + 1))
    }
}

/// Powers of 128 grow with the exponent.
proof fn lemma_pow128_monotonic(i: nat, j: nat)
    requires
        i <= j,
    ensures
        spec_pow128(i) <= spec_pow128(j),
        spec_pow128(i) >= 1,
    decreases j,
{
    if j == 0 {
    } else if i == j {
        lemma_pow128_monotonic((i - 1) as nat, (j - 1) as nat);
    } else {
        lemma_pow128_monotonic(i, (j - 1) as nat);
    }
}

/// 128 to the power of the longest encoding is 2 to the power 70.
proof fn lemma_pow128_of_max_len()
    ensures
        spec_pow128(MAX_VARINT_LEN as nat) == 0x400000000000000000,
{
    reveal_with_fuel(spec_pow128, 11);
}

/// The shape of an encoding: it is never empty, its last byte has the top
/// bit clear and every byte before it has the top bit set.
pub proof fn lemma_varint_shape(n: nat)
    ensures
        spec_varint(n).len() >= 1,
        spec_varint(n).last() < 128,
        forall|j: int| 0 <= j < spec_varint(n).len() - 1 ==> spec_varint(n)[j] >= 128,
    decreases n,
{
    if n >= 128 {
        lemma_varint_shape(n / 128);
        let all = seq![(n % 128 + 128) as u8] + spec_varint(n / 128);
        assert forall|j: int| 0 <= j < all.len() - 1 implies all[j] >= 128 by {
            if j > 0 {
                assert(all[j] == spec_varint(n / 128)[j - 1]);
            }
        }
    }
}

/// An integer below 128 to the power `k` is written in at most `k` bytes.
proof fn lemma_varint_len(n: nat, k: nat)
    requires
        k >= 1,
        n < spec_pow128(k),
    ensures
        spec_varint(n).len() <= k,
    decreases k,
{
    if n >= 128 {
        reveal_with_fuel(spec_pow128, 2);
        lemma_varint_len(n / 128, (k - 1) as nat);
    }
}

/// Reading what was written gives the integer back, whatever follows it,
/// where the limit allows for its length.
pub proof fn lemma_read_written_varint(n: nat, tail: Seq<u8>, limit: nat)
    requires
        spec_varint(n).len() <= limit,
    ensures
        spec_read_varint_within(spec_varint(n) + tail, limit) == Some((n, spec_varint(n).len())),
    decreases n,
{
    if n >= 128 {
        assert((spec_varint(n) + tail).drop_first() == spec_varint(n / 128) + tail);
        lemma_read_written_varint(n / 128, tail, (limit - 1) as nat);
    }
}

/// Reading the encoding of a 64-bit integer gives the integer and the
/// length of the encoding, whatever bytes follow it.
pub proof fn lemma_varint_round_trip(value: u64, tail: Seq<u8>)
    ensures
        spec_read_varint(spec_varint(value as nat) + tail) == Some(
            (value, spec_varint(value as nat).len()),
        ),
        1 <= spec_varint(value as nat).len() <= MAX_VARINT_LEN,
{
    lemma_pow128_of_max_len();
    lemma_varint_len(value as nat, MAX_VARINT_LEN as nat);
    lemma_varint_shape(value as nat);
    lemma_read_written_varint(value as nat, tail, MAX_VARINT_LEN as nat);
}

/// An encoding that is cut short cannot be read.
pub proof fn lemma_truncated_varint(n: nat, keep: int, limit: nat)
    requires
        0 <= keep < spec_varint(n).len(),
    ensures
        spec_read_varint_within(spec_varint(n).take(keep), limit) is None,
{
    lemma_varint_shape(n);
    lemma_unfinished_varint(spec_varint(n).take(keep), limit, keep as nat);
}

/// What is read from the head of some bytes is read from them whatever
/// follows.
pub proof fn lemma_read_varint_ignores_tail(bytes: Seq<u8>, tail: Seq<u8>, limit: nat)
    requires
        spec_read_varint_within(bytes, limit) is Some,
    ensures
        spec_read_varint_within(bytes + tail, limit) == spec_read_varint_within(bytes, limit),
    decreases limit,
{
    let all = bytes + tail;
    if bytes[0] >= 128 {
        assert(all.drop_first() == bytes.drop_first() + tail);
        lemma_read_varint_ignores_tail(bytes.drop_first(), tail, (limit - 1) as nat);
    }
}

} // verus!

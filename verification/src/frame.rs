//! Frames: a record travels as its length, then its bytes, so that the
//! other side knows where it ends.

use vstd::prelude::*;

verus! {

/// How many bytes the length of a record takes.
pub const PREFIX: usize = 8;

/// The power of 256 with the exponent `width`.
pub open spec fn pow256(width: nat) -> nat
    decreases width,
{
    if width == 0 {
        1
    } else {
        256 * pow256((width - 1) as nat)
    }
}

/// The number `n` in `width` bytes, the most significant first.
pub open spec fn be_bytes(n: nat, width: nat) -> Seq<u8>
    decreases width,
{
    if width == 0 {
        Seq::empty()
    } else {
        be_bytes(n / 256, (width - 1) as nat).push((n % 256) as u8)
    }
}

/// The number that `bytes` write, the most significant first.
pub open spec fn be_value(bytes: Seq<u8>) -> nat
    decreases bytes.len(),
{
    if bytes.len() == 0 {
        0
    } else {
        be_value(bytes.drop_last()) * 256 + bytes.last() as nat
    }
}

/// A record in a frame: its length in eight bytes, then its bytes.
pub open spec fn framed(payload: Seq<u8>) -> Seq<u8> {
    be_bytes(payload.len(), PREFIX as nat) + payload
}

/// A number written in bytes is read back from them, where it fits.
pub proof fn lemma_be_round_trip(n: nat, width: nat)
    requires
        n < pow256(width),
    ensures
        be_bytes(n, width).len() == width,
        be_value(be_bytes(n, width)) == n,
    decreases width,
{
    if width > 0 {
        let rest = n / 256;
        assert(rest < pow256((width - 1) as nat)) by {
            assert(pow256(width) == 256 * pow256((width - 1) as nat));
        }
        lemma_be_round_trip(rest, (width - 1) as nat);
        let bytes = be_bytes(n, width);
        assert(bytes.drop_last() == be_bytes(rest, (width - 1) as nat));
        assert(bytes.last() == (n % 256) as u8);
    }
}

/// The number that bytes write is below the power of their count.
pub proof fn lemma_be_value_bound(bytes: Seq<u8>)
    ensures
        be_value(bytes) < pow256(bytes.len()),
    decreases bytes.len(),
{
    if bytes.len() > 0 {
        lemma_be_value_bound(bytes.drop_last());
        let front = be_value(bytes.drop_last());
        let bound = pow256((bytes.len() - 1) as nat);
        assert(front * 256 + 255 < 256 * bound) by (nonlinear_arith)
            requires
                front < bound,
        ;
    }
}

/// Eight bytes write the numbers below two to the power of 64.
pub proof fn lemma_pow256_eight()
    ensures
        pow256(8) == 0x1_0000_0000_0000_0000,
{
    reveal_with_fuel(pow256, 9);
}

/// Puts `payload` in a frame.
pub fn frame(payload: &Vec<u8>) -> (bytes: Vec<u8>)
    ensures
        bytes@ == framed(payload@),
{
    let mut digits: Vec<u8> = Vec::new();
    let mut rest: u64 = payload.len() as u64;
    let ghost whole = payload@.len();
    let mut i: usize = 0;
    // The bytes are found from the least significant up.
    while i < PREFIX
        invariant
            i <= PREFIX,
            digits@.len() == i,
            forall|w: nat|
                w >= i ==> #[trigger] be_bytes(whole, w) == be_bytes(rest as nat, (w - i) as nat)
                    + digits@.reverse(),
        decreases PREFIX - i,
    {
        let ghost before = digits@;
        let ghost old_rest = rest as nat;
        digits.push((rest % 256) as u8);
        rest = rest / 256;
        proof {
            assert forall|w: nat| w >= i + 1 implies #[trigger] be_bytes(whole, w) == be_bytes(
                rest as nat,
                (w - (i + 1)) as nat,
            ) + digits@.reverse() by {
                assert(be_bytes(whole, w) == be_bytes(old_rest, (w - i) as nat) + before.reverse());
                assert(be_bytes(old_rest, (w - i) as nat) == be_bytes(
                    rest as nat,
                    (w - i - 1) as nat,
                ).push((old_rest % 256) as u8));
                assert(digits@.reverse() =~= seq![(old_rest % 256) as u8] + before.reverse());
                assert(be_bytes(rest as nat, (w - i - 1) as nat).push((old_rest % 256) as u8)
                    + before.reverse() =~= be_bytes(rest as nat, (w - i - 1) as nat) + (
                seq![(old_rest % 256) as u8] + before.reverse()));
            }
        }
        i += 1;
    }
    let mut bytes: Vec<u8> = Vec::new();
    let mut k: usize = PREFIX;
    while k > 0
        invariant
            k <= PREFIX,
            digits@.len() == PREFIX,
            bytes@ == digits@.reverse().take(PREFIX - k),
        decreases k,
    {
        k -= 1;
        bytes.push(digits[k]);
        assert(bytes@ =~= digits@.reverse().take(PREFIX - k));
    }
    proof {
        assert(digits@.reverse().take(8) == digits@.reverse());
        assert(be_bytes(whole, 8) == be_bytes(rest as nat, 0) + digits@.reverse());
        assert(bytes@ =~= be_bytes(whole, 8));
    }
    let mut j: usize = 0;
    while j < payload.len()
        invariant
            j <= payload@.len(),
            bytes@ == be_bytes(whole, 8) + payload@.take(j as int),
        decreases payload@.len() - j,
    {
        bytes.push(payload[j]);
        assert(bytes@ =~= be_bytes(whole, 8) + payload@.take(j + 1));
        j += 1;
    }
    assert(payload@.take(j as int) == payload@);
    bytes
}

/// Whether `buffer` starts with a whole frame.
pub open spec fn has_frame(buffer: Seq<u8>) -> bool {
    buffer.len() >= PREFIX && buffer.len() >= PREFIX + be_value(buffer.take(PREFIX as int))
}

/// The record in the frame with which `buffer` starts; meaningful where
/// it starts with one.
pub open spec fn first_record(buffer: Seq<u8>) -> Seq<u8> {
    buffer.subrange(PREFIX as int, PREFIX + be_value(buffer.take(PREFIX as int)))
}

/// Takes the first frame off `buffer`: returns its record and how many
/// bytes the frame took, or nothing where the frame has not arrived
/// whole.
pub fn unframe(buffer: &Vec<u8>) -> (taken: Option<(Vec<u8>, usize)>)
    ensures
        taken is Some == has_frame(buffer@),
        taken matches Some((record, used)) ==> record@ == first_record(buffer@) && used == PREFIX
            + record@.len(),
{
    if buffer.len() < PREFIX {
        return None;
    }
    let ghost prefix = buffer@.take(PREFIX as int);
    let mut length: u64 = 0;
    let mut i: usize = 0;
    proof {
        assert(prefix.take(0) == Seq::<u8>::empty());
        lemma_pow256_eight();
    }
    while i < PREFIX
        invariant
            i <= PREFIX,
            buffer@.len() >= PREFIX,
            prefix == buffer@.take(PREFIX as int),
            length == be_value(prefix.take(i as int)),
            pow256(8) == 0x1_0000_0000_0000_0000,
        decreases PREFIX - i,
    {
        proof {
            lemma_be_value_bound(prefix.take(i as int));
            lemma_be_value_bound(prefix.take(i + 1));
            assert(prefix.take(i + 1).drop_last() == prefix.take(i as int));
            assert(prefix.take(i + 1).last() == buffer@[i as int]);
            lemma_pow_grows((i + 1) as nat, 8);
        }
        length = length * 256 + buffer[i] as u64;
        i += 1;
    }
    assert(prefix.take(i as int) == prefix);
    let room = (buffer.len() - PREFIX) as u64;
    if length > room {
        return None;
    }
    let end = PREFIX + length as usize;
    let mut record: Vec<u8> = Vec::new();
    let mut j: usize = PREFIX;
    while j < end
        invariant
            PREFIX <= j <= end <= buffer@.len(),
            record@ == buffer@.subrange(PREFIX as int, j as int),
        decreases end - j,
    {
        record.push(buffer[j]);
        assert(record@ =~= buffer@.subrange(PREFIX as int, j + 1));
        j += 1;
    }
    Some((record, end))
}

/// The powers of 256 grow with the exponent.
pub proof fn lemma_pow_grows(a: nat, b: nat)
    requires
        a <= b,
    ensures
        pow256(a) <= pow256(b),
        pow256(a) > 0,
    decreases b,
{
    if a < b {
        lemma_pow_grows(a, (b - 1) as nat);
    } else if a > 0 {
        lemma_pow_grows((a - 1) as nat, (a - 1) as nat);
    }
}

/// A record that was put in a frame is the one that is taken out of it,
/// whatever follows the frame.
pub proof fn frame_round_trip(payload: Seq<u8>, rest: Seq<u8>)
    requires
        payload.len() < 0x1_0000_0000_0000_0000,
    ensures
        has_frame(framed(payload) + rest),
        first_record(framed(payload) + rest) == payload,
{
    lemma_pow256_eight();
    lemma_be_round_trip(payload.len(), 8);
    let buffer = framed(payload) + rest;
    assert(buffer.take(PREFIX as int) =~= be_bytes(payload.len(), 8));
    assert(first_record(buffer) =~= payload);
}

} // verus!

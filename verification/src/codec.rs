//! Fixed-width integer encodings for the values that leave and re-enter the survey.
//!
//! A tally is a sequence of 128-bit unsigned integers. On the wire each takes
//! sixteen bytes, most significant byte first, and the blocks follow one another
//! with nothing in between: the number of entries is the byte length over sixteen.

use vstd::prelude::*;

verus! {

/// Bytes taken by one tally entry.
pub const ENTRY_WIDTH: usize = 16;

/// `256` to the power `n`.
pub open spec fn pow256(n: nat) -> nat
    decreases n,
{
    if n == 0 {
        1
    } else {
        256 * pow256((n - 1) as nat)
    }
}

/// The number that `bytes` denotes when its first byte is the most significant.
pub open spec fn be_value(bytes: Seq<u8>) -> nat
    decreases bytes.len(),
{
    if bytes.len() == 0 {
        0
    } else {
        be_value(bytes.drop_last()) * 256 + bytes.last() as nat
    }
}

/// The `width` low-order base-256 digits of `x`, most significant first.
pub open spec fn be_bytes(x: nat, width: nat) -> Seq<u8>
    decreases width,
{
    if width == 0 {
        Seq::empty()
    } else {
        be_bytes(x / 256, (width - 1) as nat).push((x % 256) as u8)
    }
}

/// `be_bytes` yields exactly `width` bytes.
pub proof fn lemma_be_bytes_len(x: nat, width: nat)
    ensures
        be_bytes(x, width).len() == width,
    decreases width,
{
    if width > 0 {
        lemma_be_bytes_len(x / 256, (width - 1) as nat);
    }
}

/// A byte string of length `n` denotes a number below `256^n`.
pub proof fn lemma_be_value_bound(bytes: Seq<u8>)
    ensures
        be_value(bytes) < pow256(bytes.len()),
    decreases bytes.len(),
{
    if bytes.len() > 0 {
        lemma_be_value_bound(bytes.drop_last());
    }
}

/// Reading back the digits of a number that fits in `width` bytes gives the number.
pub proof fn lemma_be_value_of_be_bytes(x: nat, width: nat)
    requires
        x < pow256(width),
    ensures
        be_value(be_bytes(x, width)) == x,
    decreases width,
{
    if width > 0 {
        let rest = be_bytes(x / 256, (width - 1) as nat);
        lemma_be_value_of_be_bytes(x / 256, (width - 1) as nat);
        assert(be_bytes(x, width).drop_last() =~= rest);
    }
}

/// Writing out the number that a byte string denotes gives the byte string.
pub proof fn lemma_be_bytes_of_be_value(bytes: Seq<u8>)
    ensures
        be_bytes(be_value(bytes), bytes.len()) == bytes,
    decreases bytes.len(),
{
    if bytes.len() > 0 {
        let front = bytes.drop_last();
        lemma_be_bytes_of_be_value(front);
        let v = be_value(bytes);
        assert(v / 256 == be_value(front));
        assert(v % 256 == bytes.last() as nat);
        assert(be_bytes(v, bytes.len()) =~= bytes);
    } else {
        assert(be_bytes(be_value(bytes), bytes.len()) =~= bytes);
    }
}

/// Sixteen bytes hold exactly the 128-bit unsigned integers.
pub proof fn lemma_pow256_entry_width()
    ensures
        pow256(16) == u128::MAX + 1,
{
    reveal_with_fuel(pow256, 17);
}

/// `pow256` does not decrease.
pub proof fn lemma_pow256_monotone(m: nat, n: nat)
    requires
        m <= n,
    ensures
        pow256(m) <= pow256(n),
        pow256(m) >= 1,
    decreases n,
{
    if m < n {
        lemma_pow256_monotone(m, (n - 1) as nat);
    } else if n > 0 {
        lemma_pow256_monotone((m - 1) as nat, (n - 1) as nat);
    }
}

/// The byte at position `i` of `be_bytes(x, width)` is the base-256 digit of `x`
/// of weight `256^(width - 1 - i)`.
pub proof fn lemma_be_bytes_digit(x: nat, width: nat, i: int)
    requires
        0 <= i < width,
    ensures
        be_bytes(x, width).len() == width,
        be_bytes(x, width)[i] as nat == (x / pow256((width - 1 - i) as nat)) % 256,
    decreases width,
{
    lemma_be_bytes_len(x, width);
    lemma_be_bytes_len(x / 256, (width - 1) as nat);
    let rest = be_bytes(x / 256, (width - 1) as nat);
    assert(be_bytes(x, width) == rest.push((x % 256) as u8));
    if i < width - 1 {
        let p = pow256((width - 2 - i) as nat);
        lemma_be_bytes_digit(x / 256, (width - 1) as nat, i);
        lemma_pow256_monotone(0, (width - 2 - i) as nat);
        assert(pow256((width - 1 - i) as nat) == 256 * p);
        vstd::arithmetic::div_mod::lemma_div_denominator(x as int, 256, p as int);
        assert((x / 256) / p == x / (256 * p));
        assert(be_bytes(x, width)[i] == rest[i]);
    } else {
        assert(pow256(0) == 1);
        assert(x / 1 == x);
        assert(be_bytes(x, width)[i] == (x % 256) as u8);
    }
}

/// The concatenation of the sixteen-byte big-endian forms of `values`, in order.
pub open spec fn encode_spec(values: Seq<u128>) -> Seq<u8>
    decreases values.len(),
{
    if values.len() == 0 {
        Seq::empty()
    } else {
        encode_spec(values.drop_last()) + be_bytes(values.last() as nat, 16)
    }
}

/// The tally that `bytes` encodes: one entry for each block of sixteen bytes.
/// A byte string that does not divide into whole blocks encodes nothing.
pub open spec fn decode_spec(bytes: Seq<u8>) -> Option<Seq<u128>> {
    if bytes.len() % 16 == 0 {
        Some(
            Seq::new(
                bytes.len() / 16,
                |k: int| be_value(bytes.subrange(16 * k, 16 * k + 16)) as u128,
            ),
        )
    } else {
        None
    }
}

/// An encoding has sixteen bytes for each entry, and its `k`-th block is the
/// big-endian form of the `k`-th entry.
pub proof fn lemma_encode_blocks(values: Seq<u128>)
    ensures
        encode_spec(values).len() == 16 * values.len(),
        forall|k: int|
            0 <= k < values.len() ==> #[trigger] encode_spec(values).subrange(16 * k, 16 * k + 16)
                == be_bytes(values[k] as nat, 16),
    decreases values.len(),
{
    if values.len() > 0 {
        let front = values.drop_last();
        let tail = be_bytes(values.last() as nat, 16);
        lemma_encode_blocks(front);
        lemma_be_bytes_len(values.last() as nat, 16);
        let whole = encode_spec(values);
        assert forall|k: int| 0 <= k < values.len() implies #[trigger] whole.subrange(
            16 * k,
            16 * k + 16,
        ) == be_bytes(values[k] as nat, 16) by {
            if k < front.len() {
                assert(whole.subrange(16 * k, 16 * k + 16) =~= encode_spec(front).subrange(
                    16 * k,
                    16 * k + 16,
                ));
                assert(front[k] == values[k]);
            } else {
                assert(whole.subrange(16 * k, 16 * k + 16) =~= tail);
            }
        }
    }
}

/// Decoding an encoded tally gives the tally back.
pub proof fn lemma_decode_encode(values: Seq<u128>)
    ensures
        decode_spec(encode_spec(values)) == Some(values),
{
    let bytes = encode_spec(values);
    lemma_encode_blocks(values);
    lemma_pow256_entry_width();
    assert forall|k: int| 0 <= k < values.len() implies be_value(
        #[trigger] bytes.subrange(16 * k, 16 * k + 16),
    ) == values[k] by {
        lemma_be_value_of_be_bytes(values[k] as nat, 16);
    }
    assert(decode_spec(bytes).unwrap() =~= values);
}

/// A byte string that decodes is the encoding of what it decodes to: no two
/// byte strings decode to one tally.
pub proof fn lemma_encode_decode(bytes: Seq<u8>)
    requires
        decode_spec(bytes) is Some,
    ensures
        encode_spec(decode_spec(bytes).unwrap()) == bytes,
{
    let values = decode_spec(bytes).unwrap();
    let again = encode_spec(values);
    lemma_encode_blocks(values);
    lemma_pow256_entry_width();
    assert(again.len() == bytes.len());
    assert forall|j: int| 0 <= j < bytes.len() implies again[j] == bytes[j] by {
        let k = j / 16;
        let block = bytes.subrange(16 * k, 16 * k + 16);
        lemma_be_value_bound(block);
        lemma_be_bytes_of_be_value(block);
        assert(values[k] as nat == be_value(block));
        assert(again.subrange(16 * k, 16 * k + 16) == block);
        assert(again.subrange(16 * k, 16 * k + 16)[j - 16 * k] == again[j]);
        assert(block[j - 16 * k] == bytes[j]);
    }
    assert(again =~= bytes);
}

/// The number that `bytes` denotes when its first byte is the least significant.
pub open spec fn le_value(bytes: Seq<u8>) -> nat
    decreases bytes.len(),
{
    if bytes.len() == 0 {
        0
    } else {
        bytes.first() as nat + 256 * le_value(bytes.drop_first())
    }
}

/// A byte string of length `n` denotes, least significant byte first, a number
/// below `256^n`.
pub proof fn lemma_le_value_bound(bytes: Seq<u8>)
    ensures
        le_value(bytes) < pow256(bytes.len()),
    decreases bytes.len(),
{
    if bytes.len() > 0 {
        lemma_le_value_bound(bytes.drop_first());
    }
}

/// Appends the sixteen-byte big-endian form of `x` to `out`.
pub fn push_big_endian(out: &mut Vec<u8>, x: u128)
    ensures
        final(out)@ == old(out)@ + be_bytes(x as nat, 16),
{
    let mut weight: u128 = 0x0100_0000_0000_0000_0000_0000_0000_0000u128;
    let mut i: usize = 0;
    proof {
        reveal_with_fuel(pow256, 16);
        lemma_be_bytes_len(x as nat, 16);
    }
    while i < 16
        invariant
            i <= 16,
            i < 16 ==> weight == pow256((15 - i) as nat),
            be_bytes(x as nat, 16).len() == 16,
            out@ == old(out)@ + be_bytes(x as nat, 16).subrange(0, i as int),
        decreases 16 - i,
    {
        proof {
            lemma_be_bytes_digit(x as nat, 16, i as int);
            lemma_pow256_monotone(0, (15 - i) as nat);
        }
        let digit: u8 = ((x / weight) % 256) as u8;
        out.push(digit);
        assert(out@ =~= old(out)@ + be_bytes(x as nat, 16).subrange(0, i + 1));
        weight = weight / 256;
        i = i + 1;
    }
    assert(be_bytes(x as nat, 16).subrange(0, 16) =~= be_bytes(x as nat, 16));
}

/// Reads the sixteen bytes of `bytes` from `start` on as one big-endian integer.
fn read_big_endian(bytes: &Vec<u8>, start: usize) -> (x: u128)
    requires
        start + 16 <= bytes.len(),
    ensures
        x == be_value(bytes@.subrange(start as int, start + 16)),
{
    let mut x: u128 = 0;
    let mut i: usize = 0;
    while i < 16
        invariant
            i <= 16,
            start + 16 <= bytes.len(),
            x == be_value(bytes@.subrange(start as int, start + i)),
        decreases 16 - i,
    {
        let ghost seen = bytes@.subrange(start as int, start + i);
        let ghost next = bytes@.subrange(start as int, start + i + 1);
        proof {
            lemma_be_value_bound(seen);
            lemma_pow256_monotone((i + 1) as nat, 16);
            lemma_pow256_entry_width();
            assert(next.drop_last() =~= seen);
        }
        x = x * 256 + bytes[start + i] as u128;
        i = i + 1;
    }
    x
}

/// Encodes a tally for the wire.
pub fn serialize_as_big_endian(values: &Vec<u128>) -> (out: Vec<u8>)
    ensures
        out@ == encode_spec(values@),
{
    let mut out: Vec<u8> = Vec::new();
    let mut i: usize = 0;
    while i < values.len()
        invariant
            i <= values.len(),
            out@ == encode_spec(values@.subrange(0, i as int)),
        decreases values.len() - i,
    {
        assert(values@.subrange(0, i + 1).drop_last() =~= values@.subrange(0, i as int));
        push_big_endian(&mut out, values[i]);
        i = i + 1;
    }
    assert(values@.subrange(0, i as int) =~= values@);
    out
}

/// Decodes a tally from the wire, or finds that `bytes` holds no whole number
/// of entries.
pub fn deserialize_big_endian(bytes: &Vec<u8>) -> (out: Option<Vec<u128>>)
    ensures
        match out {
            Some(values) => decode_spec(bytes@) == Some(values@),
            None => decode_spec(bytes@) is None,
        },
{
    if bytes.len() % ENTRY_WIDTH != 0 {
        return None;
    }
    let count: usize = bytes.len() / ENTRY_WIDTH;
    let mut values: Vec<u128> = Vec::new();
    let mut k: usize = 0;
    while k < count
        invariant
            k <= count,
            count == bytes.len() / 16,
            bytes.len() % 16 == 0,
            values@.len() == k,
            forall|j: int|
                0 <= j < k ==> values@[j] == be_value(
                    #[trigger] bytes@.subrange(16 * j, 16 * j + 16),
                ) as u128,
        decreases count - k,
    {
        let entry: u128 = read_big_endian(bytes, ENTRY_WIDTH * k);
        values.push(entry);
        k = k + 1;
    }
    assert(decode_spec(bytes@).unwrap() =~= values@);
    Some(values)
}

/// Reads sixteen bytes, least significant first, as one integer; `None` where
/// `bytes` is not sixteen bytes long.
pub fn read_little_endian(bytes: &Vec<u8>) -> (out: Option<u128>)
    ensures
        out is Some <==> bytes@.len() == 16,
        out matches Some(x) ==> x == le_value(bytes@),
{
    if bytes.len() != ENTRY_WIDTH {
        return None;
    }
    let mut x: u128 = 0;
    let mut i: usize = ENTRY_WIDTH;
    while i > 0
        invariant
            i <= 16,
            bytes.len() == 16,
            x == le_value(bytes@.subrange(i as int, 16)),
        decreases i,
    {
        let ghost seen = bytes@.subrange(i as int, 16);
        let ghost next = bytes@.subrange(i - 1, 16);
        proof {
            lemma_le_value_bound(seen);
            lemma_pow256_monotone((17 - i) as nat, 16);
            lemma_pow256_entry_width();
            assert(next.drop_first() =~= seen);
        }
        i = i - 1;
        x = x * 256 + bytes[i] as u128;
    }
    assert(bytes@.subrange(0, 16) =~= bytes@);
    Some(x)
}

} // verus!

//! Little-endian integers in byte sequences.

use vstd::prelude::*;

verus! {

/// The number that a sequence of bytes denotes, least significant byte first.
pub open spec fn le_value(bytes: Seq<u8>) -> nat
    decreases bytes.len(),
{
    if bytes.len() == 0 {
        0
    } else {
        bytes[0] as nat + 256 * le_value(bytes.drop_first())
    }
}

/// The `n` lowest bytes of `value`, least significant byte first.
pub open spec fn le_bytes(value: nat, n: nat) -> Seq<u8>
    decreases n,
{
    if n == 0 {
        Seq::empty()
    } else {
        seq![(value % 256) as u8] + le_bytes(value / 256, (n - 1) as nat)
    }
}

/// `256` to the power `n`: how many numbers `n` bytes can denote.
pub open spec fn pow256(n: nat) -> nat
    decreases n,
{
    if n == 0 {
        1
    } else {
        256 * pow256((n - 1) as nat)
    }
}

pub proof fn lemma_pow256_values()
    ensures
        pow256(4) == u32::MAX + 1,
        pow256(8) == u64::MAX + 1,
{
    reveal_with_fuel(pow256, 9);
}

/// `n` bytes denote a number below `256` to the power `n`.
pub proof fn lemma_le_value_bound(bytes: Seq<u8>)
    ensures
        le_value(bytes) < pow256(bytes.len()),
    decreases bytes.len(),
{
    if bytes.len() > 0 {
        lemma_le_value_bound(bytes.drop_first());
    }
}

/// Writing a number and reading it back gives the number again.
pub proof fn lemma_le_round_trip(value: nat, n: nat)
    requires
        value < pow256(n),
    ensures
        le_bytes(value, n).len() == n,
        le_value(le_bytes(value, n)) == value,
    decreases n,
{
    if n > 0 {
        lemma_le_round_trip(value / 256, (n - 1) as nat);
        assert(le_bytes(value, n).drop_first() =~= le_bytes(value / 256, (n - 1) as nat));
    }
}

/// Reads the `u64` that the eight bytes denote.
pub fn read_u64(bytes: &[u8]) -> (res: u64)
    requires
        bytes@.len() == 8,
    ensures
        res == le_value(bytes@),
{
    let mut value: u64 = 0;
    let mut i: usize = 8;
    proof {
        assert(bytes@.skip(8) =~= Seq::<u8>::empty());
        lemma_pow256_values();
    }
    while i > 0
        invariant
            i <= 8,
            bytes@.len() == 8,
            pow256(8) == u64::MAX + 1,
            value == le_value(bytes@.skip(i as int)),
        decreases i,
    {
        let b: u8 = bytes[i - 1];
        proof {
            let rest = bytes@.skip(i as int);
            let longer = bytes@.skip(i - 1);
            assert(longer.drop_first() =~= rest);
            lemma_le_value_bound(longer);
            lemma_pow256_monotone(longer.len(), 8);
            assert(value * 256 + b == le_value(longer));
        }
        value = value * 256 + b as u64;
        i = i - 1;
    }
    assert(bytes@.skip(0) =~= bytes@);
    value
}

/// Reads the `u32` that the four bytes from position `at` on denote.
pub fn read_u32(bytes: &[u8], at: usize) -> (res: u32)
    requires
        at + 4 <= bytes@.len(),
    ensures
        res == le_value(bytes@.subrange(at as int, at + 4)),
{
    proof {
        let word = bytes@.subrange(at as int, at + 4);
        lemma_pow256_values();
        lemma_le_value_bound(word);
        reveal_with_fuel(le_value, 5);
        assert(word.drop_first()[0] == word[1]);
        assert(word.drop_first().drop_first()[0] == word[2]);
        assert(word.drop_first().drop_first().drop_first()[0] == word[3]);
        assert(le_value(word) == word[0] + 256 * (word[1] + 256 * (word[2] + 256 * word[3])));
    }
    let _n: usize = bytes.len();
    bytes[at] as u32 + 256 * (bytes[at + 1] as u32 + 256 * (bytes[at + 2] as u32 + 256
        * (bytes[at + 3] as u32)))
}

proof fn lemma_pow256_monotone(a: nat, b: nat)
    requires
        a <= b,
    ensures
        pow256(a) <= pow256(b),
    decreases b,
{
    if a < b {
        lemma_pow256_monotone(a, (b - 1) as nat);
    }
}

/// Appends the `n` lowest bytes of `value`.
fn write_le(out: &mut Vec<u8>, value: u64, n: usize)
    ensures
        final(out)@ == old(out)@ + le_bytes(value as nat, n as nat),
{
    let mut rest: u64 = value;
    let mut i: usize = 0;
    proof {
        assert(old(out)@ + le_bytes(value as nat, n as nat) =~= out@ + le_bytes(
            rest as nat,
            n as nat,
        ));
    }
    while i < n
        invariant
            i <= n,
            out@ + le_bytes(rest as nat, (n - i) as nat) == old(out)@ + le_bytes(
                value as nat,
                n as nat,
            ),
        decreases n - i,
    {
        let ghost before = out@;
        out.push((rest % 256) as u8);
        proof {
            let left = (n - i) as nat;
            assert(before + le_bytes(rest as nat, left) =~= out@ + le_bytes(
                (rest / 256) as nat,
                (left - 1) as nat,
            ));
        }
        rest = rest / 256;
        i = i + 1;
    }
    assert(out@ + le_bytes(rest as nat, 0) =~= out@);
}

/// Appends the eight bytes of `value`.
pub fn write_u64(out: &mut Vec<u8>, value: u64)
    ensures
        final(out)@ == old(out)@ + le_bytes(value as nat, 8),
{
    write_le(out, value, 8);
}

/// Appends the four bytes of `value`.
pub fn write_u32(out: &mut Vec<u8>, value: u32)
    ensures
        final(out)@ == old(out)@ + le_bytes(value as nat, 4),
{
    write_le(out, value as u64, 4);
}

/// Appends the bytes of `tail`.
pub fn append_bytes(out: &mut Vec<u8>, tail: &[u8])
    ensures
        final(out)@ == old(out)@ + tail@,
{
    let ghost before = out@;
    let n: usize = tail.len();
    let mut i: usize = 0;
    while i < n
        invariant
            i <= n,
            n == tail@.len(),
            out@ == before + tail@.take(i as int),
        decreases n - i,
    {
        out.push(tail[i]);
        i = i + 1;
        assert(out@ =~= before + tail@.take(i as int));
    }
    assert(tail@.take(n as int) =~= tail@);
}

} // verus!

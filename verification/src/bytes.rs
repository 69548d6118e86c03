//! Little-endian integers in byte strings: the format of on-chain accounts.
use vstd::prelude::*;

verus! {

/// The number that `bytes` encode, least significant byte first.
pub open spec fn le_value(bytes: Seq<u8>) -> nat
    decreases bytes.len(),
{
    if bytes.len() == 0 {
        0
    } else {
        bytes[0] as nat + 256 * le_value(bytes.drop_first())
    }
}

/// The `len` least significant bytes of `n`, least significant byte first.
pub open spec fn le_bytes(n: nat, len: nat) -> Seq<u8>
    decreases len,
{
    if len == 0 {
        Seq::empty()
    } else {
        seq![(n % 256) as u8] + le_bytes(n / 256, (len - 1) as nat)
    }
}

/// The little-endian number in the eight bytes at `at`.
pub open spec fn le_u64_at(bytes: Seq<u8>, at: int) -> nat {
    le_value(bytes.subrange(at, at + 8))
}

/// How many numbers `len` bytes can tell apart.
pub open spec fn byte_range(len: nat) -> nat
    decreases len,
{
    if len == 0 {
        1
    } else {
        256 * byte_range((len - 1) as nat)
    }
}

pub proof fn lemma_le_value_bound(bytes: Seq<u8>)
    ensures
        le_value(bytes) < byte_range(bytes.len()),
    decreases bytes.len(),
{
    if bytes.len() > 0 {
        lemma_le_value_bound(bytes.drop_first());
    }
}

pub proof fn lemma_le_bytes_len(n: nat, len: nat)
    ensures
        le_bytes(n, len).len() == len,
    decreases len,
{
    if len > 0 {
        lemma_le_bytes_len(n / 256, (len - 1) as nat);
    }
}

/// Decoding undoes encoding: `n` is read back from its own bytes.
pub proof fn law_decode_of_encode(n: nat, len: nat)
    requires
        n < byte_range(len),
    ensures
        le_value(le_bytes(n, len)) == n,
    decreases len,
{
    if len > 0 {
        let rest = (len - 1) as nat;
        law_decode_of_encode(n / 256, rest);
        assert(le_bytes(n, len).drop_first() =~= le_bytes(n / 256, rest));
    }
}

/// Encoding undoes decoding: the bytes of the number that `bytes` encode are
/// `bytes` again.
pub proof fn law_encode_of_decode(bytes: Seq<u8>)
    ensures
        le_bytes(le_value(bytes), bytes.len()) == bytes,
    decreases bytes.len(),
{
    if bytes.len() > 0 {
        let rest = bytes.drop_first();
        law_encode_of_decode(rest);
        let n = le_value(bytes);
        assert(n % 256 == bytes[0] as nat);
        assert(n / 256 == le_value(rest));
        assert(le_bytes(n, bytes.len()) =~= bytes);
    } else {
        assert(le_bytes(0, 0) =~= bytes);
    }
}

/// Reads the little-endian number at `at`.
pub fn read_le_u64(bytes: &[u8], at: usize) -> (value: u64)
    requires
        at + 8 <= bytes@.len(),
    ensures
        value == le_u64_at(bytes@, at as int),
        value == le_value(bytes@.subrange(at as int, at + 8)),
{
    let len: usize = bytes.len();
    let mut value: u64 = 0;
    let mut left: usize = 8;
    assert(bytes@.subrange(at + 8, at + 8).len() == 0);
    while left > 0
        invariant
            left <= 8,
            at + 8 <= len,
            len == bytes@.len(),
            value == le_value(bytes@.subrange(at + left, at + 8)),
        decreases left,
    {
        let ghost tail = bytes@.subrange(at + left, at + 8);
        let ghost whole = bytes@.subrange(at + left - 1, at + 8);
        proof {
            lemma_le_value_bound(whole);
            reveal_with_fuel(byte_range, 9);
            assert(whole.drop_first() =~= tail);
        }
        left = left - 1;
        value = value * 256 + bytes[at + left] as u64;
    }
    value
}

/// Writes `n` as eight little-endian bytes.
pub fn u64_le_bytes(n: u64) -> (bytes: [u8; 8])
    ensures
        bytes@ == le_bytes(n as nat, 8),
{
    let mut bytes: [u8; 8] = [0u8;8];
    let mut rest: u64 = n;
    let mut done: usize = 0;
    while done < 8
        invariant
            done <= 8,
            bytes@.len() == 8,
            bytes@.take(done as int) + le_bytes(rest as nat, (8 - done) as nat) == le_bytes(
                n as nat,
                8,
            ),
        decreases 8 - done,
    {
        let ghost before = bytes@;
        let ghost tail = le_bytes(rest as nat / 256, (7 - done) as nat);
        bytes[done] = (rest % 256) as u8;
        proof {
            assert(bytes@.take(done + 1) =~= before.take(done as int).push(
                (rest % 256) as u8,
            ));
            assert(bytes@.take(done + 1) + tail =~= before.take(done as int) + (seq![
                (rest % 256) as u8,
            ] + tail));
        }
        rest = rest / 256;
        done = done + 1;
    }
    assert(bytes@.take(8) =~= bytes@);
    assert(bytes@ + le_bytes(rest as nat, 0) =~= bytes@);
    bytes
}

} // verus!

//! Numbers as they lie in memory: least significant byte first.
use vstd::prelude::*;

verus! {

/// The number that `n` bytes of `s` from `at` on denote, least significant
/// byte first.
pub open spec fn le_value(s: Seq<u8>, at: int, n: nat) -> nat
    decreases n,
{
    if n == 0 {
        0
    } else {
        s[at] as nat + 256 * le_value(s, at + 1, (n - 1) as nat)
    }
}

/// The eight bytes that denote `v`, least significant byte first.
pub open spec fn word_bytes(v: nat) -> Seq<u8> {
    let v1 = v / 256;
    let v2 = v1 / 256;
    let v3 = v2 / 256;
    let v4 = v3 / 256;
    let v5 = v4 / 256;
    let v6 = v5 / 256;
    let v7 = v6 / 256;
    seq![
        (v % 256) as u8,
        (v1 % 256) as u8,
        (v2 % 256) as u8,
        (v3 % 256) as u8,
        (v4 % 256) as u8,
        (v5 % 256) as u8,
        (v6 % 256) as u8,
        (v7 % 256) as u8,
    ]
}

/// Eight bytes hold every number below two to the sixty-fourth, and give it
/// back.
pub proof fn lemma_word_roundtrip(v: nat)
    requires
        v <= u64::MAX,
    ensures
        word_bytes(v).len() == 8,
        le_value(word_bytes(v), 0, 8) == v,
{
    reveal_with_fuel(le_value, 9);
}

/// The number that some bytes denote is theirs alone: it is the same in any
/// two sequences that hold the same bytes at the places read.
pub proof fn lemma_le_value_local(a: Seq<u8>, at: int, b: Seq<u8>, bt: int, n: nat)
    requires
        forall|k: int| at <= k < at + n ==> #[trigger] a[k] == b[k - at + bt],
    ensures
        le_value(a, at, n) == le_value(b, bt, n),
    decreases n,
{
    if n > 0 {
        assert(a[at] == b[at - at + bt]);
        assert forall|k: int| at + 1 <= k < at + 1 + (n - 1) implies #[trigger] a[k] == b[k - (at + 1) + (bt + 1)] by {
            assert(a[k] == b[k - at + bt]);
        }
        lemma_le_value_local(a, at + 1, b, bt + 1, (n - 1) as nat);
    }
}

/// Reads a little-endian 32-bit number.
pub fn read_u32(mem: &[u8], at: usize) -> (v: u32)
    requires
        at + 4 <= mem.len(),
    ensures
        v == le_value(mem@, at as int, 4),
{
    proof {
        reveal_with_fuel(le_value, 5);
    }
    let b0 = mem[at] as u32;
    let b1 = mem[at + 1] as u32;
    let b2 = mem[at + 2] as u32;
    let b3 = mem[at + 3] as u32;
    b0 + 256 * (b1 + 256 * (b2 + 256 * b3))
}

/// Reads a little-endian 64-bit number.
pub fn read_u64(mem: &[u8], at: usize) -> (v: u64)
    requires
        at + 8 <= mem.len(),
    ensures
        v == le_value(mem@, at as int, 8),
{
    proof {
        reveal_with_fuel(le_value, 9);
    }
    let b0 = mem[at] as u64;
    let b1 = mem[at + 1] as u64;
    let b2 = mem[at + 2] as u64;
    let b3 = mem[at + 3] as u64;
    let b4 = mem[at + 4] as u64;
    let b5 = mem[at + 5] as u64;
    let b6 = mem[at + 6] as u64;
    let b7 = mem[at + 7] as u64;
    b0 + 256 * (b1 + 256 * (b2 + 256 * (b3 + 256 * (b4 + 256 * (b5 + 256 * (b6 + 256 * b7))))))
}

/// Writes a little-endian 64-bit number and touches no other byte.
pub fn write_u64(mem: &mut [u8], at: usize, v: u64)
    requires
        at + 8 <= old(mem).len(),
    ensures
        final(mem)@.len() == old(mem)@.len(),
        forall|k: int|
            0 <= k < old(mem)@.len() ==> #[trigger] final(mem)@[k] == if at <= k < at + 8 {
                word_bytes(v as nat)[k - at]
            } else {
                old(mem)@[k]
            },
        le_value(final(mem)@, at as int, 8) == v,
{
    let v1: u64 = v / 256;
    let v2: u64 = v1 / 256;
    let v3: u64 = v2 / 256;
    let v4: u64 = v3 / 256;
    let v5: u64 = v4 / 256;
    let v6: u64 = v5 / 256;
    let v7: u64 = v6 / 256;
    mem[at] = (v % 256) as u8;
    mem[at + 1] = (v1 % 256) as u8;
    mem[at + 2] = (v2 % 256) as u8;
    mem[at + 3] = (v3 % 256) as u8;
    mem[at + 4] = (v4 % 256) as u8;
    mem[at + 5] = (v5 % 256) as u8;
    mem[at + 6] = (v6 % 256) as u8;
    mem[at + 7] = (v7 % 256) as u8;
    proof {
        lemma_word_roundtrip(v as nat);
        lemma_le_value_local(mem@, at as int, word_bytes(v as nat), 0, 8);
    }
}

} // verus!

//! The four byte-string routines that compiled code expects to find: fill,
//! copy, move and compare, here over buffers that carry their length.
use vstd::prelude::*;

verus! {

/// The byte that filling with `c` writes: its low eight bits.
pub open spec fn fill_byte(c: i32) -> u8 {
    c as u8
}

/// Sets the first `n` bytes of `s` to the low eight bits of `c`.
pub fn memset(s: &mut [u8], c: i32, n: usize)
    requires
        n <= old(s).len(),
    ensures
        final(s)@.len() == old(s)@.len(),
        forall|i: int| 0 <= i < n ==> final(s)@[i] == fill_byte(c),
        forall|i: int| n <= i < old(s)@.len() ==> final(s)@[i] == old(s)@[i],
{
    let byte = #[verifier::truncate]
    (c as u8);
    let mut i: usize = 0;
    while i < n
        invariant
            0 <= i <= n <= s.len(),
            s@.len() == old(s)@.len(),
            byte == fill_byte(c),
            forall|k: int| 0 <= k < i ==> s@[k] == byte,
            forall|k: int| i <= k < s@.len() ==> s@[k] == old(s)@[k],
        decreases n - i,
    {
        s[i] = byte;
        i = i + 1;
    }
}

/// Copies the first `n` bytes of `src` to the start of `dst`.
pub fn memcpy(dst: &mut [u8], src: &[u8], n: usize)
    requires
        n <= old(dst).len(),
        n <= src.len(),
    ensures
        final(dst)@.len() == old(dst)@.len(),
        forall|i: int| 0 <= i < n ==> final(dst)@[i] == src@[i],
        forall|i: int| n <= i < old(dst)@.len() ==> final(dst)@[i] == old(dst)@[i],
{
    let mut i: usize = 0;
    while i < n
        invariant
            0 <= i <= n <= dst.len(),
            n <= src.len(),
            dst@.len() == old(dst)@.len(),
            forall|k: int| 0 <= k < i ==> dst@[k] == src@[k],
            forall|k: int| i <= k < dst@.len() ==> dst@[k] == old(dst)@[k],
        decreases n - i,
    {
        dst[i] = src[i];
        i = i + 1;
    }
}

/// What copying `n` bytes inside one buffer, from `src` to `dest`, from the
/// first byte up, leaves behind: each byte is read when its turn comes, so a
/// byte written earlier in the same copy is read as written.
pub open spec fn moved(s: Seq<u8>, dest: int, src: int, n: nat) -> Seq<u8>
    decreases n,
{
    if n == 0 {
        s
    } else {
        let before = moved(s, dest, src, (n - 1) as nat);
        before.update(dest + n - 1, before[src + n - 1])
    }
}

/// Copying inside one buffer from the first byte up leaves alone what lies
/// outside the destination, and writes nothing it has yet to read where the
/// destination does not start inside the source after its first byte.
pub proof fn lemma_moved(s: Seq<u8>, dest: int, src: int, n: nat)
    requires
        0 <= dest,
        0 <= src,
        dest + n <= s.len(),
        src + n <= s.len(),
    ensures
        moved(s, dest, src, n).len() == s.len(),
        forall|i: int| 0 <= i < s.len() && !(dest <= i < dest + n) ==> moved(s, dest, src, n)[i] == s[i],
        dest <= src || src + n <= dest ==> forall|k: int|
            dest <= k < dest + n ==> #[trigger] moved(s, dest, src, n)[k] == s[k - dest + src],
    decreases n,
{
    if n > 0 {
        lemma_moved(s, dest, src, (n - 1) as nat);
    }
}

/// Moves `n` bytes inside `buf` from `src` to `dest`, from the first byte
/// up. The bytes arrive as they were where the destination lies below the
/// source or clear of it.
pub fn memmove(buf: &mut [u8], dest: usize, src: usize, n: usize)
    requires
        dest + n <= old(buf).len(),
        src + n <= old(buf).len(),
    ensures
        final(buf)@ == moved(old(buf)@, dest as int, src as int, n as nat),
        final(buf)@.len() == old(buf)@.len(),
        forall|i: int|
            0 <= i < old(buf)@.len() && !(dest <= i < dest + n) ==> final(buf)@[i] == old(buf)@[i],
        dest <= src || src + n <= dest ==> forall|k: int|
            dest <= k < dest + n ==> #[trigger] final(buf)@[k] == old(buf)@[k - dest + src],
{
    let mut i: usize = 0;
    while i < n
        invariant
            0 <= i <= n,
            dest + n <= buf.len(),
            src + n <= buf.len(),
            buf@.len() == old(buf)@.len(),
            buf@ == moved(old(buf)@, dest as int, src as int, i as nat),
        decreases n - i,
    {
        let byte = buf[src + i];
        buf[dest + i] = byte;
        i = i + 1;
    }
    proof {
        lemma_moved(old(buf)@, dest as int, src as int, n as nat);
    }
}

/// Place `k` is the first among the first `n` where `a` and `b` differ.
pub open spec fn is_first_difference(a: Seq<u8>, b: Seq<u8>, n: usize, k: int) -> bool {
    &&& 0 <= k < n
    &&& a[k] != b[k]
    &&& forall|j: int| 0 <= j < k ==> a[j] == b[j]
}

/// How the first `n` bytes of `a` stand to those of `b`: nought where they
/// are the same, else the byte of `a` less the byte of `b` at the first
/// place where they differ.
pub open spec fn difference(a: Seq<u8>, b: Seq<u8>, n: usize) -> int {
    if exists|k: int| is_first_difference(a, b, n, k) {
        let k = choose|k: int| is_first_difference(a, b, n, k);
        a[k] - b[k]
    } else {
        0
    }
}

/// The first place of difference is one place.
pub proof fn lemma_difference_at(a: Seq<u8>, b: Seq<u8>, n: usize, at: usize)
    requires
        is_first_difference(a, b, n, at as int),
    ensures
        difference(a, b, n) == a[at as int] - b[at as int],
{
    let k = at as int;
    let c = choose|c: int| is_first_difference(a, b, n, c);
    assert(is_first_difference(a, b, n, c));
    if c < k {
        assert(a[c] == b[c]);
    }
    if k < c {
        assert(a[k] == b[k]);
    }
}

/// One byte less another, as a signed number.
fn byte_gap(x: u8, y: u8) -> (gap: i32)
    ensures
        gap == x - y,
{
    x as i32 - y as i32
}

/// Compares the first `n` bytes of `s1` and `s2`.
pub fn memcmp(s1: &[u8], s2: &[u8], n: usize) -> (order: i32)
    requires
        n <= s1.len(),
        n <= s2.len(),
    ensures
        order == difference(s1@, s2@, n),
{
    let mut i: usize = 0;
    while i < n
        invariant
            0 <= i <= n,
            n <= s1.len(),
            n <= s2.len(),
            forall|k: int| 0 <= k < i ==> s1@[k] == s2@[k],
        decreases n - i,
    {
        let b1 = s1[i];
        let b2 = s2[i];
        if b1 != b2 {
            proof {
                lemma_difference_at(s1@, s2@, n, i);
            }
            return byte_gap(b1, b2);
        }
        i = i + 1;
    }
    0
}

} // verus!

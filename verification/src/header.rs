//! The boundary tag: a fixed-size record stored at both ends of every block,
//! and the codec that reads and writes it inside the byte image of a region.
use crate::bytes::{le_value, lemma_le_value_local, lemma_word_roundtrip, read_u64, word_bytes, write_u64};
use vstd::prelude::*;

verus! {

/// Number of bytes one stored header occupies.
pub const HEADER_SIZE: usize = 16;

/// Offset of the extent word inside a stored header.
pub const EXTENT_OFFSET: usize = 8;

/// Metadata kept at a block boundary.
#[derive(Clone, Copy, Debug, PartialEq, Eq, Structural)]
pub struct Header {
    /// Set only in the two headers at the extreme ends of the region.
    pub is_sentinel: bool,
    /// Set while the block this header delimits is allocated.
    pub is_occupied: bool,
    /// Bytes strictly between this header and its partner.
    pub extent: usize,
}

/// The byte that stores a flag.
pub open spec fn flag_byte(flag: bool) -> u8 {
    if flag {
        1
    } else {
        0
    }
}

impl Header {
    /// The stored form of a header: two flag bytes, six bytes of padding and
    /// the extent as a little-endian word.
    pub open spec fn encoding(self) -> Seq<u8> {
        seq![flag_byte(self.is_sentinel), flag_byte(self.is_occupied), 0u8, 0u8, 0u8, 0u8, 0u8, 0u8]
            + word_bytes(self.extent as nat)
    }

    /// The header that sixteen stored bytes denote.
    pub open spec fn decoding(bytes: Seq<u8>) -> Header {
        Header {
            is_sentinel: bytes[0] != 0,
            is_occupied: bytes[1] != 0,
            extent: le_value(bytes, EXTENT_OFFSET as int, 8) as usize,
        }
    }

    /// Decoding undoes encoding, for every header.
    pub proof fn lemma_codec_roundtrip(self)
        ensures
            self.encoding().len() == HEADER_SIZE,
            Header::decoding(self.encoding()) == self,
    {
        let e = self.extent as nat;
        lemma_word_roundtrip(e);
        lemma_le_value_local(self.encoding(), EXTENT_OFFSET as int, word_bytes(e), 0, 8);
    }

    /// Reads the header stored at `offset`.
    pub fn load(mem: &[u8], offset: usize) -> (h: Header)
        requires
            offset + HEADER_SIZE <= mem.len(),
        ensures
            h == header_at(mem@, offset as int),
    {
        proof {
            reveal(header_at);
            lemma_le_value_local(
                mem@,
                offset + EXTENT_OFFSET,
                mem@.subrange(offset as int, offset + HEADER_SIZE),
                EXTENT_OFFSET as int,
                8,
            );
        }
        let extent = read_u64(mem, offset + EXTENT_OFFSET);
        Header { is_sentinel: mem[offset] != 0, is_occupied: mem[offset + 1] != 0, extent: extent as usize }
    }

    /// Writes this header at `offset` and touches no other byte.
    pub fn store(&self, mem: &mut [u8], offset: usize)
        requires
            offset + HEADER_SIZE <= old(mem).len(),
        ensures
            final(mem)@.len() == old(mem)@.len(),
            final(mem)@.subrange(offset as int, offset + HEADER_SIZE) == self.encoding(),
            forall|k: int|
                0 <= k < old(mem)@.len() && !(offset <= k < offset + HEADER_SIZE) ==> #[trigger] final(mem)@[k]
                    == old(mem)@[k],
            header_at(final(mem)@, offset as int) == *self,
            forall|other: int|
                0 <= other && other + HEADER_SIZE <= old(mem)@.len() && (other + HEADER_SIZE <= offset || offset
                    + HEADER_SIZE <= other) ==> #[trigger] header_at(final(mem)@, other) == header_at(
                    old(mem)@,
                    other,
                ),
    {
        store_flags(mem, offset, self.is_sentinel, self.is_occupied);
        write_u64(mem, offset + EXTENT_OFFSET, self.extent as u64);
        proof {
            reveal(header_at);
            let stored = mem@.subrange(offset as int, offset + HEADER_SIZE);
            assert(stored =~= self.encoding());
            self.lemma_codec_roundtrip();
            assert forall|other: int|
                0 <= other && other + HEADER_SIZE <= old(mem)@.len() && (other + HEADER_SIZE <= offset || offset
                    + HEADER_SIZE <= other) implies #[trigger] header_at(mem@, other) == header_at(
                old(mem)@,
                other,
            ) by {
                assert(mem@.subrange(other, other + HEADER_SIZE) =~= old(mem)@.subrange(
                    other,
                    other + HEADER_SIZE,
                ));
            }
        }
    }
}

/// Writes the two flag bytes and the padding of a header.
fn store_flags(mem: &mut [u8], offset: usize, is_sentinel: bool, is_occupied: bool)
    requires
        offset + EXTENT_OFFSET <= old(mem).len(),
    ensures
        final(mem)@.len() == old(mem)@.len(),
        forall|k: int|
            0 <= k < old(mem)@.len() ==> #[trigger] final(mem)@[k] == if k == offset {
                flag_byte(is_sentinel)
            } else if k == offset + 1 {
                flag_byte(is_occupied)
            } else if offset + 2 <= k < offset + EXTENT_OFFSET {
                0u8
            } else {
                old(mem)@[k]
            },
{
    mem[offset] = if is_sentinel { 1 } else { 0 };
    mem[offset + 1] = if is_occupied { 1 } else { 0 };
    mem[offset + 2] = 0;
    mem[offset + 3] = 0;
    mem[offset + 4] = 0;
    mem[offset + 5] = 0;
    mem[offset + 6] = 0;
    mem[offset + 7] = 0;
}

/// A stored header is its sixteen bytes and nothing else: two images that
/// agree on them hold the same header there.
pub proof fn lemma_header_at_local(a: Seq<u8>, b: Seq<u8>, offset: int)
    requires
        0 <= offset,
        offset + HEADER_SIZE <= a.len(),
        offset + HEADER_SIZE <= b.len(),
        forall|k: int| offset <= k < offset + HEADER_SIZE ==> a[k] == b[k],
    ensures
        header_at(a, offset) == header_at(b, offset),
{
    reveal(header_at);
    assert(a.subrange(offset, offset + HEADER_SIZE) =~= b.subrange(offset, offset + HEADER_SIZE));
}

/// The header that the sixteen bytes of `mem` from `offset` on denote.
#[verifier::opaque]
pub open spec fn header_at(mem: Seq<u8>, offset: int) -> Header {
    Header::decoding(mem.subrange(offset, offset + HEADER_SIZE))
}

} // verus!

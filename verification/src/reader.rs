//! Sequential reader over the raw bytes of an archive container.
//!
//! The archive header is a fixed sequence of little-endian integers and raw
//! byte fields; `PckFile` keeps the bytes together with a cursor and hands
//! the fields out in declaration order.

use vstd::prelude::*;

verus! {

/// The value of a byte sequence read as a little-endian unsigned integer.
pub open spec fn le_bytes_val(s: Seq<u8>) -> int
    decreases s.len(),
{
    if s.len() == 0 {
        0
    } else {
        s[0] + 256 * le_bytes_val(s.drop_first())
    }
}

/// A four-byte magic signature `G D P C` stands at position `i` of `s`.
pub open spec fn magic_at(s: Seq<u8>, i: int) -> bool {
    &&& 0 <= i
    &&& i + 4 <= s.len()
    &&& s[i] == 0x47u8
    &&& s[i + 1] == 0x44u8
    &&& s[i + 2] == 0x50u8
    &&& s[i + 3] == 0x43u8
}

/// A byte source with a cursor, reading fields in declared order.
pub struct PckFile {
    bytes: Vec<u8>,
    current_index: usize,
}

impl PckFile {
    /// The full byte content backing the reader.
    pub closed spec fn bytes_view(self) -> Seq<u8> {
        self.bytes@
    }

    /// The cursor: the position of the next byte to be read.
    pub closed spec fn pos(self) -> int {
        self.current_index as int
    }

    /// Wrap a byte buffer as a reader positioned at its start.
    pub fn from_bytes(bytes: Vec<u8>) -> (r: PckFile)
        ensures
            r.bytes_view() == bytes@,
            r.pos() == 0,
    {
        PckFile { bytes, current_index: 0 }
    }

    /// Wrap a host binary as a reader positioned at the first occurrence of
    /// the archive magic signature, and report that offset; `None` when the
    /// signature occurs nowhere in the bytes.
    pub fn from_bytes_embedded(bytes: Vec<u8>) -> (r: Option<(PckFile, usize)>)
        ensures
            match r {
                Some(p) => {
                    &&& p.0.bytes_view() == bytes@
                    &&& p.0.pos() == p.1 as int
                    &&& magic_at(bytes@, p.1 as int)
                    &&& forall|j: int| 0 <= j < p.1 as int ==> !magic_at(bytes@, j)
                },
                None => forall|j: int| !magic_at(bytes@, j),
            },
    {
        let found = find_magic(&bytes);
        match found {
            Some(off) => Some((PckFile { bytes, current_index: off }, off)),
            None => None,
        }
    }

    /// The number of bytes backing the reader.
    pub fn len(&self) -> (r: usize)
        ensures
            r == self.bytes_view().len(),
    {
        self.bytes.len()
    }

    /// The current cursor position.
    pub fn position(&self) -> (r: usize)
        ensures
            r == self.pos(),
    {
        self.current_index
    }

    /// Move the cursor to an absolute position.
    pub(crate) fn set_position(&mut self, p: usize)
        requires
            p <= old(self).bytes_view().len(),
        ensures
            final(self).bytes_view() == old(self).bytes_view(),
            final(self).pos() == p,
    {
        self.current_index = p;
    }

    /// The bytes of a vector number at most `usize::MAX`.
    pub proof fn lemma_len_bound(&self)
        ensures
            self.bytes_view().len() <= usize::MAX,
    {
        assert(self.bytes.len() == self.bytes@.len());
    }

    /// Fill `buffer` with the next `buffer.len()` bytes. With `big_endian`
    /// the bytes land in reversed order; the format itself is little-endian
    /// throughout, the flag exists for completeness. The cursor advances by
    /// the buffer's length.
    pub fn read_buffer(&mut self, buffer: &mut Vec<u8>, big_endian: bool)
        requires
            old(self).pos() + old(buffer).len() <= old(self).bytes_view().len(),
        ensures
            final(self).bytes_view() == old(self).bytes_view(),
            final(self).pos() == old(self).pos() + old(buffer).len(),
            final(buffer).len() == old(buffer).len(),
            !big_endian ==> final(buffer)@ == old(self).bytes_view().subrange(
                old(self).pos(),
                old(self).pos() + old(buffer).len(),
            ),
            big_endian ==> forall|i: int|
                0 <= i < old(buffer).len() ==> final(buffer)@[i] == old(self).bytes_view()[
                    old(self).pos() + old(buffer).len() - 1 - i
                ],
    {
        let count = buffer.len();
        proof {
            assert(self.bytes.len() == self.bytes@.len());
        }
        let mut i: usize = 0;
        while i < count
            invariant
                0 <= i <= count,
                count == old(buffer).len(),
                buffer.len() == count,
                self.bytes_view().len() <= usize::MAX,
                self.bytes_view() == old(self).bytes_view(),
                self.pos() == old(self).pos(),
                old(self).pos() + count <= old(self).bytes_view().len(),
                !big_endian ==> forall|k: int|
                    0 <= k < i ==> buffer@[k] == old(self).bytes_view()[old(self).pos() + k],
                big_endian ==> forall|k: int|
                    count - i <= k < count ==> buffer@[k] == old(self).bytes_view()[
                        old(self).pos() + count - 1 - k
                    ],
            decreases count - i,
        {
            let with_endian: usize = if big_endian { count - i - 1 } else { i };
            let b = self.byte_at(self.current_index + i);
            buffer.set(with_endian, b);
            i += 1;
        }
        proof {
            assert(self.bytes.len() == self.bytes@.len());
        }
        self.current_index = self.current_index + count;
        proof {
            if !big_endian {
                assert(final(buffer)@ =~= old(self).bytes_view().subrange(
                    old(self).pos(),
                    old(self).pos() + count,
                ));
            }
        }
    }

    /// Read one byte at an absolute position, without moving the cursor.
    fn byte_at(&self, idx: usize) -> (r: u8)
        requires
            idx < self.bytes_view().len(),
        ensures
            r == self.bytes_view()[idx as int],
    {
        self.bytes[idx]
    }

    /// Read the next four bytes as a little-endian 32-bit integer.
    pub fn read_u32(&mut self) -> (r: u32)
        requires
            old(self).pos() + 4 <= old(self).bytes_view().len(),
        ensures
            final(self).bytes_view() == old(self).bytes_view(),
            final(self).pos() == old(self).pos() + 4,
            r == le_bytes_val(old(self).bytes_view().subrange(old(self).pos(), old(self).pos() + 4)),
    {
        let mut buffer: Vec<u8> = zero_vec(4);
        self.read_buffer(&mut buffer, false);
        let r: u32 = (buffer[0] as u32) + (buffer[1] as u32) * 0x100 + (buffer[2] as u32)
            * 0x10000 + (buffer[3] as u32) * 0x1000000;
        proof {
            let s = old(self).bytes_view().subrange(old(self).pos(), old(self).pos() + 4);
            lemma_le_bytes_val_4(s);
        }
        r
    }

    /// Read the next eight bytes as a little-endian 64-bit integer.
    pub fn read_u64(&mut self) -> (r: u64)
        requires
            old(self).pos() + 8 <= old(self).bytes_view().len(),
        ensures
            final(self).bytes_view() == old(self).bytes_view(),
            final(self).pos() == old(self).pos() + 8,
            r == le_bytes_val(old(self).bytes_view().subrange(old(self).pos(), old(self).pos() + 8)),
    {
        let mut buffer: Vec<u8> = zero_vec(8);
        self.read_buffer(&mut buffer, false);
        let lo: u64 = (buffer[0] as u64) + (buffer[1] as u64) * 0x100 + (buffer[2] as u64)
            * 0x10000 + (buffer[3] as u64) * 0x1000000;
        let hi: u64 = (buffer[4] as u64) + (buffer[5] as u64) * 0x100 + (buffer[6] as u64)
            * 0x10000 + (buffer[7] as u64) * 0x1000000;
        let r: u64 = lo + hi * 0x100000000;
        proof {
            let s = old(self).bytes_view().subrange(old(self).pos(), old(self).pos() + 8);
            lemma_le_bytes_val_8(s);
        }
        r
    }

    /// Advance the cursor over a field without reading it. The cursor may
    /// move past the end of the bytes; only a later read fails on that.
    pub fn skip_bytes(&mut self, count: usize)
        requires
            old(self).pos() + count <= usize::MAX,
        ensures
            final(self).bytes_view() == old(self).bytes_view(),
            final(self).pos() == old(self).pos() + count,
    {
        self.current_index = self.current_index + count;
    }
}

/// A vector of `n` zero bytes.
pub fn zero_vec(n: usize) -> (r: Vec<u8>)
    ensures
        r@.len() == n,
        forall|i: int| 0 <= i < n ==> r@[i] == 0u8,
{
    let mut v: Vec<u8> = Vec::new();
    let mut i: usize = 0;
    while i < n
        invariant
            0 <= i <= n,
            v@.len() == i,
            forall|k: int| 0 <= k < i ==> v@[k] == 0u8,
        decreases n - i,
    {
        v.push(0u8);
        i += 1;
    }
    v
}

/// The first offset at which the magic signature stands, if any.
pub fn find_magic(bytes: &Vec<u8>) -> (r: Option<usize>)
    ensures
        match r {
            Some(i) => {
                &&& magic_at(bytes@, i as int)
                &&& forall|j: int| 0 <= j < i as int ==> !magic_at(bytes@, j)
            },
            None => forall|j: int| !magic_at(bytes@, j),
        },
{
    let n = bytes.len();
    if n < 4 {
        return None;
    }
    let mut i: usize = 0;
    while i <= n - 4
        invariant
            4 <= n,
            0 <= i <= n - 3,
            n == bytes@.len(),
            forall|j: int| 0 <= j < i ==> !magic_at(bytes@, j),
        decreases n - i,
    {
        if bytes[i] == 0x47u8 && bytes[i + 1] == 0x44u8 && bytes[i + 2] == 0x50u8 && bytes[i + 3]
            == 0x43u8 {
            return Some(i);
        }
        i += 1;
    }
    None
}

proof fn lemma_le_bytes_val_4(s: Seq<u8>)
    requires
        s.len() == 4,
    ensures
        le_bytes_val(s) == s[0] + s[1] * 0x100 + s[2] * 0x10000 + s[3] * 0x1000000,
        0 <= le_bytes_val(s) <= 0xFFFFFFFF,
{
    let s1 = s.drop_first();
    let s2 = s1.drop_first();
    let s3 = s2.drop_first();
    let s4 = s3.drop_first();
    assert(s1[0] == s[1] && s2[0] == s[2] && s3[0] == s[3]);
    assert(s4.len() == 0);
    assert(le_bytes_val(s4) == 0);
    assert(le_bytes_val(s3) == s[3]);
    assert(le_bytes_val(s2) == s[2] + 256 * le_bytes_val(s3));
    assert(le_bytes_val(s1) == s[1] + 256 * le_bytes_val(s2));
    assert(le_bytes_val(s) == s[0] + 256 * le_bytes_val(s1));
}

proof fn lemma_le_bytes_val_8(s: Seq<u8>)
    requires
        s.len() == 8,
    ensures
        le_bytes_val(s) == s[0] + s[1] * 0x100 + s[2] * 0x10000 + s[3] * 0x1000000 + s[4]
            * 0x100000000 + s[5] * 0x10000000000 + s[6] * 0x1000000000000 + s[7]
            * 0x100000000000000,
        0 <= le_bytes_val(s) <= 0xFFFFFFFFFFFFFFFF,
{
    let s1 = s.drop_first();
    let s2 = s1.drop_first();
    let s3 = s2.drop_first();
    let s4 = s3.drop_first();
    let s5 = s4.drop_first();
    let s6 = s5.drop_first();
    let s7 = s6.drop_first();
    let s8 = s7.drop_first();
    assert(s1[0] == s[1] && s2[0] == s[2] && s3[0] == s[3] && s4[0] == s[4] && s5[0] == s[5]
        && s6[0] == s[6] && s7[0] == s[7]);
    assert(s8.len() == 0);
    assert(le_bytes_val(s8) == 0);
    assert(le_bytes_val(s7) == s[7]);
    assert(le_bytes_val(s6) == s[6] + 256 * le_bytes_val(s7));
    assert(le_bytes_val(s5) == s[5] + 256 * le_bytes_val(s6));
    assert(le_bytes_val(s4) == s[4] + 256 * le_bytes_val(s5));
    assert(le_bytes_val(s3) == s[3] + 256 * le_bytes_val(s4));
    assert(le_bytes_val(s2) == s[2] + 256 * le_bytes_val(s3));
    assert(le_bytes_val(s1) == s[1] + 256 * le_bytes_val(s2));
    assert(le_bytes_val(s) == s[0] + 256 * le_bytes_val(s1));
}

} // verus!

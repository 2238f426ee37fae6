//! The archive container: header parsing and per-candidate decrypt checks.
//!
//! The header is a fixed little-endian layout; after a reserved region it
//! carries the expected checksum of the decrypted payload, the payload's
//! true (unpadded) length, the cipher IV, and then the ciphertext itself,
//! padded up to the 16-byte cipher block size.

use vstd::prelude::*;
use vstd::slice::slice_subrange;
use vstd::slice::slice_to_vec;
use crate::reader::PckFile;
use crate::reader::le_bytes_val;
use crate::reader::zero_vec;

verus! {

/// `l` rounded up to the next multiple of the 16-byte cipher block size.
pub open spec fn align16(l: int) -> int {
    if l % 16 == 0 {
        l
    } else {
        l + (16 - l % 16)
    }
}

/// The declared (unpadded) payload length stored in a header that starts at
/// position `p` of `s`.
pub open spec fn declared_length_of(s: Seq<u8>, p: int) -> int {
    le_bytes_val(s.subrange(p + 116, p + 124))
}

/// A header starting at position `p` of `s` fits in the bytes: the fixed
/// 140-byte header and the aligned ciphertext that follows it.
pub open spec fn container_parses(s: Seq<u8>, p: int) -> bool {
    &&& 0 <= p
    &&& p + 140 <= s.len()
    &&& p + 140 + align16(declared_length_of(s, p)) <= s.len()
}

/// What the cipher-feedback decryption of `ct` under a 32-byte key and a
/// 16-byte IV yields. The plaintext depends on these three inputs alone.
pub uninterp spec fn cfb_plain_of(key: Seq<u8>, iv: Seq<u8>, ct: Seq<u8>) -> Seq<u8>;

/// The 16-byte digest of a byte sequence. It depends on the bytes alone.
pub uninterp spec fn md5_of(data: Seq<u8>) -> Seq<u8>;

/// The immutable decryption parameters extracted from a container, plus a
/// scratch buffer that each decrypt attempt overwrites in full.
pub struct DecryptContext {
    encrypted_data: Vec<u8>,
    real_length: usize,
    data_copy: Vec<u8>,
    data_md5: Vec<u8>,
    iv: Vec<u8>,
}

impl DecryptContext {
    /// The ciphertext blob, padded to the cipher block size.
    pub closed spec fn ciphertext_view(self) -> Seq<u8> {
        self.encrypted_data@
    }

    /// The true (unpadded) length of the decrypted payload.
    pub closed spec fn declared_length(self) -> int {
        self.real_length as int
    }

    /// The expected digest of the decrypted payload.
    pub closed spec fn checksum_view(self) -> Seq<u8> {
        self.data_md5@
    }

    /// The cipher initialization vector.
    pub closed spec fn iv_view(self) -> Seq<u8> {
        self.iv@
    }

    /// The scratch buffer decrypt attempts write into.
    pub closed spec fn scratch_view(self) -> Seq<u8> {
        self.data_copy@
    }

    /// Well-formedness: the IV and checksum are 16 bytes, the ciphertext is
    /// block-aligned and at least as long as the declared length, and the
    /// scratch buffer mirrors the ciphertext's length.
    pub open spec fn wf(self) -> bool {
        &&& self.iv_view().len() == 16
        &&& self.checksum_view().len() == 16
        &&& self.ciphertext_view().len() == align16(self.declared_length())
        &&& 0 <= self.declared_length() <= self.ciphertext_view().len()
        &&& self.scratch_view().len() == self.ciphertext_view().len()
    }

    /// The immutable decryption parameters agree with those of `other`;
    /// only the scratch buffer may differ.
    pub open spec fn same_params(self, other: DecryptContext) -> bool {
        &&& self.ciphertext_view() == other.ciphertext_view()
        &&& self.declared_length() == other.declared_length()
        &&& self.checksum_view() == other.checksum_view()
        &&& self.iv_view() == other.iv_view()
    }

    /// `key` decrypts the ciphertext to a payload whose digest over the
    /// declared length equals the stored checksum.
    pub open spec fn key_matches(self, key: Seq<u8>) -> bool {
        md5_of(
            cfb_plain_of(key, self.iv_view(), self.ciphertext_view()).subrange(
                0,
                self.declared_length(),
            ),
        ) == self.checksum_view()
    }

    /// Decode the header fields in declared order from the reader's current
    /// position and read the aligned ciphertext that follows them.
    pub fn from(pck: PckFile) -> (r: DecryptContext)
        requires
            container_parses(pck.bytes_view(), pck.pos()),
        ensures
            r.wf(),
            r.checksum_view() == pck.bytes_view().subrange(pck.pos() + 100, pck.pos() + 116),
            r.declared_length() == declared_length_of(pck.bytes_view(), pck.pos()),
            r.iv_view() == pck.bytes_view().subrange(pck.pos() + 124, pck.pos() + 140),
            r.ciphertext_view() == pck.bytes_view().subrange(
                pck.pos() + 140,
                pck.pos() + 140 + align16(declared_length_of(pck.bytes_view(), pck.pos())),
            ),
    {
        let ghost s = pck.bytes_view();
        let ghost p = pck.pos();
        proof {
            pck.lemma_len_bound();
        }
        let mut pck = pck;
        let _ = pck.read_u32();  // magic
        let _ = pck.read_u32();  // version
        let _ = pck.read_u32();  // major
        let _ = pck.read_u32();  // minor
        let _ = pck.read_u32();  // patch
        let _ = pck.read_u32();  // pack_flags
        let _ = pck.read_u64();  // file_base
        pck.skip_bytes(64);  // reserved
        let _ = pck.read_u32();  // file_count

        let mut md5hash: Vec<u8> = zero_vec(16);
        pck.read_buffer(&mut md5hash, false);
        let length = pck.read_u64();
        let mut iv: Vec<u8> = zero_vec(16);
        pck.read_buffer(&mut iv, false);

        proof {
            pck.lemma_len_bound();
            assert(length == declared_length_of(s, p));
        }
        let rem = length % 16;
        let length_aligned_u64: u64 = if rem != 0 {
            length + (16 - rem)
        } else {
            length
        };
        proof {
            assert(length_aligned_u64 == align16(length as int));
            assert(length_aligned_u64 <= usize::MAX);
        }
        let length_aligned: usize = length_aligned_u64 as usize;
        let real_length: usize = length as usize;

        let mut data: Vec<u8> = zero_vec(length_aligned);
        pck.read_buffer(&mut data, false);
        let data_copy: Vec<u8> = zero_vec(length_aligned);

        DecryptContext { encrypted_data: data, real_length, data_copy, data_md5: md5hash, iv }
    }

    /// Parse a container after checking that the bytes suffice: `Some`
    /// exactly when a header starting at the reader's position fits in the
    /// remaining bytes, `None` on truncated input.
    pub fn try_parse(pck: PckFile) -> (r: Option<DecryptContext>)
        ensures
            match r {
                Some(ctx) => {
                    &&& container_parses(pck.bytes_view(), pck.pos())
                    &&& ctx.wf()
                    &&& ctx.checksum_view() == pck.bytes_view().subrange(
                        pck.pos() + 100,
                        pck.pos() + 116,
                    )
                    &&& ctx.declared_length() == declared_length_of(pck.bytes_view(), pck.pos())
                    &&& ctx.iv_view() == pck.bytes_view().subrange(
                        pck.pos() + 124,
                        pck.pos() + 140,
                    )
                    &&& ctx.ciphertext_view() == pck.bytes_view().subrange(
                        pck.pos() + 140,
                        pck.pos() + 140 + align16(declared_length_of(pck.bytes_view(), pck.pos())),
                    )
                },
                None => !container_parses(pck.bytes_view(), pck.pos()),
            },
    {
        let ghost s = pck.bytes_view();
        let ghost p0 = pck.pos();
        let mut pck = pck;
        let p = pck.position();
        let n = pck.len();
        if n < 140 || n - 140 < p {
            return None;
        }
        pck.set_position(p + 116);
        let length = pck.read_u64();
        pck.set_position(p);
        proof {
            assert(length == declared_length_of(s, p0));
        }
        let rem = length % 16;
        if rem != 0 && length > u64::MAX - (16 - rem) {
            proof {
                assert(align16(length as int) > u64::MAX);
            }
            return None;
        }
        let length_aligned: u64 = if rem != 0 {
            length + (16 - rem)
        } else {
            length
        };
        let avail: usize = n - 140 - p;
        if length_aligned > avail as u64 {
            return None;
        }
        Some(DecryptContext::from(pck))
    }

    /// Decrypt the full ciphertext into the scratch buffer with `key` and
    /// the stored IV, and report whether the digest of the decrypted prefix
    /// of declared length equals the stored checksum. The immutable
    /// parameters are untouched; only the scratch buffer changes.
    pub fn try_decrypt(&mut self, key: &[u8]) -> (r: bool)
        requires
            old(self).wf(),
            key@.len() == 32,
        ensures
            final(self).wf(),
            final(self).same_params(*old(self)),
            r == old(self).key_matches(key@),
    {
        cfb_decrypt_scratch(self, key);
        let prefix = slice_subrange(self.data_copy.as_slice(), 0, self.real_length);
        let digest = md5_digest(prefix);
        bytes_eq(digest.as_slice(), self.data_md5.as_slice())
    }

    /// An independent context with the same immutable parameters and its
    /// own scratch buffer, so that concurrent callers can each run decrypt
    /// attempts of their own.
    pub fn duplicate(&self) -> (r: DecryptContext)
        requires
            self.wf(),
        ensures
            r.wf(),
            r.same_params(*self),
    {
        DecryptContext {
            encrypted_data: slice_to_vec(self.encrypted_data.as_slice()),
            real_length: self.real_length,
            data_copy: zero_vec(self.data_copy.len()),
            data_md5: slice_to_vec(self.data_md5.as_slice()),
            iv: slice_to_vec(self.iv.as_slice()),
        }
    }

    /// The declared (unpadded) payload length.
    pub fn declared_len(&self) -> (r: usize)
        ensures
            r == self.declared_length(),
    {
        self.real_length
    }

    /// The length of the block-aligned ciphertext.
    pub fn ciphertext_len(&self) -> (r: usize)
        ensures
            r == self.ciphertext_view().len(),
    {
        self.encrypted_data.len()
    }

    /// A copy of the stored checksum.
    pub fn checksum_bytes(&self) -> (r: Vec<u8>)
        ensures
            r@ == self.checksum_view(),
    {
        slice_to_vec(self.data_md5.as_slice())
    }

    /// A copy of the stored IV.
    pub fn iv_bytes(&self) -> (r: Vec<u8>)
        ensures
            r@ == self.iv_view(),
    {
        slice_to_vec(self.iv.as_slice())
    }
}

/// Relies on `cfb_mode::Decryptor::<aes::Aes256>` via
/// `cipher::AsyncStreamCipher::decrypt_b2b`: buffer-to-buffer CFB
/// decryption that fully overwrites the output buffer with a plaintext
/// determined by key, IV and ciphertext alone, leaving its length unchanged.
#[verifier::external_body]
fn cfb_decrypt_scratch(ctx: &mut DecryptContext, key: &[u8])
    requires
        old(ctx).wf(),
        key@.len() == 32,
    ensures
        final(ctx).same_params(*old(ctx)),
        final(ctx).scratch_view() == cfb_plain_of(
            key@,
            old(ctx).iv_view(),
            old(ctx).ciphertext_view(),
        ),
        final(ctx).scratch_view().len() == old(ctx).ciphertext_view().len(),
{
    let dec = <cfb_mode::Decryptor<aes::Aes256> as aes::cipher::KeyIvInit>::new(
        aes::cipher::generic_array::GenericArray::from_slice(key),
        aes::cipher::generic_array::GenericArray::from_slice(ctx.iv.as_slice()),
    );
    aes::cipher::AsyncStreamCipher::decrypt_b2b(
        dec,
        ctx.encrypted_data.as_slice(),
        ctx.data_copy.as_mut_slice(),
    ).expect("scratch buffer matches ciphertext length");
}

/// Relies on `md5::compute`: a 16-byte digest determined by the input
/// bytes alone.
#[verifier::external_body]
fn md5_digest(data: &[u8]) -> (r: Vec<u8>)
    ensures
        r@ == md5_of(data@),
        r@.len() == 16,
{
    md5::compute(data).0.to_vec()
}

/// Bit-for-bit equality of two byte slices.
pub fn bytes_eq(a: &[u8], b: &[u8]) -> (r: bool)
    ensures
        r == (a@ == b@),
{
    if a.len() != b.len() {
        return false;
    }
    let n = a.len();
    let mut i: usize = 0;
    while i < n
        invariant
            0 <= i <= n,
            n == a@.len(),
            n == b@.len(),
            forall|k: int| 0 <= k < i ==> a@[k] == b@[k],
        decreases n - i,
    {
        if a[i] != b[i] {
            proof {
                assert(a@[i as int] != b@[i as int]);
            }
            return false;
        }
        i += 1;
    }
    proof {
        assert(a@ =~= b@);
    }
    true
}

/// The aligned length is the smallest block multiple not under `l`: it is
/// itself a multiple of 16, is within 16 of `l`, and equals `l` exactly
/// when `l` is already a multiple of 16.
pub proof fn lemma_align16_properties(l: int)
    requires
        l >= 0,
    ensures
        align16(l) % 16 == 0,
        l <= align16(l) < l + 16,
        l % 16 == 0 ==> align16(l) == l,
{
    vstd::arithmetic::div_mod::lemma_fundamental_div_mod(l, 16);
    if l % 16 != 0 {
        let k = l / 16;
        assert(align16(l) == 16 * (k + 1));
        vstd::arithmetic::div_mod::lemma_mod_multiples_basic(k + 1, 16);
    }
}

} // verus!

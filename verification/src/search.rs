//! The brute-force search over candidate key windows of a host binary.
//!
//! The host bytes are padded with 32 trailing zero bytes so that the
//! highest candidate offset still admits a full 32-byte window. The offset
//! range is partitioned into contiguous chunks of `real_size / workers`
//! bytes; each chunk is scanned in descending offset order, testing every
//! 32-byte window against the container's checksum, and progress is
//! accounted in fixed-size batches.

use vstd::prelude::*;
use vstd::slice::slice_subrange;
use vstd::slice::slice_to_vec;
use crate::container::DecryptContext;
use crate::reader::zero_vec;

verus! {

/// Candidates tested between two flushes of the shared iteration counter.
pub const UPDATE_ITER_RATE: usize = 10000;

/// The 32-byte window of `host` that starts at offset `off`.
pub open spec fn window_of(host: Seq<u8>, off: int) -> Seq<u8> {
    host.subrange(off, off + 32)
}

/// The window at offset `off` of `host` decrypts the context's ciphertext
/// to a payload matching the stored checksum.
pub open spec fn hit_at(ctx: DecryptContext, host: Seq<u8>, off: int) -> bool {
    ctx.key_matches(window_of(host, off))
}

/// The first offset of chunk `i` when each chunk holds `cs` offsets.
pub open spec fn chunk_lo(i: int, cs: int) -> int {
    i * cs
}

/// One past the last offset of chunk `i`.
pub open spec fn chunk_hi(i: int, cs: int) -> int {
    (i + 1) * cs
}

/// The part of the offset range that the chunks of `workers` workers cover
/// together.
pub open spec fn covered(space: SearchSpace, workers: int) -> int {
    workers * (space.real_size_spec() / workers)
}

/// The read-only search space: the host binary's bytes padded with 32
/// trailing zero bytes, and the size of the legitimate search range.
pub struct SearchSpace {
    host_bytes: Vec<u8>,
    real_size: usize,
}

impl SearchSpace {
    /// The padded host bytes.
    pub closed spec fn host_view(self) -> Seq<u8> {
        self.host_bytes@
    }

    /// The portion of the host bytes that is legitimate search space.
    pub closed spec fn real_size_spec(self) -> int {
        self.real_size as int
    }

    /// The buffer extends exactly 32 bytes past the search range, and those
    /// 32 pad bytes are zero.
    pub open spec fn wf(self) -> bool {
        &&& self.host_view().len() == self.real_size_spec() + 32
        &&& forall|i: int|
            self.real_size_spec() <= i < self.host_view().len() ==> self.host_view()[i] == 0u8
    }

    /// Build the search space from the host bytes: the first `real_size`
    /// bytes are kept and 32 zero bytes are appended, so that the window at
    /// the last valid offset stays in bounds and reads zeros past the
    /// range. Bytes past `real_size` — in embedded mode, the archive's own
    /// bytes — are no key material and are left out.
    pub fn new(bytes: Vec<u8>, real_size: usize) -> (r: SearchSpace)
        requires
            real_size <= bytes@.len(),
            real_size + 32 <= usize::MAX,
        ensures
            r.wf(),
            r.real_size_spec() == real_size,
            forall|i: int| 0 <= i < real_size ==> r.host_view()[i] == bytes@[i],
    {
        let mut host: Vec<u8> = Vec::new();
        let mut i: usize = 0;
        while i < real_size
            invariant
                0 <= i <= real_size <= bytes@.len(),
                host@.len() == i,
                forall|k: int| 0 <= k < i ==> host@[k] == bytes@[k],
            decreases real_size - i,
        {
            host.push(bytes[i]);
            i += 1;
        }
        let mut j: usize = 0;
        while j < 32
            invariant
                0 <= j <= 32,
                real_size + 32 <= usize::MAX,
                host@.len() == real_size + j,
                forall|k: int| 0 <= k < real_size ==> host@[k] == bytes@[k],
                forall|k: int| real_size <= k < real_size + j ==> host@[k] == 0u8,
            decreases 32 - j,
        {
            host.push(0u8);
            j += 1;
        }
        SearchSpace { host_bytes: host, real_size }
    }

    /// The size of the legitimate search range.
    pub fn real_size(&self) -> (r: usize)
        ensures
            r == self.real_size_spec(),
    {
        self.real_size
    }

    /// The candidate key at `offset`: the 32 bytes starting there. The
    /// padding guarantees the read stays within the buffer for every offset
    /// below `real_size`.
    pub fn window(&self, offset: usize) -> (r: Vec<u8>)
        requires
            self.wf(),
            offset < self.real_size_spec(),
        ensures
            r@ == window_of(self.host_view(), offset as int),
            r@.len() == 32,
    {
        proof {
            assert(self.host_bytes.len() == self.host_bytes@.len());
        }
        slice_to_vec(slice_subrange(self.host_bytes.as_slice(), offset, offset + 32))
    }
}

/// Bounds safety: every candidate offset below `real_size`, the maximum
/// `real_size - 1` included, admits a full 32-byte window inside the
/// padded host buffer.
pub proof fn lemma_window_in_bounds(space: SearchSpace, offset: int)
    requires
        space.wf(),
        0 <= offset < space.real_size_spec(),
    ensures
        offset + 32 <= space.host_view().len(),
{
}

/// Partition coverage: with chunk size `s / n`, consecutive chunks are
/// contiguous (hence pairwise disjoint), together they cover exactly
/// `[0, n*(s/n))`, a subset of `[0, s)`, and the `s % n` trailing offsets
/// `[n*(s/n), s)` belong to no chunk.
pub proof fn lemma_partition_coverage(s: int, n: int)
    requires
        s >= 0,
        n >= 1,
    ensures
        forall|i: int|
            0 <= i < n ==> 0 <= #[trigger] chunk_lo(i, s / n) && chunk_hi(i, s / n) <= n * (s
                / n),
        forall|i: int| 0 <= i < n ==> #[trigger] chunk_hi(i, s / n) == chunk_lo(i + 1, s / n),
        forall|i: int, j: int|
            0 <= i < j < n ==> #[trigger] chunk_hi(i, s / n) <= #[trigger] chunk_lo(j, s / n),
        chunk_lo(0, s / n) == 0,
        chunk_hi(n - 1, s / n) == n * (s / n),
        n * (s / n) <= s,
        s - n * (s / n) == s % n < n,
{
    let cs = s / n;
    vstd::arithmetic::div_mod::lemma_div_pos_is_pos(s, n);
    vstd::arithmetic::div_mod::lemma_fundamental_div_mod(s, n);
    vstd::arithmetic::div_mod::lemma_mod_bound(s, n);
    assert forall|i: int| 0 <= i < n implies 0 <= #[trigger] chunk_lo(i, cs) && chunk_hi(i, cs)
        <= n * cs by {
        vstd::arithmetic::mul::lemma_mul_nonnegative(i, cs);
        vstd::arithmetic::mul::lemma_mul_inequality(i + 1, n, cs);
    }
    assert forall|i: int, j: int| 0 <= i < j < n implies #[trigger] chunk_hi(i, cs)
        <= #[trigger] chunk_lo(j, cs) by {
        vstd::arithmetic::mul::lemma_mul_inequality(i + 1, j, cs);
    }
}

/// The bounds of chunk `i`: the contiguous offset range `[i*cs, (i+1)*cs)`.
pub fn chunk_bounds(i: usize, cs: usize) -> (r: (usize, usize))
    requires
        i < usize::MAX,
        (i + 1) * cs <= usize::MAX,
    ensures
        r.0 == chunk_lo(i as int, cs as int),
        r.1 == chunk_hi(i as int, cs as int),
{
    proof {
        vstd::arithmetic::mul::lemma_mul_inequality(i as int, i as int + 1, cs as int);
        vstd::arithmetic::mul::lemma_mul_is_distributive_add_other_way(cs as int, i as int, 1);
    }
    (i * cs, i * cs + cs)
}

/// Whether an offset hits depends only on the context's immutable
/// parameters, not on its scratch buffer: contexts that agree on the
/// parameters agree on every hit.
pub proof fn lemma_same_params_same_hits(a: DecryptContext, b: DecryptContext, host: Seq<u8>)
    requires
        a.same_params(b),
    ensures
        forall|o: int| hit_at(a, host, o) == #[trigger] hit_at(b, host, o),
{
}

/// What one bounded scanning step reports back: where the scan stopped,
/// how many candidates it tested, and the key it found, if any.
pub struct BatchResult {
    pub next_cursor: usize,
    pub tested: usize,
    pub found: Option<Vec<u8>>,
}

/// Scan candidate offsets downward from `cursor` (exclusive) toward `lo`,
/// testing at most `limit` of them. The scan stops early at the highest
/// offset whose window decrypts to a payload matching the checksum, and
/// reports that window as the found key; otherwise it stops after `limit`
/// candidates or at `lo`, whichever comes first, having established that
/// no tested offset matches.
pub fn scan_batch(
    ctx: &mut DecryptContext,
    space: &SearchSpace,
    lo: usize,
    cursor: usize,
    limit: usize,
) -> (r: BatchResult)
    requires
        old(ctx).wf(),
        space.wf(),
        lo <= cursor <= space.real_size_spec(),
    ensures
        final(ctx).wf(),
        final(ctx).same_params(*old(ctx)),
        lo <= r.next_cursor <= cursor,
        r.tested == cursor - r.next_cursor,
        r.tested <= limit,
        match r.found {
            Some(k) => {
                &&& r.next_cursor < cursor
                &&& k@ == window_of(space.host_view(), r.next_cursor as int)
                &&& hit_at(*old(ctx), space.host_view(), r.next_cursor as int)
                &&& forall|o: int|
                    r.next_cursor < o < cursor ==> !hit_at(*old(ctx), space.host_view(), o)
            },
            None => {
                &&& (r.next_cursor == lo || r.tested == limit)
                &&& forall|o: int|
                    r.next_cursor <= o < cursor ==> !hit_at(*old(ctx), space.host_view(), o)
            },
        },
{
    let mut cur = cursor;
    let mut tested: usize = 0;
    while cur > lo && tested < limit
        invariant
            lo <= cur <= cursor <= space.real_size_spec(),
            tested == cursor - cur,
            tested <= limit,
            space.wf(),
            ctx.wf(),
            ctx.same_params(*old(ctx)),
            forall|o: int| cur <= o < cursor ==> !hit_at(*old(ctx), space.host_view(), o),
        decreases cur,
    {
        cur = cur - 1;
        let key = space.window(cur);
        let ok = ctx.try_decrypt(key.as_slice());
        tested = tested + 1;
        if ok {
            return BatchResult { next_cursor: cur, tested, found: Some(key) };
        }
    }
    BatchResult { next_cursor: cur, tested, found: None }
}

/// Scan a whole chunk `[lo, hi)` of candidate offsets in descending order,
/// in batches of `UPDATE_ITER_RATE`. `Some((off, key))` gives the highest
/// matching offset in the chunk and its window; `None` means no offset in
/// the chunk matches.
pub fn scan_chunk(ctx: &mut DecryptContext, space: &SearchSpace, lo: usize, hi: usize) -> (r:
    Option<(usize, Vec<u8>)>)
    requires
        old(ctx).wf(),
        space.wf(),
        lo <= hi <= space.real_size_spec(),
    ensures
        final(ctx).wf(),
        final(ctx).same_params(*old(ctx)),
        match r {
            Some(pair) => {
                &&& lo <= pair.0 < hi
                &&& pair.1@ == window_of(space.host_view(), pair.0 as int)
                &&& hit_at(*old(ctx), space.host_view(), pair.0 as int)
                &&& forall|o: int| pair.0 < o < hi ==> !hit_at(*old(ctx), space.host_view(), o)
            },
            None => forall|o: int| lo <= o < hi ==> !hit_at(*old(ctx), space.host_view(), o),
        },
{
    let mut cur = hi;
    loop
        invariant
            lo <= cur <= hi <= space.real_size_spec(),
            space.wf(),
            ctx.wf(),
            ctx.same_params(*old(ctx)),
            forall|o: int| cur <= o < hi ==> !hit_at(*old(ctx), space.host_view(), o),
        decreases cur,
    {
        if cur == lo {
            return None;
        }
        let ghost pre = *ctx;
        let b = scan_batch(ctx, space, lo, cur, UPDATE_ITER_RATE);
        proof {
            lemma_same_params_same_hits(pre, *old(ctx), space.host_view());
        }
        match b.found {
            Some(k) => {
                return Some((b.next_cursor, k));
            },
            None => {
                cur = b.next_cursor;
            },
        }
    }
}

/// The sixteen lowercase hexadecimal digits, in value order.
pub open spec fn hex_digits() -> Seq<char> {
    seq!['0', '1', '2', '3', '4', '5', '6', '7', '8', '9', 'a', 'b', 'c', 'd', 'e', 'f']
}

/// The lowercase hexadecimal rendering of a byte sequence: two digits per
/// byte, high nibble first.
pub open spec fn hex_of(data: Seq<u8>) -> Seq<char>
    decreases data.len(),
{
    if data.len() == 0 {
        Seq::empty()
    } else {
        seq![
            hex_digits()[data[0] as int / 16],
            hex_digits()[data[0] as int % 16],
        ] + hex_of(data.drop_first())
    }
}

/// Relies on `hex::encode`: each byte becomes two lowercase hexadecimal
/// digits, high nibble first.
#[verifier::external_body]
fn hex_encode(data: &Vec<u8>) -> (r: String)
    ensures
        r@ == hex_of(data@),
{
    hex::encode(data.as_slice())
}

/// The mutable state shared by workers: the batched iteration counter, and
/// the found flag with the recorded key, written together at most once.
pub struct SearchState {
    iterations: u64,
    found: bool,
    found_key: Option<Vec<u8>>,
}

impl SearchState {
    /// The number of candidates accounted so far.
    pub closed spec fn iterations_spec(self) -> int {
        self.iterations as int
    }

    /// Whether a key has been recorded.
    pub closed spec fn found_spec(self) -> bool {
        self.found
    }

    /// The recorded key, if any.
    pub closed spec fn found_key_spec(self) -> Option<Seq<u8>> {
        match self.found_key {
            Some(k) => Some(k@),
            None => None,
        }
    }

    /// A key is recorded exactly when the flag stands.
    pub open spec fn wf(self) -> bool {
        self.found_spec() <==> self.found_key_spec() is Some
    }

    /// Fresh state: nothing counted, nothing found.
    pub fn new() -> (r: SearchState)
        ensures
            r.wf(),
            r.iterations_spec() == 0,
            !r.found_spec(),
            r.found_key_spec() is None,
    {
        SearchState { iterations: 0, found: false, found_key: None }
    }

    /// Flush a worker's local candidate count into the shared counter. The
    /// counter never decreases; it grows by exactly `n` whenever that does
    /// not overflow, and saturates otherwise. The found flag and key are
    /// untouched.
    pub fn add_iterations(&mut self, n: u64)
        ensures
            final(self).wf() == old(self).wf(),
            final(self).iterations_spec() >= old(self).iterations_spec(),
            old(self).iterations_spec() + n <= u64::MAX ==> final(self).iterations_spec() == old(
                self,
            ).iterations_spec() + n,
            final(self).found_spec() == old(self).found_spec(),
            final(self).found_key_spec() == old(self).found_key_spec(),
    {
        if self.iterations <= u64::MAX - n {
            self.iterations = self.iterations + n;
        } else {
            self.iterations = u64::MAX;
        }
    }

    /// Record a verified key. The first writer wins: when a key is already
    /// recorded, the state is left exactly as it was, so at most one key is
    /// ever recorded and it is never overwritten.
    pub fn record_key(&mut self, key: Vec<u8>)
        requires
            old(self).wf(),
        ensures
            final(self).wf(),
            old(self).found_spec() ==> *final(self) == *old(self),
            !old(self).found_spec() ==> {
                &&& final(self).found_spec()
                &&& final(self).found_key_spec() == Some(key@)
                &&& final(self).iterations_spec() == old(self).iterations_spec()
            },
    {
        if !self.found {
            self.found_key = Some(key);
            self.found = true;
        }
    }

    /// Whether some worker has recorded a key.
    pub fn is_found(&self) -> (r: bool)
        ensures
            r == self.found_spec(),
    {
        self.found
    }

    /// The number of candidates accounted so far.
    pub fn iteration_count(&self) -> (r: u64)
        ensures
            r == self.iterations_spec(),
    {
        self.iterations
    }

    /// A copy of the recorded key, if any.
    pub fn found_key_bytes(&self) -> (r: Option<Vec<u8>>)
        ensures
            match r {
                Some(k) => self.found_key_spec() == Some(k@),
                None => self.found_key_spec() is None,
            },
    {
        match &self.found_key {
            Some(k) => Some(slice_to_vec(k.as_slice())),
            None => None,
        }
    }

    /// The recorded key rendered as lowercase hexadecimal, if any.
    pub fn found_key_hex(&self) -> (r: Option<String>)
        ensures
            match r {
                Some(h) => self.found_key_spec() matches Some(k) && h@ == hex_of(k),
                None => self.found_key_spec() is None,
            },
    {
        match &self.found_key {
            Some(k) => Some(hex_encode(k)),
            None => None,
        }
    }
}

/// Drive the whole search over the covered range `[0, workers * (real_size
/// / workers))` in descending offset order, one chunk after the other,
/// recording the found key and the candidate count in `state`. `Some(off)`
/// gives the highest matching offset in the covered range; the recorded key
/// is its window and the counter holds the candidates tested down to it.
/// `None` means no covered offset matches, with the counter holding the
/// whole covered range.
pub fn run_search(
    ctx: &mut DecryptContext,
    space: &SearchSpace,
    workers: usize,
    state: &mut SearchState,
) -> (r: Option<usize>)
    requires
        old(ctx).wf(),
        space.wf(),
        workers >= 1,
        old(state).wf(),
        !old(state).found_spec(),
        old(state).iterations_spec() == 0,
    ensures
        final(ctx).wf(),
        final(ctx).same_params(*old(ctx)),
        final(state).wf(),
        match r {
            Some(off) => {
                &&& 0 <= off < covered(*space, workers as int)
                &&& hit_at(*old(ctx), space.host_view(), off as int)
                &&& forall|o: int|
                    off < o < covered(*space, workers as int) ==> !hit_at(
                        *old(ctx),
                        space.host_view(),
                        o,
                    )
                &&& final(state).found_spec()
                &&& final(state).found_key_spec() == Some(
                    window_of(space.host_view(), off as int),
                )
                &&& final(state).iterations_spec() == covered(*space, workers as int) - off
            },
            None => {
                &&& forall|o: int|
                    0 <= o < covered(*space, workers as int) ==> !hit_at(
                        *old(ctx),
                        space.host_view(),
                        o,
                    )
                &&& !final(state).found_spec()
                &&& final(state).iterations_spec() == covered(*space, workers as int)
            },
        },
{
    let sz = space.real_size();
    let cs = sz / workers;
    proof {
        vstd::arithmetic::div_mod::lemma_fundamental_div_mod(sz as int, workers as int);
        vstd::arithmetic::div_mod::lemma_mod_bound(sz as int, workers as int);
        vstd::arithmetic::div_mod::lemma_div_pos_is_pos(sz as int, workers as int);
        assert(workers * (sz as int / workers as int) <= sz as int);
        assert(cs as int * workers as int <= sz as int) by {
            vstd::arithmetic::mul::lemma_mul_is_commutative(cs as int, workers as int);
        }
    }
    let total = cs * workers;
    match scan_chunk(ctx, space, 0, total) {
        Some((off, key)) => {
            state.record_key(key);
            state.add_iterations((total - off) as u64);
            Some(off)
        },
        None => {
            state.add_iterations(total as u64);
            None
        },
    }
}

} // verus!

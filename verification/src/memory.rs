//! The compile-time model of EVM memory: a dense region that grows by whole
//! chunks, and a sparse map of words beyond it.

use std::collections::HashMap;
use vstd::prelude::*;

verus! {

/// Bytes per word.
pub const WORD_SIZE: usize = 32;

/// Bytes per chunk of the dense region: 1024 words.
pub const CHUNK_SIZE: usize = 1024 * WORD_SIZE;

/// The offset of the word that holds byte `index`.
pub open spec fn align_down(index: int) -> int {
    index - index % 32
}

/// A word of zeros.
pub open spec fn zero_word() -> Seq<u8> {
    Seq::new(32, |i: int| 0u8)
}

/// What a memory holds: the bytes of the dense region, the words stored
/// beyond it by their offsets, and the size in bytes.
pub struct MemoryView {
    pub dense: Seq<u8>,
    pub sparse: Map<int, Seq<u8>>,
    pub size: nat,
}

impl MemoryView {
    /// The dense region and the size are whole numbers of words, and every
    /// sparse word is a whole word at an aligned offset beyond the dense
    /// region.
    pub open spec fn wf(self) -> bool {
        &&& self.dense.len() % 32 == 0
        &&& self.size % 32 == 0
        &&& forall|k: int| #[trigger]
            self.sparse.contains_key(k) ==> k % 32 == 0 && k >= self.dense.len()
                && self.sparse[k].len() == 32
    }

    /// The word that holds byte `index`: looked up in the dense region where
    /// that covers it, else among the sparse words, else zeros.
    pub open spec fn read(self, index: int) -> Seq<u8> {
        let a = align_down(index);
        if a < self.dense.len() {
            self.dense.subrange(a, a + 32)
        } else if self.sparse.contains_key(a) {
            self.sparse[a]
        } else {
            zero_word()
        }
    }

    /// The memory after `word` was stored over the word that holds byte
    /// `index`. The size grows to the end of that word where it lay below.
    pub open spec fn write(self, index: int, word: Seq<u8>) -> MemoryView {
        let a = align_down(index);
        MemoryView {
            dense: if a < self.dense.len() {
                self.dense.subrange(0, a) + word + self.dense.subrange(
                    a + 32,
                    self.dense.len() as int,
                )
            } else {
                self.dense
            },
            sparse: if a < self.dense.len() {
                self.sparse
            } else {
                self.sparse.insert(a, word)
            },
            size: if a >= self.size {
                (a + 32) as nat
            } else {
                self.size
            },
        }
    }

    /// The least multiple of the chunk size that covers `bytes` bytes.
    pub open spec fn chunks_for(bytes: int) -> int {
        (bytes + CHUNK_SIZE - 1) / (CHUNK_SIZE as int) * CHUNK_SIZE
    }

    /// A request to cover `new_size` bytes, rounded up to whole words.
    pub open spec fn rounded(new_size: int) -> int {
        (new_size + 31) / 32 * 32
    }

    /// The length of the dense region after a request to cover `new_size`
    /// bytes: whole chunks that cover the rounded request, and never less
    /// than before.
    pub open spec fn dense_after(self, new_size: int) -> int {
        if Self::rounded(new_size) > self.size && Self::chunks_for(Self::rounded(new_size))
            > self.dense.len() {
            Self::chunks_for(Self::rounded(new_size))
        } else {
            self.dense.len() as int
        }
    }

    /// The memory after a request to cover `new_size` bytes. Where the
    /// rounded request exceeds the size, the size becomes it and the dense
    /// region grows by whole chunks until it covers it. Every byte that the
    /// dense region newly covers is the byte that was read there before, and
    /// the sparse words that it now covers leave the sparse map.
    pub open spec fn expand(self, new_size: int) -> MemoryView {
        if Self::rounded(new_size) > self.size {
            MemoryView {
                dense: Seq::new(
                    self.dense_after(new_size) as nat,
                    |i: int|
                        if i < self.dense.len() {
                            self.dense[i]
                        } else {
                            self.read(i)[i % 32]
                        },
                ),
                sparse: self.sparse.restrict(Set::new(|k: int| k >= self.dense_after(new_size))),
                size: Self::rounded(new_size) as nat,
            }
        } else {
            self
        }
    }
}

/// The sparse words of a memory by their offsets.
spec fn sparse_view(m: Map<usize, [u8; 32]>) -> Map<int, Seq<u8>> {
    Map::new(
        |k: int| 0 <= k <= usize::MAX && m.contains_key(k as usize),
        |k: int| m[k as usize]@,
    )
}

/// The byte at offset `i` as the sparse words give it: zero where no word is
/// stored for it.
spec fn sparse_byte(m: Map<usize, [u8; 32]>, i: int) -> u8 {
    if m.contains_key(align_down(i) as usize) {
        m[align_down(i) as usize]@[i % 32]
    } else {
        0
    }
}

/// Byte-addressed memory read and written by 32-byte words.
pub struct Memory {
    chunks: Vec<Vec<u8>>,
    sparse: HashMap<usize, [u8; 32]>,
    size: usize,
}

impl View for Memory {
    type V = MemoryView;

    closed spec fn view(&self) -> MemoryView {
        MemoryView {
            dense: flatten(self.chunks@),
            sparse: sparse_view(self.sparse@),
            size: self.size as nat,
        }
    }
}

impl Memory {
    /// Every chunk is whole, the dense region can be addressed, the size is a
    /// whole number of words, and every sparse word lies at an aligned
    /// offset beyond the dense region.
    pub closed spec fn wf(&self) -> bool {
        &&& forall|c: int| 0 <= c < self.chunks.len() ==> (#[trigger] self.chunks[c]).len() == CHUNK_SIZE
        &&& self.chunks.len() * CHUNK_SIZE <= usize::MAX
        &&& self.size % 32 == 0
        &&& forall|k: usize| #[trigger]
            self.sparse@.contains_key(k) ==> k % 32 == 0 && k >= self.chunks.len() * CHUNK_SIZE
    }

    /// What well-formedness says of the view.
    pub proof fn lemma_wf_view(&self)
        requires
            self.wf(),
        ensures
            self@.wf(),
            self@.dense.len() % (CHUNK_SIZE as nat) == 0,
            self@.dense.len() <= usize::MAX,
            self@.size <= usize::MAX,
            forall|k: int| #[trigger] self@.sparse.contains_key(k) ==> k <= usize::MAX,
    {
        lemma_whole_chunks(self.chunks.len() as int);
        assert forall|k: int| #[trigger] self@.sparse.contains_key(k) implies k % 32 == 0 && k
            >= self@.dense.len() && self@.sparse[k].len() == 32 && k <= usize::MAX by {
            assert(self.sparse@.contains_key(k as usize));
        }
    }

    /// A memory of size zero whose dense region is one zeroed chunk.
    pub fn new() -> (r: Self)
        ensures
            r.wf(),
            r@.size == 0,
            r@.dense == Seq::new(CHUNK_SIZE as nat, |i: int| 0u8),
            r@.sparse == Map::<int, Seq<u8>>::empty(),
            forall|index: int| 0 <= index ==> #[trigger] r@.read(index) == zero_word(),
    {
        let mut chunks: Vec<Vec<u8>> = Vec::new();
        chunks.push(zeroed_chunk());
        broadcast use vstd::std_specs::hash::group_hash_axioms;

        let r = Memory { chunks, sparse: HashMap::new(), size: 0 };
        assert(r@.dense =~= Seq::new(CHUNK_SIZE as nat, |i: int| 0u8));
        assert(r@.sparse =~= Map::<int, Seq<u8>>::empty());
        assert forall|index: int| 0 <= index implies #[trigger] r@.read(index) == zero_word() by {
            if align_down(index) < r@.dense.len() {
                assert(r@.dense.subrange(align_down(index), align_down(index) + 32)
                    =~= zero_word());
            }
        }
        r
    }

    /// The word that holds byte `index`.
    pub fn read_word(&self, index: usize) -> (r: [u8; 32])
        requires
            self.wf(),
        ensures
            r@ == self@.read(index as int),
    {
        let aligned = index - index % 32;
        if aligned < self.chunks.len() * CHUNK_SIZE {
            self.read_dense(aligned)
        } else {
            self.read_sparse(aligned)
        }
    }

    fn read_dense(&self, aligned: usize) -> (r: [u8; 32])
        requires
            self.wf(),
            aligned % 32 == 0,
            aligned < self.chunks.len() * CHUNK_SIZE,
        ensures
            r@ == self@.dense.subrange(aligned as int, aligned + 32),
            aligned < self@.dense.len(),
    {
        let ci = aligned / CHUNK_SIZE;
        let start = aligned % CHUNK_SIZE;
        proof {
            lemma_word_in_chunk(aligned as int, self.chunks.len() as int);
        }
        let chunk = &self.chunks[ci];
        let mut out = [0u8; 32];
        let mut i: usize = 0;
        while i < 32
            invariant
                i <= 32,
                start + 32 <= chunk.len(),
                forall|j: int| 0 <= j < i ==> out[j] == chunk[start + j],
            decreases 32 - i,
        {
            out[i] = chunk[start + i];
            i += 1;
        }
        proof {
            let word = self@.dense.subrange(aligned as int, aligned + 32);
            assert forall|j: int| 0 <= j < 32 implies out@[j] == word[j] by {
                lemma_flatten_byte(self.chunks@, aligned as int, j);
            }
            assert(out@ =~= word);
        }
        out
    }

    fn read_sparse(&self, aligned: usize) -> (r: [u8; 32])
        ensures
            r@ == (if self@.sparse.contains_key(aligned as int) {
                self@.sparse[aligned as int]
            } else {
                zero_word()
            }),
    {
        broadcast use vstd::std_specs::hash::group_hash_axioms;

        match self.sparse.get(&aligned) {
            Some(w) => *w,
            None => {
                let out = [0u8; 32];
                assert(out@ =~= zero_word());
                out
            },
        }
    }

    /// Stores `value` over the word that holds byte `index`.
    pub fn write_word(&mut self, index: usize, value: [u8; 32])
        requires
            old(self).wf(),
            align_down(index as int) + 32 <= usize::MAX,
        ensures
            final(self).wf(),
            final(self)@ == old(self)@.write(index as int, value@),
            forall|k: int|
                0 <= k < 32 ==> #[trigger] final(self)@.read(align_down(index as int) + k)
                    == value@,
    {
        proof {
            self.lemma_wf_view();
            assert forall|k: int| 0 <= k < 32 implies #[trigger] self@.write(
                index as int,
                value@,
            ).read(align_down(index as int) + k) == value@ by {
                law_aligned_write_then_read(self@, align_down(index as int), k, value@);
            }
        }
        let aligned = index - index % 32;
        if aligned >= self.size {
            self.size = aligned + WORD_SIZE;
        }
        if aligned < self.chunks.len() * CHUNK_SIZE {
            self.write_dense(aligned, &value);
        } else {
            self.write_sparse(aligned, value);
        }
    }

    fn write_dense(&mut self, aligned: usize, value: &[u8; 32])
        requires
            old(self).wf(),
            aligned % 32 == 0,
            aligned < old(self).chunks.len() * CHUNK_SIZE,
        ensures
            final(self).wf(),
            aligned < old(self)@.dense.len(),
            final(self)@.dense == old(self)@.dense.subrange(0, aligned as int) + value@ + old(
                self,
            )@.dense.subrange(aligned + 32, old(self)@.dense.len() as int),
            final(self)@.sparse == old(self)@.sparse,
            final(self)@.size == old(self)@.size,
    {
        let ci = aligned / CHUNK_SIZE;
        let start = aligned % CHUNK_SIZE;
        proof {
            lemma_word_in_chunk(aligned as int, self.chunks.len() as int);
        }
        store_in_chunk(&mut self.chunks[ci], start, value);
        proof {
            let before = old(self)@.dense;
            let want = before.subrange(0, aligned as int) + value@ + before.subrange(
                aligned + 32,
                before.len() as int,
            );
            assert(self.chunks@.len() == old(self).chunks@.len());
            assert(aligned == ci * 32768 + start);
            assert forall|j: int| 0 <= j < want.len() implies self@.dense[j] == want[j] by {
                lemma_flatten_update(old(self).chunks@, self.chunks@, ci as int, start as int, j);
            }
            assert(self@.dense =~= want);
        }
    }

    fn write_sparse(&mut self, aligned: usize, value: [u8; 32])
        requires
            old(self).wf(),
            aligned % 32 == 0,
            aligned >= old(self).chunks.len() * CHUNK_SIZE,
        ensures
            final(self).wf(),
            final(self)@.dense == old(self)@.dense,
            final(self)@.sparse == old(self)@.sparse.insert(aligned as int, value@),
            final(self)@.size == old(self)@.size,
    {
        broadcast use vstd::std_specs::hash::group_hash_axioms;

        self.sparse.insert(aligned, value);
        assert(self@.sparse =~= old(self)@.sparse.insert(aligned as int, value@));
    }

    /// Grows the memory to cover `new_size` bytes, rounded up to whole words:
    /// where that exceeds the size, the size becomes it and chunks are added
    /// until the dense region covers it. Each word kept sparsely at an offset
    /// that a new chunk covers moves into that chunk, so no read changes. The
    /// memory never shrinks.
    pub fn expand(&mut self, new_size: usize)
        requires
            old(self).wf(),
            new_size + 31 + CHUNK_SIZE <= usize::MAX,
        ensures
            final(self).wf(),
            final(self)@ == old(self)@.expand(new_size as int),
            forall|index: int|
                0 <= index ==> #[trigger] final(self)@.read(index) == old(self)@.read(index),
            final(self)@.size == (if MemoryView::rounded(new_size as int) > old(self)@.size {
                MemoryView::rounded(new_size as int) as nat
            } else {
                old(self)@.size
            }),
    {
        let aligned_new_size = (new_size + 31) / 32 * 32;
        if aligned_new_size > self.size {
            let required_chunks = (aligned_new_size + CHUNK_SIZE - 1) / CHUNK_SIZE;
            self.grow_dense(required_chunks);
            let ghost mid = *self;
            self.size = aligned_new_size;
            proof {
                lemma_grown_whatever_size(old(self), &mid, self);
                lemma_grown(old(self), self, new_size as int);
            }
        }
        proof {
            old(self).lemma_wf_view();
            assert forall|index: int| 0 <= index implies #[trigger] self@.read(index) == old(
                self,
            )@.read(index) by {
                law_expand_keeps_reads(old(self)@, new_size as int, index);
            }
        }
    }

    /// Adds chunks until the dense region has `required_chunks` of them.
    /// Each new chunk takes over the sparse words at the offsets it covers.
    fn grow_dense(&mut self, required_chunks: usize)
        requires
            old(self).wf(),
            required_chunks * CHUNK_SIZE <= usize::MAX,
        ensures
            final(self).wf(),
            grown(old(self), final(self)),
            final(self).size == old(self).size,
            final(self).chunks@.len() == (if required_chunks > old(self).chunks@.len() {
                required_chunks as nat
            } else {
                old(self).chunks@.len()
            }),
    {
        proof {
            lemma_grown_same(self);
        }
        while self.chunks.len() < required_chunks
            invariant
                old(self).wf(),
                self.wf(),
                grown(old(self), self),
                self.size == old(self).size,
                old(self).chunks@.len() <= self.chunks@.len(),
                self.chunks.len() <= required_chunks || self.chunks.len() == old(self).chunks.len(),
                required_chunks * CHUNK_SIZE <= usize::MAX,
            decreases required_chunks - self.chunks.len(),
        {
            let ghost mid = *self;
            assert((self.chunks.len() + 1) * CHUNK_SIZE <= required_chunks * CHUNK_SIZE)
                by (nonlinear_arith)
                requires
                    self.chunks.len() + 1 <= required_chunks,
            ;
            self.add_chunk();
            proof {
                lemma_grown_further(old(self), &mid, self);
            }
        }
    }

    /// Adds one chunk to the dense region, gathered from the sparse words at
    /// the offsets it covers.
    fn add_chunk(&mut self)
        requires
            old(self).wf(),
            (old(self).chunks@.len() + 1) * CHUNK_SIZE <= usize::MAX,
        ensures
            final(self).wf(),
            grown(old(self), final(self)),
            final(self).size == old(self).size,
            final(self).chunks@.len() == old(self).chunks@.len() + 1,
    {
        let n = self.chunks.len();
        assert(CHUNK_SIZE == 32768);
        let base = n * CHUNK_SIZE;
        let chunk = gather_chunk(&mut self.sparse, base);
        let ghost bytes = chunk@;
        self.chunks.push(chunk);
        proof {
            lemma_grown_step(old(self), self, bytes);
        }
    }

    /// The byte at `index`.
    pub fn read_byte(&self, index: usize) -> (r: u8)
        requires
            self.wf(),
        ensures
            r == self@.read(index as int)[index as int % 32],
    {
        let word = self.read_word(index);
        word[index % WORD_SIZE]
    }

    /// Stores `value` at `index` and leaves the rest of its word as it was.
    pub fn write_byte(&mut self, index: usize, value: u8)
        requires
            old(self).wf(),
            align_down(index as int) + 32 <= usize::MAX,
        ensures
            final(self).wf(),
            final(self)@ == old(self)@.write(
                index as int,
                old(self)@.read(index as int).update(index as int % 32, value),
            ),
    {
        let mut word = self.read_word(index);
        word[index % WORD_SIZE] = value;
        self.write_word(index, word);
    }

    /// The number of chunks of the dense region.
    pub fn chunk_count(&self) -> (r: usize)
        requires
            self.wf(),
        ensures
            r * CHUNK_SIZE == self@.dense.len(),
    {
        self.chunks.len()
    }

    /// The size in bytes: the end of the highest word touched so far.
    pub fn size(&self) -> (r: usize)
        ensures
            r == self@.size,
    {
        self.size
    }
}

/// The bytes of the chunks, one chunk after the other.
pub closed spec fn flatten(chunks: Seq<Vec<u8>>) -> Seq<u8> {
    Seq::new((chunks.len() * 32768) as nat, |i: int| chunks[i / 32768][i % 32768])
}

/// A word that begins inside a dense region of `n` chunks lies whole within
/// one of them.
proof fn lemma_word_in_chunk(aligned: int, n: int)
    requires
        0 <= aligned < n * CHUNK_SIZE,
        aligned % 32 == 0,
    ensures
        CHUNK_SIZE == 32768,
        0 <= aligned / 32768 < n,
        aligned % 32768 + 32 <= 32768,
        aligned + 32 <= n * 32768,
{
}

/// Where byte `j` of the word at `aligned` lies among the chunks.
proof fn lemma_flatten_byte(chunks: Seq<Vec<u8>>, aligned: int, j: int)
    requires
        0 <= aligned < chunks.len() * 32768,
        aligned % 32 == 0,
        0 <= j < 32,
    ensures
        aligned + j < flatten(chunks).len(),
        flatten(chunks)[aligned + j] == chunks[aligned / 32768][aligned % 32768 + j],
{
    assert((aligned + j) / 32768 == aligned / 32768);
    assert((aligned + j) % 32768 == aligned % 32768 + j);
}

/// The byte at position `j` of the flattened chunks.
proof fn lemma_flatten_index(chunks: Seq<Vec<u8>>, j: int)
    requires
        0 <= j < chunks.len() * 32768,
    ensures
        flatten(chunks).len() == chunks.len() * 32768,
        0 <= j / 32768 < chunks.len(),
        0 <= j % 32768 < 32768,
        flatten(chunks)[j] == chunks[j / 32768]@[j % 32768],
{
}

/// A word that was written is the word read back from any byte offset within
/// it: a read returns the whole word that holds the offset.
pub proof fn law_read_after_write(m: MemoryView, offset: int, k: int, word: Seq<u8>)
    requires
        0 <= offset,
        0 <= k < 32,
        align_down(offset + k) == align_down(offset),
        word.len() == 32,
        m.dense.len() % 32 == 0,
    ensures
        m.write(offset, word).read(offset + k) == word,
{
    let a = align_down(offset);
    let after = m.write(offset, word);
    if a < m.dense.len() {
        assert(after.dense.subrange(a, a + 32) =~= word);
    }
}

/// A write leaves every other word as it was.
pub proof fn law_write_keeps_other_words(m: MemoryView, offset: int, other: int, word: Seq<u8>)
    requires
        0 <= offset,
        0 <= other,
        align_down(other) != align_down(offset),
        word.len() == 32,
        m.dense.len() % 32 == 0,
    ensures
        m.write(offset, word).read(other) == m.read(other),
{
    let a = align_down(offset);
    let b = align_down(other);
    let after = m.write(offset, word);
    if a < m.dense.len() {
        assert(after.dense.len() == m.dense.len());
        if b < m.dense.len() {
            assert(after.dense.subrange(b, b + 32) =~= m.dense.subrange(b, b + 32));
        }
    }
}

/// How a memory whose dense region has grown relates to what it was: the
/// chunks it had are as they were, each new chunk holds the bytes that the
/// sparse words gave for its offsets, and the sparse words left are those
/// beyond the dense region.
#[verifier::opaque]
spec fn grown(before: &Memory, after: &Memory) -> bool {
    &&& before.chunks@.len() <= after.chunks@.len()
    &&& forall|c: int| 0 <= c < before.chunks@.len() ==> after.chunks@[c] == before.chunks@[c]
    &&& forall|c: int, k: int|
        before.chunks@.len() <= c < after.chunks@.len() && 0 <= k < 32768
            ==> #[trigger] after.chunks@[c]@[k] == sparse_byte(before.sparse@, c * 32768 + k)
    &&& forall|k: usize|
        after.sparse@.contains_key(k) <==> before.sparse@.contains_key(k) && k
            >= after.chunks@.len() * 32768
    &&& forall|k: usize| #[trigger]
        after.sparse@.contains_key(k) ==> after.sparse@[k] == before.sparse@[k]
}

/// A well-formed memory has grown from itself.
proof fn lemma_grown_same(m: &Memory)
    requires
        m.wf(),
    ensures
        grown(m, m),
{
    reveal(grown);
}

/// Growth does not depend on the size.
proof fn lemma_grown_whatever_size(first: &Memory, last: &Memory, resized: &Memory)
    requires
        grown(first, last),
        resized.chunks == last.chunks,
        resized.sparse == last.sparse,
    ensures
        grown(first, resized),
{
    reveal(grown);
}

/// Growth upon growth is growth.
proof fn lemma_grown_further(first: &Memory, mid: &Memory, last: &Memory)
    requires
        first.wf(),
        mid.wf(),
        last.wf(),
        grown(first, mid),
        grown(mid, last),
    ensures
        grown(first, last),
{
    reveal(grown);
    assert forall|c: int| 0 <= c < first.chunks@.len() implies last.chunks@[c]
        == first.chunks@[c] by {
        assert(last.chunks@[c] == mid.chunks@[c]);
    }
    assert forall|c: int, k: int|
        first.chunks@.len() <= c < last.chunks@.len() && 0 <= k < 32768 implies #[trigger] last.chunks@[c]@[k]
        == sparse_byte(first.sparse@, c * 32768 + k) by {
        if c < mid.chunks@.len() {
            assert(last.chunks@[c] == mid.chunks@[c]);
        } else {
            assert((c + 1) * 32768 <= last.chunks@.len() * 32768) by (nonlinear_arith)
                requires
                    c + 1 <= last.chunks@.len(),
            ;
            lemma_gathered_byte(first.sparse@, mid.sparse@, mid.chunks@.len() as int, c, k);
        }
    }
    assert forall|k: usize|
        last.sparse@.contains_key(k) <==> first.sparse@.contains_key(k) && k
            >= last.chunks@.len() * 32768 by {
        assert(last.sparse@.contains_key(k) <==> mid.sparse@.contains_key(k) && k
            >= last.chunks@.len() * 32768);
        assert(mid.sparse@.contains_key(k) <==> first.sparse@.contains_key(k) && k
            >= mid.chunks@.len() * 32768);
    }
    assert forall|k: usize| #[trigger] last.sparse@.contains_key(k) implies last.sparse@[k]
        == first.sparse@[k] by {
        assert(mid.sparse@.contains_key(k));
    }
}

/// One more chunk, gathered from the sparse words at the offsets it covers,
/// is growth, and keeps the memory well-formed.
proof fn lemma_grown_step(before: &Memory, after: &Memory, chunk: Seq<u8>)
    requires
        before.wf(),
        CHUNK_SIZE == 32768,
        (before.chunks@.len() + 1) * 32768 <= usize::MAX,
        after.chunks@.len() == before.chunks@.len() + 1,
        forall|c: int| 0 <= c < before.chunks@.len() ==> after.chunks@[c] == before.chunks@[c],
        after.chunks@[before.chunks@.len() as int]@ == chunk,
        chunk.len() == 32768,
        forall|j: int|
            0 <= j < 32768 ==> #[trigger] chunk[j] == sparse_byte(
                before.sparse@,
                before.chunks@.len() * 32768 + j,
            ),
        forall|k: usize|
            after.sparse@.contains_key(k) <==> before.sparse@.contains_key(k) && !(
            before.chunks@.len() * 32768 <= k < before.chunks@.len() * 32768 + 32768 && k % 32
                == 0),
        forall|k: usize| #[trigger]
            after.sparse@.contains_key(k) ==> after.sparse@[k] == before.sparse@[k],
        after.size == before.size,
    ensures
        grown(before, after),
        after.wf(),
{
    reveal(grown);
    let n = before.chunks@.len() as int;
    assert forall|c: int, k: int|
        n <= c < after.chunks@.len() && 0 <= k < 32768 implies #[trigger] after.chunks@[c]@[k]
        == sparse_byte(before.sparse@, c * 32768 + k) by {
        assert(c == n);
        assert(after.chunks@[c]@[k] == chunk[k]);
    }
    assert forall|k: usize|
        after.sparse@.contains_key(k) <==> before.sparse@.contains_key(k) && k
            >= after.chunks@.len() * 32768 by {
        assert(after.sparse@.contains_key(k) <==> before.sparse@.contains_key(k) && !(n * 32768
            <= k < n * 32768 + 32768 && k % 32 == 0));
        if before.sparse@.contains_key(k) {
            assert(k % 32 == 0 && k >= n * 32768);
        }
    }
    assert forall|c: int| 0 <= c < after.chunks@.len() implies (#[trigger] after.chunks@[c]).len()
        == CHUNK_SIZE by {
        if c < n {
            assert(after.chunks@[c] == before.chunks@[c]);
        }
    }
    assert forall|k: usize| #[trigger] after.sparse@.contains_key(k) implies k % 32 == 0 && k
        >= after.chunks.len() * CHUNK_SIZE by {
        assert(before.sparse@.contains_key(k));
    }
}

/// The byte that the sparse words give at a position of chunk `c` is the
/// same after the words below chunk `n` have left the map, for `c` not below
/// `n`.
proof fn lemma_gathered_byte(
    first: Map<usize, [u8; 32]>,
    held: Map<usize, [u8; 32]>,
    n: int,
    c: int,
    k: int,
)
    requires
        0 <= n <= c,
        0 <= k < 32768,
        (c + 1) * 32768 <= usize::MAX,
        forall|x: usize| held.contains_key(x) <==> first.contains_key(x) && x >= n * 32768,
        forall|x: usize| #[trigger] held.contains_key(x) ==> held[x] == first[x],
    ensures
        sparse_byte(held, c * 32768 + k) == sparse_byte(first, c * 32768 + k),
{
    let i = c * 32768 + k;
    let a = align_down(i);
    assert(n * 32768 <= c * 32768 <= a <= i) by {
        assert(n * 32768 <= c * 32768) by (nonlinear_arith)
            requires
                n <= c,
        ;
    }
    assert(held.contains_key(a as usize) <==> first.contains_key(a as usize));
}

/// A memory whose dense region has grown to cover a request, and whose size
/// is the rounded request, is the memory that the request gives.
proof fn lemma_grown(before: &Memory, after: &Memory, new_size: int)
    requires
        before.wf(),
        after.wf(),
        grown(before, after),
        0 <= new_size,
        MemoryView::rounded(new_size) > before.size,
        after.size == MemoryView::rounded(new_size),
        after.chunks@.len() * 32768 == before@.dense_after(new_size),
    ensures
        after@ == before@.expand(new_size),
{
    reveal(grown);
    let want = before@.expand(new_size);
    let len = before@.dense_after(new_size);
    before.lemma_wf_view();
    assert forall|j: int| 0 <= j < want.dense.len() implies after@.dense[j] == want.dense[j] by {
        lemma_flatten_index(after.chunks@, j);
        if j < before.chunks@.len() * 32768 {
            lemma_flatten_index(before.chunks@, j);
        } else {
            let a = align_down(j);
            assert(a >= before@.dense.len());
            assert(before@.sparse.contains_key(a) <==> before.sparse@.contains_key(a as usize));
            assert(j % 32768 + j / 32768 * 32768 == j);
            assert(after@.dense[j] == sparse_byte(before.sparse@, j));
        }
    }
    assert(after@.dense =~= want.dense);
    assert forall|k: int| after@.sparse.contains_key(k) <==> want.sparse.contains_key(k) by {
        if 0 <= k <= usize::MAX {
            assert(after.sparse@.contains_key(k as usize) <==> before.sparse@.contains_key(
                k as usize,
            ) && k >= after.chunks@.len() * 32768);
        }
    }
    assert forall|k: int| after@.sparse.contains_key(k) implies after@.sparse[k]
        == want.sparse[k] by {
        assert(after.sparse@.contains_key(k as usize));
    }
    assert(after@.sparse =~= want.sparse);
}

/// A dense region of whole chunks is a whole number of chunks and of words.
proof fn lemma_whole_chunks(n: int)
    requires
        0 <= n,
    ensures
        CHUNK_SIZE == 32768,
        (n * 32768) % 32768 == 0,
        (n * 32768) % 32 == 0,
{
    vstd::arithmetic::div_mod::lemma_mod_multiples_basic(n, 32768);
    vstd::arithmetic::div_mod::lemma_mod_multiples_basic(n * 1024, 32);
    assert(n * 1024 * 32 == n * 32768);
}

/// The offsets within the word at an aligned offset.
proof fn lemma_within_word(a: int, j: int)
    requires
        0 <= a,
        a % 32 == 0,
        0 <= j < 32,
    ensures
        align_down(a + j) == a,
        (a + j) % 32 == j,
{
}

/// The dense region after a request is a whole number of words and not
/// shorter than before.
proof fn lemma_dense_after(m: MemoryView, new_size: int)
    requires
        m.dense.len() % 32 == 0,
        0 <= new_size,
    ensures
        m.dense_after(new_size) % 32 == 0,
        m.dense_after(new_size) >= m.dense.len(),
        m.expand(new_size).dense.len() == m.dense_after(new_size),
{
    let want = MemoryView::rounded(new_size);
    assert(CHUNK_SIZE == 32768);
    if want > m.size && MemoryView::chunks_for(want) > m.dense.len() {
        lemma_whole_chunks((want + 32768 - 1) / 32768);
    }
}

/// A request to cover `new_size` bytes changes the result of no read.
pub proof fn law_expand_keeps_reads(m: MemoryView, new_size: int, index: int)
    requires
        m.wf(),
        0 <= new_size,
        0 <= index,
    ensures
        m.expand(new_size).read(index) == m.read(index),
{
    let e = m.expand(new_size);
    if MemoryView::rounded(new_size) > m.size {
        lemma_dense_after(m, new_size);
        let len = m.dense_after(new_size);
        let a = align_down(index);
        if a < m.dense.len() {
            assert(e.dense.subrange(a, a + 32) =~= m.dense.subrange(a, a + 32));
        } else if a < len {
            let word = m.read(index);
            assert(word.len() == 32);
            assert forall|j: int| 0 <= j < 32 implies e.dense.subrange(a, a + 32)[j]
                == word[j] by {
                lemma_within_word(a, j);
                assert(e.dense[a + j] == m.read(a + j)[(a + j) % 32]);
                assert(m.read(a + j) == word);
            }
            assert(e.dense.subrange(a, a + 32) =~= word);
        } else {
            assert(e.sparse.contains_key(a) <==> m.sparse.contains_key(a));
        }
    }
}

/// A request to cover `new_size` bytes keeps the memory well-formed and
/// lowers neither the size nor the dense region.
pub proof fn law_expand_grows(m: MemoryView, new_size: int)
    requires
        m.wf(),
        0 <= new_size,
    ensures
        m.expand(new_size).wf(),
        m.expand(new_size).size >= m.size,
        m.expand(new_size).dense.len() >= m.dense.len(),
        m.expand(new_size).size == (if MemoryView::rounded(new_size) > m.size {
            MemoryView::rounded(new_size) as nat
        } else {
            m.size
        }),
{
    let e = m.expand(new_size);
    if MemoryView::rounded(new_size) > m.size {
        lemma_dense_after(m, new_size);
        assert forall|k: int| #[trigger] e.sparse.contains_key(k) implies k % 32 == 0 && k
            >= e.dense.len() && e.sparse[k].len() == 32 by {
            assert(m.sparse.contains_key(k));
        }
    }
}

/// A word that was written to an aligned offset is the word read back from
/// every byte offset within it: a read returns the whole word that holds the
/// offset.
pub proof fn law_aligned_write_then_read(m: MemoryView, offset: int, k: int, word: Seq<u8>)
    requires
        m.wf(),
        0 <= offset,
        offset % 32 == 0,
        0 <= k < 32,
        word.len() == 32,
    ensures
        m.write(offset, word).read(offset + k) == word,
        m.write(offset, word).wf(),
{
    law_read_after_write(m, offset, k, word);
    let after = m.write(offset, word);
    assert forall|j: int| #[trigger] after.sparse.contains_key(j) implies j % 32 == 0 && j
        >= after.dense.len() && after.sparse[j].len() == 32 by {
        if j != offset {
            assert(m.sparse.contains_key(j));
        }
    }
}

/// A read at any offset is the read at the start of the word that holds it.
pub proof fn law_read_is_aligned(m: MemoryView, index: int)
    requires
        0 <= index,
    ensures
        m.read(index) == m.read(align_down(index)),
{
}

/// Appends a word to a chunk that is being built.
fn push_word(chunk: &mut Vec<u8>, word: &[u8; 32])
    ensures
        final(chunk)@ == old(chunk)@ + word@,
{
    let mut i: usize = 0;
    while i < 32
        invariant
            i <= 32,
            chunk@ == old(chunk)@ + word@.take(i as int),
        decreases 32 - i,
    {
        chunk.push(word[i]);
        assert(chunk@ =~= old(chunk)@ + word@.take(i + 1));
        i += 1;
    }
    assert(word@.take(32) =~= word@);
}

/// Builds the chunk that covers the offsets from `base` on out of the words
/// that the sparse map holds for them, zeros elsewhere, and takes those
/// words out of the map.
fn gather_chunk(sparse: &mut HashMap<usize, [u8; 32]>, base: usize) -> (chunk: Vec<u8>)
    requires
        base % 32 == 0,
        base + CHUNK_SIZE <= usize::MAX,
    ensures
        chunk@.len() == CHUNK_SIZE,
        forall|j: int|
            0 <= j < CHUNK_SIZE ==> #[trigger] chunk@[j] == sparse_byte(old(sparse)@, base + j),
        forall|k: usize|
            final(sparse)@.contains_key(k) <==> old(sparse)@.contains_key(k) && !(base <= k < base
                + CHUNK_SIZE && k % 32 == 0),
        forall|k: usize| #[trigger]
            final(sparse)@.contains_key(k) ==> final(sparse)@[k] == old(sparse)@[k],
{
    broadcast use vstd::std_specs::hash::group_hash_axioms;

    let mut chunk: Vec<u8> = Vec::new();
    let mut w: usize = 0;
    while w < 1024
        invariant
            w <= 1024,
            base % 32 == 0,
            base + CHUNK_SIZE <= usize::MAX,
            CHUNK_SIZE == 32768,
            chunk@.len() == w * 32,
            forall|j: int|
                0 <= j < w * 32 ==> #[trigger] chunk@[j] == sparse_byte(old(sparse)@, base + j),
            forall|k: usize|
                sparse@.contains_key(k) <==> old(sparse)@.contains_key(k) && !(base <= k < base + w
                    * 32 && k % 32 == 0),
            forall|k: usize| #[trigger]
                sparse@.contains_key(k) ==> sparse@[k] == old(sparse)@[k],
        decreases 1024 - w,
    {
        let at = base + w * 32;
        let ghost built = chunk@;
        let ghost held = sparse@;
        let word = match sparse.remove(&at) {
            Some(word) => word,
            None => [0u8; 32],
        };
        push_word(&mut chunk, &word);
        proof {
            assert(held.contains_key(at) <==> old(sparse)@.contains_key(at));
            assert forall|j: int| 0 <= j < (w + 1) * 32 implies #[trigger] chunk@[j]
                == sparse_byte(old(sparse)@, base + j) by {
                if j >= w * 32 {
                    assert(chunk@[j] == word@[j - w * 32]);
                    assert(align_down(base + j) == at);
                    assert((base + j) % 32 == j - w * 32);
                } else {
                    assert(chunk@[j] == built[j]);
                }
            }
        }
        w += 1;
    }
    chunk
}

/// What a store into one chunk does to the bytes of all of them.
proof fn lemma_flatten_update(
    before: Seq<Vec<u8>>,
    after: Seq<Vec<u8>>,
    ci: int,
    start: int,
    j: int,
)
    requires
        before.len() == after.len(),
        0 <= ci < before.len(),
        0 <= start,
        start + 32 <= 32768,
        start % 32 == 0,
        0 <= j < before.len() * 32768,
        forall|c: int| 0 <= c < before.len() && c != ci ==> after[c] == before[c],
        forall|k: int|
            0 <= k < 32768 && !(start <= k < start + 32) ==> #[trigger] after[ci]@[k]
                == before[ci]@[k],
    ensures
        !(ci * 32768 + start <= j < ci * 32768 + start + 32) ==> flatten(after)[j] == flatten(
            before,
        )[j],
        ci * 32768 + start <= j < ci * 32768 + start + 32 ==> flatten(after)[j] == after[ci]@[j
            - ci * 32768],
{
    let aligned = ci * 32768 + start;
    assert(aligned / 32768 == ci && aligned % 32768 == start);
    if aligned <= j < aligned + 32 {
        assert(j / 32768 == ci && j % 32768 == j - ci * 32768);
    } else if j / 32768 == ci {
        assert(!(start <= j % 32768 < start + 32));
    }
}

/// Copies a word into a chunk at `start`.
fn store_in_chunk(chunk: &mut Vec<u8>, start: usize, value: &[u8; 32])
    requires
        start + 32 <= old(chunk).len(),
    ensures
        final(chunk).len() == old(chunk).len(),
        forall|j: int|
            0 <= j < old(chunk).len() ==> final(chunk)[j] == (if start <= j < start + 32 {
                value[j - start]
            } else {
                old(chunk)[j]
            }),
{
    let mut i: usize = 0;
    while i < 32
        invariant
            i <= 32,
            chunk.len() == old(chunk).len(),
            start + 32 <= chunk.len(),
            forall|j: int|
                0 <= j < chunk.len() ==> chunk[j] == (if start <= j < start + i {
                    value[j - start]
                } else {
                    old(chunk)[j]
                }),
        decreases 32 - i,
    {
        chunk[start + i] = value[i];
        i += 1;
    }
}

/// A chunk of zeros.
fn zeroed_chunk() -> (r: Vec<u8>)
    ensures
        r.len() == CHUNK_SIZE,
        forall|i: int| 0 <= i < CHUNK_SIZE ==> r[i] == 0,
{
    let mut v: Vec<u8> = Vec::new();
    let mut i: usize = 0;
    while i < CHUNK_SIZE
        invariant
            i <= CHUNK_SIZE,
            v.len() == i,
            forall|j: int| 0 <= j < i ==> v[j] == 0,
        decreases CHUNK_SIZE - i,
    {
        v.push(0);
        i += 1;
    }
    v
}

} // verus!

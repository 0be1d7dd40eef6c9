//! Decoding of raw sample files into a sample buffer.
//!
//! A sample file starts with a framing prefix of `PREFIX_LEN` bytes, followed
//! by samples of four little-endian bytes each. The file is read in chunks of
//! `CHUNK_SIZE` bytes; only `length / CHUNK_SIZE` whole chunks are read, so
//! the samples past the last whole chunk are not written. Bytes that a short
//! final read does not deliver decode as zero. Samples are held as the raw
//! 32-bit patterns of their IEEE-754 values.
use vstd::prelude::*;

verus! {

/// Framing bytes that precede the first sample of a file.
pub const PREFIX_LEN: usize = 2;

/// Bytes that encode one sample.
pub const SAMPLE_BYTES: usize = 4;

/// Bytes read from storage at a time; a multiple of `SAMPLE_BYTES`.
pub const CHUNK_SIZE: usize = 10000;

/// Samples decoded from one chunk.
pub const CHUNK_SAMPLES: usize = 2500;

/// Errors of a load.
#[derive(Debug, Clone, Copy, PartialEq, Eq, Structural)]
pub enum LoadError {
    /// The storage card did not initialise.
    CardInit,
    /// The volume could not be opened.
    Volume,
    /// The root directory could not be opened.
    RootDir,
    /// The file could not be opened.
    OpenFile,
    /// Seeking past the prefix failed.
    Seek,
    /// Reading a chunk failed.
    Read,
    /// The destination holds fewer than `length / SAMPLE_BYTES` samples.
    BufferTooSmall,
}

/// The byte at `k`, or zero past the end of `s`.
pub open spec fn byte_or_zero(s: Seq<u8>, k: int) -> u8 {
    if 0 <= k < s.len() {
        s[k]
    } else {
        0
    }
}

/// The little-endian word whose lowest byte stands at `k`.
pub open spec fn le_word(s: Seq<u8>, k: int) -> u32 {
    (byte_or_zero(s, k) + 256 * byte_or_zero(s, k + 1) + 65536 * byte_or_zero(s, k + 2)
        + 16777216 * byte_or_zero(s, k + 3)) as u32
}

/// The samples that one chunk decodes to.
pub open spec fn chunk_samples(chunk: Seq<u8>) -> Seq<u32> {
    Seq::new(CHUNK_SAMPLES as nat, |j: int| le_word(chunk, SAMPLE_BYTES * j))
}

/// Number of whole chunks read from a file of `length` bytes.
pub open spec fn chunks_of(length: int) -> int {
    length / CHUNK_SIZE as int
}

/// The samples written when a whole file is loaded.
pub open spec fn file_samples(file: Seq<u8>) -> Seq<u32> {
    Seq::new(
        (chunks_of(file.len() as int) * CHUNK_SAMPLES) as nat,
        |j: int| le_word(file, PREFIX_LEN + SAMPLE_BYTES * j),
    )
}

/// Number of whole chunks read from a file of `length` bytes.
pub fn chunk_count(length: u32) -> (r: usize)
    ensures
        r == chunks_of(length as int),
{
    (length / (CHUNK_SIZE as u32)) as usize
}

/// Number of samples that a file of `length` bytes holds.
pub fn sample_count(length: u32) -> (r: usize)
    ensures
        r == length / 4,
{
    (length / (SAMPLE_BYTES as u32)) as usize
}

fn byte_at(src: &[u8], start: usize, end: usize, m: usize) -> (r: u8)
    requires
        start <= end <= src@.len(),
    ensures
        r == byte_or_zero(src@.subrange(start as int, end as int), m as int),
{
    if m < end - start {
        src[start + m]
    } else {
        0
    }
}

/// Decodes the window `src[start..end]` as one chunk (padded with zeros) into
/// the `CHUNK_SAMPLES` slots of `dest` from `base` on.
fn decode_window(src: &[u8], start: usize, end: usize, base: usize, dest: &mut [u32])
    requires
        start <= end <= src@.len(),
        end - start <= CHUNK_SIZE,
        base + CHUNK_SAMPLES <= old(dest)@.len(),
    ensures
        final(dest)@.len() == old(dest)@.len(),
        forall|k: int|
            0 <= k < final(dest)@.len() ==> #[trigger] final(dest)@[k] == if base <= k < base
                + CHUNK_SAMPLES {
                chunk_samples(src@.subrange(start as int, end as int))[k - base]
            } else {
                old(dest)@[k]
            },
{
    let ghost chunk = src@.subrange(start as int, end as int);
    let len: usize = dest.len();
    let mut j: usize = 0;
    while j < CHUNK_SAMPLES
        invariant
            start <= end <= src@.len(),
            chunk == src@.subrange(start as int, end as int),
            base + CHUNK_SAMPLES <= dest@.len(),
            dest@.len() == old(dest)@.len(),
            dest@.len() == len,
            j <= CHUNK_SAMPLES,
            forall|k: int|
                0 <= k < dest@.len() ==> #[trigger] dest@[k] == if base <= k < base + j {
                    chunk_samples(chunk)[k - base]
                } else {
                    old(dest)@[k]
                },
        decreases CHUNK_SAMPLES - j,
    {
        let m: usize = SAMPLE_BYTES * j;
        let b0 = byte_at(src, start, end, m);
        let b1 = byte_at(src, start, end, m + 1);
        let b2 = byte_at(src, start, end, m + 2);
        let b3 = byte_at(src, start, end, m + 3);
        let w: u32 = b0 as u32 + (b1 as u32) * 256 + (b2 as u32) * 65536 + (b3 as u32) * 16777216;
        assert(w == le_word(chunk, m as int));
        dest[base + j] = w;
        j = j + 1;
    }
}

proof fn lemma_chunk_bound(next: int, length: int)
    requires
        0 <= next < chunks_of(length),
        0 <= length,
    ensures
        next * CHUNK_SIZE + CHUNK_SIZE <= length,
        (next + 1) * CHUNK_SAMPLES <= length / 4,
{
    assert(next * CHUNK_SIZE + CHUNK_SIZE <= length) by (nonlinear_arith)
        requires
            next < length / 10000,
            0 <= next,
            0 <= length,
    ;
    assert((next + 1) * CHUNK_SAMPLES <= length / 4) by (nonlinear_arith)
        requires
            next * 10000 + 10000 <= length,
            0 <= next,
    ;
}

/// Chunk `j` of a window that reaches to the end of the file or spans a
/// whole chunk decodes as the file itself does from `start`.
proof fn lemma_window_sample(file: Seq<u8>, start: int, end: int, j: int)
    requires
        0 <= start <= end <= file.len(),
        end == file.len() || end == start + CHUNK_SIZE,
        0 <= j < CHUNK_SAMPLES,
    ensures
        chunk_samples(file.subrange(start, end))[j] == le_word(file, start + SAMPLE_BYTES * j),
{
    let sub = file.subrange(start, end);
    let m = SAMPLE_BYTES * j;
    assert(byte_or_zero(sub, m) == byte_or_zero(file, start + m));
    assert(byte_or_zero(sub, m + 1) == byte_or_zero(file, start + m + 1));
    assert(byte_or_zero(sub, m + 2) == byte_or_zero(file, start + m + 2));
    assert(byte_or_zero(sub, m + 3) == byte_or_zero(file, start + m + 3));
}

/// What a loader asks for next.
#[derive(Debug, Clone, Copy, PartialEq, Eq, Structural)]
pub enum LoadStep {
    /// Read chunk `index`: the `CHUNK_SIZE` bytes that follow the previous
    /// chunk (the first follows the prefix), or as many as the file still holds.
    ReadChunk(usize),
    /// Every whole chunk is in; the file holds this many samples.
    Done(usize),
}

/// Progress of loading one file of `length` bytes, chunk by chunk.
pub struct WaveLoader {
    pub length: u32,
    pub next_chunk: usize,
}

impl WaveLoader {
    pub open spec fn wf(&self) -> bool {
        self.next_chunk <= chunks_of(self.length as int)
    }

    /// Starts loading a file of `length` bytes into a buffer that holds
    /// `capacity` samples; the buffer must hold every sample of the file.
    pub fn new(length: u32, capacity: usize) -> (r: Result<WaveLoader, LoadError>)
        ensures
            r is Err <==> capacity < length / 4,
            r is Err ==> r->Err_0 == LoadError::BufferTooSmall,
            r is Ok ==> r->Ok_0.wf() && r->Ok_0.length == length && r->Ok_0.next_chunk == 0,
    {
        if capacity < sample_count(length) {
            Err(LoadError::BufferTooSmall)
        } else {
            Ok(WaveLoader { length, next_chunk: 0 })
        }
    }

    /// The next chunk to read, or the sample count once all are in.
    pub fn next_step(&self) -> (r: LoadStep)
        requires
            self.wf(),
        ensures
            self.next_chunk < chunks_of(self.length as int) ==> r == LoadStep::ReadChunk(
                self.next_chunk,
            ),
            self.next_chunk == chunks_of(self.length as int) ==> r == LoadStep::Done(
                (self.length / 4) as usize,
            ),
    {
        if self.next_chunk < chunk_count(self.length) {
            LoadStep::ReadChunk(self.next_chunk)
        } else {
            LoadStep::Done(sample_count(self.length))
        }
    }

    /// Decodes the bytes read for the next chunk into `out`, which holds one
    /// chunk's samples, and returns the index in the file's sample buffer
    /// where they belong. A short read leaves the rest of the chunk decoding
    /// as zero bytes. Only chunk-sized memory is touched.
    pub fn accept_chunk(&mut self, chunk: &[u8], out: &mut [u32]) -> (base: usize)
        requires
            old(self).wf(),
            old(self).next_chunk < chunks_of(old(self).length as int),
            chunk@.len() <= CHUNK_SIZE,
            old(out)@.len() == CHUNK_SAMPLES,
        ensures
            final(self).wf(),
            final(self).length == old(self).length,
            final(self).next_chunk == old(self).next_chunk + 1,
            base == old(self).next_chunk * CHUNK_SAMPLES,
            base + CHUNK_SAMPLES <= old(self).length / 4,
            final(out)@ == chunk_samples(chunk@),
    {
        proof {
            lemma_chunk_bound(self.next_chunk as int, self.length as int);
        }
        assert(chunk@.subrange(0, chunk@.len() as int) =~= chunk@);
        decode_window(chunk, 0, chunk.len(), 0, out);
        assert(out@ =~= chunk_samples(chunk@));
        let base: usize = self.next_chunk * CHUNK_SAMPLES;
        self.next_chunk = self.next_chunk + 1;
        base
    }
}

/// Loads a whole file held in memory into `dest`, chunk by chunk, and returns
/// the number of samples that the file holds.
pub fn load_from_bytes(file: &[u8], dest: &mut [u32]) -> (r: Result<usize, LoadError>)
    requires
        file@.len() <= u32::MAX,
    ensures
        r is Err <==> old(dest)@.len() < file@.len() / 4,
        r is Err ==> r->Err_0 == LoadError::BufferTooSmall && final(dest)@ == old(dest)@,
        r is Ok ==> r->Ok_0 == file@.len() / 4,
        final(dest)@.len() == old(dest)@.len(),
        r is Ok ==> forall|k: int|
            0 <= k < final(dest)@.len() ==> #[trigger] final(dest)@[k] == if k < file_samples(
                file@,
            ).len() {
                file_samples(file@)[k]
            } else {
                old(dest)@[k]
            },
{
    let length: u32 = file.len() as u32;
    let mut loader = match WaveLoader::new(length, dest.len()) {
        Ok(l) => l,
        Err(e) => return Err(e),
    };
    let ghost samples = file_samples(file@);
    loop
        invariant
            loader.wf(),
            loader.length == length,
            length == file@.len(),
            samples == file_samples(file@),
            dest@.len() == old(dest)@.len(),
            dest@.len() >= length / 4,
            forall|k: int|
                0 <= k < dest@.len() ==> #[trigger] dest@[k] == if k < loader.next_chunk
                    * CHUNK_SAMPLES {
                    samples[k]
                } else {
                    old(dest)@[k]
                },
        decreases chunks_of(length as int) - loader.next_chunk,
    {
        match loader.next_step() {
            LoadStep::Done(n) => {
                return Ok(n);
            },
            LoadStep::ReadChunk(i) => {
                proof {
                    lemma_chunk_bound(i as int, length as int);
                }
                let start: usize = PREFIX_LEN + i * CHUNK_SIZE;
                let end: usize = if file.len() - start >= CHUNK_SIZE {
                    start + CHUNK_SIZE
                } else {
                    file.len()
                };
                decode_window(file, start, end, i * CHUNK_SAMPLES, dest);
                loader.next_chunk = i + 1;
                proof {
                    assert forall|k: int| 0 <= k < dest@.len() implies #[trigger] dest@[k] == if k
                        < loader.next_chunk * CHUNK_SAMPLES {
                        samples[k]
                    } else {
                        old(dest)@[k]
                    } by {
                        if i * CHUNK_SAMPLES <= k < (i + 1) * CHUNK_SAMPLES {
                            lemma_window_sample(
                                file@,
                                start as int,
                                end as int,
                                k - i * CHUNK_SAMPLES,
                            );
                        }
                    }
                }
            },
        }
    }
}

/// The bytes of chunk `i` of a file: the `CHUNK_SIZE` bytes after the prefix
/// and the chunks before it, cut short at the end of the file.
pub open spec fn file_chunk(file: Seq<u8>, i: int) -> Seq<u8> {
    let start = PREFIX_LEN + i * CHUNK_SIZE;
    if start + CHUNK_SIZE <= file.len() {
        file.subrange(start, start + CHUNK_SIZE)
    } else {
        file.subrange(start, file.len() as int)
    }
}

/// The four little-endian bytes of `w`.
pub open spec fn le_bytes(w: u32) -> Seq<u8> {
    seq![
        (w % 256) as u8,
        ((w / 256) % 256) as u8,
        ((w / 256 / 256) % 256) as u8,
        (w / 256 / 256 / 256) as u8,
    ]
}

/// The samples `ws` written one after another as little-endian bytes.
pub open spec fn encoded(ws: Seq<u32>) -> Seq<u8> {
    Seq::new((SAMPLE_BYTES * ws.len()) as nat, |k: int| le_bytes(ws[k / 4])[k % 4])
}

/// Each whole chunk of a file decodes to `CHUNK_SAMPLES` samples, and the
/// samples of chunk `i` stand in the loaded buffer right after those of
/// chunk `i - 1`, with no gap and no overlap.
pub proof fn lemma_chunks_contiguous(file: Seq<u8>, i: int, j: int)
    requires
        0 <= i < chunks_of(file.len() as int),
        0 <= j < CHUNK_SAMPLES,
    ensures
        chunk_samples(file_chunk(file, i)).len() == CHUNK_SAMPLES,
        file_samples(file).len() == chunks_of(file.len() as int) * CHUNK_SAMPLES,
        i * CHUNK_SAMPLES + j < file_samples(file).len(),
        file_samples(file)[i * CHUNK_SAMPLES + j] == chunk_samples(file_chunk(file, i))[j],
{
    lemma_chunk_bound(i, file.len() as int);
    assert((i + 1) * CHUNK_SAMPLES <= chunks_of(file.len() as int) * CHUNK_SAMPLES)
        by (nonlinear_arith)
        requires
            i + 1 <= chunks_of(file.len() as int),
    ;
    let start = PREFIX_LEN + i * CHUNK_SIZE;
    let end = if start + CHUNK_SIZE <= file.len() {
        start + CHUNK_SIZE
    } else {
        file.len() as int
    };
    lemma_window_sample(file, start, end, j);
}

proof fn lemma_le_bytes(w: u32)
    ensures
        le_word(le_bytes(w), 0) == w,
{
    let a = w / 256;
    let b = a / 256;
    let c = b / 256;
    assert(w == w % 256 + 256 * a);
    assert(a == a % 256 + 256 * b);
    assert(b == b % 256 + 256 * c);
    assert(c < 256);
}

/// Decoding a file made of two prefix bytes and the encoded samples `ws`
/// gives back `ws`, in order, when the samples fill whole chunks.
pub proof fn lemma_round_trip(p0: u8, p1: u8, ws: Seq<u32>)
    requires
        (SAMPLE_BYTES * ws.len()) % (CHUNK_SIZE as int) == 0,
    ensures
        file_samples(seq![p0, p1] + encoded(ws)) == ws,
{
    let file = seq![p0, p1] + encoded(ws);
    let n = ws.len() as int;
    assert(chunks_of(file.len() as int) * CHUNK_SAMPLES == n) by (nonlinear_arith)
        requires
            file.len() == 2 + 4 * n,
            (4 * n) % 10000 == 0,
            0 <= n,
            chunks_of(file.len() as int) == file.len() / 10000,
    ;
    assert forall|j: int| 0 <= j < n implies #[trigger] file_samples(file)[j] == ws[j] by {
        lemma_le_bytes(ws[j]);
        let bs = le_bytes(ws[j]);
        assert forall|t: int| 0 <= t < 4 implies byte_or_zero(file, 2 + 4 * j + t)
            == byte_or_zero(bs, t) by {
            assert((4 * j + t) / 4 == j);
            assert((4 * j + t) % 4 == t);
        }
        assert(byte_or_zero(file, 2 + 4 * j) == byte_or_zero(bs, 0));
        assert(byte_or_zero(file, 2 + 4 * j + 1) == byte_or_zero(bs, 1));
        assert(byte_or_zero(file, 2 + 4 * j + 2) == byte_or_zero(bs, 2));
        assert(byte_or_zero(file, 2 + 4 * j + 3) == byte_or_zero(bs, 3));
    }
    assert(file_samples(file) =~= ws);
}

} // verus!

//! The patch descriptor and the virtual patched reader.
//!
//! A [`Patch`] records a splice: the bytes at `[origin_pos, origin_pos +
//! origin_size)` of the original file are replaced by `patched`.  The
//! [`PatchedReader`] presents the spliced byte stream: it reads from the
//! original before and after the splice and from the in-memory patch inside
//! it, with pure-bookkeeping seeks, so that range requests address the
//! logical byte space.
use vstd::prelude::*;

verus! {

/// The splice descriptor: an immutable triple.
#[derive(Debug, PartialEq, Eq)]
pub struct Patch {
    /// Byte offset in the original file at which the replaced region begins.
    pub origin_pos: u64,
    /// Byte length of the replaced region in the original file.
    pub origin_size: u64,
    /// The replacement bytes.
    pub patched: Vec<u8>,
}

/// Whether the splice lies inside a file of the given length, with a logical
/// length that fits in a 64-bit counter.
pub open spec fn patch_wf(origin_len: nat, p: Patch) -> bool {
    &&& p.origin_pos + p.origin_size <= origin_len
    &&& origin_len + p.patched@.len() <= u64::MAX
}

/// The length of the logical patched view.
pub open spec fn spec_view_len(origin_len: nat, p: Patch) -> int {
    origin_len + p.patched@.len() - p.origin_size
}

/// Byte k of the splice of `patched` over `orig` at the given region.
pub open spec fn spec_splice_byte(
    orig: Seq<u8>,
    origin_pos: int,
    origin_size: int,
    patched: Seq<u8>,
    k: int,
) -> u8 {
    if k < origin_pos {
        orig[k]
    } else if k < origin_pos + patched.len() {
        patched[k - origin_pos]
    } else {
        orig[k - patched.len() + origin_size]
    }
}

/// Byte k of the logical patched view.
pub open spec fn spec_view_byte(orig: Seq<u8>, p: Patch, k: int) -> u8 {
    spec_splice_byte(orig, p.origin_pos as int, p.origin_size as int, p.patched@, k)
}

/// The whole logical patched view.
pub open spec fn spec_view(orig: Seq<u8>, p: Patch) -> Seq<u8> {
    Seq::new(spec_view_len(orig.len(), p) as nat, |k: int| spec_view_byte(orig, p, k))
}

/// Where a read at the current offset is served from.
#[derive(Debug)]
pub enum StartPoint {
    /// A position in the original file.
    Origin(u64),
    /// An index into the patch bytes.
    Patch(usize),
}

/// A seek request against the logical byte space.
#[derive(Debug, Clone, Copy)]
pub enum SeekFrom {
    Start(u64),
    Current(i64),
    End(i64),
}

/// The virtual patched view over a back-end byte source.
pub struct PatchedReader<R> {
    /// The back-end source holding the original bytes.
    pub reader: R,
    /// The back-end's known position, so needless seeks are elided.
    pub reader_pos: u64,
    /// The splice.
    pub patch: Patch,
    /// The caller-visible position in logical byte space.
    pub offset: u64,
    /// The original file length, captured at construction.
    pub origin_length: u64,
    /// Whether a back-end seek is in flight.
    pub seeking: bool,
}

/// The region classification of a logical offset: the start point of the next
/// read and how many bytes are readable before the region (or the stream)
/// ends.  Past the logical end nothing is readable.
pub open spec fn spec_get_point(origin_len: nat, p: Patch, off: u64) -> (StartPoint, u64) {
    let len = spec_view_len(origin_len, p);
    if off < p.origin_pos {
        (StartPoint::Origin(off), (p.origin_pos - off) as u64)
    } else if off < p.origin_pos + p.patched@.len() {
        (StartPoint::Patch((off - p.origin_pos) as usize), (p.origin_pos + p.patched@.len()
            - off) as u64)
    } else if off < len {
        (StartPoint::Origin((off - p.patched@.len() + p.origin_size) as u64), (len - off) as u64)
    } else {
        (StartPoint::Origin(origin_len as u64), 0)
    }
}

/// Saturating seek arithmetic against the logical length.
pub open spec fn spec_seek_target(len: int, cur: u64, position: SeekFrom) -> u64 {
    match position {
        SeekFrom::Start(i) => i,
        SeekFrom::Current(d) => if cur + d < 0 {
            0u64
        } else if cur + d > u64::MAX {
            u64::MAX
        } else {
            (cur + d) as u64
        },
        SeekFrom::End(d) => if len + d < 0 {
            0u64
        } else if len + d > u64::MAX {
            u64::MAX
        } else {
            (len + d) as u64
        },
    }
}

impl<R> PatchedReader<R> {
    /// The state invariant: the splice lies inside the original file and the
    /// logical length fits.
    pub open spec fn wf(&self) -> bool {
        patch_wf(self.origin_length as nat, self.patch)
    }

    /// The logical length, as contracts see it.
    pub open spec fn spec_len(&self) -> int {
        spec_view_len(self.origin_length as nat, self.patch)
    }

    /// Wraps a back-end source of the given length.  The caller captures the
    /// length (a seek to the end) and rewinds before handing the source over.
    pub fn new(reader: R, patch: Patch, origin_length: u64) -> (r: PatchedReader<R>)
        requires
            patch_wf(origin_length as nat, patch),
        ensures
            r.reader == reader,
            r.reader_pos == 0,
            r.patch == patch,
            r.offset == 0,
            r.origin_length == origin_length,
            !r.seeking,
            r.wf(),
    {
        PatchedReader { reader, reader_pos: 0, patch, offset: 0, origin_length, seeking: false }
    }

    /// The logical length: the original length, plus the patch bytes, minus
    /// the replaced region.
    pub fn len(&self) -> (r: u64)
        requires
            self.wf(),
        ensures
            r == self.origin_length + self.patch.patched@.len() - self.patch.origin_size,
            r == self.spec_len(),
    {
        self.origin_length + self.patched_len() - self.patch.origin_size
    }

    /// The length of the replacement bytes.
    pub fn patched_len(&self) -> (r: u64)
        requires
            self.wf(),
        ensures
            r == self.patch.patched@.len(),
    {
        self.patch.patched.len() as u64
    }

    /// The caller-visible position in logical byte space.
    pub fn stream_position(&self) -> (r: u64)
        ensures
            r == self.offset,
    {
        self.offset
    }

    /// Classifies the current offset: where the next read starts and how many
    /// bytes are readable before the region ends.
    pub fn get_point(&self) -> (r: (StartPoint, u64))
        requires
            self.wf(),
        ensures
            r == spec_get_point(self.origin_length as nat, self.patch, self.offset),
    {
        let off = self.offset;
        let plen = self.patched_len();
        if off < self.patch.origin_pos {
            (StartPoint::Origin(off), self.patch.origin_pos - off)
        } else if off < self.patch.origin_pos + plen {
            (StartPoint::Patch((off - self.patch.origin_pos) as usize), self.patch.origin_pos
                + plen - off)
        } else if off < self.len() {
            let o = off - plen + self.patch.origin_size;
            (StartPoint::Origin(o), self.len() - off)
        } else {
            (StartPoint::Origin(self.origin_length), 0)
        }
    }

    /// Logical seek: pure bookkeeping against the logical length, saturating
    /// at the ends of the 64-bit space.  No back-end work happens here.
    pub fn start_seek(&mut self, position: SeekFrom)
        requires
            old(self).wf(),
        ensures
            final(self).offset == spec_seek_target(old(self).spec_len(), old(self).offset, position),
            final(self).reader == old(self).reader,
            final(self).reader_pos == old(self).reader_pos,
            final(self).patch == old(self).patch,
            final(self).origin_length == old(self).origin_length,
            final(self).seeking == old(self).seeking,
            final(self).wf(),
    {
        match position {
            SeekFrom::Start(i) => {
                self.offset = i;
            },
            SeekFrom::Current(d) => {
                let t: i128 = self.offset as i128 + d as i128;
                self.offset = if t < 0 {
                    0
                } else if t > u64::MAX as i128 {
                    u64::MAX
                } else {
                    t as u64
                };
            },
            SeekFrom::End(d) => {
                let t: i128 = self.len() as i128 + d as i128;
                self.offset = if t < 0 {
                    0
                } else if t > u64::MAX as i128 {
                    u64::MAX
                } else {
                    t as u64
                };
            },
        }
    }
}

/// Byte-exact view: within the readable span that `spec_get_point` reports,
/// the logical view repeats the origin bytes or the patch bytes, element for
/// element.
pub proof fn lemma_get_point_bytes(orig: Seq<u8>, p: Patch, off: u64)
    requires
        patch_wf(orig.len(), p),
        p.patched@.len() <= usize::MAX,
    ensures
        match spec_get_point(orig.len(), p, off) {
            (StartPoint::Origin(o), n) => forall|j: int|
                0 <= j < n ==> #[trigger] spec_view(orig, p)[off + j] == orig[o + j],
            (StartPoint::Patch(q), n) => forall|j: int|
                0 <= j < n ==> #[trigger] spec_view(orig, p)[off + j] == p.patched@[q + j],
        },
{
    let len = spec_view_len(orig.len(), p);
    match spec_get_point(orig.len(), p, off) {
        (StartPoint::Origin(o), n) => {
            assert forall|j: int| 0 <= j < n implies #[trigger] spec_view(orig, p)[off + j]
                == orig[o + j] by {
                assert(off + j < len);
                assert(spec_view(orig, p)[off + j] == spec_view_byte(orig, p, off + j));
            }
        },
        (StartPoint::Patch(q), n) => {
            assert forall|j: int| 0 <= j < n implies #[trigger] spec_view(orig, p)[off + j]
                == p.patched@[q + j] by {
                assert(off + j < len);
                assert(spec_view(orig, p)[off + j] == spec_view_byte(orig, p, off + j));
            }
        },
    }
}

impl<R> PatchedReader<R> {
    /// Marks a back-end seek as in flight.
    pub fn note_seek_started(&mut self)
        ensures
            *final(self) == (PatchedReader { seeking: true, ..*old(self) }),
    {
        self.seeking = true;
    }

    /// Records the position reached by a completed back-end seek.
    pub fn note_seeked(&mut self, pos: u64)
        ensures
            *final(self) == (PatchedReader { reader_pos: pos, seeking: false, ..*old(self) }),
    {
        self.reader_pos = pos;
        self.seeking = false;
    }

    /// Records a completed back-end read of n bytes at the tracked position:
    /// both the tracked position and the logical offset advance.
    pub fn note_origin_read(&mut self, n: u64)
        requires
            old(self).reader_pos + n <= u64::MAX,
            old(self).offset + n <= u64::MAX,
        ensures
            *final(self) == (PatchedReader {
                reader_pos: (old(self).reader_pos + n) as u64,
                offset: (old(self).offset + n) as u64,
                ..*old(self)
            }),
    {
        self.reader_pos = self.reader_pos + n;
        self.offset = self.offset + n;
    }

    /// Serves one read from inside the patch region: copies up to `want`
    /// bytes of the replacement and advances the logical offset.
    pub fn read_patch_step(&mut self, want: usize) -> (r: Vec<u8>)
        requires
            old(self).wf(),
            old(self).patch.origin_pos <= old(self).offset < old(self).patch.origin_pos + old(
                self,
            ).patch.patched@.len(),
        ensures
            ({
                let start = old(self).offset - old(self).patch.origin_pos;
                let readable = old(self).patch.patched@.len() - start;
                &&& r@.len() == if want <= readable {
                    want as int
                } else {
                    readable
                }
                &&& r@ == old(self).patch.patched@.subrange(start, start + r@.len())
                &&& *final(self) == (PatchedReader {
                    offset: (old(self).offset + r@.len()) as u64,
                    ..*old(self)
                })
            }),
    {
        let start = (self.offset - self.patch.origin_pos) as usize;
        let avail = self.patch.patched.len() - start;
        let n = if want < avail {
            want
        } else {
            avail
        };
        let r = crate::flv_reader::copy_range(&self.patch.patched, start, start + n);
        self.offset = self.offset + n as u64;
        r
    }
}

impl PatchedReader<Vec<u8>> {
    /// One Read call against an in-memory original: serves at most one
    /// region, as the piecewise view defines it, and advances the offset by
    /// the bytes returned.  A read at or past the logical end returns no
    /// bytes.
    pub fn read_step(&mut self, want: usize) -> (r: Vec<u8>)
        requires
            old(self).wf(),
            old(self).reader@.len() == old(self).origin_length,
            want > 0,
        ensures
            final(self).reader == old(self).reader,
            final(self).patch == old(self).patch,
            final(self).origin_length == old(self).origin_length,
            final(self).wf(),
            ({
                let readable = spec_get_point(
                    old(self).origin_length as nat,
                    old(self).patch,
                    old(self).offset,
                ).1;
                r@.len() == if want <= readable {
                    want as int
                } else {
                    readable as int
                }
            }),
            old(self).offset <= old(self).spec_len() ==> r@ == spec_view(
                old(self).reader@,
                old(self).patch,
            ).subrange(old(self).offset as int, old(self).offset + r@.len()),
            old(self).offset > old(self).spec_len() ==> r@ == Seq::<u8>::empty(),
            final(self).offset == old(self).offset + r@.len(),
    {
        let ghost orig = self.reader@;
        let ghost pt = self.patch;
        let ghost off0 = self.offset;
        let ghost olen = self.origin_length as nat;
        let pl = self.patch.patched.len();
        proof {
            lemma_get_point_bytes(orig, pt, off0);
        }
        let (point, readable) = self.get_point();
        let n: usize = if (want as u64) < readable {
            want
        } else {
            proof {
                assert(readable <= spec_view_len(olen, pt) <= orig.len() + pt.patched@.len());
            }
            readable as usize
        };
        match point {
            StartPoint::Patch(_) => {
                proof {
                    assert(readable == pt.origin_pos + pt.patched@.len() - off0);
                    assert(off0 + readable <= spec_view_len(olen, pt));
                }
                let r = self.read_patch_step(want);
                proof {
                    let vw = spec_view(orig, pt);
                    let q = (off0 - pt.origin_pos) as usize;
                    assert forall|j: int| 0 <= j < r@.len() implies r@[j] == vw[off0 + j] by {
                        assert(vw[off0 + j] == pt.patched@[q + j]);
                    }
                    assert(r@ =~= vw.subrange(off0 as int, off0 + r@.len()));
                }
                r
            },
            StartPoint::Origin(o) => {
                if n == 0 {
                    let r: Vec<u8> = Vec::new();
                    proof {
                        if off0 <= spec_view_len(olen, pt) {
                            assert(r@ =~= spec_view(orig, pt).subrange(off0 as int, off0 as int));
                        }
                        assert(r@ =~= Seq::<u8>::empty());
                    }
                    return r;
                }
                let rl = self.reader.len();
                proof {
                    // in both origin regions the span stays inside the file
                    // and inside the logical view
                    assert(o + readable <= olen);
                    assert(off0 + readable <= spec_view_len(olen, pt));
                    assert(o + n <= rl);
                }
                let r = crate::flv_reader::copy_range(
                    &self.reader,
                    o as usize,
                    o as usize + n,
                );
                self.reader_pos = o + n as u64;
                self.offset = self.offset + n as u64;
                proof {
                    let vw = spec_view(orig, pt);
                    assert forall|j: int| 0 <= j < r@.len() implies r@[j] == vw[off0 + j] by {
                        assert(vw[off0 + j] == orig[o + j]);
                    }
                    assert(r@ =~= vw.subrange(off0 as int, off0 + r@.len()));
                }
                r
            },
        }
    }

    /// Reads the logical bytes [start, end) by a seek and repeated Read
    /// calls: the result is exactly that span of the patched view.
    pub fn read_range(&mut self, start: u64, end: u64) -> (r: Vec<u8>)
        requires
            old(self).wf(),
            old(self).reader@.len() == old(self).origin_length,
            start <= end <= old(self).spec_len(),
            end - start <= usize::MAX,
        ensures
            final(self).reader == old(self).reader,
            final(self).patch == old(self).patch,
            final(self).origin_length == old(self).origin_length,
            final(self).wf(),
            r@ == spec_view(old(self).reader@, old(self).patch).subrange(
                start as int,
                end as int,
            ),
    {
        self.start_seek(SeekFrom::Start(start));
        let mut out: Vec<u8> = Vec::new();
        while self.offset < end
            invariant
                self.wf(),
                self.reader@.len() == self.origin_length,
                self.reader == old(self).reader,
                self.patch == old(self).patch,
                self.origin_length == old(self).origin_length,
                start <= self.offset <= end <= self.spec_len(),
                end - start <= usize::MAX,
                out@ == spec_view(old(self).reader@, old(self).patch).subrange(
                    start as int,
                    self.offset as int,
                ),
            decreases end - self.offset,
        {
            proof {
                assert(end - self.offset <= end - start <= usize::MAX);
            }
            let want: usize = (end - self.offset) as usize;
            let ghost pre_offset = self.offset;
            let mut chunk = self.read_step(want);
            proof {
                let readable = spec_get_point(
                    self.origin_length as nat,
                    self.patch,
                    pre_offset,
                ).1;
                assert(readable > 0);
            }
            out.append(&mut chunk);
            proof {
                assert(out@ =~= spec_view(old(self).reader@, old(self).patch).subrange(
                    start as int,
                    self.offset as int,
                ));
            }
        }
        out
    }
}

/// The eight little-endian bytes of a 64-bit value.
pub open spec fn spec_le64_bytes(x: u64) -> Seq<u8> {
    seq![
        (x % 0x100) as u8,
        ((x / 0x100) % 0x100) as u8,
        ((x / 0x10000) % 0x100) as u8,
        ((x / 0x1000000) % 0x100) as u8,
        ((x / 0x1_0000_0000) % 0x100) as u8,
        ((x / 0x100_0000_0000) % 0x100) as u8,
        ((x / 0x1_0000_0000_0000) % 0x100) as u8,
        ((x / 0x100_0000_0000_0000) % 0x100) as u8,
    ]
}

/// The little-endian value of the eight bytes at i.
pub open spec fn spec_le64(s: Seq<u8>, i: int) -> u64 {
    ((s[i] as u64) + (s[i + 1] as u64) * 0x100 + (s[i + 2] as u64) * 0x10000 + (s[i + 3] as u64)
        * 0x1000000 + (s[i + 4] as u64) * 0x1_0000_0000 + (s[i + 5] as u64) * 0x100_0000_0000 + (
    s[i + 6] as u64) * 0x1_0000_0000_0000 + (s[i + 7] as u64) * 0x100_0000_0000_0000) as u64
}

/// The sidecar encoding of a descriptor: three 64-bit little-endian fields
/// (origin position, origin size, patch length) then the patch bytes.
pub open spec fn spec_patch_encoding(p: Patch) -> Seq<u8> {
    spec_le64_bytes(p.origin_pos) + spec_le64_bytes(p.origin_size) + spec_le64_bytes(
        p.patched@.len() as u64,
    ) + p.patched@
}

/// What a byte string decodes to: the three fields, when the length prefix
/// agrees with the bytes that follow.
pub open spec fn spec_decode_patch(s: Seq<u8>) -> Option<(u64, u64, Seq<u8>)> {
    if s.len() >= 24 && s.len() - 24 == spec_le64(s, 16) {
        Some((spec_le64(s, 0), spec_le64(s, 8), s.subrange(24, s.len() as int)))
    } else {
        None
    }
}

/// A 64-bit value is the little-endian sum of its eight bytes.
proof fn lemma_le64_reconstruct(x: u64)
    ensures
        (x % 0x100) + ((x / 0x100) % 0x100) * 0x100 + ((x / 0x10000) % 0x100) * 0x10000 + ((x
            / 0x1000000) % 0x100) * 0x1000000 + ((x / 0x1_0000_0000) % 0x100) * 0x1_0000_0000 + ((
        x / 0x100_0000_0000) % 0x100) * 0x100_0000_0000 + ((x / 0x1_0000_0000_0000) % 0x100)
            * 0x1_0000_0000_0000 + ((x / 0x100_0000_0000_0000) % 0x100) * 0x100_0000_0000_0000
            == x,
{
    let x0 = x as int;
    vstd::arithmetic::div_mod::lemma_fundamental_div_mod(x0, 0x100);
    vstd::arithmetic::div_mod::lemma_div_denominator(x0, 0x100, 0x100);
    vstd::arithmetic::div_mod::lemma_fundamental_div_mod(x0 / 0x100, 0x100);
    vstd::arithmetic::div_mod::lemma_div_denominator(x0, 0x10000, 0x100);
    vstd::arithmetic::div_mod::lemma_fundamental_div_mod(x0 / 0x10000, 0x100);
    vstd::arithmetic::div_mod::lemma_div_denominator(x0, 0x1000000, 0x100);
    vstd::arithmetic::div_mod::lemma_fundamental_div_mod(x0 / 0x1000000, 0x100);
    vstd::arithmetic::div_mod::lemma_div_denominator(x0, 0x1_0000_0000, 0x100);
    vstd::arithmetic::div_mod::lemma_fundamental_div_mod(x0 / 0x1_0000_0000, 0x100);
    vstd::arithmetic::div_mod::lemma_div_denominator(x0, 0x100_0000_0000, 0x100);
    vstd::arithmetic::div_mod::lemma_fundamental_div_mod(x0 / 0x100_0000_0000, 0x100);
    vstd::arithmetic::div_mod::lemma_div_denominator(x0, 0x1_0000_0000_0000, 0x100);
    vstd::arithmetic::div_mod::lemma_fundamental_div_mod(x0 / 0x1_0000_0000_0000, 0x100);
    assert((x0 / 0x100_0000_0000_0000) % 0x100 == x0 / 0x100_0000_0000_0000);
}

/// Decoding an encoded descriptor yields its fields back: the sidecar write
/// and read agree.
#[verifier::rlimit(100)]
pub proof fn lemma_patch_codec_round_trip(p: Patch)
    requires
        p.patched@.len() + 24 <= u64::MAX,
    ensures
        spec_decode_patch(spec_patch_encoding(p)) == Some(
            (p.origin_pos, p.origin_size, p.patched@),
        ),
{
    let s = spec_patch_encoding(p);
    let n = p.patched@.len() as u64;
    lemma_le64_reconstruct(p.origin_pos);
    lemma_le64_reconstruct(p.origin_size);
    lemma_le64_reconstruct(n);
    assert(spec_le64(s, 0) == p.origin_pos);
    assert(spec_le64(s, 8) == p.origin_size);
    assert(spec_le64(s, 16) == n);
    assert(s.subrange(24, s.len() as int) =~= p.patched@);
}

/// Appends the eight little-endian bytes of x.
pub fn push_le64(out: &mut Vec<u8>, x: u64)
    ensures
        final(out)@ == old(out)@ + spec_le64_bytes(x),
{
    out.push((x % 0x100) as u8);
    out.push(((x / 0x100) % 0x100) as u8);
    out.push(((x / 0x10000) % 0x100) as u8);
    out.push(((x / 0x1000000) % 0x100) as u8);
    out.push(((x / 0x1_0000_0000) % 0x100) as u8);
    out.push(((x / 0x100_0000_0000) % 0x100) as u8);
    out.push(((x / 0x1_0000_0000_0000) % 0x100) as u8);
    out.push(((x / 0x100_0000_0000_0000) % 0x100) as u8);
    proof {
        assert(final(out)@ =~= old(out)@ + spec_le64_bytes(x));
    }
}

/// Reads the 64-bit little-endian value at i.
#[verifier::rlimit(50)]
pub fn read_le64(bytes: &Vec<u8>, i: usize) -> (r: u64)
    requires
        i + 8 <= bytes@.len(),
    ensures
        r == spec_le64(bytes@, i as int),
{
    let n = bytes.len();
    proof {
        assert(i + 8 <= n);
    }
    let total: u128 = (bytes[i] as u128) + (bytes[i + 1] as u128) * 0x100 + (bytes[i
        + 2] as u128) * 0x10000 + (bytes[i + 3] as u128) * 0x1000000 + (bytes[i + 4] as u128)
        * 0x1_0000_0000 + (bytes[i + 5] as u128) * 0x100_0000_0000 + (bytes[i + 6] as u128)
        * 0x1_0000_0000_0000 + (bytes[i + 7] as u128) * 0x100_0000_0000_0000;
    total as u64
}

/// Serializes a descriptor for the sidecar file.
pub fn encode_patch(p: &Patch) -> (r: Vec<u8>)
    ensures
        r@ == spec_patch_encoding(*p),
{
    let mut out: Vec<u8> = Vec::new();
    push_le64(&mut out, p.origin_pos);
    push_le64(&mut out, p.origin_size);
    push_le64(&mut out, p.patched.len() as u64);
    let mut tail = crate::flv_reader::copy_range(&p.patched, 0, p.patched.len());
    out.append(&mut tail);
    proof {
        assert(out@ =~= spec_patch_encoding(*p));
    }
    out
}

/// Reads a descriptor back from sidecar bytes; None if the length prefix and
/// the byte count disagree or the header is short.
pub fn decode_patch(bytes: &Vec<u8>) -> (r: Option<Patch>)
    ensures
        match (r, spec_decode_patch(bytes@)) {
            (Some(p), Some(t)) => p.origin_pos == t.0 && p.origin_size == t.1 && p.patched@ == t.2,
            (None, None) => true,
            _ => false,
        },
{
    if bytes.len() < 24 {
        return None;
    }
    let plen = read_le64(bytes, 16);
    if plen != (bytes.len() - 24) as u64 {
        return None;
    }
    let origin_pos = read_le64(bytes, 0);
    let origin_size = read_le64(bytes, 8);
    let patched = crate::flv_reader::copy_range(bytes, 24, bytes.len());
    Some(Patch { origin_pos, origin_size, patched })
}

impl Patch {
    /// A reader presenting the patched view of a back-end source of the given
    /// length, with a copy of this descriptor inside it.
    pub fn patch_reader<R>(&self, reader: R, origin_length: u64) -> (r: PatchedReader<R>)
        requires
            patch_wf(origin_length as nat, *self),
        ensures
            r.reader == reader,
            r.reader_pos == 0,
            r.offset == 0,
            r.origin_length == origin_length,
            !r.seeking,
            r.patch.origin_pos == self.origin_pos,
            r.patch.origin_size == self.origin_size,
            r.patch.patched@ == self.patched@,
            r.wf(),
    {
        let patched = crate::flv_reader::copy_range(&self.patched, 0, self.patched.len());
        proof {
            assert(patched@ =~= self.patched@);
        }
        PatchedReader::new(
            reader,
            Patch { origin_pos: self.origin_pos, origin_size: self.origin_size, patched },
            origin_length,
        )
    }
}

/// One bound of an HTTP byte range.
#[derive(Debug, Clone, Copy)]
pub enum RangeBound {
    Unbounded,
    Included(u64),
    Excluded(u64),
}

/// The half-open byte span [a, b) that a range request selects against a
/// stream of the given logical length: a missing start is the beginning, a
/// missing end is the whole rest, and an included end names its last byte.
/// None when the span is empty, inverted, or runs past the end.
pub open spec fn spec_resolve_range(start: RangeBound, end: RangeBound, max_len: u64) -> Option<
    (u64, u64),
> {
    let a: int = match start {
        RangeBound::Unbounded => 0,
        RangeBound::Included(s) => s as int,
        RangeBound::Excluded(s) => s + 1,
    };
    let b: int = match end {
        RangeBound::Unbounded => max_len as int,
        RangeBound::Included(s) => s + 1,
        RangeBound::Excluded(s) => s as int,
    };
    if a < b && b <= max_len {
        Some((a as u64, b as u64))
    } else {
        None
    }
}

/// Resolves a range request against the logical length; None stands for the
/// invalid range that the caller answers with an error.
pub fn resolve_range(start: RangeBound, end: RangeBound, max_len: u64) -> (r: Option<(u64, u64)>)
    ensures
        r == spec_resolve_range(start, end, max_len),
{
    let a: u64 = match start {
        RangeBound::Unbounded => 0,
        RangeBound::Included(s) => s,
        RangeBound::Excluded(s) => {
            if s == u64::MAX {
                return None;
            }
            s + 1
        },
    };
    let b: u64 = match end {
        RangeBound::Unbounded => max_len,
        RangeBound::Included(s) => {
            if s == u64::MAX {
                return None;
            }
            s + 1
        },
        RangeBound::Excluded(s) => s,
    };
    if a < b && b <= max_len {
        Some((a, b))
    } else {
        None
    }
}

} // verus!

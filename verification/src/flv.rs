//! The patch synthesizer: scans an FLV stream, collects video keyframes,
//! finds the `onMetaData` script tag, and produces the replacement tag with
//! the `keyframes` index and self-consistent file offsets.
//!
//! The offsets recorded during the scan point into the original file, but
//! clients consume the patched view, in which every byte after the metadata
//! tag shifts by the size difference between the original and the patched
//! tag.  That difference depends only on the number of keyframes, never on
//! their values, so a first serialization pass fixes the length and a second
//! pass emits the adjusted positions.
use vstd::prelude::*;

verus! {

use crate::amf0::MARKER_OBJECT_END;
use crate::amf0::MARKER_STRING;
use crate::amf0::amf_canon_meta;
use crate::amf0::amf_canonical_meta;
use crate::amf0::amf_first_string;
use crate::amf0::amf_meta_keys;
use crate::amf0::amf_script_keys;
use crate::amf0::amf_script_name;
use crate::amf0::amf_string_bytes;
use crate::amf0::keyframes_key;
use crate::amf0::object_end;
use crate::amf0::on_meta_data;
use crate::amf0::push_be24;
use crate::amf0::push_be32;
use crate::amf0::push_key;
use crate::amf0::spec_be24_bytes;
use crate::amf0::spec_be32_bytes;
use crate::flv_reader::FlvError;
use crate::flv_reader::FlvTagData;
use crate::flv_reader::VideoFrameType;
use crate::flv_reader::copy_range;
use crate::flv_reader::header_ok;
use crate::flv_reader::read_flv_header;
use crate::flv_reader::read_flv_tag;
use crate::flv_reader::spec_header;
use crate::flv_reader::spec_tag_at;
use crate::keyframes::Keyframes;
use crate::keyframes::spec_keyframes_pair;
use crate::patch::Patch;

/// The metadata tag found by the scan, at specification level.
pub ghost struct GMeta {
    /// Absolute offset of the tag header in the original file.
    pub offset: int,
    /// Size of the replaced region: tag header, payload and the four-byte
    /// previous-tag-size trailer.
    pub size: int,
    /// Whether the metadata value carried key-value pairs, so that the
    /// `keyframes` pair can be appended to its canonical re-encoding.
    pub is_object: bool,
    /// The canonical re-encoding of the metadata value.
    pub canon: Seq<u8>,
}

/// The scan state: keyframe positions and timestamps in file order, and the
/// last `onMetaData` tag seen.
pub ghost struct GScan {
    pub kpos: Seq<int>,
    pub kts: Seq<u32>,
    pub meta: Option<GMeta>,
}

/// The state at the start of the scan.
pub open spec fn scan_init() -> GScan {
    GScan { kpos: Seq::empty(), kts: Seq::empty(), meta: None }
}

/// Whether one of the keys is "keyframes".
pub open spec fn spec_has_keyframes(keys: Seq<Seq<u8>>) -> bool {
    exists|i: int| 0 <= i < keys.len() && keys[i] == keyframes_key()
}

/// The scan from pos on: collects keyframes, examines each script tag, and
/// short-circuits to Ok(None) as soon as a metadata object already carrying
/// a `keyframes` key is seen.  A script tag whose payload does not decode,
/// or whose first value is not the string "onMetaData", fails the scan.
pub open spec fn spec_scan(s: Seq<u8>, pos: int, st: GScan) -> Result<Option<GScan>, FlvError>
    decreases s.len() - pos,
{
    match spec_tag_at(s, pos) {
        Err(e) => Err(e),
        Ok(None) => Ok(Some(st)),
        Ok(Some(g)) => {
            if g.tag_type == 9 && g.frame_type == 1 {
                spec_scan(
                    s,
                    pos + 15 + g.data_size,
                    GScan { kpos: st.kpos.push(g.pos), kts: st.kts.push(g.timestamp), meta: st.meta },
                )
            } else if g.tag_type == 0x12 {
                if amf_first_string(g.payload) != Some(on_meta_data()) {
                    Err(FlvError::InvalidMetadata)
                } else {
                    match amf_meta_keys(g.payload) {
                        None => Err(FlvError::InvalidMetadata),
                        Some(keys_opt) => {
                            if (keys_opt matches Some(ks) && spec_has_keyframes(ks)) {
                                Ok(None)
                            } else {
                                match amf_canon_meta(g.payload) {
                                    None => Err(FlvError::InvalidMetadata),
                                    Some(cm) => spec_scan(
                                        s,
                                        pos + 15 + g.data_size,
                                        GScan {
                                            kpos: st.kpos,
                                            kts: st.kts,
                                            meta: Some(
                                                GMeta {
                                                    offset: g.pos,
                                                    size: 15 + g.data_size,
                                                    is_object: cm.0,
                                                    canon: cm.1,
                                                },
                                            ),
                                        },
                                    ),
                                }
                            }
                        },
                    }
                }
            } else {
                spec_scan(s, pos + 15 + g.data_size, st)
            }
        },
    }
}

/// The keyframe positions as 64-bit values.
pub open spec fn kpos_u64(kpos: Seq<int>) -> Seq<u64> {
    kpos.map_values(|p: int| p as u64)
}

/// The payload of the patched script tag: the "onMetaData" string, then the
/// canonical metadata with the `keyframes` pair appended before its end
/// marker.  A metadata value without key-value pairs is kept unchanged.
pub open spec fn spec_patched_payload(st: GScan, m: GMeta, adjust: int) -> Seq<u8> {
    amf_string_bytes(on_meta_data()) + if m.is_object {
        m.canon.take(m.canon.len() - 3) + spec_keyframes_pair(kpos_u64(st.kpos), st.kts, adjust)
            + object_end()
    } else {
        m.canon
    }
}

/// The header of the patched script tag: type, 24-bit size, zero timestamp
/// and zero stream id.
pub open spec fn spec_script_tag_header(payload_len: int) -> Seq<u8> {
    seq![0x12u8] + spec_be24_bytes(payload_len as u32) + seq![0u8, 0u8, 0u8, 0u8, 0u8, 0u8, 0u8]
}

/// The size adjustment the second pass applies: the length of the candidate
/// patched block (header, payload, trailer) minus the size of the replaced
/// region.
pub open spec fn spec_adjust(st: GScan, m: GMeta) -> int {
    15 + spec_patched_payload(st, m, 0).len() - m.size
}

/// The full patched block: tag header, second-pass payload, and the
/// previous-tag-size trailer.
pub open spec fn spec_patched_tag(st: GScan, m: GMeta) -> Seq<u8> {
    let payload = spec_patched_payload(st, m, spec_adjust(st, m));
    spec_script_tag_header(payload.len() as int) + payload + spec_be32_bytes(
        (11 + payload.len()) as u32,
    )
}

/// A produced patch, at specification level.
pub ghost struct GPatch {
    pub origin_pos: int,
    pub origin_size: int,
    pub patched: Seq<u8>,
}

/// What the synthesis returns on a stream: an error of the scan; None when
/// the file has no metadata or already carries a `keyframes` key; the patch
/// otherwise.  A payload too large for a 24-bit tag size is refused.
pub open spec fn spec_generate_patch(s: Seq<u8>) -> Result<Option<GPatch>, FlvError> {
    if !header_ok(s) {
        Err(FlvError::InvalidHeader)
    } else {
        match spec_scan(s, spec_header(s).data_offset as int, scan_init()) {
            Err(e) => Err(e),
            Ok(None) => Ok(None),
            Ok(Some(st)) => match st.meta {
                None => Ok(None),
                Some(m) => if spec_patched_payload(st, m, 0).len() > 0xFFFFFF {
                    Err(FlvError::InvalidMetadata)
                } else {
                    Ok(
                        Some(
                            GPatch {
                                origin_pos: m.offset,
                                origin_size: m.size,
                                patched: spec_patched_tag(st, m),
                            },
                        ),
                    )
                },
            },
        }
    }
}

/// Both serialization passes produce payloads of one length: AMF0 numbers
/// have a fixed width, so the adjustment applied in the second pass cannot
/// change the size that the first pass measured.
pub proof fn lemma_two_pass_lengths(st: GScan, m: GMeta, a1: int, a2: int)
    requires
        st.kpos.len() == st.kts.len(),
    ensures
        spec_patched_payload(st, m, a1).len() == spec_patched_payload(st, m, a2).len(),
{
    crate::keyframes::lemma_keyframes_pair_len(kpos_u64(st.kpos), st.kts, a1);
    crate::keyframes::lemma_keyframes_pair_len(kpos_u64(st.kpos), st.kts, a2);
}

/// Whether a video keyframe tag header sits at position p of the stream.
pub open spec fn keyframe_at(s: Seq<u8>, p: int) -> bool {
    &&& 0 <= p
    &&& p + 11 < s.len()
    &&& s[p] == 9
    &&& s[p + 11] >> 4 == 1
}

/// Scan soundness, by induction along the stream: the recorded positions are
/// strictly increasing, each points at a video keyframe tag header, the two
/// recorded sequences run in parallel, and a found metadata region lies
/// inside the stream.
pub proof fn lemma_scan_keyframes(s: Seq<u8>, pos: int, st: GScan, st2: GScan)
    requires
        spec_scan(s, pos, st) == Ok::<Option<GScan>, FlvError>(Some(st2)),
        0 <= pos,
        st.kpos.len() == st.kts.len(),
        forall|i: int, j: int| #![trigger st.kpos[i], st.kpos[j]] 0 <= i < j < st.kpos.len() ==> st.kpos[i] < st.kpos[j],
        forall|i: int| 0 <= i < st.kpos.len() ==> #[trigger] st.kpos[i] < pos + 4,
        forall|i: int| 0 <= i < st.kpos.len() ==> keyframe_at(s, #[trigger] st.kpos[i]),
        st.meta matches Some(m) ==> m.offset >= 0 && m.size >= 15 && m.offset + m.size <= s.len()
            + 4,
    ensures
        st2.kpos.len() == st2.kts.len(),
        forall|i: int, j: int| #![trigger st2.kpos[i], st2.kpos[j]] 0 <= i < j < st2.kpos.len() ==> st2.kpos[i] < st2.kpos[j],
        forall|i: int| 0 <= i < st2.kpos.len() ==> keyframe_at(s, #[trigger] st2.kpos[i]),
        st2.meta matches Some(m) ==> m.offset >= 0 && m.size >= 15 && m.offset + m.size <= s.len()
            + 4,
    decreases s.len() - pos,
{
    match spec_tag_at(s, pos) {
        Err(e) => {},
        Ok(None) => {},
        Ok(Some(g)) => {
            if g.tag_type == 9 && g.frame_type == 1 {
                let stp = GScan {
                    kpos: st.kpos.push(g.pos),
                    kts: st.kts.push(g.timestamp),
                    meta: st.meta,
                };
                assert(keyframe_at(s, g.pos));
                lemma_scan_keyframes(s, pos + 15 + g.data_size, stp, st2);
            } else if g.tag_type == 0x12 {
                if amf_first_string(g.payload) == Some(on_meta_data()) {
                    match amf_meta_keys(g.payload) {
                        None => {},
                        Some(keys_opt) => {
                            if !(keys_opt matches Some(ks) && spec_has_keyframes(ks)) {
                                match amf_canon_meta(g.payload) {
                                    None => {},
                                    Some(cm) => {
                                        let stp = GScan {
                                            kpos: st.kpos,
                                            kts: st.kts,
                                            meta: Some(
                                                GMeta {
                                                    offset: g.pos,
                                                    size: 15 + g.data_size,
                                                    is_object: cm.0,
                                                    canon: cm.1,
                                                },
                                            ),
                                        };
                                        lemma_scan_keyframes(s, pos + 15 + g.data_size, stp, st2);
                                    },
                                }
                            }
                        },
                    }
                }
            } else {
                lemma_scan_keyframes(s, pos + 15 + g.data_size, st, st2);
            }
        },
    }
}

/// The recorded file positions strictly increase: keyframes are appended in
/// file order and every tag is at least fifteen bytes further on.
pub proof fn lemma_filepositions_strictly_increase(s: Seq<u8>, st: GScan)
    requires
        header_ok(s),
        spec_scan(s, spec_header(s).data_offset as int, scan_init()) == Ok::<
            Option<GScan>,
            FlvError,
        >(Some(st)),
    ensures
        forall|i: int, j: int| #![trigger st.kpos[i], st.kpos[j]] 0 <= i < j < st.kpos.len() ==> st.kpos[i] < st.kpos[j],
        forall|i: int| 0 <= i < st.kpos.len() ==> keyframe_at(s, #[trigger] st.kpos[i]),
{
    lemma_scan_keyframes(s, spec_header(s).data_offset as int, scan_init(), st);
}

/// Whether, from pos on, every video keyframe timestamp is at least lo and
/// they appear in non-decreasing order.
pub open spec fn scan_times_ok(s: Seq<u8>, pos: int, lo: u32) -> bool
    decreases s.len() - pos,
{
    match spec_tag_at(s, pos) {
        Err(e) => true,
        Ok(None) => true,
        Ok(Some(g)) => {
            if g.tag_type == 9 && g.frame_type == 1 {
                lo <= g.timestamp && scan_times_ok(s, pos + 15 + g.data_size, g.timestamp)
            } else {
                scan_times_ok(s, pos + 15 + g.data_size, lo)
            }
        },
    }
}

/// Times soundness, by induction along the stream: when keyframe timestamps
/// appear in non-decreasing order from lo on, the recorded times are
/// non-decreasing.
proof fn lemma_scan_times(s: Seq<u8>, pos: int, st: GScan, st2: GScan, lo: u32)
    requires
        spec_scan(s, pos, st) == Ok::<Option<GScan>, FlvError>(Some(st2)),
        scan_times_ok(s, pos, lo),
        forall|i: int, j: int| #![trigger st.kts[i], st.kts[j]] 0 <= i <= j < st.kts.len() ==> st.kts[i] <= st.kts[j],
        forall|i: int| 0 <= i < st.kts.len() ==> #[trigger] st.kts[i] <= lo,
    ensures
        forall|i: int, j: int| #![trigger st2.kts[i], st2.kts[j]] 0 <= i <= j < st2.kts.len() ==> st2.kts[i] <= st2.kts[j],
    decreases s.len() - pos,
{
    match spec_tag_at(s, pos) {
        Err(e) => {},
        Ok(None) => {},
        Ok(Some(g)) => {
            if g.tag_type == 9 && g.frame_type == 1 {
                let stp = GScan {
                    kpos: st.kpos.push(g.pos),
                    kts: st.kts.push(g.timestamp),
                    meta: st.meta,
                };
                lemma_scan_times(s, pos + 15 + g.data_size, stp, st2, g.timestamp);
            } else if g.tag_type == 0x12 {
                if amf_first_string(g.payload) == Some(on_meta_data()) {
                    match amf_meta_keys(g.payload) {
                        None => {},
                        Some(keys_opt) => {
                            if !(keys_opt matches Some(ks) && spec_has_keyframes(ks)) {
                                match amf_canon_meta(g.payload) {
                                    None => {},
                                    Some(cm) => {
                                        let stp = GScan {
                                            kpos: st.kpos,
                                            kts: st.kts,
                                            meta: Some(
                                                GMeta {
                                                    offset: g.pos,
                                                    size: 15 + g.data_size,
                                                    is_object: cm.0,
                                                    canon: cm.1,
                                                },
                                            ),
                                        };
                                        lemma_scan_times(s, pos + 15 + g.data_size, stp, st2, lo);
                                    },
                                }
                            }
                        },
                    }
                }
            } else {
                lemma_scan_times(s, pos + 15 + g.data_size, st, st2, lo);
            }
        },
    }
}

/// The recorded times are non-decreasing, for every stream whose video
/// keyframe timestamps appear in non-decreasing order.
pub proof fn lemma_times_nondecreasing(s: Seq<u8>, st: GScan)
    requires
        header_ok(s),
        spec_scan(s, spec_header(s).data_offset as int, scan_init()) == Ok::<
            Option<GScan>,
            FlvError,
        >(Some(st)),
        scan_times_ok(s, spec_header(s).data_offset as int, 0),
    ensures
        forall|i: int, j: int| #![trigger st.kts[i], st.kts[j]] 0 <= i <= j < st.kts.len() ==> st.kts[i] <= st.kts[j],
{
    lemma_scan_times(s, spec_header(s).data_offset as int, scan_init(), st, 0);
}

/// Self-reference consistency: in the patched view, every adjusted file
/// position points at a byte holding the video tag type, whose payload's
/// first byte carries the keyframe nibble — for every stream whose keyframes
/// all lie after the metadata region.
pub proof fn lemma_adjusted_positions_hit_keyframes(s: Seq<u8>, st: GScan, m: GMeta)
    requires
        header_ok(s),
        spec_scan(s, spec_header(s).data_offset as int, scan_init()) == Ok::<
            Option<GScan>,
            FlvError,
        >(Some(st)),
        st.meta == Some(m),
        forall|i: int| 0 <= i < st.kpos.len() ==> #[trigger] st.kpos[i] >= m.offset + m.size,
    ensures
        forall|i: int|
            0 <= i < st.kpos.len() ==> {
                let d = spec_adjust(st, m);
                let patched = spec_patched_tag(st, m);
                let vpos = #[trigger] st.kpos[i] + d;
                &&& 0 <= vpos
                &&& vpos + 11 < s.len() + patched.len() - m.size
                &&& crate::patch::spec_splice_byte(s, m.offset, m.size, patched, vpos) == 9
                &&& crate::patch::spec_splice_byte(s, m.offset, m.size, patched, vpos + 11) >> 4
                    == 1
            },
{
    lemma_scan_keyframes(s, spec_header(s).data_offset as int, scan_init(), st);
    let d = spec_adjust(st, m);
    let patched = spec_patched_tag(st, m);
    lemma_two_pass_lengths(st, m, 0, spec_adjust(st, m));
    assert(patched.len() == 15 + spec_patched_payload(st, m, 0).len());
    assert(d == patched.len() - m.size);
    assert forall|i: int| 0 <= i < st.kpos.len() implies {
        let vpos = #[trigger] st.kpos[i] + d;
        &&& 0 <= vpos
        &&& vpos + 11 < s.len() + patched.len() - m.size
        &&& crate::patch::spec_splice_byte(s, m.offset, m.size, patched, vpos) == 9
        &&& crate::patch::spec_splice_byte(s, m.offset, m.size, patched, vpos + 11) >> 4 == 1
    } by {
        let k = st.kpos[i];
        assert(keyframe_at(s, k));
        let vpos = k + d;
        assert(vpos == k - m.size + patched.len());
        assert(vpos >= m.offset + patched.len());
        assert(crate::patch::spec_splice_byte(s, m.offset, m.size, patched, vpos) == s[k]);
        assert(crate::patch::spec_splice_byte(s, m.offset, m.size, patched, vpos + 11) == s[k
            + 11]);
    }
}

/// Whether the bytes are exactly "onMetaData".
fn is_on_meta_data(v: &Vec<u8>) -> (r: bool)
    ensures
        r == (v@ == on_meta_data()),
{
    if v.len() != 10 {
        return false;
    }
    let r = v[0] == 0x6F && v[1] == 0x6E && v[2] == 0x4D && v[3] == 0x65 && v[4] == 0x74 && v[5]
        == 0x61 && v[6] == 0x44 && v[7] == 0x61 && v[8] == 0x74 && v[9] == 0x61;
    proof {
        if r {
            assert(v@ =~= on_meta_data());
        }
    }
    r
}

/// Whether the bytes are exactly "keyframes".
fn is_keyframes_key(v: &Vec<u8>) -> (r: bool)
    ensures
        r == (v@ == keyframes_key()),
{
    if v.len() != 9 {
        return false;
    }
    let r = v[0] == 0x6B && v[1] == 0x65 && v[2] == 0x79 && v[3] == 0x66 && v[4] == 0x72 && v[5]
        == 0x61 && v[6] == 0x6D && v[7] == 0x65 && v[8] == 0x73;
    proof {
        if r {
            assert(v@ =~= keyframes_key());
        }
    }
    r
}

/// Whether one of the keys is "keyframes".
fn has_keyframes(keys: &Vec<Vec<u8>>) -> (r: bool)
    ensures
        r == spec_has_keyframes(keys@.map_values(|k: Vec<u8>| k@)),
{
    let ghost mapped = keys@.map_values(|k: Vec<u8>| k@);
    let mut i: usize = 0;
    while i < keys.len()
        invariant
            i <= keys@.len(),
            mapped == keys@.map_values(|k: Vec<u8>| k@),
            forall|j: int| 0 <= j < i ==> #[trigger] mapped[j] != keyframes_key(),
        decreases keys@.len() - i,
    {
        if is_keyframes_key(&keys[i]) {
            proof {
                assert(mapped[i as int] == keyframes_key());
            }
            return true;
        }
        i = i + 1;
    }
    false
}

/// Splices the serialized `keyframes` pair into a canonical metadata object:
/// everything before the three closing bytes, then the pair, then the end
/// marker.
fn insert_keyframes(canon: &Vec<u8>, pair: &Vec<u8>) -> (r: Vec<u8>)
    requires
        canon@.len() >= 3,
    ensures
        r@ == canon@.take(canon@.len() - 3) + pair@ + object_end(),
{
    let mut out = copy_range(canon, 0, canon.len() - 3);
    let mut tail = copy_range(pair, 0, pair.len());
    out.append(&mut tail);
    out.push(0);
    out.push(0);
    out.push(MARKER_OBJECT_END);
    proof {
        assert(out@ =~= canon@.take(canon@.len() - 3) + pair@ + object_end());
    }
    out
}

/// Wraps a payload as an FLV script tag: eleven-byte header with zero
/// timestamp and stream id, the payload, and a previous-tag-size trailer
/// covering the header and the payload.
fn make_patched(payload: &Vec<u8>) -> (r: Vec<u8>)
    requires
        payload@.len() <= 0xFFFFFF,
    ensures
        r@ == spec_script_tag_header(payload@.len() as int) + payload@ + spec_be32_bytes(
            (11 + payload@.len()) as u32,
        ),
{
    let mut out: Vec<u8> = Vec::new();
    out.push(0x12);
    push_be24(&mut out, payload.len() as u32);
    out.push(0);
    out.push(0);
    out.push(0);
    out.push(0);
    out.push(0);
    out.push(0);
    out.push(0);
    let mut body = copy_range(payload, 0, payload.len());
    out.append(&mut body);
    push_be32(&mut out, 11 + payload.len() as u32);
    proof {
        assert(out@ =~= spec_script_tag_header(payload@.len() as int) + payload@
            + spec_be32_bytes((11 + payload@.len()) as u32));
    }
    out
}

/// Scans the stream and synthesizes the patch.
///
/// Returns None when the file has no `onMetaData` tag or when its metadata
/// already carries a `keyframes` key (the latter short-circuits the scan);
/// fails with the scan's error on a malformed stream.  The length bound on
/// the input keeps every offset computation inside 64-bit space.
#[verifier::rlimit(100)]
pub fn generate_patch(bytes: &Vec<u8>) -> (r: Result<Option<Patch>, FlvError>)
    requires
        bytes@.len() <= 0x1000_0000_0000_0000,
    ensures
        match (r, spec_generate_patch(bytes@)) {
            (Ok(Some(p)), Ok(Some(g))) => p.origin_pos == g.origin_pos && p.origin_size
                == g.origin_size && p.patched@ == g.patched,
            (Ok(None), Ok(None)) => true,
            (Err(e), Err(ge)) => e == ge,
            _ => false,
        },
{
    let header = match read_flv_header(bytes) {
        Ok(h) => h,
        Err(e) => {
            return Err(e);
        },
    };
    let mut pos: usize = if header.data_offset as usize <= bytes.len() {
        header.data_offset as usize
    } else {
        bytes.len()
    };
    proof {
        if (header.data_offset as usize) > bytes@.len() {
            assert(spec_scan(bytes@, header.data_offset as int, scan_init()) == Ok::<
                Option<GScan>,
                FlvError,
            >(Some(scan_init())));
            assert(spec_scan(bytes@, pos as int, scan_init()) == Ok::<Option<GScan>, FlvError>(
                Some(scan_init()),
            ));
        }
    }
    let mut kf = Keyframes::new();
    let mut meta: Option<(u64, u64, bool, Vec<u8>)> = None;
    let mut st = Ghost(scan_init());
    loop
        invariant
            header_ok(bytes@),
            header == spec_header(bytes@),
            bytes@.len() <= 0x1000_0000_0000_0000,
            pos <= bytes@.len(),
            kf.wf(),
            kf.adjust() == 0,
            st@.kpos.len() == kf.positions().len(),
            st@.kts == kf.times_ms(),
            forall|i: int| 0 <= i < st@.kpos.len() ==> #[trigger] st@.kpos[i] == kf.positions()[i],
            forall|i: int| 0 <= i < st@.kpos.len() ==> 0 <= #[trigger] st@.kpos[i] <= bytes@.len(),
            match (meta, st@.meta) {
                (Some(t), Some(m)) => t.0 == m.offset && t.1 == m.size && t.2 == m.is_object
                    && t.3@ == m.canon && m.size <= bytes@.len() + 15 && (m.is_object
                    ==> m.canon.len() >= 4 && m.canon.subrange(
                    m.canon.len() - 3,
                    m.canon.len() as int,
                ) == object_end()),
                (None, None) => true,
                _ => false,
            },
            spec_scan(bytes@, spec_header(bytes@).data_offset as int, scan_init()) == spec_scan(
                bytes@,
                pos as int,
                st@,
            ),
        ensures
            spec_scan(bytes@, spec_header(bytes@).data_offset as int, scan_init()) == Ok::<
                Option<GScan>,
                FlvError,
            >(Some(st@)),
        decreases bytes@.len() - pos,
    {
        let ghost st0 = st@;
        match read_flv_tag(bytes, pos) {
            Ok(None) => {
                proof {
                    assert(spec_scan(bytes@, pos as int, st@) == Ok::<Option<GScan>, FlvError>(
                        Some(st@),
                    ));
                }
                break ;
            },
            Ok(Some((tag, next))) => {
                let ghost g = spec_tag_at(bytes@, pos as int)->Ok_0->Some_0;
                match tag.data {
                    FlvTagData::Video { frame_type } => {
                        if frame_type == VideoFrameType::KeyFrame {
                            kf.add((pos + 4) as u64, tag.timestamp);
                            st = Ghost(
                                GScan {
                                    kpos: st@.kpos.push(g.pos),
                                    kts: st@.kts.push(g.timestamp),
                                    meta: st@.meta,
                                },
                            );
                        }
                    },
                    FlvTagData::Script { data } => {
                        let ok_name = match amf_script_name(&data) {
                            Some(v) => is_on_meta_data(&v),
                            None => false,
                        };
                        if !ok_name {
                            proof {
                                assert(spec_scan(bytes@, pos as int, st@) == Err::<
                                    Option<GScan>,
                                    FlvError,
                                >(FlvError::InvalidMetadata));
                            }
                            return Err(FlvError::InvalidMetadata);
                        }
                        match amf_script_keys(&data) {
                            None => {
                                proof {
                                    assert(spec_scan(bytes@, pos as int, st@) == Err::<
                                        Option<GScan>,
                                        FlvError,
                                    >(FlvError::InvalidMetadata));
                                }
                                return Err(FlvError::InvalidMetadata);
                            },
                            Some(Some(ks)) => {
                                if has_keyframes(&ks) {
                                    proof {
                                        assert(spec_scan(bytes@, pos as int, st@) == Ok::<
                                            Option<GScan>,
                                            FlvError,
                                        >(None));
                                        assert(spec_generate_patch(bytes@) == Ok::<
                                            Option<GPatch>,
                                            FlvError,
                                        >(None));
                                    }
                                    return Ok(None);
                                }
                            },
                            Some(None) => {},
                        }
                        match amf_canonical_meta(&data) {
                            None => {
                                proof {
                                    assert(spec_scan(bytes@, pos as int, st@) == Err::<
                                        Option<GScan>,
                                        FlvError,
                                    >(FlvError::InvalidMetadata));
                                }
                                return Err(FlvError::InvalidMetadata);
                            },
                            Some((is_obj, canon)) => {
                                let ghost c = canon@;
                                meta = Some(((pos + 4) as u64, (next - pos) as u64, is_obj, canon));
                                st = Ghost(
                                    GScan {
                                        kpos: st@.kpos,
                                        kts: st@.kts,
                                        meta: Some(
                                            GMeta {
                                                offset: g.pos,
                                                size: 15 + g.data_size,
                                                is_object: is_obj,
                                                canon: c,
                                            },
                                        ),
                                    },
                                );
                            },
                        }
                    },
                    FlvTagData::Audio => {},
                    FlvTagData::Other => {
                        proof {
                            assert(false);
                        }
                    },
                }
                proof {
                    assert(spec_scan(bytes@, pos as int, st0) == spec_scan(
                        bytes@,
                        next as int,
                        st@,
                    ));
                }
                pos = next;
            },
            Err(e) => {
                proof {
                    assert(spec_scan(bytes@, pos as int, st@) == Err::<Option<GScan>, FlvError>(
                        e,
                    ));
                }
                return Err(e);
            },
        }
    }
    // here the whole scan succeeded: spec_scan from the data offset is
    // Ok(Some(st))
    match meta {
        None => {
            proof {
                assert(spec_generate_patch(bytes@) == Ok::<Option<GPatch>, FlvError>(None));
            }
            Ok(None)
        },
        Some((moff, msize, is_obj, canon)) => {
            let ghost m = st@.meta->Some_0;
            let kcount = kf.count();
            let payload1_len: u128 = if is_obj {
                13 + (canon.len() as u128 - 3) + (47 + 18 * (kcount as u128)) + 3
            } else {
                13 + canon.len() as u128
            };
            proof {
                crate::keyframes::lemma_keyframes_pair_len(kpos_u64(st@.kpos), st@.kts, 0);
                assert(kpos_u64(st@.kpos) =~= kf.positions());
                assert(amf_string_bytes(on_meta_data()).len() == 13);
                assert(spec_patched_payload(st@, m, 0).len() == payload1_len);
            }
            if payload1_len > 0xFFFFFF {
                proof {
                    assert(spec_generate_patch(bytes@) == Err::<Option<GPatch>, FlvError>(
                        FlvError::InvalidMetadata,
                    ));
                }
                return Err(FlvError::InvalidMetadata);
            }
            let delta: i64 = 15 + payload1_len as i64 - msize as i64;
            kf.set_offset(delta);
            proof {
                assert(delta == spec_adjust(st@, m));
                crate::keyframes::lemma_keyframes_pair_len(
                    kpos_u64(st@.kpos),
                    st@.kts,
                    delta as int,
                );
                assert forall|i: int| 0 <= i < kf.positions().len() implies -0x8000_0000_0000_0000
                    < #[trigger] (kf.positions()[i] + kf.adjust()) < 0x8000_0000_0000_0000 by {
                    assert(st@.kpos[i] == kf.positions()[i]);
                    assert(0 <= st@.kpos[i] <= bytes@.len());
                }
            }
            let omd: Vec<u8> = vec![0x6F, 0x6E, 0x4D, 0x65, 0x74, 0x61, 0x44, 0x61, 0x74, 0x61];
            proof {
                assert(omd@ =~= on_meta_data());
            }
            let mut payload: Vec<u8> = Vec::new();
            payload.push(MARKER_STRING);
            push_key(&mut payload, &omd);
            proof {
                assert(payload@ =~= amf_string_bytes(on_meta_data()));
            }
            let mut body = if is_obj {
                proof {
                    assert(18 * kf.positions().len() <= payload1_len);
                }
                let pair2 = kf.into_amf0();
                insert_keyframes(&canon, &pair2)
            } else {
                copy_range(&canon, 0, canon.len())
            };
            payload.append(&mut body);
            proof {
                assert(payload@ =~= spec_patched_payload(st@, m, delta as int));
            }
            let patched = make_patched(&payload);
            proof {
                assert(patched@ =~= spec_patched_tag(st@, m));
            }
            Ok(Some(Patch { origin_pos: moff, origin_size: msize, patched }))
        },
    }
}

} // verus!

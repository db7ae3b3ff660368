//! Parsing of the FLV container: the nine-byte header and the tag stream,
//! over in-memory bytes.
//!
//! Layout per the FLV specification: after the header, and between every pair
//! of tags, sits a four-byte big-endian previous-tag-size field.  A tag is an
//! eleven-byte header (type, 24-bit size, 24-bit timestamp, 8-bit timestamp
//! extension, 24-bit stream id) followed by its payload.
use vstd::prelude::*;

verus! {

/// Errors of the FLV scan.
#[derive(Debug, Clone, Copy, PartialEq, Eq, Structural)]
pub enum FlvError {
    /// The nine-byte header is missing or does not start with "FLV", version 1.
    InvalidHeader,
    /// A tag advertises more payload bytes than the stream holds.
    TruncatedTag,
    /// A tag type other than audio, video or script data.
    UnknownTagType,
    /// A video frame type nibble outside 1 through 5.
    InvalidFrameType,
    /// A script payload whose AMF0 content cannot be used: it does not decode,
    /// or its first value is not the string "onMetaData".
    InvalidMetadata,
}

/// The FLV file header.
#[derive(Debug, Clone, Copy, PartialEq, Eq, Structural)]
pub struct FlvHeader {
    pub _reserved1: u8,
    pub has_audio: bool,
    pub _reserved2: u8,
    pub has_video: bool,
    pub data_offset: u32,
}

/// The frame type nibble of a video payload.
#[derive(Debug, Clone, Copy, PartialEq, Eq, Structural, Hash)]
pub enum VideoFrameType {
    KeyFrame,
    InterFrame,
    DisposableInterFrame,
    GeneratedKeyFrame,
    VideoInfoOrCommandFrame,
}

/// The payload of a tag, by tag type.
#[derive(Debug, PartialEq, Eq)]
pub enum FlvTagData {
    Audio,
    Video { frame_type: VideoFrameType },
    Script { data: Vec<u8> },
    Other,
}

impl Default for FlvTagData {
    fn default() -> (r: Self)
        ensures
            r == FlvTagData::Other,
    {
        FlvTagData::Other
    }
}

/// One FLV tag.
#[derive(Debug, PartialEq, Eq)]
pub struct FlvTag {
    pub tag_type: u8,
    pub data_size: u32,
    pub timestamp: u32,
    pub stream_id: u32,
    pub data: FlvTagData,
}

/// A parsed tag, at specification level.
pub ghost struct GTag {
    /// Absolute byte offset of the eleven-byte tag header.
    pub pos: int,
    pub tag_type: u8,
    pub data_size: int,
    /// Milliseconds, with the extension byte promoted to the high byte.
    pub timestamp: u32,
    pub stream_id: u32,
    /// High nibble of the first payload byte; zero unless a video tag.
    pub frame_type: u8,
    /// The buffered payload; empty unless a script tag.
    pub payload: Seq<u8>,
}

/// Big-endian value of the three bytes at i.
pub open spec fn spec_be24(s: Seq<u8>, i: int) -> u32 {
    ((s[i] as u32) * 0x10000 + (s[i + 1] as u32) * 0x100 + (s[i + 2] as u32)) as u32
}

/// Big-endian value of the four bytes at i.
pub open spec fn spec_be32(s: Seq<u8>, i: int) -> u32 {
    ((s[i] as u32) * 0x1000000 + (s[i + 1] as u32) * 0x10000 + (s[i + 2] as u32) * 0x100 + (s[i
        + 3] as u32)) as u32
}

/// Whether the stream starts with a well-formed header: "FLV", version 1,
/// and at least nine bytes.
pub open spec fn header_ok(s: Seq<u8>) -> bool {
    &&& s.len() >= 9
    &&& s[0] == 0x46u8
    &&& s[1] == 0x4cu8
    &&& s[2] == 0x56u8
    &&& s[3] == 0x01u8
}

/// The header value carried by a well-formed stream.
pub open spec fn spec_header(s: Seq<u8>) -> FlvHeader {
    FlvHeader {
        _reserved1: (s[4] >> 3) as u8,
        has_audio: (s[4] >> 2) & 1 == 1,
        _reserved2: ((s[4] >> 1) & 1) as u8,
        has_video: s[4] & 1 == 1,
        data_offset: spec_be32(s, 5),
    }
}

/// Timestamp in milliseconds: 24 low bits plus the extension byte promoted
/// to the high byte.
pub open spec fn spec_timestamp(s: Seq<u8>, i: int) -> u32 {
    ((s[i + 3] as u32) * 0x1000000 + spec_be24(s, i)) as u32
}

/// The frame type encoded by a nibble between 1 and 5.
pub open spec fn spec_frame_type(v: u8) -> VideoFrameType {
    if v == 1 {
        VideoFrameType::KeyFrame
    } else if v == 2 {
        VideoFrameType::InterFrame
    } else if v == 3 {
        VideoFrameType::DisposableInterFrame
    } else if v == 4 {
        VideoFrameType::GeneratedKeyFrame
    } else {
        VideoFrameType::VideoInfoOrCommandFrame
    }
}

/// Parses the single tag whose previous-tag-size field starts at pos.
/// Ok(None) is the clean end of the stream: fewer than the fifteen bytes of
/// a previous-tag-size field plus a tag header remain.
pub open spec fn spec_tag_at(s: Seq<u8>, pos: int) -> Result<Option<GTag>, FlvError> {
    if pos < 0 || pos + 15 > s.len() {
        Ok(None)
    } else {
        let tpos = pos + 4;
        let t = s[tpos];
        let ds = spec_be24(s, tpos + 1) as int;
        let g = GTag {
            pos: tpos,
            tag_type: t,
            data_size: ds,
            timestamp: spec_timestamp(s, tpos + 4),
            stream_id: spec_be24(s, tpos + 8),
            frame_type: if t == 9 && ds >= 1 {
                s[tpos + 11] >> 4
            } else {
                0
            },
            payload: if t == 0x12 {
                s.subrange(tpos + 11, tpos + 11 + ds)
            } else {
                Seq::empty()
            },
        };
        if tpos + 11 + ds > s.len() {
            Err(FlvError::TruncatedTag)
        } else if t == 8 {
            Ok(Some(g))
        } else if t == 9 {
            if ds < 1 {
                Err(FlvError::TruncatedTag)
            } else if 1 <= g.frame_type <= 5 {
                Ok(Some(g))
            } else {
                Err(FlvError::InvalidFrameType)
            }
        } else if t == 0x12 {
            Ok(Some(g))
        } else {
            Err(FlvError::UnknownTagType)
        }
    }
}

/// Parses every tag from pos on, appending to acc.
pub open spec fn spec_parse_tags(s: Seq<u8>, pos: int, acc: Seq<GTag>) -> Result<
    Seq<GTag>,
    FlvError,
>
    decreases s.len() - pos,
{
    match spec_tag_at(s, pos) {
        Ok(None) => Ok(acc),
        Ok(Some(g)) => spec_parse_tags(s, pos + 15 + g.data_size, acc + seq![g]),
        Err(e) => Err(e),
    }
}

/// The header and tag list of a stream, or its first error.
pub open spec fn spec_read_flv(s: Seq<u8>) -> Result<(FlvHeader, Seq<GTag>), FlvError> {
    if !header_ok(s) {
        Err(FlvError::InvalidHeader)
    } else {
        let h = spec_header(s);
        match spec_parse_tags(s, h.data_offset as int, Seq::empty()) {
            Ok(gs) => Ok((h, gs)),
            Err(e) => Err(e),
        }
    }
}

/// Whether the executable tag carries the fields and payload of the parsed one.
pub open spec fn tag_matches(t: FlvTag, g: GTag) -> bool {
    &&& t.tag_type == g.tag_type
    &&& t.data_size == g.data_size
    &&& t.timestamp == g.timestamp
    &&& t.stream_id == g.stream_id
    &&& match t.data {
        FlvTagData::Audio => g.tag_type == 8,
        FlvTagData::Video { frame_type } => g.tag_type == 9 && frame_type == spec_frame_type(
            g.frame_type,
        ),
        FlvTagData::Script { data } => g.tag_type == 0x12 && data@ == g.payload,
        FlvTagData::Other => false,
    }
}

/// Maps the frame type nibble of a video payload.
fn read_frame_type(v: u8) -> (r: Result<VideoFrameType, FlvError>)
    ensures
        1 <= v <= 5 ==> r == Ok::<VideoFrameType, FlvError>(spec_frame_type(v)),
        !(1 <= v <= 5) ==> r == Err::<VideoFrameType, FlvError>(FlvError::InvalidFrameType),
{
    match v {
        1 => Ok(VideoFrameType::KeyFrame),
        2 => Ok(VideoFrameType::InterFrame),
        3 => Ok(VideoFrameType::DisposableInterFrame),
        4 => Ok(VideoFrameType::GeneratedKeyFrame),
        5 => Ok(VideoFrameType::VideoInfoOrCommandFrame),
        _ => Err(FlvError::InvalidFrameType),
    }
}

/// Copies bytes[start..end] into a fresh vector.
pub fn copy_range(bytes: &Vec<u8>, start: usize, end: usize) -> (r: Vec<u8>)
    requires
        start <= end <= bytes@.len(),
    ensures
        r@ == bytes@.subrange(start as int, end as int),
{
    let mut out: Vec<u8> = Vec::new();
    let mut i: usize = start;
    while i < end
        invariant
            start <= i <= end <= bytes@.len(),
            out@ == bytes@.subrange(start as int, i as int),
        decreases end - i,
    {
        out.push(bytes[i]);
        i = i + 1;
        proof {
            assert(out@ =~= bytes@.subrange(start as int, i as int));
        }
    }
    out
}

/// Reads the nine-byte FLV header from the start of the stream.
pub fn read_flv_header(bytes: &Vec<u8>) -> (r: Result<FlvHeader, FlvError>)
    ensures
        header_ok(bytes@) ==> r == Ok::<FlvHeader, FlvError>(spec_header(bytes@)),
        !header_ok(bytes@) ==> r == Err::<FlvHeader, FlvError>(FlvError::InvalidHeader),
{
    if bytes.len() < 9 {
        return Err(FlvError::InvalidHeader);
    }
    if !(bytes[0] == 0x46 && bytes[1] == 0x4c && bytes[2] == 0x56 && bytes[3] == 0x01) {
        return Err(FlvError::InvalidHeader);
    }
    let flags = bytes[4];
    let data_offset = (bytes[5] as u32) * 0x1000000 + (bytes[6] as u32) * 0x10000 + (bytes[
        7
    ] as u32) * 0x100 + (bytes[8] as u32);
    Ok(
        FlvHeader {
            _reserved1: flags >> 3,
            has_audio: (flags >> 2) & 1 == 1,
            _reserved2: (flags >> 1) & 1,
            has_video: flags & 1 == 1,
            data_offset,
        },
    )
}

/// Reads one tag, given the offset of the previous-tag-size field before it.
/// Returns the tag and the offset of the next previous-tag-size field, or
/// None at the clean end of the stream.
pub fn read_flv_tag(bytes: &Vec<u8>, pos: usize) -> (r: Result<
    Option<(FlvTag, usize)>,
    FlvError,
>)
    requires
        pos <= bytes@.len(),
    ensures
        match (r, spec_tag_at(bytes@, pos as int)) {
            (Ok(None), Ok(None)) => true,
            (Ok(Some((t, next))), Ok(Some(g))) => tag_matches(t, g) && next == pos + 15
                + g.data_size && next <= bytes@.len(),
            (Err(e), Err(ge)) => e == ge,
            _ => false,
        },
{
    if bytes.len() - pos < 15 {
        return Ok(None);
    }
    let tpos = pos + 4;
    let tag_type = bytes[tpos];
    let data_size = (bytes[tpos + 1] as u32) * 0x10000 + (bytes[tpos + 2] as u32) * 0x100 + (bytes[
        tpos + 3
    ] as u32);
    let timestamp = (bytes[tpos + 7] as u32) * 0x1000000 + ((bytes[tpos + 4] as u32) * 0x10000 + (
    bytes[tpos + 5] as u32) * 0x100 + (bytes[tpos + 6] as u32));
    let stream_id = (bytes[tpos + 8] as u32) * 0x10000 + (bytes[tpos + 9] as u32) * 0x100 + (bytes[
        tpos + 10
    ] as u32);
    if data_size as usize > bytes.len() - (tpos + 11) {
        return Err(FlvError::TruncatedTag);
    }
    let body = tpos + 11;
    let next = body + data_size as usize;
    let data = if tag_type == 8 {
        FlvTagData::Audio
    } else if tag_type == 9 {
        if data_size == 0 {
            return Err(FlvError::TruncatedTag);
        }
        let frame_type = match read_frame_type(bytes[body] >> 4) {
            Ok(ft) => ft,
            Err(e) => {
                return Err(e);
            },
        };
        FlvTagData::Video { frame_type }
    } else if tag_type == 0x12 {
        FlvTagData::Script { data: copy_range(bytes, body, next) }
    } else {
        return Err(FlvError::UnknownTagType);
    };
    Ok(Some((FlvTag { tag_type, data_size, timestamp, stream_id, data }, next)))
}

/// Parses the header and every tag of the stream.  The first previous-tag-size
/// field is read at the header's data offset; parsing stops cleanly when fewer
/// than fifteen bytes remain.
pub fn read_flv(bytes: &Vec<u8>) -> (r: Result<(FlvHeader, Vec<FlvTag>), FlvError>)
    ensures
        match (r, spec_read_flv(bytes@)) {
            (Ok((h, tags)), Ok((gh, gs))) => h == gh && tags@.len() == gs.len() && (forall|i: int|
                0 <= i < gs.len() ==> tag_matches(#[trigger] tags@[i], gs[i])),
            (Err(e), Err(ge)) => e == ge,
            _ => false,
        },
{
    let header = match read_flv_header(bytes) {
        Ok(h) => h,
        Err(e) => {
            return Err(e);
        },
    };
    let mut pos: usize = if header.data_offset as usize <= bytes.len() {
        header.data_offset as usize
    } else {
        bytes.len()
    };
    proof {
        if (header.data_offset as usize) > bytes@.len() {
            assert(spec_parse_tags(bytes@, header.data_offset as int, Seq::empty()) == Ok::<
                Seq<GTag>,
                FlvError,
            >(Seq::empty()));
            assert(spec_parse_tags(bytes@, pos as int, Seq::empty()) == Ok::<Seq<GTag>, FlvError>(
                Seq::empty(),
            ));
        }
    }
    let mut tags: Vec<FlvTag> = Vec::new();
    let ghost gs: Seq<GTag> = Seq::empty();
    let mut gs = Ghost(gs);
    loop
        invariant
            header_ok(bytes@),
            header == spec_header(bytes@),
            pos <= bytes@.len(),
            tags@.len() == gs@.len(),
            forall|i: int| 0 <= i < gs@.len() ==> tag_matches(#[trigger] tags@[i], gs@[i]),
            spec_parse_tags(bytes@, header.data_offset as int, Seq::empty()) == spec_parse_tags(
                bytes@,
                pos as int,
                gs@,
            ),
        decreases bytes@.len() - pos,
    {
        match read_flv_tag(bytes, pos) {
            Ok(None) => {
                proof {
                    assert(spec_parse_tags(bytes@, pos as int, gs@) == Ok::<Seq<GTag>, FlvError>(
                        gs@,
                    ));
                }
                return Ok((header, tags));
            },
            Ok(Some((tag, next))) => {
                proof {
                    let g = spec_tag_at(bytes@, pos as int)->Ok_0->Some_0;
                    assert(spec_parse_tags(bytes@, pos as int, gs@) == spec_parse_tags(
                        bytes@,
                        pos + 15 + g.data_size,
                        gs@ + seq![g],
                    ));
                }
                gs = Ghost(gs@ + seq![spec_tag_at(bytes@, pos as int)->Ok_0->Some_0]);
                tags.push(tag);
                pos = next;
            },
            Err(e) => {
                proof {
                    assert(spec_parse_tags(bytes@, pos as int, gs@) == Err::<Seq<GTag>, FlvError>(
                        e,
                    ));
                }
                return Err(e);
            },
        }
    }
}

} // verus!

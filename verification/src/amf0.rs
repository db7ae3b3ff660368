//! AMF0 values at byte level.
//!
//! The library emits the `keyframes` object itself, byte by byte, with a
//! verified encoder (markers, lengths and number payloads are all stated in
//! the specification functions below).  Decoding and canonical re-encoding of
//! the metadata object found in the file are delegated to the amf crate
//! through the trusted items at the end of this module.
use amf::amf0::Value;
use vstd::prelude::*;

verus! {

use crate::double::be64_bytes;

/// AMF0 marker for a number value.
pub const MARKER_NUMBER: u8 = 0x00;

/// AMF0 marker for a string value.
pub const MARKER_STRING: u8 = 0x02;

/// AMF0 marker for an anonymous object value.
pub const MARKER_OBJECT: u8 = 0x03;

/// AMF0 marker closing an object, after an empty key.
pub const MARKER_OBJECT_END: u8 = 0x09;

/// AMF0 marker for a strict array value.
pub const MARKER_ARRAY: u8 = 0x0A;

/// The two big-endian bytes of a 16-bit length.
pub open spec fn spec_be16_bytes(x: u16) -> Seq<u8> {
    seq![(x / 0x100) as u8, (x % 0x100) as u8]
}

/// The three big-endian bytes of a 24-bit value.
pub open spec fn spec_be24_bytes(x: u32) -> Seq<u8> {
    seq![((x / 0x10000) % 0x100) as u8, ((x / 0x100) % 0x100) as u8, (x % 0x100) as u8]
}

/// The four big-endian bytes of a 32-bit value.
pub open spec fn spec_be32_bytes(x: u32) -> Seq<u8> {
    seq![(x / 0x1000000) as u8, ((x / 0x10000) % 0x100) as u8, ((x / 0x100) % 0x100) as u8, (x
        % 0x100) as u8]
}

/// An AMF0 number: marker byte then the eight bytes of a binary64 pattern.
pub open spec fn amf_number_bytes(bits: u64) -> Seq<u8> {
    seq![MARKER_NUMBER] + be64_bytes(bits)
}

/// The numbers of a strict array, concatenated.
pub open spec fn amf_numbers_concat(vals: Seq<u64>) -> Seq<u8>
    decreases vals.len(),
{
    if vals.len() == 0 {
        Seq::empty()
    } else {
        amf_number_bytes(vals[0]) + amf_numbers_concat(vals.drop_first())
    }
}

/// An AMF0 strict array of numbers: marker, 32-bit count, then the values.
pub open spec fn amf_number_array_bytes(vals: Seq<u64>) -> Seq<u8>
    recommends
        vals.len() <= 0xFFFF_FFFF,
{
    seq![MARKER_ARRAY] + spec_be32_bytes(vals.len() as u32) + amf_numbers_concat(vals)
}

/// An object key: 16-bit length then the UTF-8 bytes.
pub open spec fn amf_key_bytes(k: Seq<u8>) -> Seq<u8>
    recommends
        k.len() <= 0xFFFF,
{
    spec_be16_bytes(k.len() as u16) + k
}

/// An AMF0 string value: marker then key encoding.
pub open spec fn amf_string_bytes(s: Seq<u8>) -> Seq<u8>
    recommends
        s.len() <= 0xFFFF,
{
    seq![MARKER_STRING] + amf_key_bytes(s)
}

/// The UTF-8 bytes of "onMetaData".
pub open spec fn on_meta_data() -> Seq<u8> {
    seq![0x6Fu8, 0x6Eu8, 0x4Du8, 0x65u8, 0x74u8, 0x61u8, 0x44u8, 0x61u8, 0x74u8, 0x61u8]
}

/// The UTF-8 bytes of "keyframes".
pub open spec fn keyframes_key() -> Seq<u8> {
    seq![0x6Bu8, 0x65u8, 0x79u8, 0x66u8, 0x72u8, 0x61u8, 0x6Du8, 0x65u8, 0x73u8]
}

/// The UTF-8 bytes of "filepositions".
pub open spec fn filepositions_key() -> Seq<u8> {
    seq![
        0x66u8,
        0x69u8,
        0x6Cu8,
        0x65u8,
        0x70u8,
        0x6Fu8,
        0x73u8,
        0x69u8,
        0x74u8,
        0x69u8,
        0x6Fu8,
        0x6Eu8,
        0x73u8,
    ]
}

/// The UTF-8 bytes of "times".
pub open spec fn times_key() -> Seq<u8> {
    seq![0x74u8, 0x69u8, 0x6Du8, 0x65u8, 0x73u8]
}

/// The three bytes that close an AMF0 object: empty key, end marker.
pub open spec fn object_end() -> Seq<u8> {
    seq![0u8, 0u8, MARKER_OBJECT_END]
}

/// Every number is nine bytes long, so the array body is 9 * n bytes.
pub proof fn lemma_numbers_concat_len(vals: Seq<u64>)
    ensures
        amf_numbers_concat(vals).len() == 9 * vals.len(),
    decreases vals.len(),
{
    if vals.len() > 0 {
        lemma_numbers_concat_len(vals.drop_first());
    }
}

/// Appends the two big-endian bytes of x.
pub fn push_be16(out: &mut Vec<u8>, x: u16)
    ensures
        final(out)@ == old(out)@ + spec_be16_bytes(x),
{
    out.push((x / 0x100) as u8);
    out.push((x % 0x100) as u8);
    proof {
        assert(final(out)@ =~= old(out)@ + spec_be16_bytes(x));
    }
}

/// Appends the three big-endian bytes of a 24-bit value.
pub fn push_be24(out: &mut Vec<u8>, x: u32)
    ensures
        final(out)@ == old(out)@ + spec_be24_bytes(x),
{
    out.push(((x / 0x10000) % 0x100) as u8);
    out.push(((x / 0x100) % 0x100) as u8);
    out.push((x % 0x100) as u8);
    proof {
        assert(final(out)@ =~= old(out)@ + spec_be24_bytes(x));
    }
}

/// Appends the four big-endian bytes of x.
pub fn push_be32(out: &mut Vec<u8>, x: u32)
    ensures
        final(out)@ == old(out)@ + spec_be32_bytes(x),
{
    out.push((x / 0x1000000) as u8);
    out.push(((x / 0x10000) % 0x100) as u8);
    out.push(((x / 0x100) % 0x100) as u8);
    out.push((x % 0x100) as u8);
    proof {
        assert(final(out)@ =~= old(out)@ + spec_be32_bytes(x));
    }
}

/// Appends an AMF0 number with the given bit pattern.
pub fn push_amf_number(out: &mut Vec<u8>, bits: u64)
    ensures
        final(out)@ == old(out)@ + amf_number_bytes(bits),
{
    out.push(MARKER_NUMBER);
    crate::double::push_be64(out, bits);
    proof {
        assert(final(out)@ =~= old(out)@ + amf_number_bytes(bits));
    }
}

/// Appends an AMF0 strict array holding the given number bit patterns.
pub fn push_number_array(out: &mut Vec<u8>, vals: &Vec<u64>)
    requires
        vals@.len() <= 0xFFFF_FFFF,
    ensures
        final(out)@ == old(out)@ + amf_number_array_bytes(vals@),
{
    out.push(MARKER_ARRAY);
    push_be32(out, vals.len() as u32);
    let mut i: usize = 0;
    while i < vals.len()
        invariant
            i <= vals@.len() <= 0xFFFF_FFFF,
            out@ == old(out)@ + seq![MARKER_ARRAY] + spec_be32_bytes(vals@.len() as u32)
                + amf_numbers_concat(vals@.take(i as int)),
        decreases vals@.len() - i,
    {
        push_amf_number(out, vals[i]);
        i = i + 1;
        proof {
            lemma_numbers_concat_take(vals@, i as int);
            assert(out@ =~= old(out)@ + seq![MARKER_ARRAY] + spec_be32_bytes(vals@.len() as u32)
                + amf_numbers_concat(vals@.take(i as int)));
        }
    }
    proof {
        assert(vals@.take(vals@.len() as int) =~= vals@);
        assert(final(out)@ =~= old(out)@ + amf_number_array_bytes(vals@));
    }
}

/// A take of one more element appends one more encoded number.
proof fn lemma_numbers_concat_take(vals: Seq<u64>, i: int)
    requires
        1 <= i <= vals.len(),
    ensures
        amf_numbers_concat(vals.take(i)) == amf_numbers_concat(vals.take(i - 1)) + amf_number_bytes(
            vals[i - 1],
        ),
    decreases i,
{
    if i == 1 {
        assert(vals.take(1).drop_first() =~= Seq::empty());
        assert(vals.take(0) =~= Seq::<u64>::empty());
        assert(amf_numbers_concat(Seq::<u64>::empty()) == Seq::<u8>::empty());
        assert(amf_numbers_concat(vals.take(1)) =~= amf_number_bytes(vals[0]));
        assert(amf_numbers_concat(vals.take(1)) =~= amf_numbers_concat(vals.take(0))
            + amf_number_bytes(vals[0]));
    } else {
        lemma_numbers_concat_take(vals.drop_first(), i - 1);
        assert(vals.take(i).drop_first() =~= vals.drop_first().take(i - 1));
        assert(vals.take(i - 1).drop_first() =~= vals.drop_first().take(i - 2));
        assert(amf_numbers_concat(vals.take(i)) == amf_number_bytes(vals[0]) + amf_numbers_concat(
            vals.drop_first().take(i - 1),
        ));
        assert(amf_numbers_concat(vals.take(i)) =~= amf_numbers_concat(vals.take(i - 1))
            + amf_number_bytes(vals[i - 1]));
    }
}

/// Appends a key: 16-bit length then the bytes.
pub fn push_key(out: &mut Vec<u8>, k: &Vec<u8>)
    requires
        k@.len() <= 0xFFFF,
    ensures
        final(out)@ == old(out)@ + amf_key_bytes(k@),
{
    push_be16(out, k.len() as u16);
    let mut i: usize = 0;
    while i < k.len()
        invariant
            i <= k@.len() <= 0xFFFF,
            out@ == old(out)@ + spec_be16_bytes(k@.len() as u16) + k@.take(i as int),
        decreases k@.len() - i,
    {
        out.push(k[i]);
        i = i + 1;
        proof {
            assert(out@ =~= old(out)@ + spec_be16_bytes(k@.len() as u16) + k@.take(i as int));
        }
    }
    proof {
        assert(k@.take(k@.len() as int) =~= k@);
        assert(final(out)@ =~= old(out)@ + amf_key_bytes(k@));
    }
}

// ------------------------------------------------------------------
// Trusted items: the amf crate decodes and canonically re-encodes the
// metadata found in script payloads.  Each result below is a function of
// the payload bytes alone, so it is given a name.
// ------------------------------------------------------------------

/// The first AMF0 value of a payload, when it decodes to a string: its UTF-8
/// bytes.
pub uninterp spec fn amf_first_string(data: Seq<u8>) -> Option<Seq<u8>>;

/// The keys of the second AMF0 value of a payload.  The outer None: the first
/// two values do not decode.  The inner None: the second value carries no
/// key-value pairs.
pub uninterp spec fn amf_meta_keys(data: Seq<u8>) -> Option<Option<Seq<Seq<u8>>>>;

/// The second AMF0 value of a payload re-encoded canonically; the flag says
/// whether it carried key-value pairs and so was re-encoded as an anonymous
/// object.
pub uninterp spec fn amf_canon_meta(data: Seq<u8>) -> Option<(bool, Seq<u8>)>;

/// Relies on amf::amf0::Decoder::decode: returns the first AMF0 value of the
/// payload when it decodes to a string, as its UTF-8 bytes.
#[verifier::external_body]
pub(crate) fn amf_script_name(data: &Vec<u8>) -> (r: Option<Vec<u8>>)
    requires
        data@.len() <= 0xFFFFFF,
    ensures
        match r {
            Some(v) => amf_first_string(data@) == Some(v@),
            None => amf_first_string(data@) is None,
        },
{
    let mut dec = amf::amf0::Decoder::new(&data[..]);
    match dec.decode() {
        Ok(Value::String(s)) => Some(s.into_bytes()),
        _ => None,
    }
}

/// Relies on amf::amf0::Decoder::decode: returns the keys of the second AMF0
/// value of the payload, as UTF-8 bytes, when the first two values decode and
/// the second is an object or an ECMA array.
#[verifier::external_body]
pub(crate) fn amf_script_keys(data: &Vec<u8>) -> (r: Option<Option<Vec<Vec<u8>>>>)
    requires
        data@.len() <= 0xFFFFFF,
    ensures
        match r {
            Some(Some(ks)) => amf_meta_keys(data@) == Some(
                Some(ks@.map_values(|k: Vec<u8>| k@)),
            ),
            Some(None) => amf_meta_keys(data@) == Some(None::<Seq<Seq<u8>>>),
            None => amf_meta_keys(data@) is None,
        },
{
    let mut dec = amf::amf0::Decoder::new(&data[..]);
    dec.decode().ok()?;
    match dec.decode().ok()? {
        Value::Object { entries, .. } | Value::EcmaArray { entries } => {
            Some(Some(entries.into_iter().map(|p| p.key.into_bytes()).collect()))
        },
        _ => Some(None),
    }
}

/// Relies on amf::amf0::Decoder::decode and amf::amf0::Value::write_to: the
/// second AMF0 value of the payload, re-encoded.  A value with key-value
/// pairs (an object or an ECMA array) is re-encoded as an anonymous object,
/// which the amf encoder starts with the object marker and closes with an
/// empty key and the end marker; any other value is re-encoded as it is.
#[verifier::external_body]
pub(crate) fn amf_canonical_meta(data: &Vec<u8>) -> (r: Option<(bool, Vec<u8>)>)
    requires
        data@.len() <= 0xFFFFFF,
    ensures
        match r {
            Some(p) => amf_canon_meta(data@) == Some((p.0, p.1@)) && (p.0 ==> p.1@.len() >= 4
                && p.1@[0] == MARKER_OBJECT && p.1@.subrange(
                p.1@.len() - 3,
                p.1@.len() as int,
            ) == object_end()),
            None => amf_canon_meta(data@) is None,
        },
{
    let mut dec = amf::amf0::Decoder::new(&data[..]);
    dec.decode().ok()?;
    let (is_object, v2) = match dec.decode().ok()? {
        Value::Object { entries, .. } => (true, Value::Object { class_name: None, entries }),
        Value::EcmaArray { entries } => (true, Value::Object { class_name: None, entries }),
        other => (false, other),
    };
    let mut buf: Vec<u8> = Vec::new();
    v2.write_to(&mut buf).ok()?;
    Some((is_object, buf))
}

} // verus!

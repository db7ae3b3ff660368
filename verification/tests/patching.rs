use amf::amf0::{self, Value};
use amf::Pair;
use flv_patch::flv::generate_patch;
use flv_patch::flv_reader::FlvError;
use flv_patch::keyframes::Keyframes;

fn be24(n: u32) -> [u8; 3] {
    [(n >> 16) as u8, (n >> 8) as u8, n as u8]
}

fn be32(n: u32) -> [u8; 4] {
    n.to_be_bytes()
}

fn flv_header() -> Vec<u8> {
    vec![0x46, 0x4C, 0x56, 0x01, 0x05, 0x00, 0x00, 0x00, 0x09]
}

fn push_tag(buf: &mut Vec<u8>, tag_type: u8, timestamp: u32, payload: &[u8]) {
    buf.extend_from_slice(&[0, 0, 0, 0]);
    buf.push(tag_type);
    buf.extend_from_slice(&be24(payload.len() as u32));
    buf.extend_from_slice(&be24(timestamp & 0xFF_FFFF));
    buf.push((timestamp >> 24) as u8);
    buf.extend_from_slice(&[0, 0, 0]);
    buf.extend_from_slice(payload);
}

/// Pads with one audio tag so that the next tag header lands at `target`.
fn pad_to(buf: &mut Vec<u8>, target: usize) {
    let ds = target - 19 - buf.len();
    push_tag(buf, 0x08, 0, &vec![0u8; ds]);
    assert_eq!(buf.len() + 4, target);
}

fn meta_payload(with_keyframes: bool) -> Vec<u8> {
    let mut entries = vec![Pair {
        key: "duration".to_string(),
        value: amf0::number(12.5),
    }];
    if with_keyframes {
        entries.push(Pair {
            key: "keyframes".to_string(),
            value: Value::Object {
                class_name: None,
                entries: vec![],
            },
        });
    }
    let obj = Value::Object {
        class_name: None,
        entries,
    };
    let mut buf = Vec::new();
    amf0::string("onMetaData").write_to(&mut buf).unwrap();
    obj.write_to(&mut buf).unwrap();
    buf
}

/// An FLV with an onMetaData tag at offset 13 and two video keyframes at
/// offsets 200 and 500, with timestamps 0 ms and 1000 ms.
fn two_keyframe_file() -> Vec<u8> {
    let mut f = flv_header();
    push_tag(&mut f, 0x12, 0, &meta_payload(false));
    pad_to(&mut f, 200);
    push_tag(&mut f, 0x09, 0, &[0x17, 0, 0]);
    pad_to(&mut f, 500);
    push_tag(&mut f, 0x09, 1000, &[0x17, 0, 0]);
    f
}

fn keyframes_entries(patched: &[u8]) -> (Vec<f64>, Vec<f64>) {
    // the patched block: 11-byte tag header, payload, 4-byte trailer
    let payload = &patched[11..patched.len() - 4];
    let mut dec = amf0::Decoder::new(payload);
    let name = dec.decode().unwrap();
    assert_eq!(name, amf0::string("onMetaData"));
    let meta = dec.decode().unwrap();
    let entries = match meta {
        Value::Object { entries, .. } => entries,
        other => panic!("expected an object, got {:?}", other),
    };
    let kf = entries
        .iter()
        .find(|p| p.key == "keyframes")
        .expect("keyframes entry");
    let kf_entries = match &kf.value {
        Value::Object { entries, .. } => entries,
        other => panic!("expected an object, got {:?}", other),
    };
    let nums = |key: &str| -> Vec<f64> {
        let arr = &kf_entries.iter().find(|p| p.key == key).unwrap().value;
        match arr {
            Value::Array { entries } => entries
                .iter()
                .map(|v| v.try_as_f64().unwrap())
                .collect(),
            other => panic!("expected an array, got {:?}", other),
        }
    };
    (nums("filepositions"), nums("times"))
}

#[test]
fn empty_flv_yields_no_patch() {
    let mut f = flv_header();
    f.extend_from_slice(&[0, 0, 0, 0]);
    assert!(matches!(generate_patch(&f), Ok(None)));
}

#[test]
fn synthesizes_patch_with_adjusted_positions() {
    let f = two_keyframe_file();
    let patch = generate_patch(&f).unwrap().unwrap();

    assert_eq!(patch.origin_pos, 13);
    let meta_ds = meta_payload(false).len() as u64;
    assert_eq!(patch.origin_size, 11 + meta_ds + 4);

    // the patched block is a well-formed script tag with a trailer
    assert_eq!(patch.patched[0], 0x12);
    let payload_len = patch.patched.len() - 15;
    assert_eq!(&patch.patched[1..4], &be24(payload_len as u32));
    assert_eq!(
        &patch.patched[patch.patched.len() - 4..],
        &be32(11 + payload_len as u32)
    );

    // every stored fileposition is shifted by the splice's size difference
    let delta = patch.patched.len() as i64 - patch.origin_size as i64;
    let (filepositions, times) = keyframes_entries(&patch.patched);
    assert_eq!(filepositions, vec![(200 + delta) as f64, (500 + delta) as f64]);
    assert_eq!(times, vec![0.0, 1.0]);
}

#[test]
fn filepositions_point_at_keyframes_in_the_view() {
    let f = two_keyframe_file();
    let patch = generate_patch(&f).unwrap().unwrap();
    let (filepositions, _) = keyframes_entries(&patch.patched);
    let mut reader = patch.patch_reader(f.clone(), f.len() as u64);
    let len = reader.len();
    let view = reader.read_range(0, len);
    for fp in filepositions {
        let at = fp as usize;
        assert_eq!(view[at], 0x09, "tag type at {}", at);
        assert_eq!(view[at + 11] >> 4, 1, "frame nibble at {}", at);
    }
}

#[test]
fn already_patched_file_yields_none() {
    let mut f = flv_header();
    push_tag(&mut f, 0x12, 0, &meta_payload(true));
    push_tag(&mut f, 0x09, 0, &[0x17]);
    assert!(matches!(generate_patch(&f), Ok(None)));
}

#[test]
fn keyframes_without_metadata_yield_none() {
    let mut f = flv_header();
    push_tag(&mut f, 0x09, 0, &[0x17]);
    push_tag(&mut f, 0x09, 40, &[0x27]);
    assert!(matches!(generate_patch(&f), Ok(None)));
}

#[test]
fn patched_view_needs_no_second_patch() {
    let f = two_keyframe_file();
    let patch = generate_patch(&f).unwrap().unwrap();
    let mut reader = patch.patch_reader(f.clone(), f.len() as u64);
    let len = reader.len();
    let view = reader.read_range(0, len);
    assert_eq!(view.len() as u64, len);
    assert!(matches!(generate_patch(&view), Ok(None)));
}

#[test]
fn truncated_tag_fails_the_scan() {
    let mut f = flv_header();
    f.extend_from_slice(&[0, 0, 0, 0]);
    f.push(0x12);
    f.extend_from_slice(&be24(1000));
    f.extend_from_slice(&[0, 0, 0, 0, 0, 0, 0]);
    f.extend_from_slice(&vec![0u8; 500]);
    assert_eq!(generate_patch(&f), Err(FlvError::TruncatedTag));
}

#[test]
fn unknown_tag_type_fails_the_scan() {
    let mut f = flv_header();
    push_tag(&mut f, 0x0A, 0, &[1]);
    assert_eq!(generate_patch(&f), Err(FlvError::UnknownTagType));
}

#[test]
fn undecodable_metadata_fails_the_scan() {
    let mut f = flv_header();
    push_tag(&mut f, 0x12, 0, &[0xFF, 0xFF, 0xFF]);
    assert_eq!(generate_patch(&f), Err(FlvError::InvalidMetadata));
}

#[test]
fn script_tag_not_named_on_meta_data_fails_the_scan() {
    let mut f = flv_header();
    let mut payload = Vec::new();
    amf0::string("somethingElse").write_to(&mut payload).unwrap();
    amf0::number(1.0).write_to(&mut payload).unwrap();
    push_tag(&mut f, 0x12, 0, &payload);
    assert_eq!(generate_patch(&f), Err(FlvError::InvalidMetadata));
}

#[test]
fn keyframe_index_serializes_as_amf0() {
    // the byte-level encoder agrees with the amf crate's encoder
    let mut kf = Keyframes::new();
    kf.add(200, 0);
    kf.add(500, 1000);
    kf.set_offset(56);
    let got = kf.into_amf0();

    let value = Value::Object {
        class_name: None,
        entries: vec![
            Pair {
                key: "filepositions".to_string(),
                value: amf0::array(vec![amf0::number(256.0), amf0::number(556.0)]),
            },
            Pair {
                key: "times".to_string(),
                value: amf0::array(vec![amf0::number(0.0), amf0::number(1.0)]),
            },
        ],
    };
    let mut expected = vec![0x00, 0x09];
    expected.extend_from_slice(b"keyframes");
    value.write_to(&mut expected).unwrap();
    assert_eq!(got, expected);
}

#[test]
fn negative_adjustment_keeps_encoding_exact() {
    let mut kf = Keyframes::new();
    kf.add(100, 500);
    kf.set_offset(-156);
    let got = kf.into_amf0();

    let value = Value::Object {
        class_name: None,
        entries: vec![
            Pair {
                key: "filepositions".to_string(),
                value: amf0::array(vec![amf0::number(-56.0)]),
            },
            Pair {
                key: "times".to_string(),
                value: amf0::array(vec![amf0::number(0.5)]),
            },
        ],
    };
    let mut expected = vec![0x00, 0x09];
    expected.extend_from_slice(b"keyframes");
    value.write_to(&mut expected).unwrap();
    assert_eq!(got, expected);
}

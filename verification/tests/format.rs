use flv_patch::flv_reader::{read_flv, read_flv_header, FlvError, FlvHeader, FlvTagData};

fn be24(n: u32) -> [u8; 3] {
    [(n >> 16) as u8, (n >> 8) as u8, n as u8]
}

fn flv_header() -> Vec<u8> {
    vec![0x46, 0x4C, 0x56, 0x01, 0x05, 0x00, 0x00, 0x00, 0x09]
}

fn push_tag(buf: &mut Vec<u8>, tag_type: u8, timestamp: u32, payload: &[u8]) {
    buf.extend_from_slice(&[0, 0, 0, 0]);
    buf.push(tag_type);
    buf.extend_from_slice(&be24(payload.len() as u32));
    buf.extend_from_slice(&be24(timestamp & 0xFF_FFFF));
    buf.push((timestamp >> 24) as u8);
    buf.extend_from_slice(&[0, 0, 0]);
    buf.extend_from_slice(payload);
}

#[test]
fn test_flv_header() {
    let data: Vec<u8> = vec![0x46, 0x4C, 0x56, 0x01, 0x05, 0x00, 0x00, 0x00, 0x09];

    let val = read_flv_header(&data).unwrap();
    assert_eq!(
        val,
        FlvHeader {
            _reserved1: 0,
            _reserved2: 0,
            has_audio: true,
            has_video: true,
            data_offset: 9,
        }
    );
}

#[test]
fn tag_data_defaults_to_other() {
    assert_eq!(
        flv_patch::flv_reader::FlvTagData::default(),
        flv_patch::flv_reader::FlvTagData::Other
    );
}

#[test]
fn header_rejects_bad_magic() {
    let data: Vec<u8> = vec![0x47, 0x4C, 0x56, 0x01, 0x05, 0x00, 0x00, 0x00, 0x09];
    assert_eq!(read_flv_header(&data), Err(FlvError::InvalidHeader));
    assert_eq!(read_flv_header(&vec![0x46, 0x4C]), Err(FlvError::InvalidHeader));
}

#[test]
fn empty_flv_has_no_tags() {
    let mut f = flv_header();
    f.extend_from_slice(&[0, 0, 0, 0]);
    let (h, tags) = read_flv(&f).unwrap();
    assert_eq!(h.data_offset, 9);
    assert_eq!(tags.len(), 0);
}

#[test]
fn parses_tag_fields_and_payloads() {
    let mut f = flv_header();
    push_tag(&mut f, 0x08, 5, &[1, 2, 3]);
    push_tag(&mut f, 0x09, 40, &[0x17, 9, 9]);
    push_tag(&mut f, 0x12, 0, &[7, 7, 7, 7]);
    let (_, tags) = read_flv(&f).unwrap();
    assert_eq!(tags.len(), 3);

    assert_eq!(tags[0].tag_type, 0x08);
    assert_eq!(tags[0].data_size, 3);
    assert_eq!(tags[0].timestamp, 5);
    assert!(matches!(tags[0].data, FlvTagData::Audio));

    assert_eq!(tags[1].tag_type, 0x09);
    assert_eq!(tags[1].timestamp, 40);
    match &tags[1].data {
        FlvTagData::Video { frame_type } => {
            assert_eq!(*frame_type, flv_patch::flv_reader::VideoFrameType::KeyFrame)
        }
        _ => panic!("expected a video payload"),
    }

    match &tags[2].data {
        FlvTagData::Script { data } => assert_eq!(data, &vec![7, 7, 7, 7]),
        _ => panic!("expected a script payload"),
    }
}

#[test]
fn timestamp_extension_is_promoted() {
    let mut f = flv_header();
    // 24-bit timestamp 0x000102 with extension byte 0x03
    f.extend_from_slice(&[0, 0, 0, 0]);
    f.push(0x08);
    f.extend_from_slice(&be24(1));
    f.extend_from_slice(&[0x00, 0x01, 0x02]);
    f.push(0x03);
    f.extend_from_slice(&[0, 0, 0]);
    f.push(0xAA);
    let (_, tags) = read_flv(&f).unwrap();
    assert_eq!(tags[0].timestamp, 0x0300_0102);
}

#[test]
fn unknown_tag_type_is_an_error() {
    let mut f = flv_header();
    push_tag(&mut f, 0x0A, 0, &[1, 2]);
    assert_eq!(read_flv(&f), Err(FlvError::UnknownTagType));
}

#[test]
fn truncated_tag_is_an_error() {
    let mut f = flv_header();
    // advertises 1000 bytes of payload but carries only 500
    f.extend_from_slice(&[0, 0, 0, 0]);
    f.push(0x12);
    f.extend_from_slice(&be24(1000));
    f.extend_from_slice(&[0, 0, 0, 0, 0, 0, 0]);
    f.extend_from_slice(&vec![0u8; 500]);
    assert_eq!(read_flv(&f), Err(FlvError::TruncatedTag));
}

#[test]
fn invalid_frame_type_is_an_error() {
    for nibble in [0u8, 6, 15] {
        let mut f = flv_header();
        push_tag(&mut f, 0x09, 0, &[nibble << 4]);
        assert_eq!(read_flv(&f), Err(FlvError::InvalidFrameType));
    }
}

#[test]
fn trailing_short_bytes_end_the_stream() {
    let mut f = flv_header();
    push_tag(&mut f, 0x08, 0, &[9]);
    f.extend_from_slice(&[0, 0, 0, 0, 0x08, 0, 0]);
    let (_, tags) = read_flv(&f).unwrap();
    assert_eq!(tags.len(), 1);
}

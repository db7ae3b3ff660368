use flv_patch::patch::{
    decode_patch, encode_patch, resolve_range, Patch, RangeBound, SeekFrom, StartPoint,
};

fn sample_original(n: usize) -> Vec<u8> {
    (0..n).map(|i| (i % 251) as u8).collect()
}

fn sample_patch() -> Patch {
    Patch {
        origin_pos: 40,
        origin_size: 30,
        patched: (0..70u8).map(|i| 200u8.wrapping_add(i)).collect(),
    }
}

/// The piecewise definition of the view, written directly.
fn expected_view(orig: &[u8], p: &Patch) -> Vec<u8> {
    let mut v = Vec::new();
    v.extend_from_slice(&orig[..p.origin_pos as usize]);
    v.extend_from_slice(&p.patched);
    v.extend_from_slice(&orig[(p.origin_pos + p.origin_size) as usize..]);
    v
}

#[test]
fn length_identity() {
    let orig = sample_original(300);
    let p = sample_patch();
    let reader = p.patch_reader(orig.clone(), orig.len() as u64);
    assert_eq!(reader.len(), 300 + 70 - 30);
}

#[test]
fn byte_exact_view() {
    let orig = sample_original(300);
    let p = sample_patch();
    let expected = expected_view(&orig, &p);
    let mut reader = p.patch_reader(orig.clone(), orig.len() as u64);
    let len = reader.len();
    assert_eq!(len as usize, expected.len());
    let got = reader.read_range(0, len);
    assert_eq!(got, expected);
}

#[test]
fn single_reads_stop_at_region_boundaries() {
    let orig = sample_original(300);
    let p = sample_patch();
    let expected = expected_view(&orig, &p);
    let mut reader = p.patch_reader(orig.clone(), orig.len() as u64);
    // a large read still serves only the bytes before the patch region
    let first = reader.read_step(10_000);
    assert_eq!(first, &expected[..40]);
    let second = reader.read_step(10_000);
    assert_eq!(second, &expected[40..110]);
    let third = reader.read_step(3);
    assert_eq!(third, &expected[110..113]);
}

#[test]
fn range_correctness() {
    let orig = sample_original(300);
    let p = sample_patch();
    let expected = expected_view(&orig, &p);
    let mut reader = p.patch_reader(orig.clone(), orig.len() as u64);
    let len = reader.len();
    for (a, b) in [(0u64, 1u64), (0, 40), (35, 45), (40, 110), (100, 200), (339, 340), (0, 340)] {
        assert!(b <= len);
        let got = reader.read_range(a, b);
        assert_eq!(got, &expected[a as usize..b as usize]);
    }
}

#[test]
fn dummy_patch_leaves_the_stream_unchanged() {
    let orig = sample_original(13);
    let p = Patch { origin_pos: 0, origin_size: 0, patched: vec![] };
    let mut reader = p.patch_reader(orig.clone(), orig.len() as u64);
    assert_eq!(reader.len(), 13);
    let got = reader.read_range(0, 13);
    assert_eq!(got, orig);
}

#[test]
fn range_request_returns_exact_span() {
    // a hundred-byte range against a patched length of 10_000
    let orig = sample_original(10_000);
    let p = Patch { origin_pos: 0, origin_size: 0, patched: vec![] };
    let mut reader = p.patch_reader(orig.clone(), orig.len() as u64);
    assert_eq!(reader.len(), 10_000);
    let range = resolve_range(
        RangeBound::Included(100),
        RangeBound::Included(199),
        reader.len(),
    )
    .unwrap();
    assert_eq!(range, (100, 200));
    let got = reader.read_range(range.0, range.1);
    assert_eq!(got.len(), 100);
    assert_eq!(got, &orig[100..200]);
}

#[test]
fn invalid_ranges_are_rejected() {
    // start past end
    assert_eq!(
        resolve_range(RangeBound::Included(200), RangeBound::Included(100), 10_000),
        None
    );
    // empty span
    assert_eq!(
        resolve_range(RangeBound::Included(5), RangeBound::Excluded(5), 10_000),
        None
    );
    // end past the stream length
    assert_eq!(
        resolve_range(RangeBound::Included(0), RangeBound::Included(10_000), 10_000),
        None
    );
    // missing bounds select the whole stream
    assert_eq!(
        resolve_range(RangeBound::Unbounded, RangeBound::Unbounded, 10_000),
        Some((0, 10_000))
    );
}

#[test]
fn seeks_are_pure_bookkeeping() {
    let orig = sample_original(300);
    let p = sample_patch();
    let expected = expected_view(&orig, &p);
    let mut reader = p.patch_reader(orig.clone(), orig.len() as u64);
    let len = reader.len();

    reader.start_seek(SeekFrom::End(-5));
    assert_eq!(reader.stream_position(), len - 5);
    let tail = reader.read_step(100);
    assert_eq!(tail, &expected[expected.len() - 5..]);

    reader.start_seek(SeekFrom::Start(40));
    reader.start_seek(SeekFrom::Current(10));
    assert_eq!(reader.stream_position(), 50);

    // an out-of-range seek followed by a read returns no bytes
    reader.start_seek(SeekFrom::Start(len + 100));
    assert_eq!(reader.read_step(10), Vec::<u8>::new());
    reader.start_seek(SeekFrom::Current(-1_000_000));
    assert_eq!(reader.stream_position(), 0);
}

#[test]
fn get_point_classifies_regions() {
    let orig = sample_original(300);
    let p = sample_patch();
    let mut reader = p.patch_reader(orig.clone(), orig.len() as u64);

    match reader.get_point() {
        (StartPoint::Origin(o), readable) => {
            assert_eq!(o, 0);
            assert_eq!(readable, 40);
        }
        other => panic!("expected an origin point, got {:?}", other),
    }

    reader.start_seek(SeekFrom::Start(40));
    match reader.get_point() {
        (StartPoint::Patch(q), readable) => {
            assert_eq!(q, 0);
            assert_eq!(readable, 70);
        }
        other => panic!("expected a patch point, got {:?}", other),
    }

    reader.start_seek(SeekFrom::Start(110));
    match reader.get_point() {
        (StartPoint::Origin(o), readable) => {
            assert_eq!(o, 70);
            assert_eq!(readable, reader.len() - 110);
        }
        other => panic!("expected an origin point, got {:?}", other),
    }
}

/// Drives the reader through its step functions the way an async adapter
/// does: classify, seek when the tracked position is off, copy from the
/// patch, or read from the backing bytes.  Returns the bytes and how many
/// back-end seeks were issued.
fn manual_read(orig: &[u8], p: &Patch, start: u64, end: u64, chunk: usize) -> (Vec<u8>, usize) {
    let mut r = p.patch_reader((), orig.len() as u64);
    r.start_seek(SeekFrom::Start(start));
    let mut out = Vec::new();
    let mut seeks = 0usize;
    while (out.len() as u64) < end - start {
        let (point, readable) = r.get_point();
        if readable == 0 {
            break;
        }
        let want = chunk.min(readable as usize).min((end - start) as usize - out.len());
        match point {
            StartPoint::Patch(_) => {
                out.extend_from_slice(&r.read_patch_step(want));
            }
            StartPoint::Origin(o) => {
                if r.reader_pos != o {
                    r.note_seek_started();
                    assert!(r.seeking);
                    r.note_seeked(o);
                    seeks += 1;
                    continue;
                }
                let n = want.min(orig.len() - o as usize);
                out.extend_from_slice(&orig[o as usize..o as usize + n]);
                r.note_origin_read(n as u64);
            }
        }
    }
    (out, seeks)
}

#[test]
fn step_functions_drive_a_read_loop() {
    let orig = sample_original(300);
    let p = sample_patch();
    let expected = expected_view(&orig, &p);
    let (out, _) = manual_read(&orig, &p, 0, expected.len() as u64, 7);
    assert_eq!(out, expected);
}

#[test]
fn range_read_issues_at_most_one_seek() {
    let orig = sample_original(10_000);
    let p = Patch { origin_pos: 0, origin_size: 0, patched: vec![] };
    let (out, seeks) = manual_read(&orig, &p, 100, 200, 64);
    assert_eq!(out, &orig[100..200]);
    assert!(seeks <= 1);
}

#[test]
fn sidecar_codec_round_trips() {
    let p = sample_patch();
    let bytes = encode_patch(&p);
    assert_eq!(bytes.len(), 24 + p.patched.len());
    let q = decode_patch(&bytes).unwrap();
    assert_eq!(q.origin_pos, p.origin_pos);
    assert_eq!(q.origin_size, p.origin_size);
    assert_eq!(q.patched, p.patched);
}

#[test]
fn sidecar_codec_rejects_bad_lengths() {
    assert!(decode_patch(&vec![0u8; 10]).is_none());
    let p = sample_patch();
    let mut bytes = encode_patch(&p);
    bytes.pop();
    assert!(decode_patch(&bytes).is_none());
}

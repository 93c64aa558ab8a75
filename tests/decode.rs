use abr::abr6::{KEY_CHNL, KEY_PATT};
use abr::desc::{TAG_LONG, TAG_OBJC, TAG_TDTA, TAG_VLLS};
use abr::rle::{unpack_row, unpack_rows_exec};
use abr::{open, open_asl, BrushError, Brushes, ImageBrush, OpenError};

fn u16be(v: u16) -> Vec<u8> {
    v.to_be_bytes().to_vec()
}

fn u32be(v: u32) -> Vec<u8> {
    v.to_be_bytes().to_vec()
}

fn cat(parts: &[Vec<u8>]) -> Vec<u8> {
    let mut out = Vec::new();
    for p in parts {
        out.extend_from_slice(p);
    }
    out
}

/// A narrow legacy record: 16-bit width and height, raw samples.
fn narrow_record(w: u16, h: u16, samples: &[u8]) -> Vec<u8> {
    let body = cat(&[u16be(w), u16be(h), samples.to_vec()]);
    cat(&[u32be(body.len() as u32), body])
}

fn legacy_stream(records: &[Vec<u8>]) -> Vec<u8> {
    let mut parts = vec![u16be(1), u16be(0), u16be(records.len() as u16)];
    parts.extend_from_slice(records);
    cat(&parts)
}

fn ok_brush(r: Option<Result<ImageBrush, BrushError>>) -> ImageBrush {
    match r {
        Some(Ok(b)) => b,
        other => panic!("expected a brush, got {:?}", other),
    }
}

fn key(k: &[u8; 4]) -> Vec<u8> {
    cat(&[u32be(0), k.to_vec()])
}

fn field(k: &[u8; 4], tag: u32, value: Vec<u8>) -> Vec<u8> {
    cat(&[key(k), u32be(tag), value])
}

fn object(fields: &[Vec<u8>]) -> Vec<u8> {
    let mut parts = vec![u32be(0), key(b"null"), u32be(fields.len() as u32)];
    parts.extend_from_slice(fields);
    cat(&parts)
}

fn blob(bytes: &[u8]) -> Vec<u8> {
    cat(&[u32be(bytes.len() as u32), bytes.to_vec()])
}

fn channel_list(channels: &[Vec<u8>]) -> Vec<u8> {
    let mut parts = vec![u32be(channels.len() as u32)];
    for c in channels {
        parts.push(u32be(TAG_TDTA));
        parts.push(blob(c));
    }
    cat(&parts)
}

fn pattern_block(fields: &[Vec<u8>]) -> Vec<u8> {
    let root = object(&[field(b"Patt", TAG_OBJC, object(fields))]);
    cat(&[u32be(root.len() as u32), root])
}

fn modern_stream(version: u16, blocks: &[Vec<u8>]) -> Vec<u8> {
    let mut parts = vec![u16be(version), u16be(1), u32be(blocks.len() as u32)];
    parts.extend_from_slice(blocks);
    cat(&parts)
}

#[test]
fn open_rejects_short_header() {
    assert!(matches!(open(vec![0, 1, 0]), Err(OpenError::Io)));
    assert!(matches!(open_asl(vec![0]), Err(OpenError::Io)));
}

#[test]
fn open_reports_unsupported_version() {
    match open(vec![0, 3, 0, 7, 9, 9]) {
        Err(e) => assert_eq!(e, OpenError::UnsupportedVersion { version: 3, subversion: 7 }),
        Ok(_) => panic!("version 3 accepted"),
    }
    match open(vec![0, 6, 0, 3]) {
        Err(e) => assert_eq!(e, OpenError::UnsupportedVersion { version: 6, subversion: 3 }),
        Ok(_) => panic!("version 6.3 accepted"),
    }
    match open_asl(vec![0, 3, 0, 0]) {
        Err(e) => assert_eq!(e, OpenError::UnsupportedVersion { version: 3, subversion: 0 }),
        Ok(_) => panic!("style version 3 accepted"),
    }
}

#[test]
fn open_reads_only_the_header() {
    for (v, sv) in [(1u16, 0u16), (2, 9), (6, 1), (6, 2), (10, 1), (10, 2)] {
        let b = open(cat(&[u16be(v), u16be(sv), vec![0xff; 8]])).ok().unwrap();
        match b.0 {
            abr::Decoder::Abr1(d) => {
                assert!(v == 1 || v == 2);
                assert_eq!(d.pos, 4);
                assert!(d.remaining.is_none());
            }
            abr::Decoder::Abr6(d) => {
                assert!(v == 6 || v == 10);
                assert_eq!(d.pos, 4);
                assert!(d.remaining.is_none());
            }
            abr::Decoder::Asl(_) => panic!("style decoder from open"),
        }
    }
    let b = open_asl(vec![0, 2, 0xff, 0xff]).ok().unwrap();
    match b.0 {
        abr::Decoder::Asl(d) => assert_eq!(d.pos, 2),
        _ => panic!("open_asl gave another decoder"),
    }
}

#[test]
fn legacy_three_records_in_order() {
    let data = legacy_stream(&[
        narrow_record(2, 1, &[1, 2]),
        narrow_record(1, 3, &[3, 4, 5]),
        narrow_record(2, 2, &[6, 7, 8, 9]),
    ]);
    let mut it: Brushes = open(data).ok().unwrap();
    let a = ok_brush(it.next());
    assert_eq!((a.width, a.height, a.depth, a.data.clone()), (2, 1, 8, vec![1, 2]));
    let b = ok_brush(it.next());
    assert_eq!((b.width, b.height, b.data.clone()), (1, 3, vec![3, 4, 5]));
    let c = ok_brush(it.next());
    assert_eq!((c.width, c.height, c.data.clone()), (2, 2, vec![6, 7, 8, 9]));
    assert!(it.next().is_none());
    assert!(it.next().is_none());
}

#[test]
fn legacy_truncated_middle_record_is_isolated() {
    let data = legacy_stream(&[
        narrow_record(2, 1, &[1, 2]),
        narrow_record(3, 3, &[9, 9, 9, 9]),
        narrow_record(1, 1, &[7]),
    ]);
    let mut it = open(data).ok().unwrap();
    assert_eq!(ok_brush(it.next()).data, vec![1, 2]);
    assert!(matches!(it.next(), Some(Err(BrushError::Truncated))));
    assert_eq!(ok_brush(it.next()).data, vec![7]);
    assert!(it.next().is_none());
}

#[test]
fn legacy_length_mismatch_and_stream_end() {
    let data = legacy_stream(&[
        narrow_record(1, 1, &[1, 2]),
        narrow_record(1, 1, &[4]),
    ]);
    let mut it = open(data).ok().unwrap();
    assert!(matches!(it.next(), Some(Err(BrushError::LengthMismatch))));
    assert_eq!(ok_brush(it.next()).data, vec![4]);
    assert!(it.next().is_none());
    // a count larger than the records present ends at the end of the stream
    let short = cat(&[u16be(2), u16be(0), u16be(5), narrow_record(1, 1, &[3])]);
    let mut it = open(short).ok().unwrap();
    assert_eq!(ok_brush(it.next()).data, vec![3]);
    assert!(it.next().is_none());
}

#[test]
fn legacy_record_past_stream_end() {
    let data = cat(&[u16be(1), u16be(0), u16be(2), u32be(100), vec![0, 1]]);
    let mut it = open(data).ok().unwrap();
    assert!(matches!(it.next(), Some(Err(BrushError::Truncated))));
    assert!(it.next().is_none());
}

#[test]
fn legacy_wide_compressed_record() {
    // two rows of three: [5, 5, 5] and [1, 2, 3]
    let rows = vec![0xfe, 5, 2, 1, 2, 3];
    let body = cat(&[u32be(3), u32be(2), vec![1], rows]);
    let record = cat(&[u32be(body.len() as u32), body]);
    let data = cat(&[u16be(2), u16be(2), u16be(1), record]);
    let mut it = open(data).ok().unwrap();
    let b = ok_brush(it.next());
    assert_eq!((b.width, b.height), (3, 2));
    assert_eq!(b.data, vec![5, 5, 5, 1, 2, 3]);
    assert_eq!(b.data.len(), (b.width * b.height) as usize);
    assert!(it.next().is_none());
}

#[test]
fn legacy_wide_raw_and_bad_compression() {
    let raw = cat(&[u32be(1), u32be(2), vec![0], vec![8, 9]]);
    let odd = cat(&[u32be(1), u32be(1), vec![7], vec![8]]);
    let bad_rows = cat(&[u32be(2), u32be(1), vec![1], vec![0xfd, 4]]);
    let data = cat(&[
        u16be(2),
        u16be(2),
        u16be(3),
        u32be(raw.len() as u32),
        raw,
        u32be(odd.len() as u32),
        odd,
        u32be(bad_rows.len() as u32),
        bad_rows,
    ]);
    let mut it = open(data).ok().unwrap();
    let b = ok_brush(it.next());
    assert_eq!((b.width, b.height, b.data.clone()), (1, 2, vec![8, 9]));
    assert!(matches!(it.next(), Some(Err(BrushError::UnknownCompression(7)))));
    assert!(matches!(it.next(), Some(Err(BrushError::BadRows))));
    assert!(it.next().is_none());
}

#[test]
fn invert_complements_and_twice_restores() {
    let mut b = ImageBrush { width: 3, height: 1, depth: 8, data: vec![0, 100, 255] };
    b.invert();
    assert_eq!(b.data, vec![255, 155, 0]);
    b.invert();
    assert_eq!(b.data, vec![0, 100, 255]);
    assert_eq!((b.width, b.height, b.depth), (3, 1, 8));
}

#[test]
fn row_literal_repeat_and_noop() {
    let src = vec![0x80, 1, 7, 8, 0xfd, 9, 0xaa];
    let (row, end) = unpack_row(&src, 0, src.len(), 6).unwrap();
    assert_eq!(row, vec![7, 8, 9, 9, 9, 9]);
    assert_eq!(end, 6);
}

#[test]
fn row_stops_at_target_and_rejects_overshoot_and_underrun() {
    let src = vec![0, 4, 0x80];
    assert_eq!(unpack_row(&src, 0, src.len(), 1), Some((vec![4], 2)));
    assert_eq!(unpack_row(&src, 0, src.len(), 0), Some((vec![], 0)));
    assert_eq!(unpack_row(&[0xfe, 1], 0, 2, 2), None);
    assert_eq!(unpack_row(&[2, 1, 2, 3], 0, 4, 2), None);
    assert_eq!(unpack_row(&[2, 1, 2], 0, 3, 3), None);
    assert_eq!(unpack_row(&[0, 1], 0, 2, 2), None);
}

/// Encodes a row as the reference encoder does: runs of equal bytes (at most
/// 128) as repeat runs, other bytes as one-byte literal runs.
fn pack(row: &[u8]) -> Vec<u8> {
    let mut out = Vec::new();
    let mut i = 0;
    while i < row.len() {
        let mut k = 1;
        while k < 128 && i + k < row.len() && row[i + k] == row[i] {
            k += 1;
        }
        if k >= 2 {
            out.push((257 - k) as u8);
            out.push(row[i]);
        } else {
            out.push(0);
            out.push(row[i]);
        }
        i += k;
    }
    out
}

#[test]
fn row_round_trip_lengths_zero_one_many() {
    let long_run = vec![6u8; 300];
    for row in [vec![], vec![42], vec![1, 1, 2, 3, 3, 3, 0], long_run] {
        let mut packed = pack(&row);
        let used = packed.len();
        packed.extend_from_slice(&[0xff, 0x80]);
        assert_eq!(unpack_row(&packed, 0, packed.len(), row.len()), Some((row.clone(), used)));
    }
}

#[test]
fn rows_decode_back_to_back() {
    let src = vec![1, 1, 2, 0xff, 3];
    assert_eq!(unpack_rows_exec(&src, 0, src.len(), 2, 2), Some((vec![1, 2, 3, 3], 5)));
    assert_eq!(unpack_rows_exec(&src, 0, src.len(), 2, 3), None);
}

#[test]
fn modern_brush_decodes_first_channel() {
    let block = pattern_block(&[
        field(b"Nm  ", abr::desc::TAG_TEXT, cat(&[u32be(1), vec![0, 65]])),
        field(b"Wdth", TAG_LONG, u32be(2)),
        field(b"Hght", TAG_LONG, u32be(2)),
        field(b"Chnl", TAG_VLLS, channel_list(&[vec![1, 1, 2, 0xff, 3], vec![0xfd, 0]])),
    ]);
    for version in [6u16, 10] {
        let mut it = open(modern_stream(version, &[block.clone(), block.clone()])).ok().unwrap();
        for _ in 0..2 {
            let b = ok_brush(it.next());
            assert_eq!((b.width, b.height, b.depth), (2, 2, 8));
            assert_eq!(b.data, vec![1, 2, 3, 3]);
        }
        assert!(it.next().is_none());
    }
}

#[test]
fn modern_missing_channel_is_reported() {
    let missing = pattern_block(&[
        field(b"Wdth", TAG_LONG, u32be(1)),
        field(b"Hght", TAG_LONG, u32be(1)),
    ]);
    let good = pattern_block(&[
        field(b"Wdth", TAG_LONG, u32be(1)),
        field(b"Hght", TAG_LONG, u32be(1)),
        field(b"Chnl", TAG_VLLS, channel_list(&[vec![0, 9]])),
    ]);
    let mut it = open(modern_stream(6, &[missing, good])).ok().unwrap();
    assert!(matches!(it.next(), Some(Err(BrushError::MissingField(k))) if k == KEY_CHNL));
    assert_eq!(ok_brush(it.next()).data, vec![9]);
    assert!(it.next().is_none());
}

#[test]
fn modern_missing_pattern_and_bad_descriptor() {
    let root = object(&[field(b"Wdth", TAG_LONG, u32be(1))]);
    let no_pattern = cat(&[u32be(root.len() as u32), root]);
    let odd = object(&[field(b"Wdth", 0x5858_5858, u32be(1))]);
    let unknown = cat(&[u32be(odd.len() as u32), odd]);
    let mut padded = object(&[]);
    padded.push(0);
    let trailing = cat(&[u32be(padded.len() as u32), padded]);
    let mut it = open(modern_stream(10, &[no_pattern, unknown, trailing])).ok().unwrap();
    assert!(matches!(it.next(), Some(Err(BrushError::MissingField(k))) if k == KEY_PATT));
    assert!(matches!(it.next(), Some(Err(BrushError::UnknownType(0x5858_5858)))));
    assert!(matches!(it.next(), Some(Err(BrushError::LengthMismatch))));
    assert!(it.next().is_none());
}

#[test]
fn modern_nesting_limit() {
    let mut inner = object(&[]);
    for _ in 0..40 {
        inner = object(&[field(b"Objc", TAG_OBJC, inner)]);
    }
    let block = cat(&[u32be(inner.len() as u32), inner]);
    let mut it = open(modern_stream(6, &[block])).ok().unwrap();
    assert!(matches!(it.next(), Some(Err(BrushError::TooDeep))));
}

#[test]
fn style_library_uses_descriptor_blocks() {
    let block = pattern_block(&[
        field(b"Wdth", TAG_LONG, u32be(1)),
        field(b"Hght", TAG_LONG, u32be(2)),
        field(b"Chnl", TAG_VLLS, channel_list(&[vec![0, 3, 0, 3]])),
    ]);
    let data = cat(&[u16be(2), u32be(1), block]);
    let mut it = open_asl(data).ok().unwrap();
    let b = ok_brush(it.next());
    assert_eq!((b.width, b.height, b.data.clone()), (1, 2, vec![3, 3]));
    assert!(it.next().is_none());
}

#[test]
fn big_endian_readers() {
    let s = [0x12u8, 0x34, 0x56, 0x78, 0x9a];
    assert_eq!(abr::util::read_u16(&s, 0, 5), Some(0x1234));
    assert_eq!(abr::util::read_u16(&s, 3, 5), Some(0x789a));
    assert_eq!(abr::util::read_u16(&s, 4, 5), None);
    assert_eq!(abr::util::read_u32(&s, 1, 5), Some(0x3456_789a));
    assert_eq!(abr::util::read_u32(&s, 1, 4), None);
    assert_eq!(abr::util::read_u8(&s, 4, 5), Some(0x9a));
    assert_eq!(abr::util::read_bytes(&s, 1, 3, 5), Some(vec![0x34, 0x56, 0x78]));
    assert_eq!(abr::util::read_bytes(&s, 3, 3, 5), None);
}

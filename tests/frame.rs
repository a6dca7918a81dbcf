use huckli::{FrameError, decode_file, split_frames};

const THREE_FRAMES_GZ: [u8; 35] = [
    31, 139, 8, 0, 0, 0, 0, 0, 2, 3, 99, 96, 96, 96, 78, 76, 74, 102, 128, 0, 214, 140, 212, 156,
    156, 124, 0, 183, 66, 157, 113, 20, 0, 0, 0,
];

const TRUNCATED_GZ: [u8; 33] = [
    31, 139, 8, 0, 0, 0, 0, 0, 2, 3, 99, 96, 96, 96, 78, 76, 74, 102, 96, 96, 224, 170, 168, 4, 0,
    104, 38, 99, 68, 13, 0, 0, 0,
];

#[test]
fn split_frames_reads_length_prefixed_records() {
    let data = vec![0, 0, 0, 3, b'a', b'b', b'c', 0, 0, 0, 0, 0, 0, 0, 1, 9];
    let frames = split_frames(&data).unwrap();
    assert_eq!(frames, vec![b"abc".to_vec(), vec![], vec![9]]);
}

#[test]
fn split_frames_of_empty_stream_is_empty() {
    assert_eq!(split_frames(&vec![]).unwrap(), Vec::<Vec<u8>>::new());
}

#[test]
fn split_frames_reads_big_endian_lengths() {
    let mut data = vec![0, 0, 1, 2];
    data.extend(std::iter::repeat(5u8).take(258));
    let frames = split_frames(&data).unwrap();
    assert_eq!(frames.len(), 1);
    assert_eq!(frames[0].len(), 258);
}

#[test]
fn split_frames_rejects_truncated_payload() {
    let data = vec![0, 0, 0, 3, b'a', b'b', b'c', 0, 0, 0, 10, b'x', b'y'];
    assert_eq!(split_frames(&data), Err(FrameError::Truncated));
}

#[test]
fn split_frames_rejects_truncated_header() {
    let data = vec![0, 0, 0, 1, 7, 0, 0];
    assert_eq!(split_frames(&data), Err(FrameError::Truncated));
}

#[test]
fn decode_file_decompresses_then_splits() {
    let frames = decode_file(&THREE_FRAMES_GZ.to_vec()).unwrap();
    assert_eq!(frames, vec![b"abc".to_vec(), vec![], b"hello".to_vec()]);
}

#[test]
fn decode_file_reports_truncated_stream() {
    assert_eq!(decode_file(&TRUNCATED_GZ.to_vec()), Err(FrameError::Truncated));
}

#[test]
fn decode_file_reports_bad_compression() {
    let raw = vec![0, 0, 0, 1, 7];
    assert!(matches!(decode_file(&raw), Err(FrameError::Compression(_))));
}

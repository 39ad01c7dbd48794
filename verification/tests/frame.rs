use flate2::read::ZlibDecoder;
use packet_framing::bytebuf::ByteBuf;
use packet_framing::error::{FatalError, MAX_PACKET_LENGTH};
use packet_framing::frame::{encode_frame, length_prefix, open_envelope, seal_envelope, take_frame};
use packet_framing::varint::{read_var_int, write_var_int};
use std::io::Read;

fn inflate(data: &[u8]) -> Vec<u8> {
    let mut out = Vec::new();
    ZlibDecoder::new(data).read_to_end(&mut out).unwrap();
    out
}

fn taken(frame: &[u8], compression: bool) -> (Result<bool, FatalError>, Vec<u8>, Vec<u8>) {
    let mut raw = ByteBuf::from_vec(frame.to_vec());
    let mut plain = ByteBuf::new();
    let r = take_frame(&mut raw, &mut plain, compression);
    (r, raw.to_vec(), plain.to_vec())
}

#[test]
fn frame_without_compression() {
    assert_eq!(encode_frame(&[0x00], false, 0), vec![0x01, 0x00]);
    assert_eq!(encode_frame(&[1, 2, 3], false, 0), vec![0x03, 1, 2, 3]);
    // The threshold means nothing while compression is off.
    assert_eq!(encode_frame(&[1, 2, 3], false, 1), vec![0x03, 1, 2, 3]);
    let body = vec![7u8; 300];
    let frame = encode_frame(&body, false, 0);
    assert_eq!(&frame[..2], &[0xac, 0x02]);
    assert_eq!(&frame[2..], &body[..]);
}

#[test]
fn small_body_below_the_threshold_is_sent_as_it_is() {
    let body = [0x00, 0x02, b'a', b'b'];
    assert_eq!(encode_frame(&body, true, 256), vec![0x05, 0x00, 0x00, 0x02, b'a', b'b']);
    let mut envelope = Vec::new();
    seal_envelope(&body, true, 256, &mut envelope);
    assert_eq!(envelope, vec![0x00, 0x00, 0x02, b'a', b'b']);
}

#[test]
fn large_body_above_the_threshold_is_deflated() {
    let body = vec![0u8; 100];
    let frame = encode_frame(&body, true, 16);
    let (envelope_len, n) = read_var_int(&frame).unwrap();
    assert_eq!(envelope_len as usize, frame.len() - n);
    let envelope = &frame[n..];
    let (size, m) = read_var_int(envelope).unwrap();
    assert_eq!(size, 100);
    assert_eq!(m, 1);
    assert_eq!(envelope[0], 100);
    assert!(envelope.len() < body.len());
    assert_eq!(inflate(&envelope[m..]), body);
    // Round trip.
    assert_eq!(taken(&frame, true), (Ok(true), vec![], body));
}

#[test]
fn body_of_exactly_the_threshold_is_deflated() {
    let body = vec![5u8; 16];
    let mut envelope = Vec::new();
    seal_envelope(&body, true, 16, &mut envelope);
    assert_eq!(envelope[0], 16);
    assert_eq!(inflate(&envelope[1..]), body);
    let body = vec![5u8; 15];
    let mut envelope = Vec::new();
    seal_envelope(&body, true, 16, &mut envelope);
    assert_eq!(envelope[0], 0);
    assert_eq!(&envelope[1..], &body[..]);
}

#[test]
fn envelope_is_appended() {
    let mut out = vec![0xee];
    seal_envelope(&[1, 2], false, 0, &mut out);
    assert_eq!(out, vec![0xee, 1, 2]);
    seal_envelope(&[3], true, 10, &mut out);
    assert_eq!(out, vec![0xee, 1, 2, 0, 3]);
}

#[test]
fn length_prefix_of_small_lengths() {
    assert_eq!(length_prefix(0), 0);
    assert_eq!(length_prefix(5), 5);
    assert_eq!(length_prefix(MAX_PACKET_LENGTH), 2097152);
    assert_eq!(length_prefix(0x7fff_ffff), i32::MAX);
}

#[test]
fn open_envelope_without_compression() {
    let mut out = vec![9];
    assert_eq!(open_envelope(&[1, 2, 3], false, &mut out), Ok(()));
    assert_eq!(out, vec![9, 1, 2, 3]);
    assert_eq!(open_envelope(&[], false, &mut out), Ok(()));
    assert_eq!(out, vec![9, 1, 2, 3]);
}

#[test]
fn open_envelope_with_a_literal_body() {
    let mut out = Vec::new();
    assert_eq!(open_envelope(&[0, 1, 2, 3], true, &mut out), Ok(()));
    assert_eq!(out, vec![1, 2, 3]);
    // A zero written in two bytes counts as zero, and the body starts behind it.
    let mut out = Vec::new();
    assert_eq!(open_envelope(&[0x80, 0x00, 7, 8], true, &mut out), Ok(()));
    assert_eq!(out, vec![7, 8]);
}

#[test]
fn open_envelope_with_a_deflated_body() {
    let body: Vec<u8> = (0..500u32).map(|i| (i % 7) as u8).collect();
    let mut envelope = Vec::new();
    seal_envelope(&body, true, 0, &mut envelope);
    let mut out = Vec::new();
    assert_eq!(open_envelope(&envelope, true, &mut out), Ok(()));
    assert_eq!(out, body);
}

#[test]
fn open_envelope_failures() {
    let mut out = vec![9];
    // No size at all, a size cut short, a negative size.
    assert_eq!(open_envelope(&[], true, &mut out), Err(FatalError::MalformedFrame));
    assert_eq!(open_envelope(&[0x80], true, &mut out), Err(FatalError::MalformedFrame));
    assert_eq!(
        open_envelope(&[0xff, 0xff, 0xff, 0xff, 0x0f, 1], true, &mut out),
        Err(FatalError::MalformedFrame)
    );
    // A size with nothing that inflates to it.
    assert_eq!(open_envelope(&[5, 1, 2, 3, 4, 5], true, &mut out), Err(FatalError::MalformedFrame));
    // A deflated body under a wrong size.
    let mut envelope = Vec::new();
    seal_envelope(&[3u8; 40], true, 0, &mut envelope);
    envelope[0] = 41;
    assert_eq!(open_envelope(&envelope, true, &mut out), Err(FatalError::MalformedFrame));
    envelope[0] = 39;
    assert_eq!(open_envelope(&envelope, true, &mut out), Err(FatalError::MalformedFrame));
    // A size over the cap.
    let mut envelope = Vec::new();
    write_var_int((MAX_PACKET_LENGTH + 1) as i32, &mut envelope);
    envelope.extend_from_slice(&[1, 2, 3]);
    assert_eq!(open_envelope(&envelope, true, &mut out), Err(FatalError::MalformedFrame));
    assert_eq!(out, vec![9]);
}

#[test]
fn take_frame_takes_one_frame_and_compacts() {
    let mut raw = ByteBuf::from_vec(vec![0x02, 0xaa, 0xbb, 0x01, 0xcc, 0x05]);
    let mut plain = ByteBuf::new();
    assert_eq!(take_frame(&mut raw, &mut plain, false), Ok(true));
    assert_eq!(plain.to_vec(), vec![0xaa, 0xbb]);
    assert_eq!(raw.to_vec(), vec![0x01, 0xcc, 0x05]);
    assert_eq!(raw.read_pos(), 0);
    assert_eq!(raw.len(), 3);
    assert_eq!(take_frame(&mut raw, &mut plain, false), Ok(true));
    assert_eq!(plain.to_vec(), vec![0xaa, 0xbb, 0xcc]);
    assert_eq!(raw.to_vec(), vec![0x05]);
    // The last frame is incomplete: nothing moves.
    assert_eq!(take_frame(&mut raw, &mut plain, false), Ok(false));
    assert_eq!(plain.to_vec(), vec![0xaa, 0xbb, 0xcc]);
    assert_eq!(raw.to_vec(), vec![0x05]);
    assert_eq!(raw.read_pos(), 0);
}

#[test]
fn take_frame_waits_for_the_rest() {
    assert_eq!(taken(&[], false), (Ok(false), vec![], vec![]));
    assert_eq!(taken(&[0x80], false), (Ok(false), vec![0x80], vec![]));
    assert_eq!(taken(&[0x03, 1, 2], false), (Ok(false), vec![0x03, 1, 2], vec![]));
    assert_eq!(taken(&[0x03, 1, 2], true), (Ok(false), vec![0x03, 1, 2], vec![]));
}

#[test]
fn take_frame_takes_an_empty_frame() {
    assert_eq!(taken(&[0x00, 0x07], false), (Ok(true), vec![0x07], vec![]));
}

#[test]
fn take_frame_rejects_bad_lengths() {
    let five = [0x80, 0x80, 0x80, 0x80, 0x80, 0x01];
    assert_eq!(taken(&five, false), (Err(FatalError::MalformedFrame), five.to_vec(), vec![]));
    let negative = [0xff, 0xff, 0xff, 0xff, 0x0f, 0x01];
    assert_eq!(
        taken(&negative, false),
        (Err(FatalError::MalformedFrame), negative.to_vec(), vec![])
    );
    let mut over = Vec::new();
    write_var_int((MAX_PACKET_LENGTH + 1) as i32, &mut over);
    over.push(0);
    assert_eq!(taken(&over, false), (Err(FatalError::MalformedFrame), over.clone(), vec![]));
    // The cap itself is a length like any other: the frame is incomplete.
    let mut at_cap = Vec::new();
    write_var_int(MAX_PACKET_LENGTH as i32, &mut at_cap);
    at_cap.push(0);
    assert_eq!(taken(&at_cap, false), (Ok(false), at_cap.clone(), vec![]));
}

#[test]
fn take_frame_rejects_a_bad_envelope() {
    // Compression is on and the envelope is empty.
    assert_eq!(taken(&[0x00], true), (Err(FatalError::MalformedFrame), vec![0x00], vec![]));
    // The announced size does not match.
    let frame = [0x04, 0x09, 1, 2, 3];
    assert_eq!(taken(&frame, true), (Err(FatalError::MalformedFrame), frame.to_vec(), vec![]));
}

#[test]
fn frames_round_trip() {
    let bodies: Vec<Vec<u8>> = vec![
        vec![0x00],
        vec![1, 2, 3, 4],
        vec![0u8; 100],
        (0..2000u32).map(|i| (i * i % 251) as u8).collect(),
    ];
    for body in bodies {
        for (compression, threshold) in [(false, 0), (true, 0), (true, 1), (true, 64), (true, 4096)]
        {
            let mut frame = encode_frame(&body, compression, threshold);
            frame.extend_from_slice(&[0xde, 0xad]);
            assert_eq!(taken(&frame, compression), (Ok(true), vec![0xde, 0xad], body.clone()));
        }
    }
}

use muxserve::mux::Channel;
use muxserve::mux::Frame;
use muxserve::mux::MuxError;
use muxserve::mux::decode_frames;
use muxserve::mux::demux;
use muxserve::mux::encode_frame;
use muxserve::mux::encode_frames;
use muxserve::mux::split_channels;

#[test]
fn frame_wire_layout() {
    let payload = vec![0xAAu8, 0xBB];
    let wire = encode_frame(Channel::Output, &payload);
    assert_eq!(wire, vec![1u8, 0, 0, 0, 2, 0xAA, 0xBB]);
}

#[test]
fn empty_stream_demuxes_empty() {
    let d = demux(&Vec::new()).unwrap();
    assert!(d.input.is_empty());
    assert!(d.output.is_empty());
    assert!(d.diag.is_empty());
}

#[test]
fn interleaved_frames_reconstruct_exactly() {
    let frames = vec![
        Frame { chan: Channel::Input, payload: b"he".to_vec() },
        Frame { chan: Channel::Output, payload: b"wo".to_vec() },
        Frame { chan: Channel::Input, payload: b"llo".to_vec() },
        Frame { chan: Channel::Diag, payload: b"!".to_vec() },
        Frame { chan: Channel::Output, payload: b"rld".to_vec() },
    ];
    let wire = encode_frames(&frames);
    let d = demux(&wire).unwrap();
    assert_eq!(d.input, b"hello".to_vec());
    assert_eq!(d.output, b"world".to_vec());
    assert_eq!(d.diag, b"!".to_vec());
}

#[test]
fn granularity_does_not_change_channels() {
    let coarse = vec![
        Frame { chan: Channel::Input, payload: b"abcd".to_vec() },
        Frame { chan: Channel::Output, payload: b"xy".to_vec() },
    ];
    let fine = vec![
        Frame { chan: Channel::Input, payload: b"a".to_vec() },
        Frame { chan: Channel::Output, payload: b"x".to_vec() },
        Frame { chan: Channel::Input, payload: b"bc".to_vec() },
        Frame { chan: Channel::Output, payload: b"y".to_vec() },
        Frame { chan: Channel::Input, payload: b"d".to_vec() },
    ];
    let dc = demux(&encode_frames(&coarse)).unwrap();
    let df = demux(&encode_frames(&fine)).unwrap();
    assert_eq!(dc.input, df.input);
    assert_eq!(dc.output, df.output);
    assert_eq!(dc.diag, df.diag);
}

#[test]
fn decode_round_trip() {
    let frames = vec![
        Frame { chan: Channel::Diag, payload: Vec::new() },
        Frame { chan: Channel::Input, payload: vec![0u8, 1, 2, 3, 255] },
    ];
    let wire = encode_frames(&frames);
    let back = decode_frames(&wire).unwrap();
    assert_eq!(back.len(), 2);
    assert_eq!(back[0].chan, Channel::Diag);
    assert!(back[0].payload.is_empty());
    assert_eq!(back[1].chan, Channel::Input);
    assert_eq!(back[1].payload, vec![0u8, 1, 2, 3, 255]);
}

#[test]
fn unknown_tag_fails_the_stream() {
    let wire = vec![9u8, 0, 0, 0, 0];
    assert_eq!(demux(&wire).unwrap_err(), MuxError::BadTag);
}

#[test]
fn truncated_header_fails_the_stream() {
    let wire = vec![0u8, 0, 0];
    assert_eq!(demux(&wire).unwrap_err(), MuxError::Truncated);
}

#[test]
fn truncated_payload_fails_the_stream() {
    let wire = vec![0u8, 0, 0, 0, 5, 1, 2];
    assert_eq!(decode_frames(&wire).unwrap_err(), MuxError::Truncated);
}

#[test]
fn violation_after_good_frame_fails_the_stream() {
    let mut wire = encode_frame(Channel::Input, &b"ok".to_vec());
    wire.push(7);
    wire.extend_from_slice(&[0, 0, 0, 0]);
    assert_eq!(demux(&wire).unwrap_err(), MuxError::BadTag);
}

#[test]
fn split_channels_sorts_by_tag() {
    let frames = vec![
        Frame { chan: Channel::Diag, payload: b"d1".to_vec() },
        Frame { chan: Channel::Diag, payload: b"d2".to_vec() },
        Frame { chan: Channel::Output, payload: b"o".to_vec() },
    ];
    let d = split_channels(&frames);
    assert!(d.input.is_empty());
    assert_eq!(d.output, b"o".to_vec());
    assert_eq!(d.diag, b"d1d2".to_vec());
}

use aiff::chunks::{ChunkError, TextChunk, TextChunkType};
use aiff::form::AiffReader;
use aiff::reader::ChunkReader;

const RATE_44100: [u8; 10] = [0x40, 0x0E, 0xAC, 0x44, 0, 0, 0, 0, 0, 0];

fn chunk(tag: &[u8; 4], body: &[u8]) -> Vec<u8> {
    let mut v = tag.to_vec();
    v.extend_from_slice(&(body.len() as i32).to_be_bytes());
    v.extend_from_slice(body);
    v
}

fn common_body(channels: i16, frames: u32, depth: i16, rate: [u8; 10]) -> Vec<u8> {
    let mut v = Vec::new();
    v.extend_from_slice(&channels.to_be_bytes());
    v.extend_from_slice(&frames.to_be_bytes());
    v.extend_from_slice(&depth.to_be_bytes());
    v.extend_from_slice(&rate);
    v
}

fn sound_body(payload: &[u8]) -> Vec<u8> {
    let mut v = vec![0, 0, 0, 0, 0, 0, 0, 0];
    v.extend_from_slice(payload);
    v
}

fn container(chunks: &[Vec<u8>]) -> Vec<u8> {
    let mut inner = b"AIFF".to_vec();
    for c in chunks {
        inner.extend_from_slice(c);
    }
    chunk(b"FORM", &inner)
}

fn read_all(data: Vec<u8>) -> (AiffReader, Result<(), ChunkError>) {
    let mut reader = AiffReader::new(data);
    let res = reader.read();
    (reader, res)
}

#[test]
fn format_and_sound_chunks_give_samples() {
    let payload: Vec<u8> = vec![
        0x00, 0x01, 0xFF, 0xFF, 0x7F, 0xFF, 0x80, 0x00, 0x12, 0x34, 0xAB, 0xCD, 0x00, 0x00, 0x01,
        0x00,
    ];
    let data = container(&[
        chunk(b"COMM", &common_body(2, 4, 16, RATE_44100)),
        chunk(b"SSND", &sound_body(&payload)),
    ]);
    let (reader, res) = read_all(data);
    assert_eq!(res, Ok(()));
    let form = reader.form().as_ref().unwrap();
    let common = form.common().as_ref().unwrap();
    assert_eq!(common.num_channels, 2);
    assert_eq!(common.num_sample_frames, 4);
    assert_eq!(common.bit_rate, 16);
    assert_eq!(common.sample_rate.whole_value(), Some(44100));
    let sound = form.sound().as_ref().unwrap();
    assert_eq!(sound.sound_data, payload);
    let samples = reader.samples::<i16>().unwrap();
    assert_eq!(samples.len(), 8);
    let expected: Vec<i16> =
        payload.chunks(2).map(|p| i16::from_be_bytes([p[0], p[1]])).collect();
    assert_eq!(samples, expected);
    assert_eq!(samples, vec![1, -1, 32767, -32768, 0x1234, -21555, 0, 256]);
}

#[test]
fn foreign_root_tag_is_refused() {
    let mut data = b"RIFF".to_vec();
    data.extend_from_slice(&[0, 0, 0, 4]);
    data.extend_from_slice(b"WAVE");
    let (reader, res) = read_all(data);
    assert_eq!(res, Err(ChunkError::InvalidTag(*b"RIFF")));
    assert!(reader.form().is_none());
}

#[test]
fn compressed_form_is_refused() {
    let mut inner = b"AIFC".to_vec();
    inner.extend_from_slice(&chunk(b"COMM", &common_body(1, 0, 16, RATE_44100)));
    let (reader, res) = read_all(chunk(b"FORM", &inner));
    assert_eq!(res, Err(ChunkError::UnsupportedFormVariant(*b"AIFC")));
    assert!(reader.form().is_none());
}

#[test]
fn short_header_is_truncated() {
    let (_, res) = read_all(b"FORM\x00\x00".to_vec());
    assert_eq!(res, Err(ChunkError::TruncatedStream));
    let (_, res) = read_all(b"FO".to_vec());
    assert_eq!(res, Err(ChunkError::TruncatedStream));
}

#[test]
fn recording_of_wrong_size_is_refused() {
    let data = container(&[chunk(b"AESD", &[0u8; 20])]);
    let (reader, res) = read_all(data);
    assert_eq!(res, Err(ChunkError::InvalidDeclaredSize(24, 20)));
    assert!(reader.form().is_none());
}

#[test]
fn recording_of_right_size_is_kept() {
    let bytes: Vec<u8> = (0u8..24).collect();
    let data = container(&[chunk(b"AESD", &bytes)]);
    let (reader, res) = read_all(data);
    assert_eq!(res, Ok(()));
    let rec = reader.form().as_ref().unwrap().recording.as_ref().unwrap();
    assert_eq!(rec.size, 24);
    assert_eq!(rec.data, bytes);
}

#[test]
fn odd_text_chunk_skips_pad_byte() {
    let mut data = b"NAME".to_vec();
    data.extend_from_slice(&[0, 0, 0, 3]);
    data.extend_from_slice(b"abc");
    data.push(0);
    data.extend_from_slice(b"AUTH");
    let mut r = ChunkReader::new(data);
    r.pos = 4;
    let text = TextChunk::parse(&mut r, *b"NAME").unwrap();
    assert_eq!(text.text, "abc");
    assert_eq!(text.size, 3);
    assert_eq!(text.chunk_type, TextChunkType::Name);
    assert_eq!(r.pos, 12);
    assert_eq!(&r.buf[r.pos..r.pos + 4], b"AUTH");
}

#[test]
fn odd_text_chunk_in_container_keeps_alignment() {
    let mut text = b"NAME".to_vec();
    text.extend_from_slice(&[0, 0, 0, 3]);
    text.extend_from_slice(b"abc");
    text.push(0);
    let data = container(&[
        text,
        chunk(b"AUTH", b"me"),
        chunk(b"COMM", &common_body(1, 0, 8, RATE_44100)),
    ]);
    let (reader, res) = read_all(data);
    assert_eq!(res, Ok(()));
    let form = reader.form().as_ref().unwrap();
    assert_eq!(form.texts.len(), 2);
    assert_eq!(form.texts[0].text, "abc");
    assert_eq!(form.texts[1].text, "me");
    assert_eq!(form.texts[1].chunk_type, TextChunkType::Author);
    assert!(form.common.is_some());
}

#[test]
fn text_that_is_not_utf8_is_refused() {
    let data = container(&[chunk(b"ANNO", &[0xFF, 0xFE])]);
    let (_, res) = read_all(data);
    assert_eq!(res, Err(ChunkError::InvalidEncoding));
}

#[test]
fn unknown_chunk_is_skipped_by_its_size() {
    let data = container(&[
        chunk(b"CHAN", &[1, 2, 3]),
        vec![0],
        chunk(b"COMM", &common_body(1, 2, 8, RATE_44100)),
        chunk(b"SSND", &sound_body(&[0x80, 0x7F])),
    ]);
    let (reader, res) = read_all(data);
    assert_eq!(res, Ok(()));
    assert_eq!(reader.samples::<i8>().unwrap(), vec![-128, 127]);
}

#[test]
fn unknown_chunk_past_the_end_is_truncated() {
    let data = container(&[b"CHAN\x00\x00\x01\x00\x01\x02".to_vec()]);
    let (_, res) = read_all(data);
    assert_eq!(res, Err(ChunkError::TruncatedStream));
}

#[test]
fn negative_sizes_are_refused() {
    let mut bad = b"MIDI".to_vec();
    bad.extend_from_slice(&(-2i32).to_be_bytes());
    let (_, res) = read_all(container(&[bad]));
    assert_eq!(res, Err(ChunkError::InvalidDeclaredSize(0, -2)));
    let mut bad = b"SSND".to_vec();
    bad.extend_from_slice(&4i32.to_be_bytes());
    bad.extend_from_slice(&[0, 0, 0, 0]);
    let (_, res) = read_all(container(&[bad]));
    assert_eq!(res, Err(ChunkError::InvalidDeclaredSize(8, 4)));
}

#[test]
fn malformed_rate_is_refused() {
    let zero = [0u8; 10];
    let data = container(&[chunk(b"COMM", &common_body(1, 1, 8, zero))]);
    let (_, res) = read_all(data);
    assert_eq!(res, Err(ChunkError::MalformedNumeric));
}

#[test]
fn markers_comments_and_instrument_are_kept() {
    let mut marks = vec![0, 2];
    marks.extend_from_slice(&[0, 1, 0, 0, 0, 10, 2, b'a', b'b']);
    marks.extend_from_slice(&[0, 2, 0, 0, 0, 20, 1, b'c', 0]);
    let mut comments = vec![0, 1];
    comments.extend_from_slice(&[0, 0, 0, 5, 0, 1, 0, 3, b'x', b'y', b'z', 0]);
    let mut inst = vec![60, 0xFB, 1, 127, 1, 127, 0xFF, 0xFA];
    inst.extend_from_slice(&[0, 1, 0, 1, 0, 2, 0, 0, 0, 0, 0, 0]);
    let mut app = b"abcd".to_vec();
    app.extend_from_slice(&[0xFF, 0x01]);
    let data = container(&[
        chunk(b"MARK", &marks),
        chunk(b"COMT", &comments),
        chunk(b"INST", &inst),
        chunk(b"APPL", &app),
        chunk(b"MIDI", &[0x90, 0x40]),
    ]);
    let (reader, res) = read_all(data);
    assert_eq!(res, Ok(()));
    let form = reader.form().as_ref().unwrap();
    let m = &form.markers[0];
    assert_eq!(m.num_markers, 2);
    assert_eq!(m.markers[0].id, 1);
    assert_eq!(m.markers[0].position, 10);
    assert_eq!(m.markers[0].marker_name, "ab");
    assert_eq!(m.markers[1].position, 20);
    assert_eq!(m.markers[1].marker_name, "c");
    let c = form.comments.as_ref().unwrap();
    assert_eq!(c.comments[0].timestamp, 5);
    assert_eq!(c.comments[0].marker_id, 1);
    assert_eq!(c.comments[0].text, "xyz");
    let i = form.instrument.as_ref().unwrap();
    assert_eq!(i.base_note, 60);
    assert_eq!(i.detune, -5);
    assert_eq!(i.gain, -6);
    assert_eq!(i.sustain_loop.play_mode, 1);
    assert_eq!(i.sustain_loop.end_loop, 2);
    let a = &form.apps[0];
    assert_eq!(&a.application_signature, b"abcd");
    assert_eq!(a.data, vec![-1, 1]);
    assert_eq!(form.midi[0].data, vec![0x90, 0x40]);
}

fn id3_tag(major: u8) -> Vec<u8> {
    let mut v = b"ID3".to_vec();
    v.extend_from_slice(&[major, 0, 0, 0, 0, 0, 10]);
    v.extend_from_slice(&[0u8; 10]);
    v
}

#[test]
fn embedded_id3_tag_is_read_and_stepped_over() {
    let data = container(&[id3_tag(3), chunk(b"NAME", b"tune")]);
    let (reader, res) = read_all(data);
    assert_eq!(res, Ok(()));
    assert_eq!(reader.id3v2_tags.len(), 1);
    assert_eq!(reader.id3v2_tags[0].version, [3, 0]);
    let form = reader.form().as_ref().unwrap();
    assert_eq!(form.texts.len(), 1);
    assert_eq!(form.texts[0].text, "tune");
}

#[test]
fn embedded_id3_tag_after_odd_byte_is_found() {
    let mut odd = vec![0u8, 0u8];
    odd.extend_from_slice(&id3_tag(4));
    let data = container(&[chunk(b"NAME", b"abc"), odd]);
    let (reader, res) = read_all(data);
    assert_eq!(res, Ok(()));
    assert_eq!(reader.id3v2_tags.len(), 1);
    assert_eq!(reader.id3v2_tags[0].version, [4, 0]);
}

#[test]
fn id3_tag_of_unknown_version_is_passed_over() {
    let mut r = ChunkReader::new(id3_tag(5));
    let res = aiff::chunks::ID3v2Chunk::parse(&mut r, *b"ID3\x05");
    assert_eq!(res.unwrap_err(), ChunkError::InvalidVersion(5, 0));
    assert_eq!(r.pos, 0);
    let mut r = ChunkReader::new(b"ID3\x03\x00".to_vec());
    let res = aiff::chunks::ID3v2Chunk::parse(&mut r, *b"ID3\x03");
    assert_eq!(res.unwrap_err(), ChunkError::InvalidEmbeddedTag);
    let res = aiff::chunks::ID3v2Chunk::parse(&mut r, *b"ABCD");
    assert_eq!(res.unwrap_err(), ChunkError::InvalidTag(*b"ABCD"));
}

#[test]
fn samples_need_format_and_sound() {
    let (reader, _) = read_all(container(&[]));
    assert_eq!(reader.samples::<i16>(), Err(ChunkError::MissingChunk(*b"SSND")));
    let (reader, _) = read_all(container(&[chunk(b"SSND", &sound_body(&[]))]));
    assert_eq!(reader.samples::<i16>(), Err(ChunkError::MissingChunk(*b"COMM")));
    let reader = AiffReader::new(vec![]);
    assert_eq!(reader.samples::<i16>(), Err(ChunkError::MissingChunk(*b"FORM")));
}

#[test]
fn samples_of_wrong_width_or_short_payload_fail() {
    let data = container(&[
        chunk(b"COMM", &common_body(2, 2, 16, RATE_44100)),
        chunk(b"SSND", &sound_body(&[0, 1, 0, 2, 0, 3])),
    ]);
    let (reader, res) = read_all(data);
    assert_eq!(res, Ok(()));
    assert_eq!(reader.samples::<i8>(), Err(ChunkError::UnsupportedBitDepth(16)));
    assert_eq!(reader.samples::<i32>(), Err(ChunkError::UnsupportedBitDepth(16)));
    assert_eq!(reader.samples::<i16>(), Err(ChunkError::TruncatedStream));
}

#[test]
fn payload_length_is_checked_against_format() {
    let data = container(&[
        chunk(b"COMM", &common_body(2, 2, 24, RATE_44100)),
        chunk(b"SSND", &sound_body(&[0u8; 12])),
    ]);
    let (reader, res) = read_all(data);
    assert_eq!(res, Ok(()));
    let form = reader.form().as_ref().unwrap();
    assert_eq!(form.payload_matches_format(), Some(true));
    let data = container(&[
        chunk(b"COMM", &common_body(2, 2, 24, RATE_44100)),
        chunk(b"SSND", &sound_body(&[0u8; 14])),
    ]);
    let (reader, _) = read_all(data);
    let form = reader.form().as_ref().unwrap();
    assert_eq!(form.payload_matches_format(), Some(false));
    assert_eq!(reader.samples::<i32>().unwrap().len(), 4);
    let (reader, _) = read_all(container(&[]));
    assert_eq!(reader.form().as_ref().unwrap().payload_matches_format(), None);
}

//! The chunks of an AIFF container. Each parser is handed the chunk's tag,
//! already read, and a reader positioned just after it; it checks the tag
//! and reads the chunk's fields.

use vstd::prelude::*;

use crate::extended::{extended_of, parse_extended_precision_bytes, Extended};
use crate::ids::{
    has_at, holds_at, same_id, ID3, ChunkID, ANNOTATION, APPLICATION, AUTHOR, COMMENTS, COMMON, COPYRIGHT, INSTRUMENT,
    MARKER, MIDI, NAME, RECORDING, SOUND,
};
use crate::reader::{
    advanced, be16, be32, can_read, read_bytes, read_i16_be, read_i32_be, read_i8_be,
    read_pstring, read_u16_be, read_u32_be, signed16, signed32, signed8, string_from_utf8,
    pstring_at, pstring_end, utf8_text, ChunkReader,
};

verus! {

/// What can go wrong while reading a container or decoding its samples.
#[derive(Debug, Clone, Copy, PartialEq, Eq)]
pub enum ChunkError {
    /// A chunk tag differs from the one its parser expects.
    InvalidTag(ChunkID),
    /// The root container holds a form type other than plain AIFF.
    UnsupportedFormVariant(ChunkID),
    /// A declared size disagrees with what the chunk needs: (expected, got).
    /// For a chunk of variable length the expected size is its least one.
    InvalidDeclaredSize(i32, i32),
    /// An embedded tag carries a version (major, minor) outside the supported
    /// range.
    InvalidVersion(u8, u8),
    /// An extended-precision number uses a bit pattern that is not decoded.
    MalformedNumeric,
    /// Fewer bytes remain than a read asks for.
    TruncatedStream,
    /// Bytes that should hold text are not UTF-8.
    InvalidEncoding,
    /// Samples were asked for at a width that the bit depth does not give.
    UnsupportedBitDepth(i16),
    /// A format chunk declares a negative number of channels.
    InvalidChannelCount(i16),
    /// An embedded ID3v2 tag could not be read.
    InvalidEmbeddedTag,
    /// A chunk that the request needs is not in the container.
    MissingChunk(ChunkID),
}

/// Where a chunk whose parse succeeds ends, or the error it fails with.
pub type Outcome = Result<int, ChunkError>;

/// The declared size at `p`, as a signed number.
pub open spec fn size_at(b: Seq<u8>, p: int) -> int {
    signed32(be32(b, p))
}

/// The format descriptor: channels, frames, bit depth and sample rate.
#[derive(Debug, Clone, Copy)]
pub struct CommonChunk {
    pub size: i32,
    pub num_channels: i16,
    pub num_sample_frames: u32,
    /// The bit depth of one sample point.
    pub bit_rate: i16,
    pub sample_rate: Extended,
}

/// Where a format chunk read at `p` ends.
pub open spec fn common_end(id: ChunkID, b: Seq<u8>, p: int) -> Outcome {
    if id@ != COMMON@ {
        Err(ChunkError::InvalidTag(id))
    } else {
        common_body(b, p)
    }
}

/// Where the fields of a format chunk, read at `p` after its tag, end.
pub open spec fn common_body(b: Seq<u8>, p: int) -> Outcome {
    if p + 22 > b.len() {
        Err(ChunkError::TruncatedStream)
    } else {
        match extended_of(b.subrange(p + 12, p + 22)) {
            Ok(_) => Ok(p + 22),
            Err(e) => Err(e),
        }
    }
}

/// The fields of a format chunk read at `p`.
pub open spec fn common_fields(c: CommonChunk, b: Seq<u8>, p: int) -> bool {
    &&& c.size == size_at(b, p)
    &&& c.num_channels == signed16(be16(b, p + 4))
    &&& c.num_sample_frames == be32(b, p + 6)
    &&& c.bit_rate == signed16(be16(b, p + 10))
    &&& extended_of(b.subrange(p + 12, p + 22)) == Ok::<Extended, ChunkError>(c.sample_rate)
}

/// Reads ten bytes into an array.
fn read_ten(r: &mut ChunkReader) -> (res: Result<[u8; 10], ChunkError>)
    ensures
        match res {
            Ok(a) => can_read(*old(r), 10) && advanced(*old(r), *final(r), 10)
                && a@ == old(r).buf@.subrange(old(r).pos as int, old(r).pos + 10),
            Err(e) => !can_read(*old(r), 10) && e == ChunkError::TruncatedStream
                && *final(r) == *old(r),
        },
{
    let v = read_bytes(r, 10)?;
    let a: [u8; 10] = [v[0], v[1], v[2], v[3], v[4], v[5], v[6], v[7], v[8], v[9]];
    assert(a@ =~= v@);
    Ok(a)
}

impl CommonChunk {
    /// Reads a format chunk whose tag `id` has just been read.
    pub fn parse(r: &mut ChunkReader, id: ChunkID) -> (res: Result<CommonChunk, ChunkError>)
        ensures
            final(r).buf@ == old(r).buf@,
            match common_end(id, old(r).buf@, old(r).pos as int) {
                Ok(end) => res matches Ok(c) && final(r).pos == end && old(r).pos < end <= old(r).buf@.len() && common_fields(
                    c,
                    old(r).buf@,
                    old(r).pos as int,
                ),
                Err(e) => res == Err::<CommonChunk, ChunkError>(e),
            },
    {
        if !same_id(&id, &COMMON) {
            return Err(ChunkError::InvalidTag(id));
        }
        if r.pos > r.buf.len() || 22 > r.buf.len() - r.pos {
            return Err(ChunkError::TruncatedStream);
        }
        let size = read_i32_be(r)?;
        let num_channels = read_i16_be(r)?;
        let num_sample_frames = read_u32_be(r)?;
        let bit_rate = read_i16_be(r)?;
        let rate = read_ten(r)?;
        let sample_rate = parse_extended_precision_bytes(rate)?;
        Ok(CommonChunk { size, num_channels, num_sample_frames, bit_rate, sample_rate })
    }
}

/// The sound data: playback offset, block size and the raw sample bytes.
#[derive(Debug)]
pub struct SoundDataChunk {
    pub size: i32,
    pub offset: u32,
    pub block_size: u32,
    pub sound_data: Vec<u8>,
}

/// Where a sound data chunk read at `p` ends: its payload is the declared
/// size less the eight bytes of offset and block size.
pub open spec fn sound_end(id: ChunkID, b: Seq<u8>, p: int) -> Outcome {
    if id@ != SOUND@ {
        Err(ChunkError::InvalidTag(id))
    } else {
        sound_body(b, p)
    }
}

/// Where the fields of a sound data chunk, read at `p` after its tag, end.
pub open spec fn sound_body(b: Seq<u8>, p: int) -> Outcome {
    if p + 4 > b.len() {
        Err(ChunkError::TruncatedStream)
    } else if size_at(b, p) < 8 {
        Err(ChunkError::InvalidDeclaredSize(8, size_at(b, p) as i32))
    } else if p + 4 + size_at(b, p) > b.len() {
        Err(ChunkError::TruncatedStream)
    } else {
        Ok(p + 4 + size_at(b, p))
    }
}

/// The fields of a sound data chunk read at `p`.
pub open spec fn sound_fields(c: SoundDataChunk, b: Seq<u8>, p: int) -> bool {
    &&& c.size == size_at(b, p)
    &&& c.offset == be32(b, p + 4)
    &&& c.block_size == be32(b, p + 8)
    &&& c.sound_data@ == b.subrange(p + 12, p + 4 + size_at(b, p))
}

impl SoundDataChunk {
    /// Reads a sound data chunk whose tag `id` has just been read.
    pub fn parse(r: &mut ChunkReader, id: ChunkID) -> (res: Result<SoundDataChunk, ChunkError>)
        ensures
            final(r).buf@ == old(r).buf@,
            match sound_end(id, old(r).buf@, old(r).pos as int) {
                Ok(end) => res matches Ok(c) && final(r).pos == end && old(r).pos < end <= old(r).buf@.len() && sound_fields(
                    c,
                    old(r).buf@,
                    old(r).pos as int,
                ),
                Err(e) => res == Err::<SoundDataChunk, ChunkError>(e),
            },
    {
        if !same_id(&id, &SOUND) {
            return Err(ChunkError::InvalidTag(id));
        }
        let size = read_i32_be(r)?;
        if size < 8 {
            return Err(ChunkError::InvalidDeclaredSize(8, size));
        }
        let offset = read_u32_be(r)?;
        let block_size = read_u32_be(r)?;
        let sound_data = read_bytes(r, (size - 8) as usize)?;
        Ok(SoundDataChunk { size, offset, block_size, sound_data })
    }
}

/// A marker id, by which loops and comments refer to markers.
pub type MarkerId = i16;

/// A loop of an instrument, between two markers.
#[derive(Debug, Clone, Copy)]
pub struct Loop {
    /// 0: no looping, 1: forward, 2: forward and backward.
    pub play_mode: i16,
    pub begin_loop: MarkerId,
    pub end_loop: MarkerId,
}

/// The fields of a loop read at `p`.
pub open spec fn loop_fields(l: Loop, b: Seq<u8>, p: int) -> bool {
    &&& l.play_mode == signed16(be16(b, p))
    &&& l.begin_loop == signed16(be16(b, p + 2))
    &&& l.end_loop == signed16(be16(b, p + 4))
}

impl Loop {
    /// Reads a loop at the reader's position.
    pub fn from_reader(r: &mut ChunkReader) -> (res: Result<Loop, ChunkError>)
        ensures
            final(r).buf@ == old(r).buf@,
            match res {
                Ok(l) => can_read(*old(r), 6) && final(r).pos == old(r).pos + 6 && loop_fields(
                    l,
                    old(r).buf@,
                    old(r).pos as int,
                ),
                Err(e) => !can_read(*old(r), 6) && e == ChunkError::TruncatedStream,
            },
    {
        if r.pos > r.buf.len() || 6 > r.buf.len() - r.pos {
            return Err(ChunkError::TruncatedStream);
        }
        let play_mode = read_i16_be(r)?;
        let begin_loop = read_i16_be(r)?;
        let end_loop = read_i16_be(r)?;
        Ok(Loop { play_mode, begin_loop, end_loop })
    }
}

/// The instrument descriptor.
#[derive(Debug, Clone, Copy)]
pub struct InstrumentChunk {
    pub size: i32,
    pub base_note: i8,
    pub detune: i8,
    pub low_note: i8,
    pub high_note: i8,
    pub low_velocity: i8,
    pub high_velocity: i8,
    /// In decibels.
    pub gain: i16,
    pub sustain_loop: Loop,
    pub release_loop: Loop,
}

/// Where an instrument chunk read at `p` ends.
pub open spec fn instrument_end(id: ChunkID, b: Seq<u8>, p: int) -> Outcome {
    if id@ != INSTRUMENT@ {
        Err(ChunkError::InvalidTag(id))
    } else {
        instrument_body(b, p)
    }
}

/// Where the fields of an instrument chunk, read at `p` after its tag, end.
pub open spec fn instrument_body(b: Seq<u8>, p: int) -> Outcome {
    if p + 24 > b.len() {
        Err(ChunkError::TruncatedStream)
    } else {
        Ok(p + 24)
    }
}

/// The fields of an instrument chunk read at `p`.
pub open spec fn instrument_fields(c: InstrumentChunk, b: Seq<u8>, p: int) -> bool {
    &&& c.size == size_at(b, p)
    &&& c.base_note == signed8(b[p + 4] as int)
    &&& c.detune == signed8(b[p + 5] as int)
    &&& c.low_note == signed8(b[p + 6] as int)
    &&& c.high_note == signed8(b[p + 7] as int)
    &&& c.low_velocity == signed8(b[p + 8] as int)
    &&& c.high_velocity == signed8(b[p + 9] as int)
    &&& c.gain == signed16(be16(b, p + 10))
    &&& loop_fields(c.sustain_loop, b, p + 12)
    &&& loop_fields(c.release_loop, b, p + 18)
}

impl InstrumentChunk {
    /// Reads an instrument chunk whose tag `id` has just been read.
    pub fn parse(r: &mut ChunkReader, id: ChunkID) -> (res: Result<InstrumentChunk, ChunkError>)
        ensures
            final(r).buf@ == old(r).buf@,
            match instrument_end(id, old(r).buf@, old(r).pos as int) {
                Ok(end) => res matches Ok(c) && final(r).pos == end && old(r).pos < end <= old(r).buf@.len() && instrument_fields(
                    c,
                    old(r).buf@,
                    old(r).pos as int,
                ),
                Err(e) => res == Err::<InstrumentChunk, ChunkError>(e),
            },
    {
        if !same_id(&id, &INSTRUMENT) {
            return Err(ChunkError::InvalidTag(id));
        }
        if r.pos > r.buf.len() || 24 > r.buf.len() - r.pos {
            return Err(ChunkError::TruncatedStream);
        }
        let size = read_i32_be(r)?;
        let base_note = read_i8_be(r)?;
        let detune = read_i8_be(r)?;
        let low_note = read_i8_be(r)?;
        let high_note = read_i8_be(r)?;
        let low_velocity = read_i8_be(r)?;
        let high_velocity = read_i8_be(r)?;
        let gain = read_i16_be(r)?;
        let sustain_loop = Loop::from_reader(r)?;
        let release_loop = Loop::from_reader(r)?;
        Ok(InstrumentChunk {
            size,
            base_note,
            detune,
            low_note,
            high_note,
            low_velocity,
            high_velocity,
            gain,
            sustain_loop,
            release_loop,
        })
    }
}

/// MIDI data, kept as raw bytes.
#[derive(Debug)]
pub struct MIDIDataChunk {
    pub size: i32,
    pub data: Vec<u8>,
}

/// Where a MIDI chunk read at `p` ends.
pub open spec fn midi_end(id: ChunkID, b: Seq<u8>, p: int) -> Outcome {
    if id@ != MIDI@ {
        Err(ChunkError::InvalidTag(id))
    } else {
        midi_body(b, p)
    }
}

/// Where the fields of a MIDI chunk, read at `p` after its tag, end.
pub open spec fn midi_body(b: Seq<u8>, p: int) -> Outcome {
    if p + 4 > b.len() {
        Err(ChunkError::TruncatedStream)
    } else if size_at(b, p) < 0 {
        Err(ChunkError::InvalidDeclaredSize(0, size_at(b, p) as i32))
    } else if p + 4 + size_at(b, p) > b.len() {
        Err(ChunkError::TruncatedStream)
    } else {
        Ok(p + 4 + size_at(b, p))
    }
}

impl MIDIDataChunk {
    /// Reads a MIDI chunk whose tag `id` has just been read.
    pub fn parse(r: &mut ChunkReader, id: ChunkID) -> (res: Result<MIDIDataChunk, ChunkError>)
        ensures
            final(r).buf@ == old(r).buf@,
            match midi_end(id, old(r).buf@, old(r).pos as int) {
                Ok(end) => res matches Ok(c) && final(r).pos == end && old(r).pos < end <= old(r).buf@.len() && c.size == size_at(
                    old(r).buf@,
                    old(r).pos as int,
                ) && c.data@ == old(r).buf@.subrange(old(r).pos + 4, end),
                Err(e) => res == Err::<MIDIDataChunk, ChunkError>(e),
            },
    {
        if !same_id(&id, &MIDI) {
            return Err(ChunkError::InvalidTag(id));
        }
        let size = read_i32_be(r)?;
        if size < 0 {
            return Err(ChunkError::InvalidDeclaredSize(0, size));
        }
        let data = read_bytes(r, size as usize)?;
        Ok(MIDIDataChunk { size, data })
    }
}

/// The audio recording descriptor: AES channel status data.
#[derive(Debug)]
pub struct AudioRecordingChunk {
    pub size: i32,
    /// Always 24 bytes.
    pub data: Vec<u8>,
}

/// Where an audio recording chunk read at `p` ends; its size must be 24.
pub open spec fn recording_end(id: ChunkID, b: Seq<u8>, p: int) -> Outcome {
    if id@ != RECORDING@ {
        Err(ChunkError::InvalidTag(id))
    } else {
        recording_body(b, p)
    }
}

/// Where the fields of an audio recording chunk, read at `p` after its tag, end.
pub open spec fn recording_body(b: Seq<u8>, p: int) -> Outcome {
    if p + 4 > b.len() {
        Err(ChunkError::TruncatedStream)
    } else if size_at(b, p) != 24 {
        Err(ChunkError::InvalidDeclaredSize(24, size_at(b, p) as i32))
    } else if p + 28 > b.len() {
        Err(ChunkError::TruncatedStream)
    } else {
        Ok(p + 28)
    }
}

impl AudioRecordingChunk {
    /// Reads an audio recording chunk whose tag `id` has just been read.
    pub fn parse(r: &mut ChunkReader, id: ChunkID) -> (res: Result<AudioRecordingChunk, ChunkError>)
        ensures
            final(r).buf@ == old(r).buf@,
            match recording_end(id, old(r).buf@, old(r).pos as int) {
                Ok(end) => res matches Ok(c) && final(r).pos == end && old(r).pos < end <= old(r).buf@.len() && c.size == 24
                    && c.data@ == old(r).buf@.subrange(old(r).pos + 4, end),
                Err(e) => res == Err::<AudioRecordingChunk, ChunkError>(e),
            },
    {
        if !same_id(&id, &RECORDING) {
            return Err(ChunkError::InvalidTag(id));
        }
        let size = read_i32_be(r)?;
        if size != 24 {
            return Err(ChunkError::InvalidDeclaredSize(24, size));
        }
        let data = read_bytes(r, 24)?;
        Ok(AudioRecordingChunk { size, data })
    }
}

/// Application-specific data, under the application's signature.
#[derive(Debug)]
pub struct ApplicationSpecificChunk {
    pub size: i32,
    pub application_signature: ChunkID,
    pub data: Vec<i8>,
}

/// Where an application chunk read at `p` ends; its size counts the
/// four-byte signature.
pub open spec fn application_end(id: ChunkID, b: Seq<u8>, p: int) -> Outcome {
    if id@ != APPLICATION@ {
        Err(ChunkError::InvalidTag(id))
    } else {
        application_body(b, p)
    }
}

/// Where the fields of an application chunk, read at `p` after its tag, end.
pub open spec fn application_body(b: Seq<u8>, p: int) -> Outcome {
    if p + 4 > b.len() {
        Err(ChunkError::TruncatedStream)
    } else if size_at(b, p) < 4 {
        Err(ChunkError::InvalidDeclaredSize(4, size_at(b, p) as i32))
    } else if p + 4 + size_at(b, p) > b.len() {
        Err(ChunkError::TruncatedStream)
    } else {
        Ok(p + 4 + size_at(b, p))
    }
}

/// The fields of an application chunk read at `p`.
pub open spec fn application_fields(c: ApplicationSpecificChunk, b: Seq<u8>, p: int) -> bool {
    &&& c.size == size_at(b, p)
    &&& c.application_signature@ == b.subrange(p + 4, p + 8)
    &&& c.data@.len() == size_at(b, p) - 4
    &&& forall|i: int|
        0 <= i < c.data@.len() ==> #[trigger] c.data@[i] as int == signed8(b[p + 8 + i] as int)
}

/// Reads bytes as signed bytes.
fn to_signed_bytes(v: &Vec<u8>) -> (s: Vec<i8>)
    ensures
        s@.len() == v@.len(),
        forall|i: int| 0 <= i < s@.len() ==> #[trigger] s@[i] as int == signed8(v@[i] as int),
{
    let mut s: Vec<i8> = Vec::with_capacity(v.len());
    let mut i: usize = 0;
    while i < v.len()
        invariant
            i <= v@.len(),
            s@.len() == i,
            forall|j: int| 0 <= j < i ==> #[trigger] s@[j] as int == signed8(v@[j] as int),
        decreases v@.len() - i,
    {
        let u = v[i];
        let x: i8 = if u >= 0x80 { (u as i16 - 0x100) as i8 } else { u as i8 };
        s.push(x);
        i = i + 1;
    }
    s
}

impl ApplicationSpecificChunk {
    /// Reads an application chunk whose tag `id` has just been read.
    pub fn parse(r: &mut ChunkReader, id: ChunkID) -> (res: Result<ApplicationSpecificChunk, ChunkError>)
        ensures
            final(r).buf@ == old(r).buf@,
            match application_end(id, old(r).buf@, old(r).pos as int) {
                Ok(end) => res matches Ok(c) && final(r).pos == end && old(r).pos < end <= old(r).buf@.len() && application_fields(
                    c,
                    old(r).buf@,
                    old(r).pos as int,
                ),
                Err(e) => res == Err::<ApplicationSpecificChunk, ChunkError>(e),
            },
    {
        if !same_id(&id, &APPLICATION) {
            return Err(ChunkError::InvalidTag(id));
        }
        let size = read_i32_be(r)?;
        if size < 4 {
            return Err(ChunkError::InvalidDeclaredSize(4, size));
        }
        if r.pos > r.buf.len() || (size as usize) > r.buf.len() - r.pos {
            return Err(ChunkError::TruncatedStream);
        }
        let application_signature = crate::reader::read_chunk_id(r)?;
        let bytes = read_bytes(r, (size - 4) as usize)?;
        let data = to_signed_bytes(&bytes);
        Ok(ApplicationSpecificChunk { size, application_signature, data })
    }
}

/// The kind of a text chunk.
#[derive(Debug, Clone, Copy, PartialEq, Eq)]
pub enum TextChunkType {
    Name,
    Author,
    Copyright,
    Annotation,
}

/// The kind of text chunk that a tag names, if any.
pub open spec fn text_kind(id: ChunkID) -> Option<TextChunkType> {
    text_kind_of(id@)
}

/// The kind of text chunk that the bytes of a tag name, if any.
pub open spec fn text_kind_of(id: Seq<u8>) -> Option<TextChunkType> {
    if id == NAME@ {
        Some(TextChunkType::Name)
    } else if id == AUTHOR@ {
        Some(TextChunkType::Author)
    } else if id == COPYRIGHT@ {
        Some(TextChunkType::Copyright)
    } else if id == ANNOTATION@ {
        Some(TextChunkType::Annotation)
    } else {
        None
    }
}

/// A name, author, copyright or annotation text.
#[derive(Debug)]
pub struct TextChunk {
    pub chunk_type: TextChunkType,
    pub size: i32,
    pub text: String,
}

/// Where a text chunk read at `p` ends: after its text and, where the text
/// has an odd length, one pad byte.
pub open spec fn text_end(id: ChunkID, b: Seq<u8>, p: int) -> Outcome {
    if text_kind(id) is None {
        Err(ChunkError::InvalidTag(id))
    } else {
        text_body(b, p)
    }
}

/// Where the fields of a text chunk, read at `p` after its tag, end.
pub open spec fn text_body(b: Seq<u8>, p: int) -> Outcome {
    let size = size_at(b, p);
    if p + 4 > b.len() {
        Err(ChunkError::TruncatedStream)
    } else if size < 0 {
        Err(ChunkError::InvalidDeclaredSize(0, size as i32))
    } else if p + 4 + size + size % 2 > b.len() {
        Err(ChunkError::TruncatedStream)
    } else if utf8_text(b.subrange(p + 4, p + 4 + size)) is None {
        Err(ChunkError::InvalidEncoding)
    } else {
        Ok(p + 4 + size + size % 2)
    }
}

/// The fields of a text chunk read at `p`.
pub open spec fn text_fields(c: TextChunk, id: Seq<u8>, b: Seq<u8>, p: int) -> bool {
    &&& text_kind_of(id) == Some(c.chunk_type)
    &&& c.size == size_at(b, p)
    &&& utf8_text(b.subrange(p + 4, p + 4 + size_at(b, p))) == Some(c.text@)
}

impl TextChunk {
    /// Reads a text chunk whose tag `id` has just been read.
    pub fn parse(r: &mut ChunkReader, id: ChunkID) -> (res: Result<TextChunk, ChunkError>)
        ensures
            final(r).buf@ == old(r).buf@,
            match text_end(id, old(r).buf@, old(r).pos as int) {
                Ok(end) => res matches Ok(c) && final(r).pos == end && old(r).pos < end <= old(r).buf@.len() && text_fields(
                    c,
                    id@,
                    old(r).buf@,
                    old(r).pos as int,
                ),
                Err(e) => res == Err::<TextChunk, ChunkError>(e),
            },
    {
        let chunk_type = if same_id(&id, &NAME) {
            TextChunkType::Name
        } else if same_id(&id, &AUTHOR) {
            TextChunkType::Author
        } else if same_id(&id, &COPYRIGHT) {
            TextChunkType::Copyright
        } else if same_id(&id, &ANNOTATION) {
            TextChunkType::Annotation
        } else {
            return Err(ChunkError::InvalidTag(id));
        };
        let size = read_i32_be(r)?;
        if size < 0 {
            return Err(ChunkError::InvalidDeclaredSize(0, size));
        }
        let pad: usize = (size % 2) as usize;
        if r.pos > r.buf.len() || (size as usize) > r.buf.len() - r.pos
            || pad > r.buf.len() - r.pos - (size as usize) {
            return Err(ChunkError::TruncatedStream);
        }
        let bytes = read_bytes(r, size as usize)?;
        r.pos = r.pos + pad;
        match string_from_utf8(bytes) {
            Some(text) => Ok(TextChunk { chunk_type, size, text }),
            None => Err(ChunkError::InvalidEncoding),
        }
    }
}

/// The end of `k` records read one after another from `q`, each read by
/// `step` from where the one before ended; or the first error.
pub open spec fn records_end(step: spec_fn(int) -> Outcome, q: int, k: nat) -> Outcome
    decreases k,
{
    if k == 0 {
        Ok(q)
    } else {
        match records_end(step, q, (k - 1) as nat) {
            Ok(s) => step(s),
            Err(e) => Err(e),
        }
    }
}

/// Once a record fails, the records after it are not read.
pub proof fn lemma_records_error_stays(step: spec_fn(int) -> Outcome, q: int, i: nat, k: nat)
    requires
        i <= k,
        records_end(step, q, i) is Err,
    ensures
        records_end(step, q, k) == records_end(step, q, i),
    decreases k - i,
{
    if i < k {
        lemma_records_error_stays(step, q, i, (k - 1) as nat);
    }
}

/// A marker: a position in the sound data, with a name.
#[derive(Debug)]
pub struct Marker {
    pub id: MarkerId,
    pub position: u32,
    pub marker_name: String,
}

/// Where a marker read at `p` ends.
pub open spec fn marker_end(b: Seq<u8>, p: int) -> Outcome {
    if p + 6 > b.len() {
        Err(ChunkError::TruncatedStream)
    } else {
        match pstring_at(b, p + 6) {
            Ok(_) => Ok(pstring_end(b, p + 6)),
            Err(e) => Err(e),
        }
    }
}

/// How markers follow one another in `b`.
pub open spec fn marker_step(b: Seq<u8>) -> spec_fn(int) -> Outcome {
    |s: int| marker_end(b, s)
}

/// The fields of a marker read at `p`.
pub open spec fn marker_fields(m: Marker, b: Seq<u8>, p: int) -> bool {
    &&& m.id == signed16(be16(b, p))
    &&& m.position == be32(b, p + 2)
    &&& pstring_at(b, p + 6) == Ok::<Seq<char>, ChunkError>(m.marker_name@)
}

impl Marker {
    /// Reads a marker at the reader's position.
    pub fn from_reader(r: &mut ChunkReader) -> (res: Result<Marker, ChunkError>)
        ensures
            final(r).buf@ == old(r).buf@,
            match marker_end(old(r).buf@, old(r).pos as int) {
                Ok(end) => res matches Ok(m) && final(r).pos == end && old(r).pos < end <= old(r).buf@.len() && marker_fields(
                    m,
                    old(r).buf@,
                    old(r).pos as int,
                ),
                Err(e) => res == Err::<Marker, ChunkError>(e),
            },
    {
        if r.pos > r.buf.len() || 6 > r.buf.len() - r.pos {
            return Err(ChunkError::TruncatedStream);
        }
        let id = read_i16_be(r)?;
        let position = read_u32_be(r)?;
        let marker_name = read_pstring(r)?;
        Ok(Marker { id, position, marker_name })
    }
}

/// The markers of the sound data.
#[derive(Debug)]
pub struct MarkerChunk {
    pub size: i32,
    pub num_markers: u16,
    pub markers: Vec<Marker>,
}

/// Where a marker chunk read at `p` ends: after its count of markers.
pub open spec fn marker_chunk_end(id: ChunkID, b: Seq<u8>, p: int) -> Outcome {
    if id@ != MARKER@ {
        Err(ChunkError::InvalidTag(id))
    } else {
        marker_chunk_body(b, p)
    }
}

/// Where the fields of a marker chunk, read at `p` after its tag, end.
pub open spec fn marker_chunk_body(b: Seq<u8>, p: int) -> Outcome {
    if p + 6 > b.len() {
        Err(ChunkError::TruncatedStream)
    } else {
        records_end(marker_step(b), p + 6, be16(b, p + 4) as nat)
    }
}

/// The fields of a marker chunk read at `p`.
pub open spec fn marker_chunk_fields(c: MarkerChunk, b: Seq<u8>, p: int) -> bool {
    &&& c.size == size_at(b, p)
    &&& c.num_markers == be16(b, p + 4)
    &&& c.markers@.len() == c.num_markers
    &&& forall|i: int| 0 <= i < c.markers@.len() ==> #[trigger] marker_in(c.markers@, b, p + 6, i)
}

/// Whether the `j`-th of `ms` holds the fields of the `j`-th marker read
/// from `q`.
pub open spec fn marker_in(ms: Seq<Marker>, b: Seq<u8>, q: int, j: int) -> bool {
    records_end(marker_step(b), q, j as nat) matches Ok(s) && marker_fields(ms[j], b, s)
}

impl MarkerChunk {
    /// Reads a marker chunk whose tag `id` has just been read.
    pub fn parse(r: &mut ChunkReader, id: ChunkID) -> (res: Result<MarkerChunk, ChunkError>)
        ensures
            final(r).buf@ == old(r).buf@,
            match marker_chunk_end(id, old(r).buf@, old(r).pos as int) {
                Ok(end) => res matches Ok(c) && final(r).pos == end && old(r).pos < end <= old(r).buf@.len() && marker_chunk_fields(
                    c,
                    old(r).buf@,
                    old(r).pos as int,
                ),
                Err(e) => res == Err::<MarkerChunk, ChunkError>(e),
            },
    {
        if !same_id(&id, &MARKER) {
            return Err(ChunkError::InvalidTag(id));
        }
        if r.pos > r.buf.len() || 6 > r.buf.len() - r.pos {
            return Err(ChunkError::TruncatedStream);
        }
        let size = read_i32_be(r)?;
        let num_markers = read_u16_be(r)?;
        let ghost b = r.buf@;
        let ghost q = r.pos as int;
        let mut markers: Vec<Marker> = Vec::new();
        let mut i: u16 = 0;
        while i < num_markers
            invariant
                r.buf@ == b,
                b == old(r).buf@,
                id@ == MARKER@,
                old(r).pos + 6 <= b.len(),
                q == old(r).pos + 6,
                size == size_at(b, old(r).pos as int),
                num_markers == be16(b, old(r).pos + 4),
                i <= num_markers,
                markers@.len() == i,
                q <= r.pos <= b.len(),
                records_end(marker_step(b), q, i as nat) == Ok::<int, ChunkError>(r.pos as int),
                forall|j: int| 0 <= j < i ==> #[trigger] marker_in(markers@, b, q, j),
            decreases num_markers - i,
        {
            let ghost before = r.pos as int;
            let ghost old_markers = markers@;
            assert(records_end(marker_step(b), q, (i + 1) as nat) == marker_end(b, before));
            match Marker::from_reader(r) {
                Ok(m) => {
                    proof {
                        assert(marker_fields(m, b, before));
                    }
                    markers.push(m);
                    proof {
                        assert(markers@[i as int] == m);
                        assert forall|j: int| 0 <= j < i implies #[trigger] markers@[j] == old_markers[j] by {}
                    }
                }
                Err(e) => {
                    proof {
                        assert(marker_end(b, before) == Err::<int, ChunkError>(e));
                        lemma_records_error_stays(marker_step(b), q, (i + 1) as nat, num_markers as nat);
                        assert(records_end(marker_step(b), q, num_markers as nat) == Err::<int, ChunkError>(e));
                        assert(marker_chunk_end(id, b, old(r).pos as int) == Err::<int, ChunkError>(e));
                    }
                    return Err(e);
                }
            }
            i = i + 1;
            proof {
                assert forall|j: int| 0 <= j < i implies #[trigger] marker_in(markers@, b, q, j) by {
                    if j < i - 1 {
                        assert(markers@[j] == old_markers[j]);
                        assert(marker_in(old_markers, b, q, j));
                    } else {
                        assert(records_end(marker_step(b), q, j as nat) == Ok::<int, ChunkError>(before));
                    }
                }
            }
        }
        Ok(MarkerChunk { size, num_markers, markers })
    }
}

/// A comment, at a time and optionally on a marker.
#[derive(Debug)]
pub struct Comment {
    pub timestamp: u32,
    pub marker_id: MarkerId,
    pub count: u16,
    pub text: String,
}

/// Where a comment read at `p` ends: after its text and, where the text has
/// an odd length, one pad byte.
pub open spec fn comment_end(b: Seq<u8>, p: int) -> Outcome {
    let n = be16(b, p + 6);
    if p + 8 > b.len() {
        Err(ChunkError::TruncatedStream)
    } else if p + 8 + n + n % 2 > b.len() {
        Err(ChunkError::TruncatedStream)
    } else if utf8_text(b.subrange(p + 8, p + 8 + n)) is None {
        Err(ChunkError::InvalidEncoding)
    } else {
        Ok(p + 8 + n + n % 2)
    }
}

/// How comments follow one another in `b`.
pub open spec fn comment_step(b: Seq<u8>) -> spec_fn(int) -> Outcome {
    |s: int| comment_end(b, s)
}

/// The fields of a comment read at `p`.
pub open spec fn comment_fields(c: Comment, b: Seq<u8>, p: int) -> bool {
    &&& c.timestamp == be32(b, p)
    &&& c.marker_id == signed16(be16(b, p + 4))
    &&& c.count == be16(b, p + 6)
    &&& utf8_text(b.subrange(p + 8, p + 8 + c.count)) == Some(c.text@)
}

/// Whether the `j`-th of `cs` holds the fields of the `j`-th comment read
/// from `q`.
pub open spec fn comment_in(cs: Seq<Comment>, b: Seq<u8>, q: int, j: int) -> bool {
    records_end(comment_step(b), q, j as nat) matches Ok(s) && comment_fields(cs[j], b, s)
}

impl Comment {
    /// Reads a comment at the reader's position.
    pub fn from_reader(r: &mut ChunkReader) -> (res: Result<Comment, ChunkError>)
        ensures
            final(r).buf@ == old(r).buf@,
            match comment_end(old(r).buf@, old(r).pos as int) {
                Ok(end) => res matches Ok(c) && final(r).pos == end && old(r).pos < end <= old(r).buf@.len() && comment_fields(
                    c,
                    old(r).buf@,
                    old(r).pos as int,
                ),
                Err(e) => res == Err::<Comment, ChunkError>(e),
            },
    {
        if r.pos > r.buf.len() || 8 > r.buf.len() - r.pos {
            return Err(ChunkError::TruncatedStream);
        }
        let timestamp = read_u32_be(r)?;
        let marker_id = read_i16_be(r)?;
        let count = read_u16_be(r)?;
        let pad: usize = (count % 2) as usize;
        if (count as usize) > r.buf.len() - r.pos || pad > r.buf.len() - r.pos - (count as usize) {
            return Err(ChunkError::TruncatedStream);
        }
        let bytes = read_bytes(r, count as usize)?;
        r.pos = r.pos + pad;
        match string_from_utf8(bytes) {
            Some(text) => Ok(Comment { timestamp, marker_id, count, text }),
            None => Err(ChunkError::InvalidEncoding),
        }
    }
}

/// The comments of the container.
#[derive(Debug)]
pub struct CommentsChunk {
    pub size: i32,
    pub num_comments: u16,
    pub comments: Vec<Comment>,
}

/// Where a comments chunk read at `p` ends: after its count of comments.
pub open spec fn comments_end(id: ChunkID, b: Seq<u8>, p: int) -> Outcome {
    if id@ != COMMENTS@ {
        Err(ChunkError::InvalidTag(id))
    } else {
        comments_body(b, p)
    }
}

/// Where the fields of a comments chunk, read at `p` after its tag, end.
pub open spec fn comments_body(b: Seq<u8>, p: int) -> Outcome {
    if p + 6 > b.len() {
        Err(ChunkError::TruncatedStream)
    } else {
        records_end(comment_step(b), p + 6, be16(b, p + 4) as nat)
    }
}

/// The fields of a comments chunk read at `p`.
pub open spec fn comments_fields(c: CommentsChunk, b: Seq<u8>, p: int) -> bool {
    &&& c.size == size_at(b, p)
    &&& c.num_comments == be16(b, p + 4)
    &&& c.comments@.len() == c.num_comments
    &&& forall|i: int| 0 <= i < c.comments@.len() ==> #[trigger] comment_in(c.comments@, b, p + 6, i)
}

impl CommentsChunk {
    /// Reads a comments chunk whose tag `id` has just been read.
    pub fn parse(r: &mut ChunkReader, id: ChunkID) -> (res: Result<CommentsChunk, ChunkError>)
        ensures
            final(r).buf@ == old(r).buf@,
            match comments_end(id, old(r).buf@, old(r).pos as int) {
                Ok(end) => res matches Ok(c) && final(r).pos == end && old(r).pos < end <= old(r).buf@.len() && comments_fields(
                    c,
                    old(r).buf@,
                    old(r).pos as int,
                ),
                Err(e) => res == Err::<CommentsChunk, ChunkError>(e),
            },
    {
        if !same_id(&id, &COMMENTS) {
            return Err(ChunkError::InvalidTag(id));
        }
        if r.pos > r.buf.len() || 6 > r.buf.len() - r.pos {
            return Err(ChunkError::TruncatedStream);
        }
        let size = read_i32_be(r)?;
        let num_comments = read_u16_be(r)?;
        let ghost b = r.buf@;
        let ghost q = r.pos as int;
        let mut comments: Vec<Comment> = Vec::new();
        let mut i: u16 = 0;
        while i < num_comments
            invariant
                r.buf@ == b,
                b == old(r).buf@,
                id@ == COMMENTS@,
                old(r).pos + 6 <= b.len(),
                q == old(r).pos + 6,
                size == size_at(b, old(r).pos as int),
                num_comments == be16(b, old(r).pos + 4),
                i <= num_comments,
                comments@.len() == i,
                q <= r.pos <= b.len(),
                records_end(comment_step(b), q, i as nat) == Ok::<int, ChunkError>(r.pos as int),
                forall|j: int| 0 <= j < i ==> #[trigger] comment_in(comments@, b, q, j),
            decreases num_comments - i,
        {
            let ghost before = r.pos as int;
            let ghost old_comments = comments@;
            assert(records_end(comment_step(b), q, (i + 1) as nat) == comment_end(b, before));
            match Comment::from_reader(r) {
                Ok(c) => {
                    proof {
                        assert(comment_fields(c, b, before));
                    }
                    comments.push(c);
                }
                Err(e) => {
                    proof {
                        lemma_records_error_stays(comment_step(b), q, (i + 1) as nat, num_comments as nat);
                    }
                    return Err(e);
                }
            }
            i = i + 1;
            proof {
                assert forall|j: int| 0 <= j < i implies #[trigger] comment_in(comments@, b, q, j) by {
                    if j < i - 1 {
                        assert(comments@[j] == old_comments[j]);
                        assert(comment_in(old_comments, b, q, j));
                    } else {
                        assert(records_end(comment_step(b), q, j as nat) == Ok::<int, ChunkError>(before));
                    }
                }
            }
        }
        Ok(CommentsChunk { size, num_comments, comments })
    }
}

/// The chunk tag that starts a chunk, read on its own.
pub struct ChunkBuilder(pub ChunkID);

impl ChunkBuilder {
    pub fn new(r: &mut ChunkReader) -> (res: Result<ChunkBuilder, ChunkError>)
        ensures
            match res {
                Ok(cb) => can_read(*old(r), 4) && advanced(*old(r), *final(r), 4)
                    && cb.0@ == old(r).buf@.subrange(old(r).pos as int, old(r).pos + 4),
                Err(e) => !can_read(*old(r), 4) && e == ChunkError::TruncatedStream
                    && *final(r) == *old(r),
            },
    {
        let id = crate::reader::read_chunk_id(r)?;
        Ok(ChunkBuilder(id))
    }

    pub fn id(&self) -> (r: &ChunkID)
        ensures
            *r == self.0,
    {
        &self.0
    }

    pub fn consume(self) -> (r: ChunkID)
        ensures
            r == self.0,
    {
        self.0
    }
}

#[verifier::external_type_specification]
#[verifier::external_body]
pub struct ExId3Error(id3::Error);

/// How many bytes reading the ID3v2 tag at the front of `b` takes, if one can
/// be read there.
pub uninterp spec fn id3_tag_len(b: Seq<u8>) -> Option<nat>;

/// Relies on `id3::Tag::read_from`: it reads one ID3v2 tag from the front of
/// the bytes or fails, and how far it reads depends on the bytes alone. It
/// succeeds only after reading the ten-byte tag header, and a cursor over the
/// bytes does not move past their end.
#[verifier::external_body]
#[allow(deprecated)]
fn read_id3_tag(b: &[u8]) -> (r: Result<u64, id3::Error>)
    ensures
        match r {
            Ok(n) => id3_tag_len(b@) == Some(n as nat) && 10 <= n <= b@.len(),
            Err(_) => id3_tag_len(b@) is None,
        },
{
    let mut cursor = std::io::Cursor::new(b);
    match id3::Tag::read_from(&mut cursor) {
        Ok(_) => Ok(cursor.position()),
        Err(e) => Err(e),
    }
}

/// An embedded ID3v2 tag, of which the version is kept.
#[derive(Debug, Clone, Copy)]
pub struct ID3v2Chunk {
    /// Major and minor version.
    pub version: [u8; 2],
}

/// Whether a tag starts an ID3v2 tag, at its first or second byte.
pub open spec fn is_id3_id(id: ChunkID) -> bool {
    has_at(id, 0, ID3) || has_at(id, 1, ID3)
}

/// Where an ID3v2 tag whose "ID3" starts at `p` ends. Versions up to 2.4
/// with minor version 0 are read.
pub open spec fn id3_end(id: ChunkID, b: Seq<u8>, p: int) -> Outcome {
    if !is_id3_id(id) {
        Err(ChunkError::InvalidTag(id))
    } else {
        id3_body(b, p)
    }
}

/// Where an ID3v2 tag whose "ID3" starts at `p` ends, once its chunk tag is
/// known to name one.
pub open spec fn id3_body(b: Seq<u8>, p: int) -> Outcome {
    if p + 5 > b.len() {
        Err(ChunkError::TruncatedStream)
    } else if b[p + 3] > 4 || b[p + 4] != 0 {
        Err(ChunkError::InvalidVersion(b[p + 3], b[p + 4]))
    } else {
        match id3_tag_len(b.subrange(p, b.len() as int)) {
            Some(n) => Ok(p + n),
            None => Err(ChunkError::InvalidEmbeddedTag),
        }
    }
}

impl ID3v2Chunk {
    /// Reads the tag whose "ID3" starts at the reader's position. On failure
    /// the reader does not move.
    pub fn parse(r: &mut ChunkReader, id: ChunkID) -> (res: Result<ID3v2Chunk, ChunkError>)
        ensures
            final(r).buf@ == old(r).buf@,
            match id3_end(id, old(r).buf@, old(r).pos as int) {
                Ok(end) => res matches Ok(c) && final(r).pos == end && old(r).pos < end <= old(r).buf@.len() && end >= old(r).pos + 10
                    && c.version@ == seq![old(r).buf@[old(r).pos + 3], old(r).buf@[old(r).pos + 4]],
                Err(e) => res == Err::<ID3v2Chunk, ChunkError>(e) && final(r).pos == old(r).pos,
            },
    {
        if !holds_at(&id, 0, &ID3) && !holds_at(&id, 1, &ID3) {
            return Err(ChunkError::InvalidTag(id));
        }
        let len = r.buf.len();
        if r.pos > len || 5 > len - r.pos {
            return Err(ChunkError::TruncatedStream);
        }
        let version: [u8; 2] = [r.buf[r.pos + 3], r.buf[r.pos + 4]];
        if version[0] > 4 || version[1] != 0 {
            return Err(ChunkError::InvalidVersion(version[0], version[1]));
        }
        let rest = &r.buf.as_slice()[r.pos..len];
        match read_id3_tag(rest) {
            Ok(n) => {
                r.pos = r.pos + n as usize;
                assert(version@ =~= seq![old(r).buf@[old(r).pos + 3], old(r).buf@[old(r).pos + 4]]);
                Ok(ID3v2Chunk { version })
            },
            Err(_) => Err(ChunkError::InvalidEmbeddedTag),
        }
    }
}

} // verus!

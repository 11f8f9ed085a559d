//! The root container and the walk over its chunks.

use vstd::prelude::*;

use crate::chunks::{
    application_body, application_fields, comments_body, comments_fields, common_body,
    common_fields, id3_body, instrument_body, instrument_fields, marker_chunk_body,
    marker_chunk_fields, midi_body, recording_body, size_at, sound_body, sound_fields, text_body,
    text_fields, text_kind_of, ApplicationSpecificChunk, AudioRecordingChunk, ChunkError,
    CommentsChunk, CommonChunk, ID3v2Chunk, InstrumentChunk, MIDIDataChunk, MarkerChunk, Outcome,
    SoundDataChunk, TextChunk,
};
use crate::ids::{
    holds_at, same_id, ChunkID, AIFF, ANNOTATION, APPLICATION, AUTHOR, COMMENTS, COMMON,
    COPYRIGHT, FORM, ID3, INSTRUMENT, MARKER, MIDI, NAME, RECORDING, SOUND, TAG,
};
use crate::reader::{read_chunk_id, read_i32_be, ChunkReader};
use crate::samples::{bytes_per_sample, decode_samples, samples_of, SampleType};

verus! {

/// The root container: its declared size and the chunks found in it.
#[derive(Debug)]
pub struct FormChunk {
    pub size: i32,
    pub common: Option<CommonChunk>,
    pub sound: Option<SoundDataChunk>,
    pub comments: Option<CommentsChunk>,
    pub instrument: Option<InstrumentChunk>,
    pub recording: Option<AudioRecordingChunk>,
    pub texts: Vec<TextChunk>,
    pub markers: Vec<MarkerChunk>,
    pub midi: Vec<MIDIDataChunk>,
    pub apps: Vec<ApplicationSpecificChunk>,
}

/// A container that holds no chunk yet.
pub open spec fn is_empty_form(f: FormChunk) -> bool {
    &&& f.common is None
    &&& f.sound is None
    &&& f.comments is None
    &&& f.instrument is None
    &&& f.recording is None
    &&& f.texts@.len() == 0
    &&& f.markers@.len() == 0
    &&& f.midi@.len() == 0
    &&& f.apps@.len() == 0
}

/// Whether a header read at `p`, just after its tag `id`, fails with `e`.
pub open spec fn form_header_error(id: Seq<u8>, b: Seq<u8>, p: int, e: ChunkError) -> bool {
    if id != FORM@ {
        e matches ChunkError::InvalidTag(t) && t@ == id
    } else if p + 8 > b.len() {
        e == ChunkError::TruncatedStream
    } else {
        e matches ChunkError::UnsupportedFormVariant(t) && t@ == b.subrange(p + 4, p + 8)
    }
}

/// Whether a header read at `p`, just after its tag `id`, is a plain AIFF
/// container.
pub open spec fn form_header_ok(id: Seq<u8>, b: Seq<u8>, p: int) -> bool {
    id == FORM@ && p + 8 <= b.len() && b.subrange(p + 4, p + 8) == AIFF@
}

/// The payload length that a format chunk calls for.
pub open spec fn expected_payload(c: CommonChunk) -> int {
    c.num_sample_frames as int * c.num_channels as int * bytes_per_sample(c.bit_rate)
}

impl FormChunk {
    /// Reads the container header: its size and its form type, which must
    /// be plain AIFF.
    pub fn parse(r: &mut ChunkReader, id: ChunkID) -> (res: Result<FormChunk, ChunkError>)
        ensures
            final(r).buf@ == old(r).buf@,
            form_header_ok(id@, old(r).buf@, old(r).pos as int) <==> res is Ok,
            match res {
                Ok(f) => is_empty_form(f) && f.size == size_at(old(r).buf@, old(r).pos as int)
                    && final(r).pos == old(r).pos + 8,
                Err(e) => form_header_error(id@, old(r).buf@, old(r).pos as int, e),
            },
    {
        if !same_id(&id, &FORM) {
            return Err(ChunkError::InvalidTag(id));
        }
        let size = read_i32_be(r)?;
        let form_type = read_chunk_id(r)?;
        if same_id(&form_type, &AIFF) {
            Ok(FormChunk {
                size,
                common: None,
                sound: None,
                comments: None,
                instrument: None,
                recording: None,
                texts: Vec::new(),
                markers: Vec::new(),
                midi: Vec::new(),
                apps: Vec::new(),
            })
        } else {
            Err(ChunkError::UnsupportedFormVariant(form_type))
        }
    }

    pub fn common(&self) -> (r: &Option<CommonChunk>)
        ensures
            *r == self.common,
    {
        &self.common
    }

    pub fn set_common(&mut self, c: CommonChunk)
        ensures
            *final(self) == (FormChunk { common: Some(c), ..*old(self) }),
    {
        self.common = Some(c);
    }

    pub fn sound(&self) -> (r: &Option<SoundDataChunk>)
        ensures
            *r == self.sound,
    {
        &self.sound
    }

    pub fn set_sound(&mut self, c: SoundDataChunk)
        ensures
            *final(self) == (FormChunk { sound: Some(c), ..*old(self) }),
    {
        self.sound = Some(c);
    }

    pub fn set_comments(&mut self, c: CommentsChunk)
        ensures
            *final(self) == (FormChunk { comments: Some(c), ..*old(self) }),
    {
        self.comments = Some(c);
    }

    pub fn set_instrument(&mut self, c: InstrumentChunk)
        ensures
            *final(self) == (FormChunk { instrument: Some(c), ..*old(self) }),
    {
        self.instrument = Some(c);
    }

    pub fn set_recording(&mut self, c: AudioRecordingChunk)
        ensures
            *final(self) == (FormChunk { recording: Some(c), ..*old(self) }),
    {
        self.recording = Some(c);
    }

    pub fn add_text_chunk(&mut self, c: TextChunk)
        ensures
            final(self).texts@ == old(self).texts@.push(c),
            *final(self) == (FormChunk { texts: final(self).texts, ..*old(self) }),
    {
        self.texts.push(c);
    }

    pub fn add_marker_chunk(&mut self, c: MarkerChunk)
        ensures
            final(self).markers@ == old(self).markers@.push(c),
            *final(self) == (FormChunk { markers: final(self).markers, ..*old(self) }),
    {
        self.markers.push(c);
    }

    pub fn add_midi_chunk(&mut self, c: MIDIDataChunk)
        ensures
            final(self).midi@ == old(self).midi@.push(c),
            *final(self) == (FormChunk { midi: final(self).midi, ..*old(self) }),
    {
        self.midi.push(c);
    }

    /// Whether the sound payload holds exactly the bytes that the format
    /// chunk calls for: frames times channels times bytes per sample point.
    /// Producers disagree here, so a mismatch is for the caller to report. A
    /// bit depth below one matches no payload.
    pub fn payload_matches_format(&self) -> (r: Option<bool>)
        ensures
            match (self.common, self.sound) {
                (Some(c), Some(s)) => r == Some(
                    c.bit_rate > 0 && s.sound_data@.len() == expected_payload(c),
                ),
                _ => r is None,
            },
    {
        match (&self.common, &self.sound) {
            (Some(c), Some(s)) => {
                if c.bit_rate <= 0 {
                    return Some(false);
                }
                let width: i64 = (c.bit_rate as i64 + 7) / 8;
                assert(c.num_sample_frames as int * c.num_channels as int * width
                    <= 0xFFFF_FFFF * 0x8000 * 0x1000) by (nonlinear_arith)
                    requires
                        0 <= c.num_sample_frames <= 0xFFFF_FFFF,
                        -0x8000 <= c.num_channels <= 0x7FFF,
                        -0x1000 <= width <= 0x1000,
                ;
                assert(c.num_sample_frames as int * c.num_channels as int * width
                    >= -(0xFFFF_FFFF * 0x8000 * 0x1000)) by (nonlinear_arith)
                    requires
                        0 <= c.num_sample_frames <= 0xFFFF_FFFF,
                        -0x8000 <= c.num_channels <= 0x7FFF,
                        -0x1000 <= width <= 0x1000,
                ;
                assert(c.num_sample_frames as int * c.num_channels as int
                    <= 0xFFFF_FFFF * 0x8000) by (nonlinear_arith)
                    requires
                        0 <= c.num_sample_frames <= 0xFFFF_FFFF,
                        -0x8000 <= c.num_channels <= 0x7FFF,
                ;
                assert(c.num_sample_frames as int * c.num_channels as int
                    >= -(0xFFFF_FFFF * 0x8000)) by (nonlinear_arith)
                    requires
                        0 <= c.num_sample_frames <= 0xFFFF_FFFF,
                        -0x8000 <= c.num_channels <= 0x7FFF,
                ;
                let want: i64 = c.num_sample_frames as i64 * c.num_channels as i64 * width;
                Some(want >= 0 && s.sound_data.len() as u64 == want as u64)
            },
            _ => None,
        }
    }

    pub fn add_app_chunk(&mut self, c: ApplicationSpecificChunk)
        ensures
            final(self).apps@ == old(self).apps@.push(c),
            *final(self) == (FormChunk { apps: final(self).apps, ..*old(self) }),
    {
        self.apps.push(c);
    }
}

/// Where each chunk that a walk keeps starts: the position just after its
/// tag. A later format, sound, comments, instrument or recording chunk takes
/// the place of an earlier one; the others are kept in stream order.
pub struct FormModel {
    pub common: Option<int>,
    pub sound: Option<int>,
    pub comments: Option<int>,
    pub instrument: Option<int>,
    pub recording: Option<int>,
    pub texts: Seq<int>,
    pub markers: Seq<int>,
    pub midi: Seq<int>,
    pub apps: Seq<int>,
    /// Where the "ID3" of each embedded tag starts.
    pub id3: Seq<int>,
}

/// The model of a container in which no chunk has been found.
pub open spec fn empty_model() -> FormModel {
    FormModel {
        common: None,
        sound: None,
        comments: None,
        instrument: None,
        recording: None,
        texts: Seq::empty(),
        markers: Seq::empty(),
        midi: Seq::empty(),
        apps: Seq::empty(),
        id3: Seq::empty(),
    }
}

/// Where a chunk that the walk does not know ends: after its declared size
/// and, where that is odd, one pad byte.
pub open spec fn skip_body(b: Seq<u8>, p: int) -> Outcome {
    let size = size_at(b, p);
    if p + 4 > b.len() {
        Err(ChunkError::TruncatedStream)
    } else if size < 0 {
        Err(ChunkError::InvalidDeclaredSize(0, size as i32))
    } else if p + 4 + size + size % 2 > b.len() {
        Err(ChunkError::TruncatedStream)
    } else {
        Ok(p + 4 + size + size % 2)
    }
}

/// One step of the walk, for a model `m`.
pub type Step = Result<(int, FormModel), ChunkError>;

/// A step that ends where `o` says, with the model `m`.
pub open spec fn keep(o: Outcome, m: FormModel) -> Step {
    match o {
        Ok(e) => Ok((e, m)),
        Err(x) => Err(x),
    }
}

/// An embedded tag whose "ID3" starts at `s`: kept where it can be read,
/// stepped over by three bytes where it cannot.
pub open spec fn id3_step(b: Seq<u8>, s: int, m: FormModel) -> Step {
    match id3_body(b, s) {
        Ok(e) => Ok((e, FormModel { id3: m.id3.push(s), ..m })),
        Err(_) => Ok((s + 3, m)),
    }
}

/// The chunk whose tag is at `p`: where the walk goes on and what it keeps.
pub open spec fn scan_step(b: Seq<u8>, p: int, m: FormModel) -> Step {
    let id = b.subrange(p, p + 4);
    let q = p + 4;
    if id == COMMON@ {
        keep(common_body(b, q), FormModel { common: Some(q), ..m })
    } else if id == SOUND@ {
        keep(sound_body(b, q), FormModel { sound: Some(q), ..m })
    } else if id == MARKER@ {
        keep(marker_chunk_body(b, q), FormModel { markers: m.markers.push(q), ..m })
    } else if id == INSTRUMENT@ {
        keep(instrument_body(b, q), FormModel { instrument: Some(q), ..m })
    } else if id == MIDI@ {
        keep(midi_body(b, q), FormModel { midi: m.midi.push(q), ..m })
    } else if id == RECORDING@ {
        keep(recording_body(b, q), FormModel { recording: Some(q), ..m })
    } else if id == APPLICATION@ {
        keep(application_body(b, q), FormModel { apps: m.apps.push(q), ..m })
    } else if id == COMMENTS@ {
        keep(comments_body(b, q), FormModel { comments: Some(q), ..m })
    } else if text_kind_of(id) is Some {
        keep(text_body(b, q), FormModel { texts: m.texts.push(q), ..m })
    } else if id.subrange(0, 3) == ID3@ {
        id3_step(b, p, m)
    } else if id.subrange(1, 4) == ID3@ {
        id3_step(b, p + 1, m)
    } else if id.subrange(0, 3) == TAG@ || id.subrange(1, 4) == TAG@ {
        Ok((q, m))
    } else {
        keep(skip_body(b, q), m)
    }
}

/// The walk from `p` to the end of the stream: it stops where fewer than
/// four bytes remain, or at the first chunk that fails. Every step moves
/// forward; the last branch only closes the definition.
pub open spec fn scan(b: Seq<u8>, p: int, m: FormModel) -> Result<FormModel, ChunkError>
    decreases b.len() - p,
{
    if p + 4 > b.len() {
        Ok(m)
    } else {
        match scan_step(b, p, m) {
            Ok((e, m2)) => if p < e <= b.len() {
                scan(b, e, m2)
            } else {
                Ok(m2)
            },
            Err(x) => Err(x),
        }
    }
}

/// Whether a kept slot holds the chunk that the model places at its
/// position, read with `fields`.
pub open spec fn slot_matches<T>(c: Option<T>, at: Option<int>, fields: spec_fn(T, int) -> bool) -> bool {
    match at {
        Some(q) => c matches Some(x) && fields(x, q),
        None => c is None,
    }
}

/// Whether a kept list holds the chunks that the model places at its
/// positions, read with `fields`.
pub open spec fn list_matches<T>(cs: Seq<T>, at: Seq<int>, fields: spec_fn(T, int) -> bool) -> bool {
    cs.len() == at.len() && forall|i: int| 0 <= i < cs.len() ==> #[trigger] fields(cs[i], at[i])
}

/// Whether a container and its embedded tags hold what the model places in
/// the stream `b`.
pub open spec fn form_matches(f: FormChunk, tags: Seq<ID3v2Chunk>, m: FormModel, b: Seq<u8>) -> bool {
    &&& slot_matches(f.common, m.common, |c: CommonChunk, q: int| common_fields(c, b, q))
    &&& slot_matches(f.sound, m.sound, |c: SoundDataChunk, q: int| sound_fields(c, b, q))
    &&& slot_matches(f.comments, m.comments, |c: CommentsChunk, q: int| comments_fields(c, b, q))
    &&& slot_matches(
        f.instrument,
        m.instrument,
        |c: InstrumentChunk, q: int| instrument_fields(c, b, q),
    )
    &&& slot_matches(
        f.recording,
        m.recording,
        |c: AudioRecordingChunk, q: int| c.size == 24 && c.data@ == b.subrange(q + 4, q + 28),
    )
    &&& list_matches(
        f.texts@,
        m.texts,
        |c: TextChunk, q: int| text_fields(c, b.subrange(q - 4, q), b, q),
    )
    &&& list_matches(f.markers@, m.markers, |c: MarkerChunk, q: int| marker_chunk_fields(c, b, q))
    &&& list_matches(
        f.midi@,
        m.midi,
        |c: MIDIDataChunk, q: int| c.size == size_at(b, q) && c.data@ == b.subrange(q + 4, q + 4 + size_at(b, q)),
    )
    &&& list_matches(
        f.apps@,
        m.apps,
        |c: ApplicationSpecificChunk, q: int| application_fields(c, b, q),
    )
    &&& list_matches(
        tags,
        m.id3,
        |t: ID3v2Chunk, s: int| t.version@ == seq![b[s + 3], b[s + 4]],
    )
}

/// Reads the chunk whose tag `id` has just been read, and keeps it in
/// `form` or `tags`.
fn scan_chunk(
    r: &mut ChunkReader,
    id: ChunkID,
    form: &mut FormChunk,
    tags: &mut Vec<ID3v2Chunk>,
    Ghost(m): Ghost<FormModel>,
) -> (res: (Result<(), ChunkError>, Ghost<FormModel>))
    requires
        4 <= old(r).pos <= old(r).buf@.len(),
        id@ == old(r).buf@.subrange(old(r).pos - 4, old(r).pos as int),
        form_matches(*old(form), old(tags)@, m, old(r).buf@),
    ensures
        final(r).buf@ == old(r).buf@,
        final(form).size == old(form).size,
        match scan_step(old(r).buf@, old(r).pos - 4, m) {
            Ok((e, m2)) => res.0 is Ok && final(r).pos == e && res.1@ == m2 && old(r).pos - 4 < e
                <= old(r).buf@.len() && form_matches(*final(form), final(tags)@, m2, old(r).buf@),
            Err(x) => res.0 == Err::<(), ChunkError>(x),
        },
{
    let ghost b = r.buf@;
    let ghost q = r.pos as int;
    if same_id(&id, &COMMON) {
        match CommonChunk::parse(r, id) {
            Ok(c) => {
                form.set_common(c);
                (Ok(()), Ghost(FormModel { common: Some(q), ..m }))
            },
            Err(e) => (Err(e), Ghost(m)),
        }
    } else if same_id(&id, &SOUND) {
        match SoundDataChunk::parse(r, id) {
            Ok(c) => {
                form.set_sound(c);
                (Ok(()), Ghost(FormModel { sound: Some(q), ..m }))
            },
            Err(e) => (Err(e), Ghost(m)),
        }
    } else if same_id(&id, &MARKER) {
        match MarkerChunk::parse(r, id) {
            Ok(c) => {
                form.add_marker_chunk(c);
                (Ok(()), Ghost(FormModel { markers: m.markers.push(q), ..m }))
            },
            Err(e) => (Err(e), Ghost(m)),
        }
    } else if same_id(&id, &INSTRUMENT) {
        match InstrumentChunk::parse(r, id) {
            Ok(c) => {
                form.set_instrument(c);
                (Ok(()), Ghost(FormModel { instrument: Some(q), ..m }))
            },
            Err(e) => (Err(e), Ghost(m)),
        }
    } else if same_id(&id, &MIDI) {
        match MIDIDataChunk::parse(r, id) {
            Ok(c) => {
                form.add_midi_chunk(c);
                (Ok(()), Ghost(FormModel { midi: m.midi.push(q), ..m }))
            },
            Err(e) => (Err(e), Ghost(m)),
        }
    } else if same_id(&id, &RECORDING) {
        match AudioRecordingChunk::parse(r, id) {
            Ok(c) => {
                form.set_recording(c);
                (Ok(()), Ghost(FormModel { recording: Some(q), ..m }))
            },
            Err(e) => (Err(e), Ghost(m)),
        }
    } else if same_id(&id, &APPLICATION) {
        match ApplicationSpecificChunk::parse(r, id) {
            Ok(c) => {
                form.add_app_chunk(c);
                (Ok(()), Ghost(FormModel { apps: m.apps.push(q), ..m }))
            },
            Err(e) => (Err(e), Ghost(m)),
        }
    } else if same_id(&id, &COMMENTS) {
        match CommentsChunk::parse(r, id) {
            Ok(c) => {
                form.set_comments(c);
                (Ok(()), Ghost(FormModel { comments: Some(q), ..m }))
            },
            Err(e) => (Err(e), Ghost(m)),
        }
    } else if same_id(&id, &NAME) || same_id(&id, &AUTHOR) || same_id(&id, &COPYRIGHT)
        || same_id(&id, &ANNOTATION) {
        match TextChunk::parse(r, id) {
            Ok(c) => {
                form.add_text_chunk(c);
                (Ok(()), Ghost(FormModel { texts: m.texts.push(q), ..m }))
            },
            Err(e) => (Err(e), Ghost(m)),
        }
    } else if holds_at(&id, 0, &ID3) || holds_at(&id, 1, &ID3) {
        let start: usize = if holds_at(&id, 0, &ID3) {
            r.pos - 4
        } else {
            r.pos - 3
        };
        r.pos = start;
        match ID3v2Chunk::parse(r, id) {
            Ok(t) => {
                tags.push(t);
                (Ok(()), Ghost(FormModel { id3: m.id3.push(start as int), ..m }))
            },
            Err(_) => {
                r.pos = start + 3;
                (Ok(()), Ghost(m))
            },
        }
    } else if holds_at(&id, 0, &TAG) || holds_at(&id, 1, &TAG) {
        (Ok(()), Ghost(m))
    } else {
        skip_chunk(r, id, Ghost(m))
    }
}

/// Steps over a chunk that the walk does not know, by its declared size.
fn skip_chunk(r: &mut ChunkReader, id: ChunkID, Ghost(m): Ghost<FormModel>) -> (res: (
    Result<(), ChunkError>,
    Ghost<FormModel>,
))
    requires
        4 <= old(r).pos <= old(r).buf@.len(),
    ensures
        final(r).buf@ == old(r).buf@,
        match keep(skip_body(old(r).buf@, old(r).pos as int), m) {
            Ok((e, m2)) => res.0 is Ok && final(r).pos == e && res.1@ == m2 && old(r).pos < e
                <= old(r).buf@.len(),
            Err(x) => res.0 == Err::<(), ChunkError>(x),
        },
{
    let size = match read_i32_be(r) {
        Ok(size) => size,
        Err(e) => {
            return (Err(e), Ghost(m));
        },
    };
    if size < 0 {
        return (Err(ChunkError::InvalidDeclaredSize(0, size)), Ghost(m));
    }
    let pad: usize = (size % 2) as usize;
    let len = r.buf.len();
    if (size as usize) > len - r.pos || pad > len - r.pos - (size as usize) {
        return (Err(ChunkError::TruncatedStream), Ghost(m));
    }
    r.pos = r.pos + (size as usize) + pad;
    (Ok(()), Ghost(m))
}

/// Whether the stream holds, at `p`, the header of a plain AIFF container.
pub open spec fn header_ok(b: Seq<u8>, p: int) -> bool {
    p + 4 <= b.len() && form_header_ok(b.subrange(p, p + 4), b, p + 4)
}

/// Whether reading the header at `p` fails with `e`.
pub open spec fn header_error(b: Seq<u8>, p: int, e: ChunkError) -> bool {
    if p + 4 > b.len() {
        e == ChunkError::TruncatedStream
    } else {
        form_header_error(b.subrange(p, p + 4), b, p + 4, e)
    }
}

/// What reading the container at `p` gives: the model of what it holds, or
/// the first error. Its header must be valid; then the walk runs to the end
/// of the stream.
pub open spec fn container_at(b: Seq<u8>, p: int) -> Result<FormModel, ChunkError> {
    scan(b, p + 12, empty_model())
}

/// Reads a whole AIFF stream, and hands out its sample points.
pub struct AiffReader {
    pub buf: ChunkReader,
    pub form_chunk: Option<FormChunk>,
    /// The embedded ID3v2 tags found by the last read.
    pub id3v2_tags: Vec<ID3v2Chunk>,
}

impl AiffReader {
    pub fn new(data: Vec<u8>) -> (r: AiffReader)
        ensures
            r.buf.buf@ == data@,
            r.buf.pos == 0,
            r.form_chunk is None,
            r.id3v2_tags@.len() == 0,
    {
        AiffReader { buf: ChunkReader::new(data), form_chunk: None, id3v2_tags: Vec::new() }
    }

    /// Reads the container header, then every chunk up to the end of the
    /// stream. On failure nothing is kept.
    pub fn read(&mut self) -> (res: Result<(), ChunkError>)
        ensures
            final(self).buf.buf@ == old(self).buf.buf@,
            header_ok(old(self).buf.buf@, old(self).buf.pos as int) ==> match container_at(
                old(self).buf.buf@,
                old(self).buf.pos as int,
            ) {
                Ok(m) => res is Ok && (final(self).form_chunk matches Some(f) && f.size == size_at(
                    old(self).buf.buf@,
                    old(self).buf.pos + 4,
                ) && form_matches(f, final(self).id3v2_tags@, m, old(self).buf.buf@)),
                Err(e) => res == Err::<(), ChunkError>(e),
            },
            !header_ok(old(self).buf.buf@, old(self).buf.pos as int) ==> (res matches Err(e)
                && header_error(old(self).buf.buf@, old(self).buf.pos as int, e)),
            res is Err ==> final(self).form_chunk == old(self).form_chunk,
    {
        let ghost b = self.buf.buf@;
        let ghost p = self.buf.pos as int;
        let form_id = read_chunk_id(&mut self.buf)?;
        let mut form = FormChunk::parse(&mut self.buf, form_id)?;
        let mut tags: Vec<ID3v2Chunk> = Vec::new();
        let ghost mut m = empty_model();
        while self.buf.available() >= 4
            invariant
                self.buf.buf@ == b,
                b == old(self).buf.buf@,
                p == old(self).buf.pos,
                header_ok(b, p),
                self.buf.pos <= b.len(),
                container_at(b, p) == scan(b, self.buf.pos as int, m),
                form_matches(form, tags@, m, b),
                form.size == size_at(b, p + 4),
                self.form_chunk == old(self).form_chunk,
            decreases b.len() - self.buf.pos,
        {
            let id = read_chunk_id(&mut self.buf)?;
            let (res, next) = scan_chunk(&mut self.buf, id, &mut form, &mut tags, Ghost(m));
            match res {
                Ok(()) => {},
                Err(e) => {
                    return Err(e);
                },
            }
            proof {
                m = next@;
            }
        }
        self.form_chunk = Some(form);
        self.id3v2_tags = tags;
        Ok(())
    }

    pub fn form(&self) -> (r: &Option<FormChunk>)
        ensures
            *r == self.form_chunk,
    {
        &self.form_chunk
    }

    /// Decodes every sample point of the sound data, as the format chunk
    /// describes it.
    pub fn samples<T: SampleType>(&self) -> (r: Result<Vec<T>, ChunkError>)
        ensures
            match self.form_chunk {
                None => r == Err::<Vec<T>, ChunkError>(ChunkError::MissingChunk(FORM)),
                Some(f) => match (f.sound, f.common) {
                    (None, _) => r == Err::<Vec<T>, ChunkError>(ChunkError::MissingChunk(SOUND)),
                    (Some(_), None) => r == Err::<Vec<T>, ChunkError>(
                        ChunkError::MissingChunk(COMMON),
                    ),
                    (Some(s), Some(c)) => match samples_of::<T>(
                        s.sound_data@,
                        c.num_channels,
                        c.num_sample_frames,
                        c.bit_rate,
                    ) {
                        Ok(v) => r matches Ok(w) && w@ == v,
                        Err(e) => r == Err::<Vec<T>, ChunkError>(e),
                    },
                },
            },
    {
        let f = match &self.form_chunk {
            Some(f) => f,
            None => {
                return Err(ChunkError::MissingChunk(FORM));
            },
        };
        let s = match &f.sound {
            Some(s) => s,
            None => {
                return Err(ChunkError::MissingChunk(SOUND));
            },
        };
        let c = match &f.common {
            Some(c) => c,
            None => {
                return Err(ChunkError::MissingChunk(COMMON));
            },
        };
        decode_samples::<T>(s.sound_data.as_slice(), c.num_channels, c.num_sample_frames, c.bit_rate)
    }
}

/// A stream whose first tag is not "FORM" is refused, whatever follows, with
/// an invalid-tag error that carries that tag; no container is kept.
pub proof fn lemma_foreign_root_refused(b: Seq<u8>, p: int, e: ChunkError)
    requires
        0 <= p,
        p + 4 <= b.len(),
        b.subrange(p, p + 4) != FORM@,
        header_error(b, p, e),
    ensures
        !header_ok(b, p),
        e matches ChunkError::InvalidTag(t) && t@ == b.subrange(p, p + 4),
{
}

/// A walk that reaches an audio recording chunk whose declared size is not
/// 24 fails there with the expected and the declared size.
pub proof fn lemma_recording_size_refused(b: Seq<u8>, p: int, m: FormModel)
    requires
        0 <= p,
        p + 8 <= b.len(),
        b.subrange(p, p + 4) == RECORDING@,
        size_at(b, p + 4) != 24,
    ensures
        scan(b, p, m) == Err::<FormModel, ChunkError>(
            ChunkError::InvalidDeclaredSize(24, size_at(b, p + 4) as i32),
        ),
{
    let id = b.subrange(p, p + 4);
    assert(id[0] == 0x41 && id[1] == 0x45 && id[2] == 0x53 && id[3] == 0x44);
    assert(id != COMMON@ && id != SOUND@ && id != MARKER@ && id != INSTRUMENT@ && id != MIDI@) by {
        assert(COMMON@[0] != id[0] && SOUND@[0] != id[0] && MARKER@[0] != id[0]);
        assert(INSTRUMENT@[0] != id[0] && MIDI@[0] != id[0]);
    }
}

/// A text chunk of odd length is followed by one pad byte: the walk goes on
/// at the even boundary after its text.
pub proof fn lemma_odd_text_padded(b: Seq<u8>, q: int)
    requires
        0 <= q,
        q + 4 <= b.len(),
        size_at(b, q) % 2 == 1,
        text_body(b, q) is Ok,
    ensures
        text_body(b, q) == Ok::<int, ChunkError>(q + 4 + size_at(b, q) + 1),
{
}

} // verus!

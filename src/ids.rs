use vstd::prelude::*;

verus! {

/// A four-byte chunk identifier.
pub type ChunkID = [u8; 4];

/// "FORM": the root container.
pub const FORM: ChunkID = [0x46, 0x4F, 0x52, 0x4D];
/// "AIFF": the plain form type.
pub const AIFF: ChunkID = [0x41, 0x49, 0x46, 0x46];

/// "AIFC": the compressed form type, which is not read.
pub const AIFF_C: ChunkID = [0x41, 0x49, 0x46, 0x43];
/// "COMM": the format descriptor.
pub const COMMON: ChunkID = [0x43, 0x4F, 0x4D, 0x4D];
/// "SSND": the sound data.
pub const SOUND: ChunkID = [0x53, 0x53, 0x4E, 0x44];
/// "MARK": markers.
pub const MARKER: ChunkID = [0x4D, 0x41, 0x52, 0x4B];
/// "INST": the instrument descriptor.
pub const INSTRUMENT: ChunkID = [0x49, 0x4E, 0x53, 0x54];
/// "MIDI": MIDI data.
pub const MIDI: ChunkID = [0x4D, 0x49, 0x44, 0x49];
/// "AESD": the audio recording descriptor.
pub const RECORDING: ChunkID = [0x41, 0x45, 0x53, 0x44];
/// "APPL": application-specific data.
pub const APPLICATION: ChunkID = [0x41, 0x50, 0x50, 0x4C];
/// "COMT": comments.
pub const COMMENTS: ChunkID = [0x43, 0x4F, 0x4D, 0x54];
/// "NAME": a name text.
pub const NAME: ChunkID = [0x4E, 0x41, 0x4D, 0x45];
/// "AUTH": an author text.
pub const AUTHOR: ChunkID = [0x41, 0x55, 0x54, 0x48];
/// "(c) ": a copyright text.
pub const COPYRIGHT: ChunkID = [0x28, 0x63, 0x29, 0x20];
/// "ANNO": an annotation text.
pub const ANNOTATION: ChunkID = [0x41, 0x4E, 0x4E, 0x4F];
/// "ID3": the start of an embedded ID3v2 tag.
pub const ID3: [u8; 3] = [0x49, 0x44, 0x33];
/// "TAG": the start of an ID3v1 tag.
pub const TAG: [u8; 3] = [0x54, 0x41, 0x47];

/// Whether three bytes of `id`, from `start`, spell `prefix`.
pub open spec fn has_at(id: ChunkID, start: int, prefix: [u8; 3]) -> bool {
    id@.subrange(start, start + 3) == prefix@
}

/// Whether three bytes of `id`, from `start` (0 or 1), spell `prefix`.
pub fn holds_at(id: &ChunkID, start: usize, prefix: &[u8; 3]) -> (r: bool)
    requires
        start <= 1,
    ensures
        r == has_at(*id, start as int, *prefix),
{
    let r = id[start] == prefix[0] && id[start + 1] == prefix[1] && id[start + 2] == prefix[2];
    proof {
        if r {
            assert(id@.subrange(start as int, start + 3) =~= prefix@);
        } else {
            assert(id@.subrange(start as int, start + 3)[0] == id@[start as int]);
        }
    }
    r
}

/// Whether two chunk identifiers hold the same bytes.
pub fn same_id(a: &ChunkID, b: &ChunkID) -> (r: bool)
    ensures
        r == (a@ == b@),
{
    let r = a[0] == b[0] && a[1] == b[1] && a[2] == b[2] && a[3] == b[3];
    proof {
        if r {
            assert(a@ =~= b@);
        }
    }
    r
}

} // verus!

//! Reading PCM sample points out of sound bytes.

use vstd::prelude::*;

use crate::chunks::ChunkError;
use crate::reader::{be16, be32, signed16, signed32, signed8};
use vstd::arithmetic::mul::lemma_mul_inequality;

verus! {

/// Bytes that one sample point of `bit_width` bits takes: the width rounded
/// up to whole bytes.
pub open spec fn bytes_per_sample(bit_width: i16) -> int {
    (bit_width as int + 7) / 8
}

/// Big-endian value of the three bytes at `i`.
pub open spec fn be24(b: Seq<u8>, i: int) -> int {
    b[i] as int * 0x1_0000 + be16(b, i + 1)
}

/// Two's complement reading of a 24-bit pattern.
pub open spec fn signed24(u: int) -> int {
    if u >= 0x80_0000 { u - 0x100_0000 } else { u }
}

/// A numeric type that sample points are decoded into.
pub trait SampleType: Sized {
    /// Whether sound data of `bit_width` bits is decoded into this type.
    spec fn reads_width(bit_width: i16) -> bool;

    /// The sample point that the bytes at `pos` hold, at `bit_width` bits.
    spec fn sample_at(data: Seq<u8>, pos: int, bit_width: i16) -> Self;

    /// Whether sound data of `bit_width` bits is decoded into this type.
    fn accepts(bit_width: i16) -> (r: bool)
        ensures
            r == Self::reads_width(bit_width),
    ;

    /// Decodes the sample point at `pos`.
    fn parse(data: &[u8], pos: usize, bit_width: i16) -> (r: Result<Self, ChunkError>)
        requires
            Self::reads_width(bit_width) ==> pos + bytes_per_sample(bit_width) <= data@.len(),
        ensures
            match r {
                Ok(v) => Self::reads_width(bit_width) && v == Self::sample_at(
                    data@,
                    pos as int,
                    bit_width,
                ),
                Err(e) => !Self::reads_width(bit_width) && e == ChunkError::UnsupportedBitDepth(
                    bit_width,
                ),
            },
    ;
}

impl SampleType for i8 {
    open spec fn reads_width(bit_width: i16) -> bool {
        bit_width == 8
    }

    open spec fn sample_at(data: Seq<u8>, pos: int, bit_width: i16) -> i8 {
        signed8(data[pos] as int) as i8
    }

    fn accepts(bit_width: i16) -> (r: bool) {
        bit_width == 8
    }

    fn parse(data: &[u8], pos: usize, bit_width: i16) -> (r: Result<i8, ChunkError>) {
        if bit_width != 8 {
            return Err(ChunkError::UnsupportedBitDepth(bit_width));
        }
        let u = data[pos];
        if u >= 0x80 {
            Ok((u as i16 - 0x100) as i8)
        } else {
            Ok(u as i8)
        }
    }
}

impl SampleType for i16 {
    open spec fn reads_width(bit_width: i16) -> bool {
        bit_width == 16
    }

    open spec fn sample_at(data: Seq<u8>, pos: int, bit_width: i16) -> i16 {
        signed16(be16(data, pos)) as i16
    }

    fn accepts(bit_width: i16) -> (r: bool) {
        bit_width == 16
    }

    fn parse(data: &[u8], pos: usize, bit_width: i16) -> (r: Result<i16, ChunkError>) {
        if bit_width != 16 {
            return Err(ChunkError::UnsupportedBitDepth(bit_width));
        }
        let u: u16 = (data[pos] as u16) * 0x100 + data[pos + 1] as u16;
        if u >= 0x8000 {
            Ok((u as i32 - 0x1_0000) as i16)
        } else {
            Ok(u as i16)
        }
    }
}

impl SampleType for i32 {
    /// 24-bit data is widened to 32 bits.
    open spec fn reads_width(bit_width: i16) -> bool {
        bit_width == 24 || bit_width == 32
    }

    open spec fn sample_at(data: Seq<u8>, pos: int, bit_width: i16) -> i32 {
        if bit_width == 24 {
            signed24(be24(data, pos)) as i32
        } else {
            signed32(be32(data, pos)) as i32
        }
    }

    fn accepts(bit_width: i16) -> (r: bool) {
        bit_width == 24 || bit_width == 32
    }

    fn parse(data: &[u8], pos: usize, bit_width: i16) -> (r: Result<i32, ChunkError>) {
        if bit_width == 24 {
            let u: u32 = (data[pos] as u32) * 0x1_0000 + (data[pos + 1] as u32) * 0x100
                + data[pos + 2] as u32;
            if u >= 0x80_0000 {
                Ok((u as i64 - 0x100_0000) as i32)
            } else {
                Ok(u as i32)
            }
        } else if bit_width == 32 {
            let u: u32 = (data[pos] as u32) * 0x100_0000 + (data[pos + 1] as u32) * 0x1_0000
                + (data[pos + 2] as u32) * 0x100 + data[pos + 3] as u32;
            if u >= 0x8000_0000 {
                Ok((u as i64 - 0x1_0000_0000) as i32)
            } else {
                Ok(u as i32)
            }
        } else {
            Err(ChunkError::UnsupportedBitDepth(bit_width))
        }
    }
}

/// Whether samples of type `T` are decoded from data of `bit_width` bits.
pub open spec fn decodes_width<T: SampleType>(bit_width: i16) -> bool {
    1 <= bit_width <= 32 && T::reads_width(bit_width)
}

/// The decoded sample points of `data`: `num_frames * num_channels` of
/// them, interleaved by channel, each read at its index times the bytes per
/// sample.
pub open spec fn samples_of<T: SampleType>(
    data: Seq<u8>,
    num_channels: i16,
    num_frames: u32,
    bit_width: i16,
) -> Result<Seq<T>, ChunkError> {
    let count = num_frames as int * num_channels as int;
    let width = bytes_per_sample(bit_width);
    if !decodes_width::<T>(bit_width) {
        Err(ChunkError::UnsupportedBitDepth(bit_width))
    } else if num_channels < 0 {
        Err(ChunkError::InvalidChannelCount(num_channels))
    } else if count * width > data.len() {
        Err(ChunkError::TruncatedStream)
    } else {
        Ok(Seq::new(count as nat, |i: int| T::sample_at(data, i * width, bit_width)))
    }
}

/// Decodes every sample point of the sound data; fails rather than return
/// fewer than the frames and channels call for.
pub fn decode_samples<T: SampleType>(
    data: &[u8],
    num_channels: i16,
    num_frames: u32,
    bit_width: i16,
) -> (r: Result<Vec<T>, ChunkError>)
    ensures
        match samples_of::<T>(data@, num_channels, num_frames, bit_width) {
            Ok(s) => r matches Ok(v) && v@ == s,
            Err(e) => r == Err::<Vec<T>, ChunkError>(e),
        },
{
    if bit_width < 1 || bit_width > 32 {
        return Err(ChunkError::UnsupportedBitDepth(bit_width));
    }
    let width: usize = ((bit_width + 7) / 8) as usize;
    if !T::accepts(bit_width) {
        return Err(ChunkError::UnsupportedBitDepth(bit_width));
    }
    if num_channels < 0 {
        return Err(ChunkError::InvalidChannelCount(num_channels));
    }
    assert(num_frames as int * num_channels as int <= 0xFFFF_FFFF * 0x7FFF) by (nonlinear_arith)
        requires
            0 <= num_channels <= 0x7FFF,
            0 <= num_frames <= 0xFFFF_FFFF,
    ;
    let count: u64 = num_frames as u64 * num_channels as u64;
    assert(count * width <= 0xFFFF_FFFF * 0x7FFF * 4) by (nonlinear_arith)
        requires
            count <= 0xFFFF_FFFF * 0x7FFF,
            1 <= width <= 4,
    ;
    if count * (width as u64) > data.len() as u64 {
        return Err(ChunkError::TruncatedStream);
    }
    let ghost want = Seq::new(count as nat, |i: int| T::sample_at(data@, i * width, bit_width));
    assert(count <= count * width) by (nonlinear_arith)
        requires
            1 <= width,
    ;
    let n: usize = count as usize;
    let len: usize = data.len();
    let mut out: Vec<T> = Vec::with_capacity(n);
    let mut i: usize = 0;
    let mut pos: usize = 0;
    while i < n
        invariant
            n == count,
            count * width <= data@.len(),
            len == data@.len(),
            width == bytes_per_sample(bit_width),
            1 <= width <= 4,
            T::reads_width(bit_width),
            i <= n,
            pos == i * width,
            out@ == want.subrange(0, i as int),
            want == Seq::new(count as nat, |j: int| T::sample_at(data@, j * width, bit_width)),
        decreases n - i,
    {
        proof {
            lemma_mul_inequality(i + 1, n as int, width as int);
            assert((i + 1) * width == i * width + width) by (nonlinear_arith);
            assert(pos + width <= data@.len());
        }
        let next = pos + width;
        let v = T::parse(data, pos, bit_width)?;
        out.push(v);
        i = i + 1;
        pos = next;
        assert(out@ =~= want.subrange(0, i as int));
    }
    assert(out@ =~= want);
    Ok(out)
}

/// Sound data of exactly `num_frames * num_channels` sample points, at 8, 16
/// or 32 bits, decodes into that many points, each the big-endian two's
/// complement reading of its own slice of the data.
pub proof fn lemma_exact_payload_decodes(
    data: Seq<u8>,
    num_channels: i16,
    num_frames: u32,
    bit_width: i16,
)
    requires
        bit_width == 8 || bit_width == 16 || bit_width == 32,
        num_channels >= 0,
        data.len() == num_frames as int * num_channels as int * bytes_per_sample(bit_width),
    ensures
        bit_width == 8 ==> (samples_of::<i8>(data, num_channels, num_frames, bit_width) matches Ok(
            s,
        ) && s.len() == num_frames as int * num_channels as int && forall|i: int|
            0 <= i < s.len() ==> s[i] as int == signed8(#[trigger] data[i] as int)),
        bit_width == 16 ==> (samples_of::<i16>(data, num_channels, num_frames, bit_width) matches Ok(
            s,
        ) && s.len() == num_frames as int * num_channels as int && forall|i: int|
            0 <= i < s.len() ==> #[trigger] s[i] as int == signed16(be16(data, 2 * i))),
        bit_width == 32 ==> (samples_of::<i32>(data, num_channels, num_frames, bit_width) matches Ok(
            s,
        ) && s.len() == num_frames as int * num_channels as int && forall|i: int|
            0 <= i < s.len() ==> #[trigger] s[i] as int == signed32(be32(data, 4 * i))),
{
    let count = num_frames as int * num_channels as int;
    if bit_width == 8 {
        assert(bytes_per_sample(bit_width) == 1);
        assert forall|i: int| 0 <= i < count implies #[trigger] data[i] < 256 by {}
    }
    if bit_width == 16 {
        assert(bytes_per_sample(bit_width) == 2);
    }
    if bit_width == 32 {
        assert(bytes_per_sample(bit_width) == 4);
    }
}

/// 24-bit data widens to 32 bits by sign extension: the added top byte is
/// 0xFF where the top bit of the three bytes is set and 0x00 where it is not,
/// and the low 24 bits are the three bytes.
pub proof fn lemma_widened_sign(data: Seq<u8>, pos: int)
    requires
        0 <= pos,
        pos + 3 <= data.len(),
    ensures
        data[pos] >= 0x80 ==> (<i32 as SampleType>::sample_at(data, pos, 24) as int)
            == be24(data, pos) - 0x100_0000,
        data[pos] < 0x80 ==> (<i32 as SampleType>::sample_at(data, pos, 24) as int) == be24(
            data,
            pos,
        ),
{
}

/// Sample points of 8 bits, read one after another from sound data.
pub struct Samples8 {
    pub point: usize,
    pub sound_data: Vec<u8>,
}

impl Samples8 {
    pub fn new(sound_data: Vec<u8>) -> (s: Samples8)
        ensures
            s.point == 0,
            s.sound_data@ == sound_data@,
    {
        Samples8 { point: 0, sound_data }
    }

    /// The next sample point, where a whole one remains.
    pub fn next(&mut self) -> (r: Option<i8>)
        ensures
            final(self).sound_data@ == old(self).sound_data@,
            if (old(self).point + 1) * 1 <= old(self).sound_data@.len() {
                r == Some(<i8 as SampleType>::sample_at(
                    old(self).sound_data@,
                    old(self).point * 1,
                    8,
                )) && final(self).point == old(self).point + 1
            } else {
                r is None && final(self).point == old(self).point
            },
    {
        let len = self.sound_data.len();
        if self.point >= len / 1 {
            proof {
                assert((self.point + 1) * 1 > len) by (nonlinear_arith)
                    requires
                        self.point >= len / 1,
                ;
            }
            return None;
        }
        proof {
            assert((self.point + 1) * 1 <= len) by (nonlinear_arith)
                requires
                    self.point < len / 1,
            ;
        }
        let target = self.point * 1;
        match <i8 as SampleType>::parse(self.sound_data.as_slice(), target, 8) {
            Ok(v) => {
                self.point = self.point + 1;
                Some(v)
            },
            Err(_) => None,
        }
    }
}

/// Sample points of 16 bits, read one after another from sound data.
pub struct Samples16 {
    pub point: usize,
    pub sound_data: Vec<u8>,
}

impl Samples16 {
    pub fn new(sound_data: Vec<u8>) -> (s: Samples16)
        ensures
            s.point == 0,
            s.sound_data@ == sound_data@,
    {
        Samples16 { point: 0, sound_data }
    }

    /// The next sample point, where a whole one remains.
    pub fn next(&mut self) -> (r: Option<i16>)
        ensures
            final(self).sound_data@ == old(self).sound_data@,
            if (old(self).point + 1) * 2 <= old(self).sound_data@.len() {
                r == Some(<i16 as SampleType>::sample_at(
                    old(self).sound_data@,
                    old(self).point * 2,
                    16,
                )) && final(self).point == old(self).point + 1
            } else {
                r is None && final(self).point == old(self).point
            },
    {
        let len = self.sound_data.len();
        if self.point >= len / 2 {
            proof {
                assert((self.point + 1) * 2 > len) by (nonlinear_arith)
                    requires
                        self.point >= len / 2,
                ;
            }
            return None;
        }
        proof {
            assert((self.point + 1) * 2 <= len) by (nonlinear_arith)
                requires
                    self.point < len / 2,
            ;
        }
        let target = self.point * 2;
        match <i16 as SampleType>::parse(self.sound_data.as_slice(), target, 16) {
            Ok(v) => {
                self.point = self.point + 1;
                Some(v)
            },
            Err(_) => None,
        }
    }
}

/// Sample points of 32 bits, read one after another from sound data.
pub struct Samples32 {
    pub point: usize,
    pub sound_data: Vec<u8>,
}

impl Samples32 {
    pub fn new(sound_data: Vec<u8>) -> (s: Samples32)
        ensures
            s.point == 0,
            s.sound_data@ == sound_data@,
    {
        Samples32 { point: 0, sound_data }
    }

    /// The next sample point, where a whole one remains.
    pub fn next(&mut self) -> (r: Option<i32>)
        ensures
            final(self).sound_data@ == old(self).sound_data@,
            if (old(self).point + 1) * 4 <= old(self).sound_data@.len() {
                r == Some(<i32 as SampleType>::sample_at(
                    old(self).sound_data@,
                    old(self).point * 4,
                    32,
                )) && final(self).point == old(self).point + 1
            } else {
                r is None && final(self).point == old(self).point
            },
    {
        let len = self.sound_data.len();
        if self.point >= len / 4 {
            proof {
                assert((self.point + 1) * 4 > len) by (nonlinear_arith)
                    requires
                        self.point >= len / 4,
                ;
            }
            return None;
        }
        proof {
            assert((self.point + 1) * 4 <= len) by (nonlinear_arith)
                requires
                    self.point < len / 4,
            ;
        }
        let target = self.point * 4;
        match <i32 as SampleType>::parse(self.sound_data.as_slice(), target, 32) {
            Ok(v) => {
                self.point = self.point + 1;
                Some(v)
            },
            Err(_) => None,
        }
    }
}

} // verus!

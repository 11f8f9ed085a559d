use aiff::chunks::ChunkError;
use aiff::extended::{encode_extended, parse_extended_precision_bytes, Extended};
use aiff::reader::{
    read_bytes, read_chunk_id, read_i16_be, read_i32_be, read_i8_be, read_pstring, read_u16_be,
    read_u32_be, read_u8, ChunkReader,
};
use aiff::samples::{decode_samples, SampleType, Samples16, Samples32, Samples8};

fn to_f64(e: &Extended) -> f64 {
    let v = (e.significand as f64) * 2f64.powi(e.exponent as i32 - 16383 - 63);
    if e.negative {
        -v
    } else {
        v
    }
}

#[test]
fn common_rates_round_trip() {
    let rates: [(f64, [u8; 10]); 4] = [
        (44100.0, [0x40, 0x0E, 0xAC, 0x44, 0, 0, 0, 0, 0, 0]),
        (48000.0, [0x40, 0x0E, 0xBB, 0x80, 0, 0, 0, 0, 0, 0]),
        (22050.0, [0x40, 0x0D, 0xAC, 0x44, 0, 0, 0, 0, 0, 0]),
        (96000.0, [0x40, 0x0F, 0xBB, 0x80, 0, 0, 0, 0, 0, 0]),
    ];
    for (rate, bytes) in rates {
        let e = parse_extended_precision_bytes(bytes).unwrap();
        assert!((to_f64(&e) - rate).abs() < 1e-9);
        assert_eq!(e.whole_value(), Some(rate as u64));
        assert_eq!(encode_extended(e), bytes);
    }
}

#[test]
fn extended_fields_are_decoded() {
    let e = parse_extended_precision_bytes([0xC0, 0x0E, 0xAC, 0x44, 0, 0, 0, 0, 0, 1]).unwrap();
    assert!(e.negative);
    assert_eq!(e.exponent, 0x400E);
    assert_eq!(e.significand, 0xAC44_0000_0000_0001);
    assert_eq!(e.whole_value(), None);
    let half = parse_extended_precision_bytes([0x3F, 0xFE, 0x80, 0, 0, 0, 0, 0, 0, 0]).unwrap();
    assert!((to_f64(&half) - 0.5).abs() < 1e-12);
    assert_eq!(half.whole_value(), None);
    let pow = parse_extended_precision_bytes([0x40, 0x0E, 0x80, 0, 0, 0, 0, 0, 0, 0]).unwrap();
    assert_eq!(pow.whole_value(), Some(32768));
}

#[test]
fn unsupported_extended_patterns_are_refused() {
    let zero = [0u8; 10];
    assert_eq!(parse_extended_precision_bytes(zero), Err(ChunkError::MalformedNumeric));
    let inf = [0x7F, 0xFF, 0x80, 0, 0, 0, 0, 0, 0, 0];
    assert_eq!(parse_extended_precision_bytes(inf), Err(ChunkError::MalformedNumeric));
    let no_integer_bit = [0x40, 0x0E, 0x2C, 0x44, 0, 0, 0, 0, 0, 0];
    assert_eq!(parse_extended_precision_bytes(no_integer_bit), Err(ChunkError::MalformedNumeric));
}

#[test]
fn exact_payloads_decode_at_each_width() {
    let data: Vec<u8> = (0u8..24).map(|i| i.wrapping_mul(37)).collect();
    let s8 = decode_samples::<i8>(&data, 3, 8, 8).unwrap();
    assert_eq!(s8.len(), 24);
    for (i, v) in s8.iter().enumerate() {
        assert_eq!(*v, data[i] as i8);
    }
    let s16 = decode_samples::<i16>(&data, 3, 4, 16).unwrap();
    assert_eq!(s16.len(), 12);
    for (i, v) in s16.iter().enumerate() {
        assert_eq!(*v, i16::from_be_bytes([data[2 * i], data[2 * i + 1]]));
    }
    let s32 = decode_samples::<i32>(&data, 2, 3, 32).unwrap();
    assert_eq!(s32.len(), 6);
    for (i, v) in s32.iter().enumerate() {
        let b = &data[4 * i..4 * i + 4];
        assert_eq!(*v, i32::from_be_bytes([b[0], b[1], b[2], b[3]]));
    }
}

#[test]
fn widened_samples_keep_their_sign() {
    let neg = i32::parse(&[0xFF, 0x00, 0x00], 0, 24).unwrap();
    assert_eq!(neg.to_be_bytes()[0], 0xFF);
    assert_eq!(neg, -65536);
    let pos = i32::parse(&[0x7F, 0xFF, 0xFF], 0, 24).unwrap();
    assert_eq!(pos.to_be_bytes()[0], 0x00);
    assert_eq!(pos, 0x7F_FFFF);
    let s24 = decode_samples::<i32>(&[0x80, 0, 0, 0, 0, 1], 1, 2, 24).unwrap();
    assert_eq!(s24, vec![-0x80_0000, 1]);
}

#[test]
fn sample_widths_must_match() {
    assert_eq!(i8::parse(&[0, 0], 0, 16), Err(ChunkError::UnsupportedBitDepth(16)));
    assert_eq!(i16::parse(&[0, 0], 0, 8), Err(ChunkError::UnsupportedBitDepth(8)));
    assert_eq!(i32::parse(&[0, 0], 0, 16), Err(ChunkError::UnsupportedBitDepth(16)));
    assert_eq!(decode_samples::<i16>(&[0, 0], 1, 1, 12), Err(ChunkError::UnsupportedBitDepth(12)));
    assert_eq!(decode_samples::<i16>(&[0, 0], -1, 1, 16), Err(ChunkError::InvalidChannelCount(-1)));
    assert_eq!(decode_samples::<i16>(&[0, 0, 0], 1, 2, 16), Err(ChunkError::TruncatedStream));
    assert_eq!(decode_samples::<i16>(&[], 2, 0, 16), Ok(vec![]));
}

#[test]
fn primitive_reads_are_big_endian() {
    let mut r = ChunkReader::new(vec![
        0x41, 0x42, 0x43, 0x44, 0xFF, 0xFF, 0xFE, 0x80, 0x00, 0x00, 0x00, 0x01, 0x02, 0x03,
    ]);
    assert_eq!(r.available(), 14);
    assert_eq!(read_chunk_id(&mut r), Ok(*b"ABCD"));
    assert_eq!(read_u8(&mut r), Ok(0xFF));
    assert_eq!(read_i8_be(&mut r), Ok(-1));
    assert_eq!(read_i16_be(&mut r), Ok(-384));
    assert_eq!(read_u32_be(&mut r), Ok(0x0000_0001));
    assert_eq!(read_u16_be(&mut r), Ok(0x0203));
    assert_eq!(r.available(), 0);
    assert_eq!(read_u8(&mut r), Err(ChunkError::TruncatedStream));
    let mut r = ChunkReader::new(vec![0x80, 0, 0, 0, 1, 2]);
    assert_eq!(read_i32_be(&mut r), Ok(i32::MIN));
    assert_eq!(read_bytes(&mut r, 3), Err(ChunkError::TruncatedStream));
    assert_eq!(r.pos, 4);
    assert_eq!(read_bytes(&mut r, 2), Ok(vec![1, 2]));
}

#[test]
fn pascal_strings_skip_pad_on_odd_length() {
    let mut r = ChunkReader::new(vec![3, b'a', b'b', b'c', 0, 2, b'h', b'i', 9]);
    assert_eq!(read_pstring(&mut r), Ok("abc".to_string()));
    assert_eq!(r.pos, 5);
    assert_eq!(read_pstring(&mut r), Ok("hi".to_string()));
    assert_eq!(r.pos, 8);
    let mut r = ChunkReader::new(vec![1, b'a']);
    assert_eq!(read_pstring(&mut r), Err(ChunkError::TruncatedStream));
    let mut r = ChunkReader::new(vec![2, 0xC3, 0x28]);
    assert_eq!(read_pstring(&mut r), Err(ChunkError::InvalidEncoding));
}

#[test]
fn sample_cursors_step_by_their_width() {
    let data = vec![0x80, 0x01, 0xFF, 0xFE, 0x00];
    let mut s8 = Samples8::new(data.clone());
    let all8: Vec<i8> = std::iter::from_fn(|| s8.next()).collect();
    assert_eq!(all8, vec![-128, 1, -1, -2, 0]);
    let mut s16 = Samples16::new(data.clone());
    assert_eq!(s16.next(), Some(-32767));
    assert_eq!(s16.next(), Some(-2));
    assert_eq!(s16.next(), None);
    assert_eq!(s16.point, 2);
    let mut s32 = Samples32::new(data);
    assert_eq!(s32.next(), Some(i32::from_be_bytes([0x80, 0x01, 0xFF, 0xFE])));
    assert_eq!(s32.next(), None);
    assert_eq!(s32.point, 1);
}

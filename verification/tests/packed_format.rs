use gs_rust::packed_format::{decode, encode, is_packed_format, DecodeError, PackedSplat, HEADER_SIZE, BYTES_PER_SPLAT};

fn sample(k: u8) -> PackedSplat {
    PackedSplat {
        x: 1.5f32.to_bits(),
        y: (-2.25f32).to_bits(),
        z: 0.125f32.to_bits() + k as u32,
        scale_0: 0x211e,
        scale_1: 0x251e,
        scale_2: 0x27ae,
        rot_0: 218,
        rot_1: 218,
        rot_2: 128,
        rot_3: 128 + k,
        r: 64,
        g: 128,
        b: 191,
        opacity: 230,
    }
}

#[test]
fn roundtrip() {
    let splat = PackedSplat {
        x: 1.5f32.to_bits(),
        y: (-2.25f32).to_bits(),
        z: 0.125f32.to_bits(),
        scale_0: half::f16::from_f32(0.01).to_bits(),
        scale_1: half::f16::from_f32(0.02).to_bits(),
        scale_2: half::f16::from_f32(0.03).to_bits(),
        rot_0: ((0.5f32.sqrt() * 127.0) + 128.0).round() as u8,
        rot_1: ((0.5f32.sqrt() * 127.0) + 128.0).round() as u8,
        rot_2: 128,
        rot_3: 128,
        r: (0.25f32 * 255.0).round() as u8,
        g: (0.5f32 * 255.0).round() as u8,
        b: (0.75f32 * 255.0).round() as u8,
        opacity: (0.9f32 * 255.0).round() as u8,
    };
    let bytes = encode(&[splat]);
    let decoded = decode(&bytes).unwrap();
    assert_eq!(decoded.len(), 1);
    let d = &decoded[0];
    assert_eq!(f32::from_bits(d.x), 1.5);
    assert_eq!(f32::from_bits(d.y), -2.25);
    assert_eq!(f32::from_bits(d.z), 0.125);
    assert!((half::f16::from_bits(d.scale_0).to_f32() - 0.01).abs() < 1e-4);
    assert!((d.r as f32 / 255.0 - 0.25).abs() < 0.005);
    assert!((d.opacity as f32 / 255.0 - 0.9).abs() < 0.005);
    assert!(((d.rot_0 as f32 - 128.0) / 127.0 - 0.5f32.sqrt()).abs() < 0.01);
}

#[test]
fn magic_is_recognised() {
    assert!(is_packed_format(b"GSZ1\0\0\0\0"));
    assert!(is_packed_format(b"GSZ1\x01\0\0\0extra"));
    assert!(!is_packed_format(b"GSZ1\0\0\0"));
    assert!(!is_packed_format(b"GSZ2\0\0\0\0"));
    assert!(!is_packed_format(b""));
}

#[test]
fn encoding_layout_is_structure_of_arrays() {
    let a = sample(0);
    let b = sample(1);
    let bytes = encode(&[a, b]);
    assert_eq!(bytes.len(), HEADER_SIZE + 2 * BYTES_PER_SPLAT);
    assert_eq!(&bytes[0..4], b"GSZ1");
    assert_eq!(&bytes[4..8], &[2, 0, 0, 0]);
    // positions of both splats first
    assert_eq!(&bytes[8..12], &1.5f32.to_le_bytes());
    assert_eq!(&bytes[20..24], &1.5f32.to_le_bytes());
    // then scales
    assert_eq!(&bytes[32..34], &0x211eu16.to_le_bytes());
    // then rotations, then colors
    assert_eq!(&bytes[44..48], &[218, 218, 128, 128]);
    assert_eq!(&bytes[48..52], &[218, 218, 128, 129]);
    assert_eq!(&bytes[52..56], &[64, 128, 191, 230]);
}

#[test]
fn decode_of_encode_gives_the_splats_back() {
    let splats: Vec<PackedSplat> = (0..5).map(sample).collect();
    let bytes = encode(&splats);
    assert_eq!(decode(&bytes).unwrap(), splats);
    assert_eq!(decode(&encode(&[])).unwrap(), Vec::<PackedSplat>::new());
}

#[test]
fn encode_of_decode_gives_the_bytes_back() {
    let mut bytes = encode(&[sample(3), sample(7)]);
    let expected = bytes.clone();
    bytes.extend_from_slice(&[9, 9, 9]);
    let splats = decode(&bytes).unwrap();
    assert_eq!(encode(&splats), expected);
}

#[test]
fn decode_rejects_other_data() {
    assert_eq!(decode(b"GSZ"), Err(DecodeError::NotPacked));
    assert_eq!(decode(b"XSZ1\0\0\0\0"), Err(DecodeError::NotPacked));
}

#[test]
fn decode_reports_truncation() {
    let bytes = encode(&[sample(0), sample(1)]);
    let short = &bytes[..bytes.len() - 1];
    assert_eq!(
        decode(short),
        Err(DecodeError::Truncated { expected: 60, got: 59 })
    );
    assert_eq!(
        decode(b"GSZ1\x01\0\0\0"),
        Err(DecodeError::Truncated { expected: 34, got: 8 })
    );
}

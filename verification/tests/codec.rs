use xorfilter::codec::{push_u32_be, push_u64_be, read_u32_be, read_u64_be};
use xorfilter::{BuildHasherDefault, CborXor8, DecodeError, Xor8};

fn sample() -> Xor8 {
    let mut filter = Xor8::<BuildHasherDefault>::new();
    assert!(filter.build_keys(&[42]));
    filter
}

fn sample_bytes() -> Vec<u8> {
    let mut bytes = vec![b'^', b'T', b'L', 1];
    bytes.extend_from_slice(&0x910a_2dec_8902_5cc1_u64.to_be_bytes());
    bytes.extend_from_slice(&11_u32.to_be_bytes());
    bytes.extend_from_slice(&33_u32.to_be_bytes());
    let mut finger_prints = vec![0u8; 33];
    finger_prints[4] = 175;
    bytes.extend_from_slice(&finger_prints);
    bytes
}

#[test]
fn to_bytes_writes_the_layout() {
    let bytes = sample().to_bytes();
    assert_eq!(bytes.len(), 53);
    assert_eq!(&bytes[..4], &[0x5e, 0x54, 0x4c, 0x01]);
    assert_eq!(&bytes[4..12], &[0x91, 0x0a, 0x2d, 0xec, 0x89, 0x02, 0x5c, 0xc1]);
    assert_eq!(&bytes[12..16], &[0, 0, 0, 11]);
    assert_eq!(&bytes[16..20], &[0, 0, 0, 33]);
    assert_eq!(bytes, sample_bytes());
}

#[test]
fn to_bytes_of_an_unbuilt_filter_is_the_header() {
    let bytes = Xor8::<BuildHasherDefault>::new().to_bytes();
    let mut expected = vec![b'^', b'T', b'L', 1];
    expected.extend_from_slice(&[0u8; 16]);
    assert_eq!(bytes, expected);
}

#[test]
fn from_bytes_reads_the_layout() {
    let filter = Xor8::<BuildHasherDefault>::from_bytes(sample_bytes()).unwrap();
    assert_eq!(filter.seed(), 0x910a_2dec_8902_5cc1);
    assert_eq!(filter.block_length(), 11);
    assert_eq!(filter.finger_prints(), sample().finger_prints());
    assert!(filter.is_built());
    assert!(filter.contains_key(42));
    assert!(!filter.contains_key(43));
}

#[test]
fn round_trip_reproduces_the_filter() {
    let keys: Vec<u64> = (0..5_000u64).map(|k| k.wrapping_mul(0x9e37_79b9_7f4a_7c15)).collect();
    let mut filter = Xor8::<BuildHasherDefault>::new();
    assert!(filter.build_keys(&keys));
    let back = Xor8::<BuildHasherDefault>::from_bytes(filter.to_bytes()).unwrap();
    assert_eq!(back.seed(), filter.seed());
    assert_eq!(back.block_length(), filter.block_length());
    assert_eq!(back.finger_prints(), filter.finger_prints());
    assert!(back == filter);
    for probe in 0..20_000u64 {
        let probe = probe.wrapping_mul(0x9e37_79b9_7f4a_7c15);
        assert_eq!(back.contains_key(probe), filter.contains_key(probe));
    }
    assert_eq!(back.to_bytes(), filter.to_bytes());
}

#[test]
fn short_buffer_is_refused() {
    let r = Xor8::<BuildHasherDefault>::from_bytes(vec![0u8; 10]);
    assert!(matches!(r, Err(DecodeError::TooShort)));
    let r = Xor8::<BuildHasherDefault>::from_bytes(Vec::new());
    assert!(matches!(r, Err(DecodeError::TooShort)));
    let r = Xor8::<BuildHasherDefault>::from_bytes(sample_bytes()[..19].to_vec());
    assert!(matches!(r, Err(DecodeError::TooShort)));
}

#[test]
fn wrong_signature_is_refused() {
    let mut bytes = sample_bytes();
    bytes[..4].copy_from_slice(b"XXXX");
    let r = Xor8::<BuildHasherDefault>::from_bytes(bytes);
    assert!(matches!(r, Err(DecodeError::BadSignature)));
    for at in 0..4 {
        let mut bytes = sample_bytes();
        bytes[at] ^= 0x80;
        let r = Xor8::<BuildHasherDefault>::from_bytes(bytes);
        assert!(matches!(r, Err(DecodeError::BadSignature)));
    }
}

#[test]
fn missing_fingerprints_are_refused() {
    let mut bytes = sample_bytes();
    let len = bytes.len() as u32;
    bytes[16..20].copy_from_slice(&len.to_be_bytes());
    let r = Xor8::<BuildHasherDefault>::from_bytes(bytes);
    assert!(matches!(r, Err(DecodeError::Truncated)));
    let mut bytes = sample_bytes();
    bytes.pop();
    let r = Xor8::<BuildHasherDefault>::from_bytes(bytes);
    assert!(matches!(r, Err(DecodeError::Truncated)));
}

#[test]
fn header_alone_decodes_to_a_filter_without_fingerprints() {
    let bytes = sample_bytes()[..16].iter().copied().chain([0u8; 4]).collect::<Vec<u8>>();
    let filter = Xor8::<BuildHasherDefault>::from_bytes(bytes).unwrap();
    assert_eq!(filter.block_length(), 11);
    assert!(filter.finger_prints().is_empty());
    assert!(!filter.is_built());
}

#[test]
fn bytes_after_the_announced_fingerprints_are_left_out() {
    let mut bytes = sample_bytes();
    bytes.extend_from_slice(&[9, 9, 9]);
    let filter = Xor8::<BuildHasherDefault>::from_bytes(bytes).unwrap();
    assert_eq!(filter.finger_prints().len(), 33);
    assert!(filter == sample());
}

#[test]
fn decode_errors_have_their_messages() {
    assert_eq!(DecodeError::TooShort.message(), "invalid byte slice");
    assert_eq!(DecodeError::Truncated.message(), "invalid byte slice");
    assert_eq!(DecodeError::BadSignature.message(), "File signature incorrect");
}

#[test]
fn big_endian_numbers_round_trip() {
    let mut buf = vec![0xaa];
    push_u64_be(&mut buf, 0x0102_0304_0506_0708);
    push_u32_be(&mut buf, 0x0a0b_0c0d);
    assert_eq!(buf, vec![0xaa, 1, 2, 3, 4, 5, 6, 7, 8, 0x0a, 0x0b, 0x0c, 0x0d]);
    assert_eq!(read_u64_be(&buf, 1), 0x0102_0304_0506_0708);
    assert_eq!(read_u32_be(&buf, 9), 0x0a0b_0c0d);
    assert_eq!(read_u32_be(&buf, 0), 0xaa01_0203);
}

#[test]
fn filter_and_its_four_values_convert_both_ways() {
    let parts = CborXor8::from(sample());
    assert!(parts.hash_builder.is_empty());
    assert_eq!(parts.seed, 0x910a_2dec_8902_5cc1);
    assert_eq!(parts.block_length, 11);
    assert_eq!(&parts.finger_prints, sample().finger_prints());
    let back: Xor8 = parts.into();
    assert!(back == sample());
    assert!(back.contains_key(42));
}

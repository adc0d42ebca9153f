use binwalk_ng::structures::program_store::{
    crc16_genibus, parse_compression, parse_program_store_header, Compression, Payload, HEADER_SIZE,
};

const NAME: &[u8] = b"image3.bin";

fn put_be16(data: &mut [u8], at: usize, v: u16) {
    data[at] = (v >> 8) as u8;
    data[at + 1] = v as u8;
}

fn put_be32(data: &mut [u8], at: usize, v: u32) {
    data[at] = (v >> 24) as u8;
    data[at + 1] = (v >> 16) as u8;
    data[at + 2] = (v >> 8) as u8;
    data[at + 3] = v as u8;
}

// Recompute and patch the HCS field after mutating bytes in the HCS-covered region (0..84).
fn fix_hcs(data: &mut [u8]) {
    let hcs = crc16_genibus(&data[..84]);
    data[84] = (hcs >> 8) as u8;
    data[85] = hcs as u8;
}

/// A header with the given control bytes and lengths, followed by `len` payload bytes.
fn image(split: u8, len: u32, len1: u32, len2: u32) -> Vec<u8> {
    let mut data = vec![0u8; HEADER_SIZE + len as usize];
    data[0] = 0x33;
    data[1] = 0x84;
    data[2] = split;
    data[3] = 5;
    put_be16(&mut data, 4, 3);
    put_be16(&mut data, 6, 1);
    put_be32(&mut data, 8, 1_600_000_000);
    put_be32(&mut data, 12, len);
    put_be32(&mut data, 16, 0x8000_4000);
    data[20..20 + NAME.len()].copy_from_slice(NAME);
    put_be32(&mut data, 76, len1);
    put_be32(&mut data, 80, len2);
    put_be32(&mut data, 88, 0x1234_5678);
    for (i, b) in data[HEADER_SIZE..].iter_mut().enumerate() {
        *b = (i as u8).wrapping_mul(7).wrapping_add(1);
    }
    fix_hcs(&mut data);
    data
}

/// A single image with a 26-byte payload; len1 is 0.
fn valid() -> Vec<u8> {
    image(0, 26, 0, 0)
}

/// A split image: 40 bytes of payload, images of 24 and 16 bytes.
fn valid_split() -> Vec<u8> {
    image(1, 40, 24, 16)
}

fn mutate(fixture: &[u8], offset: usize, byte: u8) -> Vec<u8> {
    let mut v = fixture.to_vec();
    v[offset] = byte;
    v
}

#[test]
fn rejects_too_short() {
    assert!(parse_program_store_header(&[]).is_err());
}

#[test]
fn rejects_unknown_compression() {
    assert!(parse_program_store_header(&mutate(&valid(), 3, 6)).is_err());
}

#[test]
fn rejects_invalid_ctrl_split() {
    assert!(parse_program_store_header(&mutate(&valid(), 2, 2)).is_err());
}

#[test]
fn rejects_missing_name_nul_terminator() {
    // name[47] sits at header offset 20+47=67
    assert!(parse_program_store_header(&mutate(&valid(), 67, b'X')).is_err());
}

#[test]
fn rejects_nonzero_pad() {
    assert!(parse_program_store_header(&mutate(&valid(), 68, 1)).is_err());
}

#[test]
fn rejects_nonzero_reserved() {
    // reserved is at offset 86, past the HCS window, so no fix_hcs needed
    assert!(parse_program_store_header(&mutate(&valid(), 86, 1)).is_err());
}

#[test]
fn rejects_zero_payload_len() {
    let mut data = valid();
    data[12] = 0;
    data[13] = 0;
    data[14] = 0;
    data[15] = 0;
    assert!(parse_program_store_header(&data).is_err());
}

#[test]
fn rejects_truncated_payload() {
    // Header only, no payload bytes; payload_len check fires before HCS
    assert!(parse_program_store_header(&valid()[..HEADER_SIZE]).is_err());
}

#[test]
fn rejects_misaligned_load_address() {
    // addr is at offsets 16-19 (BE); set LSB to 1
    assert!(parse_program_store_header(&mutate(&valid(), 19, 1)).is_err());
}

#[test]
fn rejects_low_timestamp() {
    // timestamp=1 is nonzero and below MIN_TIMESTAMP (1998-09-01)
    let mut data = valid();
    data[8] = 0;
    data[9] = 0;
    data[10] = 0;
    data[11] = 1;
    assert!(parse_program_store_header(&data).is_err());
}

#[test]
fn accepts_zero_timestamp() {
    // timestamp=0 is explicitly permitted; need fix_hcs since timestamp is in the HCS window
    let mut data = valid();
    data[8] = 0;
    data[9] = 0;
    data[10] = 0;
    data[11] = 0;
    fix_hcs(&mut data);
    assert!(parse_program_store_header(&data).is_ok());
}

#[test]
fn rejects_single_with_nonzero_len2() {
    // len2 is at offsets 80-83 (BE); set LSB to 1
    assert!(parse_program_store_header(&mutate(&valid(), 83, 1)).is_err());
}

#[test]
fn rejects_single_with_mismatched_len1() {
    // fixture has len=26, len1=0; set len1 LSB to 5 (nonzero and != 26)
    assert!(parse_program_store_header(&mutate(&valid(), 79, 5)).is_err());
}

#[test]
fn rejects_split_with_excessive_lens() {
    // Set len1 to u32::MAX so len1+len2 overflows payload_len
    let mut data = valid_split();
    data[76] = 0xFF;
    data[77] = 0xFF;
    data[78] = 0xFF;
    data[79] = 0xFF;
    assert!(parse_program_store_header(&data).is_err());
}

#[test]
fn rejects_hcs_mismatch() {
    // Flip a bit in sig (not checked before HCS); HCS will not match
    let data = valid();
    assert!(parse_program_store_header(&mutate(&data, 0, data[0] ^ 1)).is_err());
}

#[test]
fn rejects_empty_filename() {
    // Zero the first name byte; fix HCS so the rejection is from the filename check, not HCS
    let mut data = valid();
    data[20] = 0;
    fix_hcs(&mut data);
    assert!(parse_program_store_header(&data).is_err());
}

#[test]
fn parses_every_field_of_a_single_image() {
    let data = valid();
    let h = parse_program_store_header(&data).unwrap();
    assert_eq!(h.sig, [0x33, 0x84]);
    assert_eq!(h.compression, Compression::Lzma);
    assert_eq!(h.payload, Payload::Single { len: 26 });
    assert_eq!(h.major_rev, 3);
    assert_eq!(h.minor_rev, 1);
    assert_eq!(h.timestamp, 1_600_000_000);
    assert_eq!(h.total_len, HEADER_SIZE + 26);
    assert_eq!(h.load_address, 0x8000_4000);
    assert_eq!(h.filename, "image3.bin");
}

#[test]
fn parses_a_split_image() {
    let h = parse_program_store_header(&valid_split()).unwrap();
    assert_eq!(h.payload, Payload::Split { first_len: 24, second_len: 16 });
    assert_eq!(h.total_len, HEADER_SIZE + 40);
}

#[test]
fn accepts_len1_equal_to_len() {
    let data = image(0, 26, 26, 0);
    assert_eq!(parse_program_store_header(&data).unwrap().payload, Payload::Single { len: 26 });
}

#[test]
fn accepts_split_lengths_that_fill_the_payload_exactly() {
    assert!(parse_program_store_header(&image(1, 40, 30, 10)).is_ok());
    assert!(parse_program_store_header(&image(1, 40, 30, 11)).is_err());
}

#[test]
fn accepts_extra_bytes_after_the_payload() {
    let mut data = valid();
    data.extend_from_slice(&[0xAA; 10]);
    assert_eq!(parse_program_store_header(&data).unwrap().total_len, HEADER_SIZE + 26);
}

#[test]
fn accepts_minimum_timestamp_and_rejects_the_second_before() {
    let mut data = valid();
    put_be32(&mut data, 8, 904_608_000);
    fix_hcs(&mut data);
    assert!(parse_program_store_header(&data).is_ok());
    put_be32(&mut data, 8, 904_607_999);
    fix_hcs(&mut data);
    assert!(parse_program_store_header(&data).is_err());
}

#[test]
fn filename_stops_at_the_first_nul() {
    let mut data = valid();
    data[23] = 0;
    fix_hcs(&mut data);
    assert_eq!(parse_program_store_header(&data).unwrap().filename, "ima");
}

#[test]
fn crc16_genibus_check_value() {
    assert_eq!(crc16_genibus(b"123456789"), 0xD64E);
    assert_eq!(crc16_genibus(&[]), 0x0000);
}

#[test]
fn compression_codes() {
    assert_eq!(parse_compression(0), Some(Compression::Uncompressed));
    assert_eq!(parse_compression(1), Some(Compression::Lz));
    assert_eq!(parse_compression(2), Some(Compression::Lzo));
    assert_eq!(parse_compression(3), Some(Compression::Reserved));
    assert_eq!(parse_compression(4), Some(Compression::Nrv2b));
    assert_eq!(parse_compression(5), Some(Compression::Lzma));
    assert_eq!(parse_compression(6), None);
    assert_eq!(parse_compression(0xFF), None);
}

#[test]
fn compression_names() {
    assert_eq!(Compression::Uncompressed.to_string(), "none");
    assert_eq!(Compression::Lz.to_string(), "LZ");
    assert_eq!(Compression::Lzo.to_string(), "LZO");
    assert_eq!(Compression::Reserved.to_string(), "reserved");
    assert_eq!(Compression::Nrv2b.to_string(), "NRV2B");
    assert_eq!(Compression::Lzma.to_string(), "LZMA");
}

#[test]
fn every_compression_code_is_accepted_in_a_header() {
    for code in 0u8..=5 {
        let mut data = valid();
        data[3] = code;
        fix_hcs(&mut data);
        assert!(parse_program_store_header(&data).is_ok());
    }
}

#[test]
fn crc16_genibus_residue() {
    for data in [&b""[..], b"123456789", &valid()[..84]] {
        let crc = crc16_genibus(data);
        let mut with_crc = data.to_vec();
        with_crc.extend_from_slice(&crc.to_be_bytes());
        assert_eq!(crc16_genibus(&with_crc), 0xE2F0);
        let mut with_complement = data.to_vec();
        with_complement.extend_from_slice(&(crc ^ 0xFFFF).to_be_bytes());
        assert_eq!(crc16_genibus(&with_complement), 0xFFFF);
    }
}

#[test]
fn crc16_genibus_is_affine_for_one_length() {
    let a = b"program store".to_vec();
    let b = b"header window".to_vec();
    let c = b"checksum test".to_vec();
    let x: Vec<u8> = a.iter().zip(&b).zip(&c).map(|((p, q), r)| p ^ q ^ r).collect();
    assert_eq!(crc16_genibus(&a) ^ crc16_genibus(&b) ^ crc16_genibus(&c), crc16_genibus(&x));
}

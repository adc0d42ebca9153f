use binwalk_ng::signatures::common::{SignatureResult, CONFIDENCE_HIGH};
use binwalk_ng::signatures::jzlzma::{jzlzma_magic, jzlzma_parser};
use binwalk_ng::signatures::program_store::{program_store_magic, program_store_parser, MAGIC_OFFSET};
use binwalk_ng::structures::jzlzma::{parse_jzlzma_header, JZ_MAGIC};
use binwalk_ng::structures::program_store::{crc16_genibus, HEADER_SIZE};

fn store_image(split: u8, len: u32, len1: u32, len2: u32) -> Vec<u8> {
    let mut data = vec![0u8; HEADER_SIZE + len as usize];
    data[0] = 0x33;
    data[1] = 0x84;
    data[2] = split;
    data[3] = 5;
    data[4..6].copy_from_slice(&3u16.to_be_bytes());
    data[6..8].copy_from_slice(&1u16.to_be_bytes());
    data[8..12].copy_from_slice(&1_600_000_000u32.to_be_bytes());
    data[12..16].copy_from_slice(&len.to_be_bytes());
    data[16..20].copy_from_slice(&0x8000_4000u32.to_be_bytes());
    data[20..30].copy_from_slice(b"image3.bin");
    data[76..80].copy_from_slice(&len1.to_be_bytes());
    data[80..84].copy_from_slice(&len2.to_be_bytes());
    let hcs = crc16_genibus(&data[..84]);
    data[84..86].copy_from_slice(&hcs.to_be_bytes());
    data
}

fn jz_wrapper(payload: u32, magic: u32, dict: u32, uncompressed: u32) -> Vec<u8> {
    let mut data = Vec::new();
    data.extend_from_slice(&payload.to_le_bytes());
    data.extend_from_slice(&magic.to_le_bytes());
    data.extend_from_slice(&dict.to_le_bytes());
    data.extend_from_slice(&uncompressed.to_le_bytes());
    data.extend_from_slice(&[0x5Du8; 8]);
    data
}

#[test]
fn program_store_magic_is_nine_zero_bytes() {
    assert_eq!(program_store_magic(), vec![vec![0u8; 9]]);
}

#[test]
fn accepted_program_store_header_holds_the_magic() {
    let data = store_image(0, 26, 0, 0);
    let magic = &program_store_magic()[0];
    assert_eq!(&data[MAGIC_OFFSET..MAGIC_OFFSET + magic.len()], magic.as_slice());
}

#[test]
fn program_store_parser_describes_a_single_image() {
    let mut file = vec![0xEEu8; 10];
    file.extend_from_slice(&store_image(0, 26, 0, 0));
    let r = program_store_parser(&file, 10 + MAGIC_OFFSET).unwrap();
    assert_eq!(r.offset, 10);
    assert_eq!(r.size, HEADER_SIZE + 26);
    assert_eq!(r.confidence, CONFIDENCE_HIGH);
    assert_eq!(
        r.description,
        "Broadcom ProgramStore firmware image, signature: 0x3384, compression: LZMA, load address: 0x80004000, \
         revision: 3.1, build time: 2020-09-13 12:26:40, filename: \"image3.bin\""
    );
    assert_eq!(r.id, "");
    assert_eq!(r.name, "");
    assert!(!r.always_display);
    assert!(!r.extraction_declined);
}

#[test]
fn program_store_parser_notes_a_split_image() {
    let file = store_image(1, 40, 24, 16);
    let r = program_store_parser(&file, MAGIC_OFFSET).unwrap();
    assert_eq!(r.offset, 0);
    assert_eq!(r.size, HEADER_SIZE + 40);
    assert!(r.description.ends_with("filename: \"image3.bin\", split image"));
}

#[test]
fn program_store_parser_pads_hex_fields() {
    let mut file = store_image(0, 26, 0, 0);
    file[0] = 0x00;
    file[1] = 0x0A;
    file[16..20].copy_from_slice(&0x0000_0100u32.to_be_bytes());
    let hcs = crc16_genibus(&file[..84]);
    file[84..86].copy_from_slice(&hcs.to_be_bytes());
    let r = program_store_parser(&file, MAGIC_OFFSET).unwrap();
    assert!(r.description.contains("signature: 0x000A, "));
    assert!(r.description.contains("load address: 0x00000100, "));
}

#[test]
fn program_store_parser_rejects_magic_too_early() {
    let file = store_image(0, 26, 0, 0);
    assert!(program_store_parser(&file, MAGIC_OFFSET - 1).is_err());
    assert!(program_store_parser(&file, 0).is_err());
}

#[test]
fn program_store_parser_rejects_a_bad_header() {
    let mut file = store_image(0, 26, 0, 0);
    file[2] = 7;
    assert!(program_store_parser(&file, MAGIC_OFFSET).is_err());
}

#[test]
fn jzlzma_magic_bytes() {
    assert_eq!(jzlzma_magic(), vec![vec![0x56u8, 0x19, 0x05, 0x27]]);
    assert_eq!(jzlzma_magic()[0], JZ_MAGIC.to_le_bytes().to_vec());
}

#[test]
fn jzlzma_header_fields() {
    let h = parse_jzlzma_header(&jz_wrapper(0x100, JZ_MAGIC, 0x10000, 0x20000)).unwrap();
    assert_eq!(h.payload_size, 0x100);
    assert_eq!(h.dictionary_size, 0x10000);
    assert_eq!(h.decompressed_size, 0x20000);
}

#[test]
fn jzlzma_header_rejections() {
    assert!(parse_jzlzma_header(&jz_wrapper(0x100, JZ_MAGIC, 0x10000, 0x20000)[..15]).is_err());
    assert!(parse_jzlzma_header(&jz_wrapper(0x100, JZ_MAGIC + 1, 0x10000, 0x20000)).is_err());
    assert!(parse_jzlzma_header(&jz_wrapper(0x100, JZ_MAGIC, 0, 0x20000)).is_err());
    assert!(parse_jzlzma_header(&jz_wrapper(0x100, JZ_MAGIC, 0x1000_0000, 0x20000)).is_err());
    assert!(parse_jzlzma_header(&jz_wrapper(0x100, JZ_MAGIC, 0x10000, 0)).is_err());
    assert!(parse_jzlzma_header(&jz_wrapper(0x100, JZ_MAGIC, 0x10000, 0x1000_0000)).is_err());
    assert!(parse_jzlzma_header(&jz_wrapper(0x100, JZ_MAGIC, 0x0FFF_FFFF, 0x0FFF_FFFF)).is_ok());
    assert!(parse_jzlzma_header(&jz_wrapper(0, JZ_MAGIC, 1, 1)).is_ok());
}

#[test]
fn jzlzma_parser_describes_the_wrapper() {
    let mut file = vec![0u8; 6];
    file.extend_from_slice(&jz_wrapper(0x100, JZ_MAGIC, 0x10000, 0x20000));
    // the magic is at 6 + 4
    let r = jzlzma_parser(&file, 10).unwrap();
    assert_eq!(r.offset, 10);
    assert_eq!(r.size, 0x100 + 12);
    assert_eq!(r.confidence, CONFIDENCE_HIGH);
    assert_eq!(
        r.description,
        "jzlzma compressed data (Ingenic LZ77 variant), kernel or rootfs, payload size: 256 bytes, \
         dictionary size: 65536 bytes, uncompressed size: 131072 bytes"
    );
}

#[test]
fn jzlzma_parser_at_the_start_reads_the_header_there() {
    let file = jz_wrapper(7, JZ_MAGIC, 1, 2);
    let r = jzlzma_parser(&file, 0).unwrap();
    assert_eq!(r.offset, 0);
    assert_eq!(r.size, 19);
    assert!(jzlzma_parser(&file, 2).is_err());
}

#[test]
fn jzlzma_parser_rejects_a_bad_dictionary() {
    let file = jz_wrapper(7, JZ_MAGIC, 0, 2);
    assert!(jzlzma_parser(&file, 4).is_err());
}

#[test]
fn signature_result_default() {
    let r = SignatureResult::default();
    assert_eq!(r.offset, 0);
    assert_eq!(r.size, 0);
    assert_eq!(r.confidence, 0);
    assert_eq!(r.description, "");
    assert_eq!(r.id, "");
    assert_eq!(r.name, "");
    assert!(!r.always_display);
    assert!(!r.extraction_declined);
}

#[test]
fn jzlzma_match_has_the_magic_where_it_was_found() {
    let mut file = vec![0u8; 3];
    file.extend_from_slice(&jz_wrapper(0x40, JZ_MAGIC, 0x100, 0x200));
    let offset = 3 + 4;
    assert!(jzlzma_parser(&file, offset).is_ok());
    assert_eq!(&file[offset..offset + 4], jzlzma_magic()[0].as_slice());
    assert!(offset + 12 <= file.len());
}

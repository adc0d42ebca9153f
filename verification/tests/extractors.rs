use binwalk_ng::extractors::common::{
    record_carve_outcome, ExtractionResult, Extractor, ExtractorType, InternalExtractor,
};
use binwalk_ng::extractors::jzlzma::{jzlzma_carve_range, jzlzma_extractor};
use binwalk_ng::extractors::program_store::{extract_program_store, program_store_extractor};
use binwalk_ng::signatures::program_store::{program_store_parser, MAGIC_OFFSET};
use binwalk_ng::structures::program_store::{crc16_genibus, HEADER_SIZE};

fn ps_image(split: u8, len: u32, len1: u32, len2: u32) -> Vec<u8> {
    let mut data = vec![0u8; HEADER_SIZE + len as usize];
    data[0] = 0x33;
    data[1] = 0x84;
    data[2] = split;
    data[3] = 5;
    data[8..12].copy_from_slice(&1_600_000_000u32.to_be_bytes());
    data[12..16].copy_from_slice(&len.to_be_bytes());
    data[20..30].copy_from_slice(b"image3.bin");
    data[76..80].copy_from_slice(&len1.to_be_bytes());
    data[80..84].copy_from_slice(&len2.to_be_bytes());
    let hcs = crc16_genibus(&data[..84]);
    data[84..86].copy_from_slice(&hcs.to_be_bytes());
    data
}

#[test]
fn extractors_name_their_internal_routine() {
    let e = jzlzma_extractor();
    assert!(matches!(e.utility, ExtractorType::Internal(InternalExtractor::Jzlzma)));
    assert_eq!(e.extension, "");
    assert!(e.arguments.is_empty());
    assert!(e.exit_codes.is_empty());
    assert!(!e.do_not_recurse);
    let e = program_store_extractor();
    assert!(matches!(e.utility, ExtractorType::Internal(InternalExtractor::ProgramStore)));
}

#[test]
fn extractor_default_has_no_utility() {
    let e = Extractor::default();
    assert!(matches!(e.utility, ExtractorType::Absent));
    assert!(e.arguments.is_empty());
}

#[test]
fn extraction_result_default() {
    let r = ExtractionResult::default();
    assert_eq!(r.size, None);
    assert!(!r.success);
    assert_eq!(r.extractor, "");
    assert_eq!(r.output_directory, "");
    assert!(!r.do_not_recurse);
}

#[test]
fn program_store_dry_run_reports_the_size() {
    let mut file = vec![1u8; 5];
    file.extend_from_slice(&ps_image(0, 26, 0, 0));
    let x = extract_program_store(&file, 5, false);
    assert_eq!(x.result.size, Some(HEADER_SIZE + 26));
    assert!(x.result.success);
    assert!(x.carves.is_empty());
}

#[test]
fn program_store_single_image_is_one_carve() {
    let mut file = vec![1u8; 5];
    file.extend_from_slice(&ps_image(0, 26, 0, 0));
    let x = extract_program_store(&file, 5, true);
    assert_eq!(x.carves.len(), 1);
    assert_eq!(x.carves[0].name, "image3.bin");
    assert_eq!(x.carves[0].start, 5 + HEADER_SIZE);
    assert_eq!(x.carves[0].size, 26);
}

#[test]
fn program_store_split_image_is_two_carves() {
    let file = ps_image(1, 40, 20, 16);
    let x = extract_program_store(&file, 0, true);
    assert_eq!(x.result.size, Some(HEADER_SIZE + 40));
    assert_eq!(x.carves.len(), 2);
    assert_eq!(x.carves[0].name, "image3.bin.1");
    assert_eq!(x.carves[0].start, HEADER_SIZE);
    assert_eq!(x.carves[0].size, 20);
    assert_eq!(x.carves[1].name, "image3.bin.2");
    // the second image ends where the payload ends
    assert_eq!(x.carves[1].start, HEADER_SIZE + 40 - 16);
    assert_eq!(x.carves[1].size, 16);
}

#[test]
fn program_store_split_with_empty_second_image_is_one_carve() {
    let file = ps_image(1, 40, 40, 0);
    let x = extract_program_store(&file, 0, true);
    assert_eq!(x.carves.len(), 1);
    assert_eq!(x.carves[0].name, "image3.bin.1");
}

#[test]
fn program_store_extraction_of_garbage_fails() {
    let file = vec![0u8; 200];
    let x = extract_program_store(&file, 3, true);
    assert_eq!(x.result.size, None);
    assert!(!x.result.success);
    assert!(x.carves.is_empty());
}

#[test]
fn validator_and_extractor_agree_on_size() {
    let mut file = vec![9u8; 33];
    file.extend_from_slice(&ps_image(1, 40, 24, 16));
    let sig = program_store_parser(&file, 33 + MAGIC_OFFSET).unwrap();
    let x = extract_program_store(&file, sig.offset, false);
    assert_eq!(x.result.size, Some(sig.size));
}

#[test]
fn first_failed_carve_fails_the_extraction() {
    let mut r = ExtractionResult::default();
    r.success = true;
    r.size = Some(10);
    assert!(record_carve_outcome(&mut r, true));
    assert!(r.success);
    assert!(!record_carve_outcome(&mut r, false));
    assert!(!r.success);
    assert!(record_carve_outcome(&mut r, true));
    assert!(!r.success);
    assert_eq!(r.size, Some(10));
}

#[test]
fn jzlzma_carve_starts_at_the_wrapper() {
    assert_eq!(jzlzma_carve_range(100, 10), (6, 94));
    assert_eq!(jzlzma_carve_range(100, 4), (0, 100));
    assert_eq!(jzlzma_carve_range(100, 2), (2, 98));
}

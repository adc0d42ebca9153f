//! Extraction of Broadcom ProgramStore images: the payload is carved out, as
//! one file for a single image and as two files for a split one.
use vstd::prelude::*;
use crate::common::cstring_chars;
use crate::extractors::common::{
    extractor_other_fields_default, result_other_fields_default, CarveRequest, ExtractionResult, Extractor,
    ExtractorType, InternalExtractor,
};
use crate::structures::program_store::{
    parse_program_store_header, program_store_header_accepted, ps_name, ps_payload, ps_payload_len, Payload,
    HEADER_SIZE,
};

verus! {

/// The internal extractor for ProgramStore images.
pub fn program_store_extractor() -> (e: Extractor)
    ensures
        e.utility == ExtractorType::Internal(InternalExtractor::ProgramStore),
        extractor_other_fields_default(e),
{
    let mut e = Extractor::default();
    e.utility = ExtractorType::Internal(InternalExtractor::ProgramStore);
    e
}

/// What an extraction of the image at `offset` finds, and the files that it
/// carves out of the data, in order.
pub struct ProgramStoreExtraction {
    pub result: ExtractionResult,
    pub carves: Vec<CarveRequest>,
}

/// The header of the image at `offset`.
pub open spec fn image_header(file_data: Seq<u8>, offset: int) -> Seq<u8> {
    file_data.subrange(offset, file_data.len() as int)
}

/// The carves (file name, start, length) for the image at `offset` whose header
/// is `d`: a single image goes to a file named as in the header; a split one to
/// `<name>.1` and, if the second image is not empty, `<name>.2`, the second
/// image ending where the payload ends.
pub open spec fn program_store_carves(d: Seq<u8>, offset: int) -> Seq<(Seq<char>, int, int)> {
    let name = cstring_chars(ps_name(d));
    let payload_start = offset + HEADER_SIZE;
    match ps_payload(d) {
        Payload::Single { len } => seq![(name, payload_start, len as int)],
        Payload::Split { first_len, second_len } => seq![(name + ".1"@, payload_start, first_len as int)]
            + if second_len > 0 {
            seq![(name + ".2"@, offset + HEADER_SIZE + ps_payload_len(d) - second_len, second_len as int)]
        } else {
            Seq::empty()
        },
    }
}

/// `carves` asks for exactly the carves of `plan`, in order.
pub open spec fn carves_follow(carves: Seq<CarveRequest>, plan: Seq<(Seq<char>, int, int)>) -> bool {
    &&& carves.len() == plan.len()
    &&& forall|i: int|
        0 <= i < carves.len() ==> {
            &&& #[trigger] carves[i].name@ == plan[i].0
            &&& carves[i].start == plan[i].1
            &&& carves[i].size == plan[i].2
        }
}

fn carve(name: String, start: usize, size: usize) -> (c: CarveRequest)
    ensures
        c.name == name,
        c.start == start,
        c.size == size,
{
    CarveRequest { name, start, size }
}

fn suffixed(name: &String, suffix: &str) -> (s: String)
    ensures
        s@ == name@ + suffix@,
{
    let mut s = name.clone();
    s.append(suffix);
    s
}

/// Extracts the ProgramStore image at `offset`: says how long it is and, when
/// output is requested, which files to carve out of `file_data`.
pub fn extract_program_store(file_data: &[u8], offset: usize, output_requested: bool) -> (x: ProgramStoreExtraction)
    requires
        offset <= file_data@.len(),
    ensures
        result_other_fields_default(x.result),
        !program_store_header_accepted(image_header(file_data@, offset as int)) ==> {
            &&& x.result.size is None
            &&& !x.result.success
            &&& x.carves@.len() == 0
        },
        program_store_header_accepted(image_header(file_data@, offset as int)) ==> {
            let d = image_header(file_data@, offset as int);
            &&& x.result.size == Some((HEADER_SIZE + ps_payload_len(d)) as usize)
            &&& x.result.success
            &&& output_requested ==> carves_follow(x.carves@, program_store_carves(d, offset as int))
            &&& !output_requested ==> x.carves@.len() == 0
        },
        // every carve lies in the image's payload, and no two carves overlap
        forall|i: int|
            0 <= i < x.carves@.len() ==> offset + HEADER_SIZE <= #[trigger] x.carves@[i].start
                && x.carves@[i].start + x.carves@[i].size <= offset + x.result.size->0
                && offset + x.result.size->0 <= file_data@.len(),
        forall|i: int, j: int|
            0 <= i < j < x.carves@.len() ==> #[trigger] x.carves@[i].start + x.carves@[i].size
                <= #[trigger] x.carves@[j].start,
{
    let mut result = ExtractionResult::default();
    let mut carves: Vec<CarveRequest> = Vec::new();
    let Ok(header) = parse_program_store_header(&file_data[offset..file_data.len()]) else {
        return ProgramStoreExtraction { result, carves };
    };
    let ghost d = image_header(file_data@, offset as int);
    result.size = Some(header.total_len);
    result.success = true;
    if !output_requested {
        return ProgramStoreExtraction { result, carves };
    }
    let payload_start = offset + HEADER_SIZE;
    match header.payload {
        Payload::Single { len } => {
            carves.push(carve(header.filename, payload_start, len));
        },
        Payload::Split { first_len, second_len } => {
            let name1 = suffixed(&header.filename, ".1");
            let name2 = suffixed(&header.filename, ".2");
            let image2_start = offset + header.total_len - second_len;
            carves.push(carve(name1, payload_start, first_len));
            if second_len > 0 {
                carves.push(carve(name2, image2_start, second_len));
            }
        },
    }
    assert(carves_follow(carves@, program_store_carves(d, offset as int)));
    ProgramStoreExtraction { result, carves }
}

} // verus!

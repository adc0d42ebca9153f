//! Signature of a Broadcom ProgramStore firmware image.
use vstd::prelude::*;
use crate::common::{
    cstring_chars, decimal_text, digits_value, epoch_to_string, is_decimal_numeral, is_padded_numeral,
    lemma_decimal_text_reads_back, lemma_padded_digits_read_back, padded_digits, push_decimal, push_padded, utc_text,
};
use crate::signatures::common::{other_fields_default, SignatureError, SignatureResult, CONFIDENCE_HIGH};
use crate::structures::common::{be_u16_at, be_u32_at};
use crate::structures::program_store::{
    compression_name, compression_of, parse_program_store_header, program_store_header_accepted,
    ps_load_address, ps_name, ps_payload_len, ps_timestamp, Payload, ProgramStoreHeader, CTRL_COMPRESSION_OFFSET,
    CTRL_SPLIT_OFFSET, HEADER_SIZE, MAJ_OFFSET, MIN_OFFSET, NAME_OFFSET, NAME_SIZE, PAD_OFFSET, PAD_SIZE,
};
use crate::extractors::program_store::image_header;

verus! {

/// Offset of the magic within the header: the NUL terminator of the 48-byte
/// `name` field (byte 67) followed by the 8 zero `pad` bytes (bytes 68 to 75).
pub const MAGIC_OFFSET: usize = 67;

/// Length of the magic: the name's terminator and the pad.
pub const MAGIC_SIZE: usize = 9;

pub const DESCRIPTION: &'static str = "Broadcom ProgramStore firmware image";

/// The magic bytes: nine zero bytes.
pub open spec fn program_store_magic_bytes() -> Seq<u8> {
    Seq::new(MAGIC_SIZE as nat, |i: int| 0u8)
}

/// Magic bytes for ProgramStore images: the name's NUL terminator and the zero pad.
pub fn program_store_magic() -> (magic: Vec<Vec<u8>>)
    ensures
        magic@.len() == 1,
        magic@[0]@ == program_store_magic_bytes(),
{
    let mut m: Vec<u8> = Vec::new();
    let mut i: usize = 0;
    while i < MAGIC_SIZE
        invariant
            i <= MAGIC_SIZE,
            m@ == Seq::new(i as nat, |k: int| 0u8),
        decreases MAGIC_SIZE - i,
    {
        m.push(0u8);
        i = i + 1;
        assert(m@ =~= Seq::new(i as nat, |k: int| 0u8));
    }
    vec![m]
}

/// The header that the validator reads for a match at `offset`.
pub open spec fn program_store_header_bytes(file_data: Seq<u8>, offset: int) -> Seq<u8> {
    file_data.subrange(offset - MAGIC_OFFSET, file_data.len() as int)
}

/// The text that the description gives for the payload: nothing for a single
/// image, a note for a split one.
pub open spec fn payload_note(split: bool) -> Seq<char> {
    if split {
        ", split image"@
    } else {
        Seq::empty()
    }
}

/// The description of a match with the given header fields; numbers in
/// hexadecimal carry `0x` and upper-case digits.
pub open spec fn describe(
    sig: nat,
    compression: Seq<char>,
    load_address: nat,
    major_rev: nat,
    minor_rev: nat,
    timestamp: nat,
    filename: Seq<char>,
    split: bool,
) -> Seq<char> {
    DESCRIPTION@ + ", signature: 0x"@ + padded_digits(sig, 16, 4) + ", compression: "@ + compression
        + ", load address: 0x"@ + padded_digits(load_address, 16, 8) + ", revision: "@
        + decimal_text(major_rev) + "."@ + decimal_text(minor_rev) + ", build time: "@ + utc_text(
        timestamp,
    ) + ", filename: \""@ + filename + "\""@ + payload_note(split)
}

/// The description of a match whose header is `d`.
pub open spec fn program_store_description(d: Seq<u8>) -> Seq<char> {
    describe(
        be_u16_at(d, 0) as nat,
        compression_name(compression_of(d[CTRL_COMPRESSION_OFFSET as int])->0),
        ps_load_address(d) as nat,
        be_u16_at(d, MAJ_OFFSET as int) as nat,
        be_u16_at(d, MIN_OFFSET as int) as nat,
        ps_timestamp(d) as nat,
        cstring_chars(ps_name(d)),
        d[CTRL_SPLIT_OFFSET as int] != 0,
    )
}

/// The description of a match with header `h`.
fn describe_header(h: &ProgramStoreHeader) -> (text: String)
    ensures
        text@ == describe(
            (h.sig[0] * 256 + h.sig[1]) as nat,
            compression_name(h.compression),
            h.load_address as nat,
            h.major_rev as nat,
            h.minor_rev as nat,
            h.timestamp as nat,
            h.filename@,
            h.payload is Split,
        ),
{
    let mut text = DESCRIPTION.to_owned();
    text.append(", signature: 0x");
    let signature: u64 = h.sig[0] as u64 * 256 + h.sig[1] as u64;
    push_padded(&mut text, signature, 16, 4);
    text.append(", compression: ");
    let compression = h.compression.to_string();
    text.append(compression.as_str());
    text.append(", load address: 0x");
    push_padded(&mut text, h.load_address as u64, 16, 8);
    text.append(", revision: ");
    push_decimal(&mut text, h.major_rev as u64);
    text.append(".");
    push_decimal(&mut text, h.minor_rev as u64);
    text.append(", build time: ");
    let build_time = epoch_to_string(h.timestamp);
    text.append(build_time.as_str());
    text.append(", filename: \"");
    text.append(h.filename.as_str());
    text.append("\"");
    let ghost before_note = text@;
    if let Payload::Split { .. } = h.payload {
        text.append(", split image");
    } else {
        assert(text@ =~= before_note + payload_note(false));
    }
    text
}

/// Validates a ProgramStore signature whose magic was found at `offset`.
pub fn program_store_parser(file_data: &[u8], offset: usize) -> (result: Result<SignatureResult, SignatureError>)
    requires
        offset >= MAGIC_OFFSET ==> offset - MAGIC_OFFSET <= file_data@.len(),
    ensures
        result.is_ok() <==> offset >= MAGIC_OFFSET && program_store_header_accepted(
            program_store_header_bytes(file_data@, offset as int),
        ),
        result matches Ok(r) ==> {
            let d = program_store_header_bytes(file_data@, offset as int);
            &&& r.offset == offset - MAGIC_OFFSET
            &&& r.size == HEADER_SIZE + ps_payload_len(d)
            &&& r.offset + r.size <= file_data@.len()
            &&& r.confidence == CONFIDENCE_HIGH
            &&& r.description@ == program_store_description(d)
            &&& other_fields_default(r)
        },
{
    let Some(header_start) = offset.checked_sub(MAGIC_OFFSET) else {
        return Err(SignatureError);
    };
    let header_data = &file_data[header_start..file_data.len()];
    let Ok(header) = parse_program_store_header(header_data) else {
        return Err(SignatureError);
    };
    let description = describe_header(&header);
    assert(header.sig@[0] == header.sig[0] && header.sig@[1] == header.sig[1]);
    let result = SignatureResult {
        offset: header_start,
        id: String::new(),
        size: header.total_len,
        name: String::new(),
        confidence: CONFIDENCE_HIGH,
        description,
        always_display: false,
        extraction_declined: false,
    };
    Ok(result)
}

/// Wherever the parser accepts a header, the magic that the scanner looks for
/// sits `MAGIC_OFFSET` bytes into it: the NUL that ends the name field, then
/// the zero pad.
pub proof fn lemma_accepted_header_holds_magic(d: Seq<u8>)
    requires
        program_store_header_accepted(d),
    ensures
        MAGIC_OFFSET == NAME_OFFSET + NAME_SIZE - 1,
        MAGIC_OFFSET == PAD_OFFSET - 1,
        MAGIC_OFFSET + MAGIC_SIZE == PAD_OFFSET + PAD_SIZE,
        d.subrange(MAGIC_OFFSET as int, (MAGIC_OFFSET + MAGIC_SIZE) as int) == program_store_magic_bytes(),
{
    assert(d.subrange(MAGIC_OFFSET as int, (MAGIC_OFFSET + MAGIC_SIZE) as int) =~= program_store_magic_bytes());
}

/// The validator and the extractor read the same header: the validator accepts
/// a match at `offset` exactly when the extractor finds an image at
/// `offset - MAGIC_OFFSET`, and then the size that it reports is the size that
/// the extractor reports.
pub proof fn lemma_validator_and_extractor_agree(file_data: Seq<u8>, offset: int)
    requires
        MAGIC_OFFSET <= offset <= file_data.len() + MAGIC_OFFSET,
    ensures
        program_store_header_bytes(file_data, offset) == image_header(file_data, offset - MAGIC_OFFSET),
        program_store_header_accepted(program_store_header_bytes(file_data, offset))
            <==> program_store_header_accepted(image_header(file_data, offset - MAGIC_OFFSET)),
        HEADER_SIZE + ps_payload_len(program_store_header_bytes(file_data, offset)) == HEADER_SIZE
            + ps_payload_len(image_header(file_data, offset - MAGIC_OFFSET)),
{
}

/// The description of an accepted header spells its fields so that they read
/// back: the signature as four hexadecimal digits and the load address as
/// eight, after `0x`; the major and minor revisions as decimal numerals around
/// a dot; then the build time text, the file name in quotes, and the split-image
/// note exactly for split images.
pub proof fn lemma_program_store_description_reads_back(d: Seq<u8>) -> (parts: (
    Seq<char>,
    Seq<char>,
    Seq<char>,
    Seq<char>,
    Seq<char>,
    Seq<char>,
    Seq<char>,
    Seq<char>,
))
    requires
        program_store_header_accepted(d),
    ensures
        ({
            let (sig, compression, address, major, minor, time, name, note) = parts;
            &&& program_store_description(d) == DESCRIPTION@ + ", signature: 0x"@ + sig
                + ", compression: "@ + compression + ", load address: 0x"@ + address
                + ", revision: "@ + major + "."@ + minor + ", build time: "@ + time
                + ", filename: \""@ + name + "\""@ + note
            &&& is_padded_numeral(sig, 16, 4)
            &&& digits_value(sig, 16) == d[0] * 256 + d[1]
            &&& compression == compression_name(compression_of(d[3])->0)
            &&& is_padded_numeral(address, 16, 8)
            &&& digits_value(address, 16) == be_u32_at(d, 16)
            &&& is_decimal_numeral(major)
            &&& digits_value(major, 10) == d[4] * 256 + d[5]
            &&& is_decimal_numeral(minor)
            &&& digits_value(minor, 10) == d[6] * 256 + d[7]
            &&& time == utc_text(be_u32_at(d, 8) as nat)
            &&& name == cstring_chars(d.subrange(20, 68))
            &&& note == if d[2] == 0 {
                Seq::<char>::empty()
            } else {
                ", split image"@
            }
        }),
{
    let sig = be_u16_at(d, 0) as nat;
    let address = ps_load_address(d) as nat;
    assert(vstd::arithmetic::power::pow(16, 4) == 65536) by {
        reveal_with_fuel(vstd::arithmetic::power::pow, 5);
    }
    assert(vstd::arithmetic::power::pow(16, 8) == 0x1_0000_0000) by {
        reveal_with_fuel(vstd::arithmetic::power::pow, 9);
    }
    lemma_padded_digits_read_back(sig, 16, 4);
    lemma_padded_digits_read_back(address, 16, 8);
    lemma_decimal_text_reads_back(be_u16_at(d, MAJ_OFFSET as int) as nat);
    lemma_decimal_text_reads_back(be_u16_at(d, MIN_OFFSET as int) as nat);
    (
        padded_digits(sig, 16, 4),
        compression_name(compression_of(d[CTRL_COMPRESSION_OFFSET as int])->0),
        padded_digits(address, 16, 8),
        decimal_text(be_u16_at(d, MAJ_OFFSET as int) as nat),
        decimal_text(be_u16_at(d, MIN_OFFSET as int) as nat),
        utc_text(ps_timestamp(d) as nat),
        cstring_chars(ps_name(d)),
        payload_note(d[CTRL_SPLIT_OFFSET as int] != 0),
    )
}

} // verus!

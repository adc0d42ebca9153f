//! Signature of jzlzma data behind a `mark_rootfs_lzma` wrapper.
use vstd::prelude::*;
use crate::common::{decimal_text, digits_value, is_decimal_numeral, lemma_decimal_text_reads_back, push_decimal};
use crate::signatures::common::{other_fields_default, SignatureError, SignatureResult, CONFIDENCE_HIGH};
use crate::structures::common::le_u32_at;
use crate::structures::jzlzma::{jzlzma_header_accepted, parse_jzlzma_header, JZ_MAGIC};

verus! {

/// Human readable description.
pub const DESCRIPTION: &'static str = "jzlzma compressed data (Ingenic LZ77 variant), kernel or rootfs";

/// The magic bytes: 0x27051956 in little-endian.
pub open spec fn jzlzma_magic_bytes() -> Seq<u8> {
    seq![0x56u8, 0x19u8, 0x05u8, 0x27u8]
}

/// Magic bytes for jzlzma: 0x27051956 in little-endian.
pub fn jzlzma_magic() -> (magic: Vec<Vec<u8>>)
    ensures
        magic@.len() == 1,
        magic@[0]@ == jzlzma_magic_bytes(),
{
    let m: Vec<u8> = vec![0x56u8, 0x19u8, 0x05u8, 0x27u8];
    assert(m@ =~= jzlzma_magic_bytes());
    vec![m]
}

/// The magic sits 4 bytes into the wrapper, so the wrapper starts 4 bytes
/// before the match, unless the match is at the very start of the data.
pub open spec fn jzlzma_header_start(offset: int) -> int {
    if offset >= 4 {
        offset - 4
    } else {
        offset
    }
}

/// The wrapper header that the validator reads for a match at `offset`.
pub open spec fn jzlzma_header_bytes(file_data: Seq<u8>, offset: int) -> Seq<u8> {
    file_data.subrange(jzlzma_header_start(offset), file_data.len() as int)
}

/// The description of a match whose wrapper header is `h`.
pub open spec fn jzlzma_description(h: Seq<u8>) -> Seq<char> {
    DESCRIPTION@ + ", payload size: "@ + decimal_text(le_u32_at(h, 0) as nat)
        + " bytes, dictionary size: "@ + decimal_text(le_u32_at(h, 8) as nat)
        + " bytes, uncompressed size: "@ + decimal_text(le_u32_at(h, 12) as nat) + " bytes"@
}

/// Validates a jzlzma signature whose magic was found at `offset`.
pub fn jzlzma_parser(file_data: &[u8], offset: usize) -> (result: Result<SignatureResult, SignatureError>)
    requires
        jzlzma_header_start(offset as int) <= file_data@.len(),
        // the size of the match (payload plus the 12 wrapper bytes from the magic on) fits in usize
        jzlzma_header_accepted(jzlzma_header_bytes(file_data@, offset as int)) ==> le_u32_at(
            jzlzma_header_bytes(file_data@, offset as int),
            0,
        ) + 12 <= usize::MAX,
    ensures
        result.is_ok() <==> jzlzma_header_accepted(jzlzma_header_bytes(file_data@, offset as int)),
        result matches Ok(r) ==> {
            let h = jzlzma_header_bytes(file_data@, offset as int);
            &&& r.offset == offset
            &&& r.size == le_u32_at(h, 0) + 12
            &&& r.confidence == CONFIDENCE_HIGH
            &&& r.description@ == jzlzma_description(h)
            &&& other_fields_default(r)
        },
        // a match found 4 or more bytes into the data has the magic where it was
        // found, and the whole 16-byte wrapper lies in the data
        result is Ok && offset >= 4 ==> file_data@.subrange(offset as int, offset + 4)
            == jzlzma_magic_bytes() && offset + 12 <= file_data@.len(),
        result is Err ==> result == Err::<SignatureResult, SignatureError>(SignatureError),
        // a match found 4 or more bytes into the data covers the whole wrapper
        // (16 bytes from 4 bytes before the magic) and the payload after it
        offset >= 4 ==> (result matches Ok(r) ==> r.offset + r.size == offset - 4 + 16 + file_data@[offset
            - 4] + file_data@[offset - 3] * 256 + file_data@[offset - 2] * 65536 + file_data@[offset - 1]
            * 16777216),
{
    let header_offset = if offset >= 4 {
        offset - 4
    } else {
        offset
    };
    let header_data = &file_data[header_offset..file_data.len()];
    if let Ok(jzlzma_header) = parse_jzlzma_header(header_data) {
        proof {
            if offset >= 4 {
                lemma_accepted_header_holds_magic(header_data@);
                assert(header_data@.subrange(4, 8) =~= file_data@.subrange(offset as int, offset + 4));
            }
        }
        let mut description = DESCRIPTION.to_owned();
        description.append(", payload size: ");
        push_decimal(&mut description, jzlzma_header.payload_size as u64);
        description.append(" bytes, dictionary size: ");
        push_decimal(&mut description, jzlzma_header.dictionary_size as u64);
        description.append(" bytes, uncompressed size: ");
        push_decimal(&mut description, jzlzma_header.decompressed_size as u64);
        description.append(" bytes");
        // 16-byte wrapper, but the offset is at the magic (byte 4)
        let result = SignatureResult {
            offset,
            id: String::new(),
            size: jzlzma_header.payload_size + 12,
            name: String::new(),
            confidence: CONFIDENCE_HIGH,
            description,
            always_display: false,
            extraction_declined: false,
        };
        return Ok(result);
    }
    Err(SignatureError)
}

/// The magic field of an accepted wrapper header holds the magic bytes that the
/// scanner looks for.
pub proof fn lemma_accepted_header_holds_magic(h: Seq<u8>)
    requires
        jzlzma_header_accepted(h),
    ensures
        h.subrange(4, 8) == jzlzma_magic_bytes(),
{
    let (b0, b1, b2, b3) = (h[4], h[5], h[6], h[7]);
    assert(b0 + b1 * 256 + b2 * 65536 + b3 * 16777216 == 0x27051956 ==> b0 == 0x56 && b1 == 0x19 && b2
        == 0x05 && b3 == 0x27) by (nonlinear_arith)
        requires
            0 <= b0 < 256,
            0 <= b1 < 256,
            0 <= b2 < 256,
            0 <= b3 < 256,
    ;
    assert(h.subrange(4, 8) =~= jzlzma_magic_bytes());
}

/// Where the scanner found the magic bytes at `offset` (4 or more bytes into
/// the data), the validator reads them as the magic field of the header.
pub proof fn lemma_found_magic_is_header_magic(file_data: Seq<u8>, offset: int)
    requires
        4 <= offset,
        offset + 4 <= file_data.len(),
        file_data.subrange(offset, offset + 4) == jzlzma_magic_bytes(),
    ensures
        le_u32_at(jzlzma_header_bytes(file_data, offset), 4) == JZ_MAGIC,
{
    let h = jzlzma_header_bytes(file_data, offset);
    assert(h[4] == file_data.subrange(offset, offset + 4)[0]);
    assert(h[5] == file_data.subrange(offset, offset + 4)[1]);
    assert(h[6] == file_data.subrange(offset, offset + 4)[2]);
    assert(h[7] == file_data.subrange(offset, offset + 4)[3]);
}

/// The description spells the three sizes of the header in decimal: it is the
/// fixed text with three decimal numerals in it, and they read back as the
/// payload size (the size of the match less 12), the dictionary size and the
/// uncompressed size.
pub proof fn lemma_jzlzma_description_reads_back(h: Seq<u8>) -> (parts: (Seq<char>, Seq<char>, Seq<char>))
    requires
        h.len() >= 16,
    ensures
        ({
            let (payload, dictionary, uncompressed) = parts;
            &&& jzlzma_description(h) == DESCRIPTION@ + ", payload size: "@ + payload
                + " bytes, dictionary size: "@ + dictionary + " bytes, uncompressed size: "@
                + uncompressed + " bytes"@
            &&& is_decimal_numeral(payload)
            &&& is_decimal_numeral(dictionary)
            &&& is_decimal_numeral(uncompressed)
            &&& digits_value(payload, 10) == h[0] + h[1] * 256 + h[2] * 65536 + h[3] * 16777216
            &&& digits_value(dictionary, 10) == h[8] + h[9] * 256 + h[10] * 65536 + h[11] * 16777216
            &&& digits_value(uncompressed, 10) == h[12] + h[13] * 256 + h[14] * 65536 + h[15]
                * 16777216
        }),
{
    lemma_decimal_text_reads_back(le_u32_at(h, 0) as nat);
    lemma_decimal_text_reads_back(le_u32_at(h, 8) as nat);
    lemma_decimal_text_reads_back(le_u32_at(h, 12) as nat);
    (
        decimal_text(le_u32_at(h, 0) as nat),
        decimal_text(le_u32_at(h, 8) as nat),
        decimal_text(le_u32_at(h, 12) as nat),
    )
}

} // verus!

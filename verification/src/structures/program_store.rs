//! The Broadcom ProgramStore image header.
//!
//! Layout (multi-byte fields big-endian), 92 bytes in all:
//!   [0..2)   sig             image signature
//!   [2]      ctrl_split      0 = single image, 1 = split (dual) image
//!   [3]      ctrl_compression
//!   [4..6)   maj             major revision
//!   [6..8)   min             minor revision
//!   [8..12)  time            build time, seconds since the UNIX epoch
//!   [12..16) len             payload length
//!   [16..20) addr            load address
//!   [20..68) name            NUL-terminated file name
//!   [68..76) pad             zero
//!   [76..80) len1            length of the first image
//!   [80..84) len2            length of the second image
//!   [84..86) hcs             CRC-16/GENIBUS of bytes [0..84)
//!   [86..88) reserved        zero
//!   [88..92) chk             payload checksum
use vstd::prelude::*;
use crate::common::{cstring_chars, cstring_len, get_cstring, lemma_cstring_len_bounds};
use crate::structures::common::{be_u16_at, be_u32_at, StructureError};

verus! {

/// The compression scheme of the payload.
#[derive(Debug, Clone, Copy, PartialEq, Eq, Structural)]
pub enum Compression {
    Uncompressed,
    Lz,
    Lzo,
    Reserved,
    Nrv2b,
    Lzma,
}

/// The name under which a compression scheme is shown.
pub open spec fn compression_name(c: Compression) -> Seq<char> {
    match c {
        Compression::Uncompressed => "none"@,
        Compression::Lz => "LZ"@,
        Compression::Lzo => "LZO"@,
        Compression::Reserved => "reserved"@,
        Compression::Nrv2b => "NRV2B"@,
        Compression::Lzma => "LZMA"@,
    }
}

impl Compression {
    /// The name under which this compression scheme is shown.
    pub fn to_string(&self) -> (name: String)
        ensures
            name@ == compression_name(*self),
    {
        let s = match self {
            Compression::Uncompressed => "none",
            Compression::Lz => "LZ",
            Compression::Lzo => "LZO",
            Compression::Reserved => "reserved",
            Compression::Nrv2b => "NRV2B",
            Compression::Lzma => "LZMA",
        };
        s.to_owned()
    }
}

/// How the payload is made up: one image, or two images back to back.
#[derive(Debug, Clone, Copy, PartialEq, Eq, Structural)]
pub enum Payload {
    Single { len: usize },
    Split { first_len: usize, second_len: usize },
}

/// A parsed ProgramStore header.
#[derive(Debug, Clone)]
pub struct ProgramStoreHeader {
    pub sig: [u8; 2],
    pub compression: Compression,
    pub payload: Payload,
    pub major_rev: u16,
    pub minor_rev: u16,
    pub timestamp: u32,
    pub total_len: usize,
    pub load_address: u32,
    pub filename: String,
}

pub const CTRL_SPLIT_OFFSET: usize = 2;

pub const CTRL_COMPRESSION_OFFSET: usize = 3;

pub const MAJ_OFFSET: usize = 4;

pub const MIN_OFFSET: usize = 6;

pub const TIME_OFFSET: usize = 8;

pub const LEN_OFFSET: usize = 12;

pub const ADDR_OFFSET: usize = 16;

pub const NAME_OFFSET: usize = 20;

pub const NAME_SIZE: usize = 48;

pub const PAD_OFFSET: usize = 68;

pub const PAD_SIZE: usize = 8;

pub const LEN1_OFFSET: usize = 76;

pub const LEN2_OFFSET: usize = 80;

pub const HCS_OFFSET: usize = 84;

pub const RESERVED_OFFSET: usize = 86;

/// Size of the header; the payload follows it.
pub const HEADER_SIZE: usize = 92;

/// Build times before the initial eCos release (1998-09-01) are rejected.
pub const MIN_TIMESTAMP: u32 = 904_608_000;

/// The compression scheme coded by the low control byte, if any.
pub open spec fn compression_of(ctrl_low: u8) -> Option<Compression> {
    if ctrl_low == 0 {
        Some(Compression::Uncompressed)
    } else if ctrl_low == 1 {
        Some(Compression::Lz)
    } else if ctrl_low == 2 {
        Some(Compression::Lzo)
    } else if ctrl_low == 3 {
        Some(Compression::Reserved)
    } else if ctrl_low == 4 {
        Some(Compression::Nrv2b)
    } else if ctrl_low == 5 {
        Some(Compression::Lzma)
    } else {
        None
    }
}

/// Decodes the compression control byte.
pub fn parse_compression(ctrl_low: u8) -> (c: Option<Compression>)
    ensures
        c == compression_of(ctrl_low),
        c.is_some() <==> ctrl_low <= 5,
{
    match ctrl_low {
        0 => Some(Compression::Uncompressed),
        1 => Some(Compression::Lz),
        2 => Some(Compression::Lzo),
        3 => Some(Compression::Reserved),
        4 => Some(Compression::Nrv2b),
        5 => Some(Compression::Lzma),
        _ => None,
    }
}

// ---------------------------------------------------------------------------
// CRC-16/GENIBUS (polynomial 0x1021, initial value 0xFFFF, final XOR 0xFFFF,
// most significant bit first)
// ---------------------------------------------------------------------------

/// One shift of the CRC register.
pub open spec fn crc_shift(crc: u16) -> u16 {
    if crc & 0x8000 != 0 {
        ((crc << 1u16) ^ 0x1021u16) as u16
    } else {
        (crc << 1u16) as u16
    }
}

/// `n` shifts of the CRC register.
pub open spec fn crc_shifts(crc: u16, n: nat) -> u16
    decreases n,
{
    if n == 0 {
        crc
    } else {
        crc_shift(crc_shifts(crc, (n - 1) as nat))
    }
}

/// The register after one more byte.
pub open spec fn crc_absorb(crc: u16, byte: u8) -> u16 {
    crc_shifts(crc ^ ((byte as u16) << 8u16), 8)
}

/// The register after all of `s`, starting from 0xFFFF.
pub open spec fn crc_register(s: Seq<u8>) -> u16
    decreases s.len(),
{
    if s.len() == 0 {
        0xFFFF
    } else {
        crc_absorb(crc_register(s.drop_last()), s.last())
    }
}

/// The CRC-16/GENIBUS checksum of `s`.
pub open spec fn crc16_genibus_of(s: Seq<u8>) -> u16 {
    crc_register(s) ^ 0xFFFFu16
}

/// The register after two more bytes.
pub open spec fn crc_absorb_two(crc: u16, hi: u8, lo: u8) -> u16 {
    crc_absorb(crc_absorb(crc, hi), lo)
}

/// The bytes of a 16-bit value, most significant first.
pub open spec fn be_bytes(v: u16) -> Seq<u8> {
    seq![(v >> 8u16) as u8, (v & 0xFFu16) as u8]
}

/// The bytewise XOR of three sequences of the same length.
pub open spec fn xor3(a: Seq<u8>, b: Seq<u8>, c: Seq<u8>) -> Seq<u8> {
    Seq::new(a.len(), |i: int| a[i] ^ b[i] ^ c[i])
}

proof fn lemma_eight_shifts(x: u16)
    ensures
        crc_shifts(x, 8) == crc_shift(
            crc_shift(crc_shift(crc_shift(crc_shift(crc_shift(crc_shift(crc_shift(x))))))),
        ),
{
    reveal_with_fuel(crc_shifts, 9);
}

/// Absorbing the two big-endian bytes of `v` into the register `r`.
proof fn lemma_absorb_two_unfolded(r: u16, v: u16) -> (out: (u16, u16, u16, u16, u16, u16, u16, u16, u16, u16, u16, u16, u16, u16, u16, u16))
    ensures
        ({
            let (x1, x2, x3, x4, x5, x6, x7, x8, y1, y2, y3, y4, y5, y6, y7, y8) = out;
            &&& x1 == crc_shift(r ^ (((v >> 8u16) as u8 as u16) << 8u16))
            &&& x2 == crc_shift(x1)
            &&& x3 == crc_shift(x2)
            &&& x4 == crc_shift(x3)
            &&& x5 == crc_shift(x4)
            &&& x6 == crc_shift(x5)
            &&& x7 == crc_shift(x6)
            &&& x8 == crc_shift(x7)
            &&& y1 == crc_shift(x8 ^ (((v & 0xFFu16) as u8 as u16) << 8u16))
            &&& y2 == crc_shift(y1)
            &&& y3 == crc_shift(y2)
            &&& y4 == crc_shift(y3)
            &&& y5 == crc_shift(y4)
            &&& y6 == crc_shift(y5)
            &&& y7 == crc_shift(y6)
            &&& y8 == crc_shift(y7)
            &&& y8 == crc_absorb_two(r, be_bytes(v)[0], be_bytes(v)[1])
        }),
{
    let hi = (v >> 8u16) as u8;
    let lo = (v & 0xFFu16) as u8;
    let x0 = r ^ ((hi as u16) << 8u16);
    lemma_eight_shifts(x0);
    let x1 = crc_shift(x0);
    let x2 = crc_shift(x1);
    let x3 = crc_shift(x2);
    let x4 = crc_shift(x3);
    let x5 = crc_shift(x4);
    let x6 = crc_shift(x5);
    let x7 = crc_shift(x6);
    let x8 = crc_shift(x7);
    let y0 = x8 ^ ((lo as u16) << 8u16);
    lemma_eight_shifts(y0);
    let y1 = crc_shift(y0);
    let y2 = crc_shift(y1);
    let y3 = crc_shift(y2);
    let y4 = crc_shift(y3);
    let y5 = crc_shift(y4);
    let y6 = crc_shift(y5);
    let y7 = crc_shift(y6);
    let y8 = crc_shift(y7);
    (x1, x2, x3, x4, x5, x6, x7, x8, y1, y2, y3, y4, y5, y6, y7, y8)
}

proof fn lemma_crc_register_append_two(data: Seq<u8>, hi: u8, lo: u8)
    ensures
        crc_register(data + seq![hi, lo]) == crc_absorb_two(crc_register(data), hi, lo),
{
    let s = data + seq![hi, lo];
    let t = data.push(hi);
    assert(s.drop_last() =~= t);
    assert(t.drop_last() =~= data);
    assert(s.last() == lo);
    assert(t.last() == hi);
    assert(crc_register(t) == crc_absorb(crc_register(data), hi));
    assert(crc_register(s) == crc_absorb(crc_register(t), lo));
}

/// The residue of CRC-16/GENIBUS: appending the checksum of `data` to `data`,
/// most significant byte first, gives the checksum 0xE2F0; appending the
/// complement of the checksum gives 0xFFFF.
pub proof fn lemma_crc16_genibus_residue(data: Seq<u8>)
    ensures
        crc16_genibus_of(data + be_bytes(crc16_genibus_of(data))) == 0xE2F0,
        crc16_genibus_of(data + be_bytes(crc16_genibus_of(data) ^ 0xFFFFu16)) == 0xFFFF,
{
    let r = crc_register(data);
    let c = crc16_genibus_of(data);
    assert(c ^ 0xFFFFu16 == r) by (bit_vector)
        requires
            c == r ^ 0xFFFFu16,
    ;
    let (x1, x2, x3, x4, x5, x6, x7, x8, y1, y2, y3, y4, y5, y6, y7, y8) = lemma_absorb_two_unfolded(r, c);
    assert(y8 == 0x1D0Fu16) by (bit_vector)
        requires
            c == r ^ 0xFFFFu16,
            x1 == crc_shift(r ^ (((c >> 8u16) as u8 as u16) << 8u16)),
            x2 == crc_shift(x1),
            x3 == crc_shift(x2),
            x4 == crc_shift(x3),
            x5 == crc_shift(x4),
            x6 == crc_shift(x5),
            x7 == crc_shift(x6),
            x8 == crc_shift(x7),
            y1 == crc_shift(x8 ^ (((c & 0xFFu16) as u8 as u16) << 8u16)),
            y2 == crc_shift(y1),
            y3 == crc_shift(y2),
            y4 == crc_shift(y3),
            y5 == crc_shift(y4),
            y6 == crc_shift(y5),
            y7 == crc_shift(y6),
            y8 == crc_shift(y7),
    ;
    lemma_crc_register_append_two(data, be_bytes(c)[0], be_bytes(c)[1]);
    assert(be_bytes(c) =~= seq![be_bytes(c)[0], be_bytes(c)[1]]);
    assert(0x1D0Fu16 ^ 0xFFFFu16 == 0xE2F0u16) by (bit_vector);
    let (u1, u2, u3, u4, u5, u6, u7, u8, w1, w2, w3, w4, w5, w6, w7, w8) = lemma_absorb_two_unfolded(r, r);
    assert(w8 == 0u16) by (bit_vector)
        requires
            u1 == crc_shift(r ^ (((r >> 8u16) as u8 as u16) << 8u16)),
            u2 == crc_shift(u1),
            u3 == crc_shift(u2),
            u4 == crc_shift(u3),
            u5 == crc_shift(u4),
            u6 == crc_shift(u5),
            u7 == crc_shift(u6),
            u8 == crc_shift(u7),
            w1 == crc_shift(u8 ^ (((r & 0xFFu16) as u8 as u16) << 8u16)),
            w2 == crc_shift(w1),
            w3 == crc_shift(w2),
            w4 == crc_shift(w3),
            w5 == crc_shift(w4),
            w6 == crc_shift(w5),
            w7 == crc_shift(w6),
            w8 == crc_shift(w7),
    ;
    lemma_crc_register_append_two(data, be_bytes(r)[0], be_bytes(r)[1]);
    assert(be_bytes(r) =~= seq![be_bytes(r)[0], be_bytes(r)[1]]);
    assert(0u16 ^ 0xFFFFu16 == 0xFFFFu16) by (bit_vector);
}

proof fn lemma_crc_shift_xor3(x: u16, y: u16, z: u16)
    ensures
        crc_shift(x ^ y ^ z) == crc_shift(x) ^ crc_shift(y) ^ crc_shift(z),
{
    assert(crc_shift(x ^ y ^ z) == crc_shift(x) ^ crc_shift(y) ^ crc_shift(z)) by (bit_vector);
}

proof fn lemma_crc_shifts_xor3(x: u16, y: u16, z: u16, n: nat)
    ensures
        crc_shifts(x ^ y ^ z, n) == crc_shifts(x, n) ^ crc_shifts(y, n) ^ crc_shifts(z, n),
    decreases n,
{
    if n > 0 {
        lemma_crc_shifts_xor3(x, y, z, (n - 1) as nat);
        lemma_crc_shift_xor3(
            crc_shifts(x, (n - 1) as nat),
            crc_shifts(y, (n - 1) as nat),
            crc_shifts(z, (n - 1) as nat),
        );
    }
}

proof fn lemma_crc_register_xor3(a: Seq<u8>, b: Seq<u8>, c: Seq<u8>)
    requires
        a.len() == b.len(),
        b.len() == c.len(),
    ensures
        crc_register(a) ^ crc_register(b) ^ crc_register(c) == crc_register(xor3(a, b, c)),
    decreases a.len(),
{
    let x = xor3(a, b, c);
    if a.len() == 0 {
        assert(0xFFFFu16 ^ 0xFFFFu16 ^ 0xFFFFu16 == 0xFFFFu16) by (bit_vector);
    } else {
        lemma_crc_register_xor3(a.drop_last(), b.drop_last(), c.drop_last());
        assert(x.drop_last() =~= xor3(a.drop_last(), b.drop_last(), c.drop_last()));
        let (ra, rb, rc) = (crc_register(a.drop_last()), crc_register(b.drop_last()), crc_register(c.drop_last()));
        let (la, lb, lc) = (a.last(), b.last(), c.last());
        assert(x.last() == la ^ lb ^ lc);
        assert((ra ^ ((la as u16) << 8u16)) ^ (rb ^ ((lb as u16) << 8u16)) ^ (rc ^ ((lc as u16) << 8u16))
            == (ra ^ rb ^ rc) ^ (((la ^ lb ^ lc) as u16) << 8u16)) by (bit_vector);
        lemma_crc_shifts_xor3(
            ra ^ ((la as u16) << 8u16),
            rb ^ ((lb as u16) << 8u16),
            rc ^ ((lc as u16) << 8u16),
            8,
        );
    }
}

/// For inputs of one length the checksum is affine: the checksums of three
/// inputs XOR to the checksum of their bytewise XOR.
pub proof fn lemma_crc16_genibus_affine(a: Seq<u8>, b: Seq<u8>, c: Seq<u8>)
    requires
        a.len() == b.len(),
        b.len() == c.len(),
    ensures
        crc16_genibus_of(a) ^ crc16_genibus_of(b) ^ crc16_genibus_of(c) == crc16_genibus_of(xor3(a, b, c)),
{
    lemma_crc_register_xor3(a, b, c);
    let (ra, rb, rc, rx) = (crc_register(a), crc_register(b), crc_register(c), crc_register(xor3(a, b, c)));
    assert((ra ^ 0xFFFFu16) ^ (rb ^ 0xFFFFu16) ^ (rc ^ 0xFFFFu16) == rx ^ 0xFFFFu16) by (bit_vector)
        requires
            ra ^ rb ^ rc == rx,
    ;
}

/// CRC-16/GENIBUS of `data`.
pub fn crc16_genibus(data: &[u8]) -> (crc: u16)
    ensures
        crc == crc16_genibus_of(data@),
{
    let mut crc: u16 = 0xFFFF;
    let mut i: usize = 0;
    while i < data.len()
        invariant
            i <= data@.len(),
            crc == crc_register(data@.subrange(0, i as int)),
        decreases data@.len() - i,
    {
        let byte = data[i];
        let start: u16 = crc ^ ((byte as u16) << 8u16);
        crc = start;
        let mut k: usize = 0;
        while k < 8
            invariant
                k <= 8,
                crc == crc_shifts(start, k as nat),
            decreases 8 - k,
        {
            crc = if crc & 0x8000 != 0 {
                (crc << 1u16) ^ 0x1021
            } else {
                crc << 1u16
            };
            k = k + 1;
        }
        assert(data@.subrange(0, i + 1).drop_last() =~= data@.subrange(0, i as int));
        i = i + 1;
    }
    assert(data@.subrange(0, data@.len() as int) =~= data@);
    crc ^ 0xFFFF
}

// ---------------------------------------------------------------------------
// Reading big-endian fields through zerocopy
// ---------------------------------------------------------------------------

/// `zerocopy::byteorder::U16::<BigEndian>::get` on the value that `from_bytes`
/// makes of `bytes`: the two bytes read as a big-endian number.
#[verifier::external_body]
fn be_u16(bytes: [u8; 2]) -> (v: u16)
    ensures
        v as int == bytes@[0] * 256 + bytes@[1],
{
    zerocopy::byteorder::U16::<zerocopy::byteorder::BigEndian>::from_bytes(bytes).get()
}

/// `zerocopy::byteorder::U32::<BigEndian>::get` on the value that `from_bytes`
/// makes of `bytes`: the four bytes read as a big-endian number.
#[verifier::external_body]
fn be_u32(bytes: [u8; 4]) -> (v: u32)
    ensures
        v as int == bytes@[0] * 16777216 + bytes@[1] * 65536 + bytes@[2] * 256 + bytes@[3],
{
    zerocopy::byteorder::U32::<zerocopy::byteorder::BigEndian>::from_bytes(bytes).get()
}

fn field_u16(data: &[u8], off: usize) -> (v: u16)
    requires
        off + 2 <= data@.len(),
    ensures
        v as int == be_u16_at(data@, off as int),
{
    let bytes = [data[off], data[off + 1]];
    be_u16(bytes)
}

fn field_u32(data: &[u8], off: usize) -> (v: u32)
    requires
        off + 4 <= data@.len(),
    ensures
        v as int == be_u32_at(data@, off as int),
{
    let bytes = [data[off], data[off + 1], data[off + 2], data[off + 3]];
    be_u32(bytes)
}

// ---------------------------------------------------------------------------
// The header
// ---------------------------------------------------------------------------

pub open spec fn ps_payload_len(d: Seq<u8>) -> int {
    be_u32_at(d, LEN_OFFSET as int)
}

pub open spec fn ps_len1(d: Seq<u8>) -> int {
    be_u32_at(d, LEN1_OFFSET as int)
}

pub open spec fn ps_len2(d: Seq<u8>) -> int {
    be_u32_at(d, LEN2_OFFSET as int)
}

pub open spec fn ps_load_address(d: Seq<u8>) -> int {
    be_u32_at(d, ADDR_OFFSET as int)
}

pub open spec fn ps_timestamp(d: Seq<u8>) -> int {
    be_u32_at(d, TIME_OFFSET as int)
}

/// The bytes of the file name field.
pub open spec fn ps_name(d: Seq<u8>) -> Seq<u8> {
    d.subrange(NAME_OFFSET as int, (NAME_OFFSET + NAME_SIZE) as int)
}

/// The payload as the header describes it.
pub open spec fn ps_payload(d: Seq<u8>) -> Payload {
    if d[CTRL_SPLIT_OFFSET as int] == 0 {
        Payload::Single { len: ps_payload_len(d) as usize }
    } else {
        Payload::Split { first_len: ps_len1(d) as usize, second_len: ps_len2(d) as usize }
    }
}

/// `d` starts with a ProgramStore header that the parser accepts.
pub open spec fn program_store_header_accepted(d: Seq<u8>) -> bool {
    &&& d.len() >= HEADER_SIZE
    &&& d[CTRL_COMPRESSION_OFFSET as int] <= 5
    &&& d[CTRL_SPLIT_OFFSET as int] == 0 || d[CTRL_SPLIT_OFFSET as int] == 1
    // the last byte of the name field is its NUL terminator
    &&& d[NAME_OFFSET + NAME_SIZE - 1] == 0
    &&& forall|i: int| PAD_OFFSET <= i < PAD_OFFSET + PAD_SIZE ==> #[trigger] d[i] == 0
    &&& be_u16_at(d, RESERVED_OFFSET as int) == 0
    &&& 0 < ps_payload_len(d) <= d.len() - HEADER_SIZE
    &&& ps_load_address(d) % 4 == 0
    &&& ps_timestamp(d) == 0 || ps_timestamp(d) >= MIN_TIMESTAMP
    &&& if d[CTRL_SPLIT_OFFSET as int] == 0 {
        ps_len2(d) == 0 && (ps_len1(d) == 0 || ps_len1(d) == ps_payload_len(d))
    } else {
        ps_len1(d) + ps_len2(d) <= ps_payload_len(d)
    }
    &&& crc16_genibus_of(d.subrange(0, HCS_OFFSET as int)) == be_u16_at(d, HCS_OFFSET as int)
    // the file name is not empty
    &&& d[NAME_OFFSET as int] != 0
}

/// `h` holds what the ProgramStore header at the start of `d` says.
pub open spec fn program_store_header_matches(h: ProgramStoreHeader, d: Seq<u8>) -> bool {
    &&& h.sig@ == d.subrange(0, 2)
    &&& compression_of(d[CTRL_COMPRESSION_OFFSET as int]) == Some(h.compression)
    &&& h.payload == ps_payload(d)
    &&& h.major_rev == be_u16_at(d, MAJ_OFFSET as int)
    &&& h.minor_rev == be_u16_at(d, MIN_OFFSET as int)
    &&& h.timestamp == ps_timestamp(d)
    &&& h.total_len == HEADER_SIZE + ps_payload_len(d)
    &&& h.load_address == ps_load_address(d)
    &&& h.filename@ == cstring_chars(ps_name(d))
}

/// Parses the ProgramStore header at the start of `data`.
pub fn parse_program_store_header(data: &[u8]) -> (result: Result<ProgramStoreHeader, StructureError>)
    ensures
        result.is_ok() <==> program_store_header_accepted(data@),
        result matches Ok(h) ==> program_store_header_matches(h, data@),
        // an accepted image lies within the data
        result matches Ok(h) ==> h.total_len <= data@.len(),
        // an accepted image loads at a 4-byte aligned address
        result is Ok ==> be_u32_at(data@, 16) % 4 == 0,
{
    if data.len() < HEADER_SIZE {
        return Err(StructureError);
    }
    let rest_len = data.len() - HEADER_SIZE;
    let ctrl_split = data[CTRL_SPLIT_OFFSET];
    let Some(compression) = parse_compression(data[CTRL_COMPRESSION_OFFSET]) else {
        return Err(StructureError);
    };
    if ctrl_split != 0 && ctrl_split != 1 {
        return Err(StructureError);
    }
    // Last byte of the name field must be NUL
    if data[NAME_OFFSET + NAME_SIZE - 1] != 0 {
        return Err(StructureError);
    }
    let mut i: usize = PAD_OFFSET;
    while i < PAD_OFFSET + PAD_SIZE
        invariant
            PAD_OFFSET <= i <= PAD_OFFSET + PAD_SIZE,
            data@.len() >= HEADER_SIZE,
            forall|j: int| PAD_OFFSET <= j < i ==> #[trigger] data@[j] == 0,
        decreases PAD_OFFSET + PAD_SIZE - i,
    {
        if data[i] != 0 {
            return Err(StructureError);
        }
        i = i + 1;
    }
    if field_u16(data, RESERVED_OFFSET) != 0 {
        return Err(StructureError);
    }
    let len = field_u32(data, LEN_OFFSET);
    let payload_len = len as usize;
    if payload_len == 0 {
        return Err(StructureError);
    }
    if payload_len > rest_len {
        return Err(StructureError);
    }
    let addr = field_u32(data, ADDR_OFFSET);
    assert(addr & 3 == addr % 4) by (bit_vector);
    if addr & 0x3 != 0 {
        return Err(StructureError);
    }
    let time = field_u32(data, TIME_OFFSET);
    if time != 0 && time < MIN_TIMESTAMP {
        return Err(StructureError);
    }
    let len1 = field_u32(data, LEN1_OFFSET);
    let len2 = field_u32(data, LEN2_OFFSET);
    let payload = if ctrl_split == 0 {
        if len2 != 0 {
            return Err(StructureError);
        }
        let single_len = if len1 != 0 {
            if len1 != len {
                return Err(StructureError);
            }
            len1
        } else {
            len
        };
        Payload::Single { len: single_len as usize }
    } else {
        let first_len = len1 as usize;
        let second_len = len2 as usize;
        match first_len.checked_add(second_len) {
            None => {
                return Err(StructureError);
            },
            Some(total) => {
                if total > payload_len {
                    return Err(StructureError);
                }
            },
        }
        Payload::Split { first_len, second_len }
    };
    let hcs_input = &data[0..HCS_OFFSET];
    if crc16_genibus(hcs_input) != field_u16(data, HCS_OFFSET) {
        return Err(StructureError);
    }
        let name_bytes = &data[NAME_OFFSET..NAME_OFFSET + NAME_SIZE];
    assert(name_bytes@ == ps_name(data@));
    assert(name_bytes@[0] == data@[NAME_OFFSET as int]);
    let filename = get_cstring(name_bytes);
    if filename.as_str().is_empty() {
        proof {
            lemma_cstring_len_bounds(name_bytes@);
            assert(cstring_len(name_bytes@) == 0);
        }
        return Err(StructureError);
    }
    proof {
        if name_bytes@[0] == 0 {
            assert(cstring_chars(name_bytes@).len() == 0);
        }
    }
    let header = ProgramStoreHeader {
        sig: [data[0], data[1]],
        compression,
        payload,
        major_rev: field_u16(data, MAJ_OFFSET),
        minor_rev: field_u16(data, MIN_OFFSET),
        timestamp: time,
        total_len: HEADER_SIZE + payload_len,
        load_address: addr,
        filename,
    };
    assert(header.sig@ =~= data@.subrange(0, 2));
    Ok(header)
}

/// The checks of a ProgramStore header, byte by byte: the header has its 92
/// bytes; the compression code is at most 5; the split byte is 0 or 1; byte 67
/// (the last of the name) and the pad bytes 68 to 75 are zero; the reserved
/// bytes 86 and 87 are zero; the payload length is not zero and the payload
/// fits after the header; the load address is divisible by 4; the build time
/// is 0 or not before 1998-09-01; a single image has no second length and a
/// first length of 0 or the payload length; a split image's two lengths fit in
/// the payload; the checksum at 84 matches bytes 0 to 83; the name is not
/// empty. A header is accepted exactly when all of them hold.
pub proof fn lemma_program_store_acceptance(d: Seq<u8>)
    ensures
        program_store_header_accepted(d) <==> {
            &&& d.len() >= 92
            &&& d[3] <= 5
            &&& d[2] == 0 || d[2] == 1
            &&& d[67] == 0
            &&& forall|i: int| 68 <= i < 76 ==> #[trigger] d[i] == 0
            &&& d[86] == 0 && d[87] == 0
            &&& 0 < be_u32_at(d, 12)
            &&& 92 + be_u32_at(d, 12) <= d.len()
            &&& be_u32_at(d, 16) % 4 == 0
            &&& be_u32_at(d, 8) == 0 || be_u32_at(d, 8) >= 904_608_000
            &&& d[2] == 0 ==> be_u32_at(d, 80) == 0 && (be_u32_at(d, 76) == 0 || be_u32_at(d, 76) == be_u32_at(d, 12))
            &&& d[2] == 1 ==> be_u32_at(d, 76) + be_u32_at(d, 80) <= be_u32_at(d, 12)
            &&& crc16_genibus_of(d.subrange(0, 84)) == d[84] * 256 + d[85]
            &&& d[20] != 0
        },
{
}

/// The compression control byte codes 0 as none, 1 as LZ, 2 as LZO, 3 as
/// reserved, 4 as NRV2B and 5 as LZMA, and no other value.
pub proof fn lemma_compression_codes(b: u8)
    ensures
        b == 0 ==> compression_name(compression_of(b)->0) == "none"@,
        b == 1 ==> compression_name(compression_of(b)->0) == "LZ"@,
        b == 2 ==> compression_name(compression_of(b)->0) == "LZO"@,
        b == 3 ==> compression_name(compression_of(b)->0) == "reserved"@,
        b == 4 ==> compression_name(compression_of(b)->0) == "NRV2B"@,
        b == 5 ==> compression_name(compression_of(b)->0) == "LZMA"@,
        compression_of(b) is Some <==> b <= 5,
{
}

} // verus!

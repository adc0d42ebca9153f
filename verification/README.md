# binwalk_ng (jzlzma and ProgramStore)

Recognition and extraction of two firmware container formats, verified with Verus:

- the jzlzma `mark_rootfs_lzma` wrapper (little-endian header with the magic 0x27051956);
- the Broadcom ProgramStore image (92-byte big-endian header checked by CRC-16/GENIBUS).

Layout:

- `src/structures/` parses the headers; each parser states exactly which bytes it accepts
  and what it reads from them.
- `src/signatures/` validates a match found by its magic bytes and describes it.
- `src/extractors/` decides what to carve out of a file (`extract_program_store`) and
  records the outcome of each carve.
- `src/common.rs` holds C-string reading, decimal and hexadecimal numerals, and the UTC
  time stamp text, with proofs that the calendar arithmetic is right.
- `app/` writes the carved files and runs the jzlzma decompressor script.

//! What the extractors share.
use vstd::prelude::*;

verus! {

/// The extraction routines built into the library.
#[derive(Debug, Clone, Copy, PartialEq, Eq, Structural)]
pub enum InternalExtractor {
    /// Decompresses jzlzma data.
    Jzlzma,
    /// Carves the images out of a ProgramStore file.
    ProgramStore,
}

/// How a match is extracted.
#[derive(Debug, Clone)]
pub enum ExtractorType {
    /// By running the named outside program.
    External(String),
    /// By one of the library's own routines.
    Internal(InternalExtractor),
    /// Not at all.
    Absent,
}

/// An extraction method for one kind of match.
#[derive(Debug, Clone)]
pub struct Extractor {
    pub utility: ExtractorType,
    /// File extension that the outside program expects, if any.
    pub extension: String,
    /// Arguments for the outside program.
    pub arguments: Vec<String>,
    /// Exit codes of the outside program that mean success.
    pub exit_codes: Vec<i32>,
    /// Do not scan what was extracted.
    pub do_not_recurse: bool,
}

/// All fields of `e` but `utility` hold their default value.
pub open spec fn extractor_other_fields_default(e: Extractor) -> bool {
    &&& e.extension@ == Seq::<char>::empty()
    &&& e.arguments@.len() == 0
    &&& e.exit_codes@.len() == 0
    &&& !e.do_not_recurse
}

impl Default for Extractor {
    fn default() -> (e: Self)
        ensures
            e.utility is Absent,
            extractor_other_fields_default(e),
    {
        Extractor {
            utility: ExtractorType::Absent,
            extension: String::new(),
            arguments: Vec::new(),
            exit_codes: Vec::new(),
            do_not_recurse: false,
        }
    }
}

/// The outcome of an extraction.
#[derive(Debug, Clone)]
pub struct ExtractionResult {
    /// Length of the data that was (or would be) extracted.
    pub size: Option<usize>,
    pub success: bool,
    /// Name of the outside program that ran, if any.
    pub extractor: String,
    /// Do not scan what was extracted.
    pub do_not_recurse: bool,
    /// Where the extracted files were written.
    pub output_directory: String,
}

/// The fields of `r` that extractors here never set hold their default value.
pub open spec fn result_other_fields_default(r: ExtractionResult) -> bool {
    &&& r.extractor@ == Seq::<char>::empty()
    &&& !r.do_not_recurse
    &&& r.output_directory@ == Seq::<char>::empty()
}

impl Default for ExtractionResult {
    fn default() -> (r: Self)
        ensures
            r.size is None,
            !r.success,
            result_other_fields_default(r),
    {
        ExtractionResult {
            size: None,
            success: false,
            extractor: String::new(),
            do_not_recurse: false,
            output_directory: String::new(),
        }
    }
}

/// A request to copy `size` bytes from `start` on into a file called `name`.
#[derive(Debug, Clone)]
pub struct CarveRequest {
    pub name: String,
    pub start: usize,
    pub size: usize,
}

/// Records whether one carve of an extraction succeeded, and says whether the
/// extraction goes on: the first failed carve makes the extraction fail and
/// ends it.
pub fn record_carve_outcome(result: &mut ExtractionResult, carved: bool) -> (go_on: bool)
    ensures
        final(result).success == (old(result).success && carved),
        final(result).size == old(result).size,
        final(result).extractor == old(result).extractor,
        final(result).do_not_recurse == old(result).do_not_recurse,
        final(result).output_directory == old(result).output_directory,
        go_on == carved,
{
    if !carved {
        result.success = false;
    }
    carved
}

} // verus!

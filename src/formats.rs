//! Choosing the format of an object file and parsing it.
//!
//! Formats are probed in a fixed order and the first whose check accepts
//! the bytes parses them. A parse failure after an accepted check is final:
//! only a rejected check moves on to the next format. Checks and parsers
//! read the same immutable bytes, so a probe consumes nothing that the
//! parse after it would need.
use crate::error::{result_view, LoadError};
use crate::lc3tools::{
    decode_lc3tools, has_lc3tools_header, loadables_from, Lc3Tools, Lc3ToolsObjFile,
    Lc3ToolsObjFileView,
};
use crate::lumetta::{lumetta_pairs, lumetta_size_ok, Lumetta, LumettaObjFile};
use crate::Loadable;
use vstd::prelude::*;

verus! {

/// The object file formats this crate understands.
#[derive(Debug, Clone, Copy, PartialEq, Eq, Structural)]
pub enum ObjFileFormat {
    /// The tagged-record layout of the LC3Tools assembler.
    Lc3Tools,
    /// The origin-then-words layout of Lumetta's assembler.
    Lumetta,
}

/// What a parsed object file holds.
pub enum ObjFileView {
    Lc3Tools(Lc3ToolsObjFileView),
    Lumetta(Seq<Loadable>),
}

/// The pairs that a parsed object file loads, in load order.
pub open spec fn obj_loadables(o: ObjFileView) -> Seq<Loadable> {
    match o {
        ObjFileView::Lc3Tools(f) => loadables_from(f.entries, 0),
        ObjFileView::Lumetta(pairs) => pairs,
    }
}

impl ObjFileFormat {
    /// Whether this format's check accepts `b`.
    pub open spec fn accepts(self, b: Seq<u8>) -> bool {
        match self {
            ObjFileFormat::Lc3Tools => has_lc3tools_header(b),
            ObjFileFormat::Lumetta => lumetta_size_ok(b.len() as int),
        }
    }

    /// What parsing `b` in this format gives.
    pub open spec fn parsed(self, b: Seq<u8>) -> Result<ObjFileView, LoadError> {
        match self {
            ObjFileFormat::Lc3Tools => match decode_lc3tools(b) {
                Ok(f) => Ok(ObjFileView::Lc3Tools(f)),
                Err(e) => Err(e),
            },
            ObjFileFormat::Lumetta => if lumetta_size_ok(b.len() as int) {
                Ok(ObjFileView::Lumetta(lumetta_pairs(b)))
            } else {
                Err(LoadError::SizeConstraintViolation)
            },
        }
    }

    /// A human-readable name of the format.
    pub fn name(&self) -> (r: &'static str)
        ensures
            r@ == match self {
                ObjFileFormat::Lc3Tools => "an LC3Tools Object File"@,
                ObjFileFormat::Lumetta => "an Object File for Steven S. Lumetta's simulator and assembler"@,
            },
    {
        match self {
            ObjFileFormat::Lc3Tools => "an LC3Tools Object File",
            ObjFileFormat::Lumetta => "an Object File for Steven S. Lumetta's simulator and assembler",
        }
    }

    /// Whether this format's check accepts `bytes`.
    pub fn matches(&self, bytes: &[u8]) -> (r: bool)
        ensures
            r == self.accepts(bytes@),
    {
        match self {
            ObjFileFormat::Lc3Tools => Lc3Tools::file_matches_format(bytes),
            ObjFileFormat::Lumetta => Lumetta::file_matches_format(bytes),
        }
    }

    /// Parses `bytes` in this format.
    pub fn parse(&self, bytes: &[u8]) -> (r: Result<ObjFile, LoadError>)
        ensures
            result_view(r) == self.parsed(bytes@),
    {
        match self {
            ObjFileFormat::Lc3Tools => match Lc3Tools::parse(bytes) {
                Ok(f) => Ok(ObjFile::Lc3Tools(f)),
                Err(e) => Err(e),
            },
            ObjFileFormat::Lumetta => match Lumetta::parse(bytes) {
                Ok(f) => Ok(ObjFile::Lumetta(f)),
                Err(e) => Err(e),
            },
        }
    }
}

/// A parsed object file of either format.
#[derive(Debug, Clone, PartialEq, Eq)]
pub enum ObjFile {
    Lc3Tools(Lc3ToolsObjFile),
    Lumetta(LumettaObjFile),
}

impl View for ObjFile {
    type V = ObjFileView;

    open spec fn view(&self) -> ObjFileView {
        match self {
            ObjFile::Lc3Tools(f) => ObjFileView::Lc3Tools(f@),
            ObjFile::Lumetta(f) => ObjFileView::Lumetta(f@),
        }
    }
}

impl ObjFile {
    /// The pairs the file loads, in load order.
    pub fn into_loadables(self) -> (r: Vec<Loadable>)
        ensures
            r@ == obj_loadables(self@),
    {
        match self {
            ObjFile::Lc3Tools(f) => f.to_loadables(),
            ObjFile::Lumetta(f) => f.into_loadables(),
        }
    }
}

/// The formats to probe, in order: those with magic bytes before Lumetta's,
/// whose check is a size test that many files pass.
pub fn default_formats() -> (r: Vec<ObjFileFormat>)
    ensures
        r@ == seq![ObjFileFormat::Lc3Tools, ObjFileFormat::Lumetta],
{
    let r = vec![ObjFileFormat::Lc3Tools, ObjFileFormat::Lumetta];
    assert(r@ =~= seq![ObjFileFormat::Lc3Tools, ObjFileFormat::Lumetta]);
    r
}

/// The first of `formats` whose check accepts `b`.
pub open spec fn first_match(formats: Seq<ObjFileFormat>, b: Seq<u8>) -> Option<ObjFileFormat>
    decreases formats.len(),
{
    if formats.len() == 0 {
        None
    } else if formats[0].accepts(b) {
        Some(formats[0])
    } else {
        first_match(formats.drop_first(), b)
    }
}

/// Parses `bytes` as `format` if that format's check accepts them; if it
/// does not, the error names `format` as the one format tried.
pub fn try_format(format: ObjFileFormat, bytes: &[u8]) -> (r: Result<ObjFile, LoadError>)
    ensures
        format.accepts(bytes@) ==> result_view(r) == format.parsed(bytes@),
        !format.accepts(bytes@) ==> (r matches Err(LoadError::UnrecognizedFormat(tried))
            && tried@ == seq![format]),
{
    if !format.matches(bytes) {
        let tried = vec![format];
        assert(tried@ =~= seq![format]);
        return Err(LoadError::UnrecognizedFormat(tried));
    }
    format.parse(bytes)
}

/// Parses `bytes` in the first of `candidates` whose check accepts them, and
/// returns that format with the parsed file. When none accepts them, the
/// error holds all of `candidates`.
pub fn load_object(bytes: &[u8], candidates: &Vec<ObjFileFormat>) -> (r: Result<
    (ObjFileFormat, ObjFile),
    LoadError,
>)
    ensures
        match first_match(candidates@, bytes@) {
            None => r matches Err(LoadError::UnrecognizedFormat(tried)) && tried@ == candidates@,
            Some(f) => match r {
                Ok((g, o)) => g == f && f.parsed(bytes@) == Ok::<ObjFileView, LoadError>(o@),
                Err(e) => f.parsed(bytes@) == Err::<ObjFileView, LoadError>(e),
            },
        },
{
    let mut tried: Vec<ObjFileFormat> = Vec::new();
    let mut i: usize = 0;
    assert(candidates@.skip(0) =~= candidates@);
    while i < candidates.len()
        invariant
            i <= candidates@.len(),
            tried@ == candidates@.subrange(0, i as int),
            first_match(candidates@, bytes@) == first_match(candidates@.skip(i as int), bytes@),
        decreases candidates@.len() - i,
    {
        let f = candidates[i];
        if f.matches(bytes) {
            return match f.parse(bytes) {
                Ok(o) => Ok((f, o)),
                Err(e) => Err(e),
            };
        }
        assert(candidates@.skip(i as int).drop_first() =~= candidates@.skip(i + 1));
        tried.push(f);
        assert(tried@ =~= candidates@.subrange(0, i + 1));
        i = i + 1;
    }
    assert(tried@ =~= candidates@);
    Err(LoadError::UnrecognizedFormat(tried))
}

/// A file that starts with the LC3Tools magic bytes is taken as an LC3Tools
/// file by the default probe order, whatever its length.
pub proof fn lemma_magic_selects_lc3tools(b: Seq<u8>)
    requires
        has_lc3tools_header(b),
    ensures
        first_match(seq![ObjFileFormat::Lc3Tools, ObjFileFormat::Lumetta], b) == Some(
            ObjFileFormat::Lc3Tools,
        ),
{
}

} // verus!

//! Object files of the LC3Tools assembler.
//!
//! Layout, integers little-endian:
//!
//! ```text
//! [0:5]  magic 1C 30 15 C0 01
//! [5:7]  version (u16)
//! then records, each:
//!   [+0:2]  word (u16)
//!   [+2:3]  origin flag (0 = data, 1 = origin)
//!   [+3:7]  annotation length (u32)
//!   [+7:..] annotation bytes
//! ```
//!
//! Decoding is strict: bytes that end part-way through a record are reported
//! as [`LoadError::Truncated`] instead of being taken as the end of the file.
use crate::bytes::{le16, le32, read_u16_le, read_u32_le};
use crate::error::{result_view, LoadError};
use crate::{addr_after, lemma_addr_after_step, Loadable};
use vstd::arithmetic::div_mod::lemma_fundamental_div_mod;
use vstd::prelude::*;
use vstd::slice::{slice_subrange, slice_to_vec};

verus! {

/// Whether `b` starts with the magic bytes `1C 30 15 C0 01`.
pub open spec fn has_lc3tools_header(b: Seq<u8>) -> bool {
    &&& b.len() >= 5
    &&& b[0] == 0x1c
    &&& b[1] == 0x30
    &&& b[2] == 0x15
    &&& b[3] == 0xc0
    &&& b[4] == 0x01
}

/// What a record says: a word, whether it is an origin marker, and its
/// annotation.
pub struct MemEntryView {
    pub word: u16,
    pub orig: bool,
    pub line: Seq<u8>,
}

/// The length in bytes of the record at the start of `b`.
pub open spec fn record_len(b: Seq<u8>) -> int {
    7 + le32(b, 3)
}

/// The record at the start of `b`, read as its fields say.
pub open spec fn record_entry(b: Seq<u8>) -> MemEntryView {
    MemEntryView { word: le16(b, 0) as u16, orig: b[2] == 1, line: b.subrange(7, record_len(b)) }
}

/// `r` with `prefix` put in front of its records.
pub open spec fn prepend_records(
    prefix: Seq<MemEntryView>,
    r: Result<Seq<MemEntryView>, LoadError>,
) -> Result<Seq<MemEntryView>, LoadError> {
    match r {
        Ok(rest) => Ok(prefix + rest),
        Err(e) => Err(e),
    }
}

/// The records that `b` consists of, or the first fault in them.
pub open spec fn decode_records(b: Seq<u8>) -> Result<Seq<MemEntryView>, LoadError>
    decreases b.len(),
{
    if b.len() == 0 {
        Ok(Seq::empty())
    } else if b.len() < 3 {
        Err(LoadError::Truncated)
    } else if b[2] > 1 {
        Err(LoadError::InvalidOriginFlag(b[2]))
    } else if b.len() < 7 || b.len() < record_len(b) {
        Err(LoadError::Truncated)
    } else {
        prepend_records(seq![record_entry(b)], decode_records(b.skip(record_len(b))))
    }
}

/// What an LC3Tools object file holds: its version bytes and its records.
pub struct Lc3ToolsObjFileView {
    pub version: Seq<u8>,
    pub entries: Seq<MemEntryView>,
}

/// The LC3Tools object file that `b` encodes, or why it encodes none.
pub open spec fn decode_lc3tools(b: Seq<u8>) -> Result<Lc3ToolsObjFileView, LoadError> {
    if !has_lc3tools_header(b) {
        Err(LoadError::MalformedHeader)
    } else if b.len() < 7 {
        Err(LoadError::Truncated)
    } else {
        match decode_records(b.skip(7)) {
            Ok(entries) => Ok(Lc3ToolsObjFileView { version: b.subrange(5, 7), entries }),
            Err(e) => Err(e),
        }
    }
}

/// The pairs that `entries` load, starting with the address cursor at
/// `cursor`: an origin record moves the cursor, a data record is written at
/// the cursor, which then advances by one, wrapping at 0x10000.
pub open spec fn loadables_from(entries: Seq<MemEntryView>, cursor: u16) -> Seq<Loadable>
    decreases entries.len(),
{
    if entries.len() == 0 {
        Seq::empty()
    } else if entries[0].orig {
        loadables_from(entries.drop_first(), entries[0].word)
    } else {
        seq![(cursor, entries[0].word)] + loadables_from(
            entries.drop_first(),
            addr_after(cursor, 1),
        )
    }
}

/// One record of an LC3Tools object file. The annotation is kept as the
/// bytes the file holds: it is descriptive text and plays no part in
/// addresses.
#[derive(Debug, Clone, PartialEq, Eq)]
pub struct MemEntry {
    word: u16,
    orig: bool,
    line: Vec<u8>,
}

impl View for MemEntry {
    type V = MemEntryView;

    closed spec fn view(&self) -> MemEntryView {
        MemEntryView { word: self.word, orig: self.orig, line: self.line@ }
    }
}

impl MemEntry {
    /// The record's word: an address for an origin marker, else data.
    pub fn word(&self) -> (r: u16)
        ensures
            r == self@.word,
    {
        self.word
    }

    /// Whether the record is an origin marker.
    pub fn is_origin(&self) -> (r: bool)
        ensures
            r == self@.orig,
    {
        self.orig
    }

    /// The record's annotation, as the bytes the file holds.
    pub fn line(&self) -> (r: &Vec<u8>)
        ensures
            r@ == self@.line,
    {
        &self.line
    }
}

/// A parsed LC3Tools object file.
#[derive(Debug, Clone, PartialEq, Eq)]
pub struct Lc3ToolsObjFile {
    version: [u8; 2],
    memory_entries: Vec<MemEntry>,
}

impl View for Lc3ToolsObjFile {
    type V = Lc3ToolsObjFileView;

    closed spec fn view(&self) -> Lc3ToolsObjFileView {
        Lc3ToolsObjFileView {
            version: self.version@,
            entries: self.memory_entries@.map_values(|e: MemEntry| e@),
        }
    }
}

impl Lc3ToolsObjFile {
    /// The version field, read little-endian.
    pub fn get_version(&self) -> (r: u16)
        ensures
            r == le16(self@.version, 0),
    {
        read_u16_le(self.version.as_slice())
    }

    /// Whether the file has the one version known to parse as described
    /// (bytes `01 01`). Files of other versions parse the same way.
    pub fn is_tested_version(&self) -> (r: bool)
        ensures
            r == (self@.version == seq![1u8, 1u8]),
    {
        let r = self.version[0] == 1 && self.version[1] == 1;
        assert(r == (self@.version =~= seq![1u8, 1u8]));
        r
    }

    /// The records, in file order.
    pub fn entries(&self) -> (r: &Vec<MemEntry>)
        ensures
            r@.map_values(|e: MemEntry| e@) == self@.entries,
    {
        &self.memory_entries
    }

    /// The `(address, word)` pairs the records load, in record order.
    pub fn to_loadables(&self) -> (r: Vec<Loadable>)
        ensures
            r@ == loadables_from(self@.entries, 0),
    {
        let ghost entries = self@.entries;
        let mut out: Vec<Loadable> = Vec::new();
        let mut addr: u16 = 0;
        let mut i: usize = 0;
        assert(entries.skip(0) =~= entries);
        assert(out@ + loadables_from(entries, 0) =~= loadables_from(entries, 0));
        while i < self.memory_entries.len()
            invariant
                i <= self.memory_entries@.len(),
                entries == self@.entries,
                entries.len() == self.memory_entries@.len(),
                out@ + loadables_from(entries.skip(i as int), addr) == loadables_from(entries, 0),
            decreases self.memory_entries@.len() - i,
        {
            let e = &self.memory_entries[i];
            let ghost rest = entries.skip(i as int);
            assert(rest.drop_first() =~= entries.skip(i + 1));
            assert(rest[0] == e@);
            if e.orig {
                addr = e.word;
            } else {
                let ghost before = out@;
                let ghost tail = loadables_from(rest.drop_first(), addr_after(addr, 1));
                out.push((addr, e.word));
                assert(before + (seq![(addr, e.word)] + tail) =~= out@ + tail);
                addr = addr.wrapping_add(1);
            }
            i = i + 1;
        }
        assert(entries.skip(i as int) =~= Seq::<MemEntryView>::empty());
        assert(out@ + Seq::<Loadable>::empty() =~= out@);
        out
    }
}

/// The LC3Tools object file format.
#[derive(Debug, Clone, Copy, PartialEq, Eq)]
pub struct Lc3Tools;

impl Lc3Tools {
    /// Whether `bytes` starts with the LC3Tools magic bytes.
    pub fn file_matches_format(bytes: &[u8]) -> (r: bool)
        ensures
            r == has_lc3tools_header(bytes@),
    {
        bytes.len() >= 5 && bytes[0] == 0x1c && bytes[1] == 0x30 && bytes[2] == 0x15 && bytes[3]
            == 0xc0 && bytes[4] == 0x01
    }

    /// Reads the record that starts at `pos`; on success also returns where
    /// the next record starts.
    fn read_mem_entry(bytes: &[u8], pos: usize) -> (r: Result<(MemEntry, usize), LoadError>)
        requires
            pos < bytes@.len(),
        ensures
            ({
                let b = bytes@.skip(pos as int);
                match r {
                    Ok((e, next)) => {
                        &&& b.len() >= 7
                        &&& b[2] <= 1
                        &&& b.len() >= record_len(b)
                        &&& next == pos + record_len(b)
                        &&& e@ == record_entry(b)
                        &&& decode_records(b) == prepend_records(
                            seq![e@],
                            decode_records(bytes@.skip(next as int)),
                        )
                    },
                    Err(err) => {
                        &&& (b.len() < 3 || b[2] > 1 || b.len() < 7 || b.len() < record_len(b))
                        &&& decode_records(b) == Err::<Seq<MemEntryView>, LoadError>(err)
                    },
                }
            }),
    {
        let ghost b = bytes@.skip(pos as int);
        let left = bytes.len() - pos;
        if left < 3 {
            return Err(LoadError::Truncated);
        }
        let flag = bytes[pos + 2];
        if flag > 1 {
            return Err(LoadError::InvalidOriginFlag(flag));
        }
        if left < 7 {
            return Err(LoadError::Truncated);
        }
        let word = read_u16_le(slice_subrange(bytes, pos, pos + 2));
        let len = read_u32_le(slice_subrange(bytes, pos + 3, pos + 7));
        assert(len == le32(b, 3));
        assert(word == le16(b, 0));
        if left - 7 < len as usize {
            return Err(LoadError::Truncated);
        }
        let start = pos + 7;
        let next = start + len as usize;
        let line = slice_to_vec(slice_subrange(bytes, start, next));
        let e = MemEntry { word, orig: flag == 1, line };
        assert(b.skip(record_len(b)) =~= bytes@.skip(next as int));
        assert(e@ == record_entry(b)) by {
            assert(line@ =~= b.subrange(7, record_len(b)));
        }
        Ok((e, next))
    }

    /// Parses an LC3Tools object file: header, version, then records until
    /// the bytes end. A wrong header, a bad origin flag, or bytes that end
    /// inside the version or a record are errors. Any version is accepted;
    /// see [`Lc3ToolsObjFile::is_tested_version`].
    pub fn parse(bytes: &[u8]) -> (r: Result<Lc3ToolsObjFile, LoadError>)
        ensures
            result_view(r) == decode_lc3tools(bytes@),
    {
        if !Self::file_matches_format(bytes) {
            return Err(LoadError::MalformedHeader);
        }
        if bytes.len() < 7 {
            return Err(LoadError::Truncated);
        }
        let version: [u8; 2] = [bytes[5], bytes[6]];
        let mut memory_entries: Vec<MemEntry> = Vec::new();
        let mut pos: usize = 7;
        while pos < bytes.len()
            invariant
                7 <= pos <= bytes@.len(),
                has_lc3tools_header(bytes@),
                decode_records(bytes@.skip(7)) == prepend_records(
                    memory_entries@.map_values(|e: MemEntry| e@),
                    decode_records(bytes@.skip(pos as int)),
                ),
            decreases bytes@.len() - pos,
        {
            match Self::read_mem_entry(bytes, pos) {
                Ok((e, next)) => {
                    let ghost before = memory_entries@.map_values(|e: MemEntry| e@);
                    memory_entries.push(e);
                    assert(memory_entries@.map_values(|e: MemEntry| e@) =~= before + seq![e@]);
                    proof {
                        if let Ok(rest) = decode_records(bytes@.skip(next as int)) {
                            assert(before + (seq![e@] + rest) =~= (before + seq![e@]) + rest);
                        }
                    }
                    pos = next;
                },
                Err(err) => {
                    return Err(err);
                },
            }
        }
        let r = Lc3ToolsObjFile { version, memory_entries };
        assert(bytes@.skip(pos as int) =~= Seq::<u8>::empty());
        assert(r@.version =~= bytes@.subrange(5, 7));
        Ok(r)
    }
}

/// The two little-endian bytes of `w`.
pub open spec fn le16_bytes(w: u16) -> Seq<u8> {
    seq![(w % 256) as u8, (w / 256) as u8]
}

/// The four little-endian bytes of `n`, for `n` below 2^32.
pub open spec fn le32_bytes(n: nat) -> Seq<u8> {
    seq![
        (n % 256) as u8,
        (n / 256 % 256) as u8,
        (n / 256 / 256 % 256) as u8,
        (n / 256 / 256 / 256 % 256) as u8,
    ]
}

/// The bytes of one record.
pub open spec fn record_bytes(e: MemEntryView) -> Seq<u8> {
    le16_bytes(e.word) + seq![if e.orig { 1u8 } else { 0u8 }] + le32_bytes(e.line.len()) + e.line
}

/// The bytes of `entries`, one record after the other.
pub open spec fn records_bytes(entries: Seq<MemEntryView>) -> Seq<u8>
    decreases entries.len(),
{
    if entries.len() == 0 {
        Seq::empty()
    } else {
        record_bytes(entries[0]) + records_bytes(entries.drop_first())
    }
}

/// The bytes of an LC3Tools object file of `version` holding `entries`.
pub open spec fn lc3tools_bytes(version: u16, entries: Seq<MemEntryView>) -> Seq<u8> {
    seq![0x1cu8, 0x30u8, 0x15u8, 0xc0u8, 0x01u8] + le16_bytes(version) + records_bytes(entries)
}

/// Whether every annotation of `entries` has a length that fits the u32
/// length field.
pub open spec fn encodable(entries: Seq<MemEntryView>) -> bool {
    forall|i: int| 0 <= i < entries.len() ==> entries[i].line.len() < 0x1_0000_0000
}

proof fn lemma_le16_bytes(w: u16)
    ensures
        le16(le16_bytes(w), 0) == w,
{
    lemma_fundamental_div_mod(w as int, 256);
}

proof fn lemma_le32_bytes(n: nat)
    requires
        n < 0x1_0000_0000,
    ensures
        le32(le32_bytes(n), 0) == n,
{
    let q1 = n / 256;
    let q2 = q1 / 256;
    let q3 = q2 / 256;
    lemma_fundamental_div_mod(n as int, 256);
    lemma_fundamental_div_mod(q1 as int, 256);
    lemma_fundamental_div_mod(q2 as int, 256);
    lemma_fundamental_div_mod(q3 as int, 256);
    assert(q3 < 256);
}

/// The record at the start of `record_bytes(e) + tail` reads back as `e`,
/// and `tail` follows it.
proof fn lemma_record_bytes(e: MemEntryView, tail: Seq<u8>)
    requires
        e.line.len() < 0x1_0000_0000,
    ensures
        ({
            let b = record_bytes(e) + tail;
            &&& b.len() >= 7
            &&& b[2] <= 1
            &&& record_len(b) == 7 + e.line.len()
            &&& b.len() >= record_len(b)
            &&& record_entry(b) == e
            &&& b.skip(record_len(b)) == tail
        }),
{
    let n = e.line.len();
    let w = le16_bytes(e.word);
    let l = le32_bytes(n);
    let b = record_bytes(e) + tail;
    lemma_le16_bytes(e.word);
    lemma_le32_bytes(n);
    assert(b[0] == w[0] && b[1] == w[1]);
    assert(b[2] == if e.orig { 1u8 } else { 0u8 });
    assert(b[3] == l[0] && b[4] == l[1] && b[5] == l[2] && b[6] == l[3]);
    assert(record_len(b) == 7 + n);
    assert(b.subrange(7, record_len(b)) =~= e.line);
    assert(b.skip(record_len(b)) =~= tail);
}

/// Encoded records decode to themselves.
pub proof fn lemma_decode_records_bytes(entries: Seq<MemEntryView>)
    requires
        encodable(entries),
    ensures
        decode_records(records_bytes(entries)) == Ok::<Seq<MemEntryView>, LoadError>(entries),
    decreases entries.len(),
{
    if entries.len() == 0 {
        assert(records_bytes(entries) =~= Seq::<u8>::empty());
        assert(entries =~= Seq::<MemEntryView>::empty());
    } else {
        let e = entries[0];
        let rest = entries.drop_first();
        assert(encodable(rest));
        lemma_decode_records_bytes(rest);
        let b = records_bytes(entries);
        assert(b == record_bytes(e) + records_bytes(rest));
        lemma_record_bytes(e, records_bytes(rest));
        assert(b.skip(record_len(b)) == records_bytes(rest));
        assert(decode_records(b) == prepend_records(seq![e], decode_records(records_bytes(rest))));
        assert(seq![e] + rest =~= entries);
    }
}

/// Data records after the cursor is at `cursor` load at consecutive
/// addresses from `cursor` on, wrapping at 0x10000.
proof fn lemma_data_run(data: Seq<MemEntryView>, cursor: u16)
    requires
        forall|i: int| 0 <= i < data.len() ==> !data[i].orig,
    ensures
        loadables_from(data, cursor) == Seq::new(
            data.len(),
            |i: int| (addr_after(cursor, i), data[i].word),
        ),
    decreases data.len(),
{
    if data.len() > 0 {
        let rest = data.drop_first();
        lemma_data_run(rest, addr_after(cursor, 1));
        assert forall|i: int| 0 <= i < rest.len() implies addr_after(addr_after(cursor, 1), i)
            == addr_after(cursor, i + 1) by {
            lemma_addr_after_step(cursor, i);
        }
        assert(addr_after(cursor, 0) == cursor);
        assert(loadables_from(data, cursor) =~= Seq::new(
            data.len(),
            |i: int| (addr_after(cursor, i), data[i].word),
        ));
    }
}

/// An LC3Tools file of one origin record at `origin.word` followed by N data
/// records parses, and loads the N data words at `origin.word`,
/// `origin.word + 1`, ... (wrapping at 0x10000), in record order.
pub proof fn lemma_origin_then_data(version: u16, origin: MemEntryView, data: Seq<MemEntryView>)
    requires
        origin.orig,
        forall|i: int| 0 <= i < data.len() ==> !data[i].orig,
        encodable(seq![origin] + data),
    ensures
        decode_lc3tools(lc3tools_bytes(version, seq![origin] + data)) matches Ok(f) && f.entries
            == seq![origin] + data && loadables_from(f.entries, 0) == Seq::new(
            data.len(),
            |i: int| (addr_after(origin.word, i), data[i].word),
        ),
{
    let entries = seq![origin] + data;
    let header = seq![0x1cu8, 0x30u8, 0x15u8, 0xc0u8, 0x01u8];
    let b = lc3tools_bytes(version, entries);
    assert(b == header + le16_bytes(version) + records_bytes(entries));
    assert(b[0] == 0x1c && b[1] == 0x30 && b[2] == 0x15 && b[3] == 0xc0 && b[4] == 0x01);
    assert(has_lc3tools_header(b));
    assert(b.skip(7) =~= records_bytes(entries));
    lemma_decode_records_bytes(entries);
    assert(decode_records(b.skip(7)) == Ok::<Seq<MemEntryView>, LoadError>(entries));
    assert(entries.drop_first() =~= data);
    assert(loadables_from(entries, 0) == loadables_from(data, origin.word));
    lemma_data_run(data, origin.word);
}

/// The address cursor wraps: a data record loaded at 0xFFFF is followed by
/// the next data record at 0x0000.
pub proof fn lemma_address_wraps(first: MemEntryView, second: MemEntryView, rest: Seq<MemEntryView>)
    requires
        !first.orig,
        !second.orig,
    ensures
        loadables_from(seq![first, second] + rest, 0xFFFF)[0] == (0xFFFFu16, first.word),
        loadables_from(seq![first, second] + rest, 0xFFFF)[1] == (0x0000u16, second.word),
{
    let entries = seq![first, second] + rest;
    assert(entries.drop_first() =~= seq![second] + rest);
    assert((seq![second] + rest).drop_first() =~= rest);
    assert(addr_after(0xFFFF, 1) == 0);
    let tail = loadables_from(seq![second] + rest, 0);
    assert(loadables_from(entries, 0xFFFF) == seq![(0xFFFFu16, first.word)] + tail);
    assert(tail == seq![(0x0000u16, second.word)] + loadables_from(rest, addr_after(0, 1)));
}

} // verus!

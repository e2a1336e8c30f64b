//! Object files of Lumetta's LC-3 assembler: a big-endian origin word and
//! then the words to load from that address on.
use crate::bytes::{be16, read_u16_be};
use crate::error::LoadError;
use crate::{addr_after, Loadable};
use vstd::prelude::*;
use vstd::slice::slice_subrange;

verus! {

/// Whether a file of `len` bytes can be a Lumetta object file: whole words,
/// an origin and at least one word to load.
pub open spec fn lumetta_size_ok(len: int) -> bool {
    len >= 4 && len % 2 == 0
}

/// The pairs that the Lumetta file `b` loads: the `i`-th word after the
/// origin goes to the address `i` words past the origin.
pub open spec fn lumetta_pairs(b: Seq<u8>) -> Seq<Loadable> {
    Seq::new(
        ((b.len() - 2) / 2) as nat,
        |i: int| (addr_after(be16(b, 0) as u16, i), be16(b, 2 + 2 * i) as u16),
    )
}

/// A parsed Lumetta object file: its pairs, in file order.
#[derive(Debug, Clone, PartialEq, Eq)]
pub struct LumettaObjFile {
    pairs: Vec<Loadable>,
}

impl View for LumettaObjFile {
    type V = Seq<Loadable>;

    closed spec fn view(&self) -> Seq<Loadable> {
        self.pairs@
    }
}

impl LumettaObjFile {
    /// The pairs, in file order.
    pub fn pairs(&self) -> (r: &Vec<Loadable>)
        ensures
            r@ == self@,
    {
        &self.pairs
    }

    /// The pairs, in file order, taking the file apart.
    pub fn into_loadables(self) -> (r: Vec<Loadable>)
        ensures
            r@ == self@,
    {
        self.pairs
    }
}

/// The Lumetta object file format.
#[derive(Debug, Clone, Copy, PartialEq, Eq)]
pub struct Lumetta;

impl Lumetta {
    /// Whether `bytes` has a size a Lumetta file can have. The format has no
    /// magic bytes, so this accepts many files of other formats.
    pub fn file_matches_format(bytes: &[u8]) -> (r: bool)
        ensures
            r == lumetta_size_ok(bytes@.len() as int),
    {
        bytes.len() >= 4 && bytes.len() % 2 == 0
    }

    /// Parses a Lumetta object file.
    pub fn parse(bytes: &[u8]) -> (r: Result<LumettaObjFile, LoadError>)
        ensures
            match r {
                Ok(f) => lumetta_size_ok(bytes@.len() as int) && f@ == lumetta_pairs(bytes@),
                Err(e) => !lumetta_size_ok(bytes@.len() as int) && e
                    == LoadError::SizeConstraintViolation,
            },
    {
        if !Self::file_matches_format(bytes) {
            return Err(LoadError::SizeConstraintViolation);
        }
        let ghost b = bytes@;
        let origin = read_u16_be(slice_subrange(bytes, 0, 2));
        let mut addr: u16 = origin;
        let mut pairs: Vec<Loadable> = Vec::new();
        let mut pos: usize = 2;
        while pos < bytes.len()
            invariant
                b == bytes@,
                lumetta_size_ok(b.len() as int),
                origin == be16(b, 0),
                2 <= pos <= b.len(),
                pos % 2 == 0,
                pairs@.len() == (pos - 2) / 2,
                addr == addr_after(origin, pairs@.len() as int),
                forall|j: int| 0 <= j < pairs@.len() ==> pairs@[j] == lumetta_pairs(b)[j],
            decreases b.len() - pos,
        {
            let word = read_u16_be(slice_subrange(bytes, pos, pos + 2));
            assert(word == be16(b, pos as int));
            pairs.push((addr, word));
            assert(addr.wrapping_add(1) == addr_after(origin, pairs@.len() as int));
            addr = addr.wrapping_add(1);
            pos = pos + 2;
        }
        let f = LumettaObjFile { pairs };
        assert(f@ =~= lumetta_pairs(b));
        Ok(f)
    }
}

/// A Lumetta file of `2 + 2k` bytes loads exactly `k` words, at the
/// addresses `k` consecutive steps from its first word on, wrapping at
/// 0x10000.
pub proof fn lemma_lumetta_pair_count(b: Seq<u8>, k: nat)
    requires
        lumetta_size_ok(b.len() as int),
        b.len() == 2 + 2 * k,
    ensures
        lumetta_pairs(b).len() == k,
        forall|i: int| 0 <= i < k ==> (#[trigger] lumetta_pairs(b)[i]).0 == addr_after(be16(b, 0) as u16, i),
{
}

} // verus!

//! Memory images of the whole 64K-word address space, and layering
//! loadable streams onto them.
use crate::Loadable;
use lc3_isa::util::MemoryDump;
use vstd::prelude::*;

verus! {

#[verifier::external_type_specification]
#[verifier::external_body]
pub struct ExMemoryDump(MemoryDump);

/// The words of a memory dump, by address: always 0x10000 of them.
pub uninterp spec fn dump_words(d: MemoryDump) -> Seq<u16>;

/// The all-zero address space.
pub open spec fn blank_words() -> Seq<u16> {
    Seq::new(0x10000, |_a: int| 0u16)
}

/// The word that `stream` writes last at `addr`, if it writes there.
pub open spec fn last_write(stream: Seq<Loadable>, addr: int) -> Option<u16>
    decreases stream.len(),
{
    if stream.len() == 0 {
        None
    } else if stream.last().0 == addr {
        Some(stream.last().1)
    } else {
        last_write(stream.drop_last(), addr)
    }
}

/// The address space `base` once `stream` is layered on: each address that
/// `stream` writes holds the last word written there, every other address
/// keeps its word.
pub open spec fn layered(base: Seq<u16>, stream: Seq<Loadable>) -> Seq<u16> {
    Seq::new(
        0x10000,
        |a: int|
            match last_write(stream, a) {
                Some(w) => w,
                None => base[a],
            },
    )
}

/// The address space `base` once each of `layers` is layered on, in order.
pub open spec fn layered_all(base: Seq<u16>, layers: Seq<Seq<Loadable>>) -> Seq<u16>
    decreases layers.len(),
{
    if layers.len() == 0 {
        base
    } else {
        layered(layered_all(base, layers.drop_last()), layers.last())
    }
}

/// The words an image starts from: those of `base`, or all zero.
pub open spec fn base_words(base: Option<MemoryDump>) -> Seq<u16> {
    match base {
        Some(d) => dump_words(d),
        None => blank_words(),
    }
}

/// Relies on lc3-isa's `MemoryDump::blank`: an image whose every word is 0.
#[verifier::external_body]
fn blank_dump() -> (r: MemoryDump)
    ensures
        dump_words(r) == blank_words(),
{
    MemoryDump::blank()
}

/// Relies on lc3-isa's `MemoryDump::layer_loadable`, which stores each
/// pair's word at the pair's address, one pair after the other.
#[verifier::external_body]
fn layer_loadable(image: &mut MemoryDump, stream: &Vec<Loadable>)
    ensures
        dump_words(*final(image)) == layered(dump_words(*old(image)), stream@),
{
    image.layer_loadable(stream.iter().copied());
}

/// Builds a memory image: starts from `base`, or from an all-zero image when
/// there is none, and layers each of `layers` on in order, so that later
/// layers win where they overlap.
pub fn build_image(base: Option<MemoryDump>, layers: &Vec<Vec<Loadable>>) -> (r: MemoryDump)
    ensures
        dump_words(r) == layered_all(
            base_words(base),
            layers@.map_values(|l: Vec<Loadable>| l@),
        ),
{
    let ghost start = base_words(base);
    let ghost views = layers@.map_values(|l: Vec<Loadable>| l@);
    let mut image = match base {
        Some(d) => d,
        None => blank_dump(),
    };
    let mut i: usize = 0;
    assert(views.subrange(0, 0).len() == 0);
    while i < layers.len()
        invariant
            i <= layers@.len(),
            views == layers@.map_values(|l: Vec<Loadable>| l@),
            dump_words(image) == layered_all(start, views.subrange(0, i as int)),
        decreases layers@.len() - i,
    {
        layer_loadable(&mut image, &layers[i]);
        assert(views.subrange(0, i + 1).drop_last() =~= views.subrange(0, i as int));
        i = i + 1;
    }
    assert(views.subrange(0, i as int) =~= views);
    image
}

/// Where a later stream writes an address, the image ends with that
/// stream's last word there, whatever the image and the earlier stream held.
pub proof fn lemma_later_layer_wins(
    base: Seq<u16>,
    earlier: Seq<Loadable>,
    later: Seq<Loadable>,
    addr: u16,
)
    requires
        last_write(later, addr as int) is Some,
    ensures
        layered_all(base, seq![earlier, later])[addr as int] == last_write(
            later,
            addr as int,
        )->0,
{
    let layers = seq![earlier, later];
    assert(layers.drop_last() =~= seq![earlier]);
    assert(seq![earlier].drop_last() =~= Seq::<Seq<Loadable>>::empty());
    assert(layered_all(base, Seq::<Seq<Loadable>>::empty()) == base);
    assert(layered_all(base, seq![earlier]) == layered(base, earlier));
    assert(layered_all(base, layers) == layered(layered(base, earlier), later));
}

/// A stream that never writes `addr` has no last write there.
proof fn lemma_no_write(stream: Seq<Loadable>, addr: int)
    requires
        forall|j: int| 0 <= j < stream.len() ==> stream[j].0 != addr,
    ensures
        last_write(stream, addr) is None,
    decreases stream.len(),
{
    if stream.len() > 0 {
        lemma_no_write(stream.drop_last(), addr);
    }
}

/// An address that none of the layered streams writes keeps the word it had
/// before layering.
pub proof fn lemma_untouched_address_kept(
    base: Seq<u16>,
    layers: Seq<Seq<Loadable>>,
    addr: u16,
)
    requires
        forall|i: int, j: int|
            0 <= i < layers.len() && 0 <= j < layers[i].len() ==> layers[i][j].0 != addr,
    ensures
        layered_all(base, layers)[addr as int] == base[addr as int],
    decreases layers.len(),
{
    if layers.len() > 0 {
        let last = layers.last();
        assert forall|j: int| 0 <= j < last.len() implies last[j].0 != addr by {
            assert(layers[layers.len() - 1][j].0 != addr);
        }
        lemma_no_write(last, addr as int);
        lemma_untouched_address_kept(base, layers.drop_last(), addr);
    }
}

/// Which memory image a program is layered onto.
#[derive(Debug, Clone, Copy, PartialEq, Eq)]
pub enum OsStrategy<'a> {
    /// The standard operating system image.
    Default,
    /// An operating system image read from the given path.
    Custom(&'a str),
    /// An all-zero image.
    Blank,
}

impl<'a> OsStrategy<'a> {
    /// Chooses the base image: none without an OS, else the custom image if a
    /// path is given, else the standard one.
    pub fn new(with_os: bool, custom_path: Option<&'a str>) -> (r: Self)
        ensures
            !with_os ==> r is Blank,
            with_os && custom_path is None ==> r is Default,
            with_os ==> (custom_path matches Some(p) ==> r == OsStrategy::Custom(p)),
    {
        match (with_os, custom_path) {
            (false, _) => OsStrategy::Blank,
            (true, None) => OsStrategy::Default,
            (true, Some(path)) => OsStrategy::Custom(path),
        }
    }
}

} // verus!

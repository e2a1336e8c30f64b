//! Text slides turned into loadable streams, one character per word.
use crate::image::{build_image, dump_words, layered_all};
use crate::{addr_after, Loadable};
use lc3_isa::util::MemoryDump;
use vstd::arithmetic::mul::lemma_mul_inequality;
use vstd::prelude::*;
use vstd::string::StringSliceAdditionalSpecFns;

verus! {

/// The pairs that put the first `count` characters of `text` (all of them if
/// fewer) at consecutive addresses from `addr` on, each character's code
/// point cut to 16 bits.
pub open spec fn slide_pairs(count: int, addr: u16, text: Seq<char>) -> Seq<Loadable> {
    Seq::new(
        if text.len() < count { text.len() } else { count as nat },
        |i: int| (addr_after(addr, i), ((text[i] as u32) % 0x10000) as u16),
    )
}

/// Turns a slide of `width * height` characters into the pairs that store
/// it from `addr` on, one character per word.
///
/// Unless `permissive`, the slide must be exactly `width * height` bytes
/// long. If it is permissive, characters past `width * height` are left out
/// and a short slide stores only the characters it has.
pub fn slide(dimensions: (usize, usize), addr: u16, text: &str, permissive: bool) -> (r: Vec<
    Loadable,
>)
    requires
        dimensions.0 * dimensions.1 <= usize::MAX,
        !permissive ==> text.spec_bytes().len() == dimensions.0 * dimensions.1,
    ensures
        r@ == slide_pairs(dimensions.0 * dimensions.1, addr, text@),
{
    let count = dimensions.0 * dimensions.1;
    let mut out: Vec<Loadable> = Vec::new();
    let mut next: u16 = addr;
    let mut taken: usize = 0;
    for c in it: text.chars()
        invariant
            count == dimensions.0 * dimensions.1,
            taken <= count,
            taken == if it.index() < count { it.index() } else { count as int },
            next == addr_after(addr, taken as int),
            out@ == slide_pairs(count as int, addr, it.seq().take(it.index())),
    {
        if taken < count {
            let code: u32 = c as u32;
            out.push((next, (code % 0x10000) as u16));
            next = next.wrapping_add(1);
            taken = taken + 1;
        }
    }
    out
}

/// The address from which slide data is stored, after the display program.
pub const STARTING: u16 = 0x3100;

/// Where slide `idx` of `slide_len` characters starts.
pub open spec fn slide_start(idx: int, slide_len: int) -> u16 {
    (STARTING + idx * slide_len) as u16
}

/// The streams that `make_image` layers onto the OS image: the display
/// program, then each slide at its place after the previous one.
pub open spec fn deck_layers(
    dimensions: (usize, usize),
    slides: Seq<&str>,
    program: Seq<Loadable>,
) -> Seq<Seq<Loadable>> {
    let slide_len = dimensions.0 * dimensions.1;
    seq![program] + Seq::new(
        slides.len(),
        |i: int| slide_pairs(slide_len, slide_start(i, slide_len), slides[i]@),
    )
}

/// Builds the image of a slide deck: `program` (the assembled display
/// program) is layered onto `os`, and then each slide, in order, from
/// [`STARTING`] on, one slide after the other.
pub fn make_image(
    dimensions: (usize, usize),
    slides: &[&str],
    permissive: bool,
    os: MemoryDump,
    program: Vec<Loadable>,
) -> (r: MemoryDump)
    requires
        dimensions.0 * dimensions.1 <= usize::MAX,
        slides@.len() > 0 ==> STARTING + (slides@.len() - 1) * (dimensions.0 * dimensions.1)
            <= 0xFFFF,
        !permissive ==> forall|i: int|
            0 <= i < slides@.len() ==> (#[trigger] slides@[i]).spec_bytes().len() == dimensions.0
                * dimensions.1,
    ensures
        dump_words(r) == layered_all(dump_words(os), deck_layers(dimensions, slides@, program@)),
{
    let slide_len = dimensions.0 * dimensions.1;
    let ghost program_view = program@;
    let mut layers: Vec<Vec<Loadable>> = Vec::new();
    layers.push(program);
    let mut idx: usize = 0;
    while idx < slides.len()
        invariant
            slide_len == dimensions.0 * dimensions.1,
            idx <= slides@.len(),
            slides@.len() > 0 ==> STARTING + (slides@.len() - 1) * slide_len <= 0xFFFF,
            !permissive ==> forall|i: int|
                0 <= i < slides@.len() ==> (#[trigger] slides@[i]).spec_bytes().len()
                    == slide_len,
            layers@.map_values(|l: Vec<Loadable>| l@) == deck_layers(
                dimensions,
                slides@,
                program_view,
            ).take(idx + 1),
        decreases slides@.len() - idx,
    {
        proof {
            lemma_mul_inequality(idx as int, slides@.len() - 1, slide_len as int);
        }
        let offset = idx * slide_len;
        let start: u16 = STARTING + offset as u16;
        let stream = slide(dimensions, start, slides[idx], permissive);
        let ghost before = layers@.map_values(|l: Vec<Loadable>| l@);
        let ghost all = deck_layers(dimensions, slides@, program_view);
        assert(start == slide_start(idx as int, slide_len as int));
        assert(all[idx + 1] == stream@);
        let ghost pushed = stream@;
        layers.push(stream);
        assert(layers@.map_values(|l: Vec<Loadable>| l@) =~= before.push(pushed));
        assert(before.push(pushed) =~= all.take(idx + 2));
        idx = idx + 1;
    }
    assert(deck_layers(dimensions, slides@, program_view).take(idx + 1) =~= deck_layers(
        dimensions,
        slides@,
        program_view,
    ));
    build_image(Some(os), &layers)
}

} // verus!

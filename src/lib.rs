//! Loading LC-3 object files into memory images.
//!
//! Two object file layouts are understood: the tagged-record layout written
//! by the LC3Tools assembler ([`lc3tools`]) and the flat origin-then-words
//! layout of Lumetta's assembler ([`lumetta`]). Either is turned into a
//! stream of `(address, word)` pairs, which [`image`] layers onto a
//! 64K-word memory image.
use vstd::arithmetic::div_mod::lemma_add_mod_noop_right;
use vstd::prelude::*;

pub mod bytes;
pub mod error;
pub mod formats;
pub mod image;
pub mod lc3tools;
pub mod lumetta;
pub mod slides;

verus! {

/// One word to be written into the address space: `(address, word)`.
pub type Loadable = (u16, u16);

/// The address `offset` words after `origin`, wrapping around the 16-bit
/// address space.
pub open spec fn addr_after(origin: u16, offset: int) -> u16 {
    ((origin + offset) % 0x10000) as u16
}

/// Stepping one address and then `offset` more is stepping `offset + 1`.
pub proof fn lemma_addr_after_step(origin: u16, offset: int)
    ensures
        addr_after(addr_after(origin, 1), offset) == addr_after(origin, offset + 1),
{
    lemma_add_mod_noop_right(offset, origin + 1, 0x10000);
}

} // verus!

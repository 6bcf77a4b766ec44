//! Symbol ids: a 30-bit name index with a 2-bit mode above it.

use vstd::prelude::*;

verus! {

/// The role that a symbol plays; it occupies the two highest bits of an id.
#[derive(Debug, Clone, Copy, PartialEq, Eq, Structural)]
pub enum SymbolMode {
    Basic,
    Keyword,
    Module,
    Type,
}

/// Number of distinct name indices: 2^30.
pub const NAME_SPACE: u32 = 0x4000_0000;

impl SymbolMode {
    /// The two-bit number of a mode.
    pub open spec fn spec_bits(self) -> u32 {
        match self {
            SymbolMode::Basic => 0,
            SymbolMode::Keyword => 1,
            SymbolMode::Module => 2,
            SymbolMode::Type => 3,
        }
    }

    pub fn bits(self) -> (r: u32)
        ensures
            r == self.spec_bits(),
    {
        match self {
            SymbolMode::Basic => 0,
            SymbolMode::Keyword => 1,
            SymbolMode::Module => 2,
            SymbolMode::Type => 3,
        }
    }
}

/// The id that has the name index of `sym` and the mode `mode`.
pub open spec fn spec_modeize(sym: u32, mode: SymbolMode) -> u32 {
    ((sym as int) % 0x4000_0000 + (mode.spec_bits() as int) * 0x4000_0000) as u32
}

/// The name index of `sym`: the id with the mode taken off.
pub open spec fn spec_demodes(sym: u32) -> u32 {
    ((sym as int) % 0x4000_0000) as u32
}

/// The mode that `sym` carries.
pub open spec fn spec_mode_of(sym: u32) -> SymbolMode {
    let m = (sym as int) / 0x4000_0000;
    if m == 0 {
        SymbolMode::Basic
    } else if m == 1 {
        SymbolMode::Keyword
    } else if m == 2 {
        SymbolMode::Module
    } else {
        SymbolMode::Type
    }
}

/// Sets a symbol id to one of the four modes, keeping its name index.
pub fn modeize_sym(sym: u32, mode: SymbolMode) -> (r: u32)
    ensures
        r == spec_modeize(sym, mode),
{
    let low: u32 = sym & 0x3FFF_FFFF;
    let m: u32 = mode.bits();
    let high: u32 = m << 30;
    assert(low == sym % 0x4000_0000) by (bit_vector)
        requires
            low == sym & 0x3FFF_FFFF,
    ;
    assert(high == m * 0x4000_0000) by (bit_vector)
        requires
            high == m << 30,
            m <= 3,
    ;
    low + high
}

/// Returns the id in the basic mode: the bare name index.
pub fn demodes_sym(sym: u32) -> (r: u32)
    ensures
        r == spec_demodes(sym),
        r < NAME_SPACE,
{
    let low: u32 = sym & 0x3FFF_FFFF;
    assert(low == sym % 0x4000_0000) by (bit_vector)
        requires
            low == sym & 0x3FFF_FFFF,
    ;
    low
}

/// Returns the mode of a symbol id.
pub fn mode_of_sym(sym: u32) -> (r: SymbolMode)
    ensures
        r == spec_mode_of(sym),
{
    let m: u32 = sym >> 30;
    assert(m == sym / 0x4000_0000) by (bit_vector)
        requires
            m == sym >> 30,
    ;
    if m == 0 {
        SymbolMode::Basic
    } else if m == 1 {
        SymbolMode::Keyword
    } else if m == 2 {
        SymbolMode::Module
    } else {
        SymbolMode::Type
    }
}

/// Taking the mode off a freshly modeized name index gives the index back,
/// and the mode read from it is the mode that was set.
pub proof fn lemma_mode_round_trip(n: u32, m: SymbolMode)
    requires
        n < NAME_SPACE,
    ensures
        spec_demodes(spec_modeize(n, m)) == n,
        spec_mode_of(spec_modeize(n, m)) == m,
{
}

/// Two ids that differ only in mode have the same name index.
pub proof fn lemma_mode_keeps_name(sym: u32, a: SymbolMode, b: SymbolMode)
    ensures
        spec_demodes(spec_modeize(sym, a)) == spec_demodes(spec_modeize(sym, b)),
        spec_demodes(spec_modeize(sym, a)) == spec_demodes(sym),
{
}

} // verus!

//! How the drawing surface is configured from what the adapter supports.
use vstd::prelude::*;

verus! {

/// How frames are handed to the display.
#[derive(Debug, Clone, Copy, PartialEq, Eq, Structural)]
pub enum PresentMode {
    AutoVsync,
    AutoNoVsync,
    Fifo,
    FifoRelaxed,
    Immediate,
    Mailbox,
}

/// The preferred mode among `supported`: automatic vertical sync when it is
/// there, else first-in first-out, else the first one offered.
pub open spec fn preferred_present_mode(supported: Seq<PresentMode>) -> PresentMode {
    if supported.contains(PresentMode::AutoVsync) {
        PresentMode::AutoVsync
    } else if supported.contains(PresentMode::Fifo) {
        PresentMode::Fifo
    } else {
        supported[0]
    }
}

/// Whether `supported` offers `mode`.
fn offers(supported: &[PresentMode], mode: PresentMode) -> (found: bool)
    ensures
        found == supported@.contains(mode),
{
    let mut i: usize = 0;
    while i < supported.len()
        invariant
            i <= supported@.len(),
            forall|j: int| 0 <= j < i ==> supported@[j] != mode,
        decreases supported@.len() - i,
    {
        if supported[i] == mode {
            assert(supported@[i as int] == mode);
            return true;
        }
        i = i + 1;
    }
    false
}

/// The present mode to configure (see `preferred_present_mode`); the
/// adapter offers at least one.
pub fn choose_present_mode(supported: &[PresentMode]) -> (mode: PresentMode)
    requires
        supported@.len() > 0,
    ensures
        mode == preferred_present_mode(supported@),
{
    if offers(supported, PresentMode::AutoVsync) {
        PresentMode::AutoVsync
    } else if offers(supported, PresentMode::Fifo) {
        PresentMode::Fifo
    } else {
        supported[0]
    }
}

/// The position of the first sRGB format, or of the first format when none
/// is sRGB; `is_srgb[i]` tells whether format `i` is sRGB.
pub fn choose_format_index(is_srgb: &[bool]) -> (index: usize)
    requires
        is_srgb@.len() > 0,
    ensures
        index < is_srgb@.len(),
        forall|j: int| 0 <= j < index ==> !is_srgb@[j],
        is_srgb@[index as int] || (index == 0 && forall|j: int|
            0 <= j < is_srgb@.len() ==> !is_srgb@[j]),
{
    let mut i: usize = 0;
    while i < is_srgb.len()
        invariant
            i <= is_srgb@.len(),
            forall|j: int| 0 <= j < i ==> !is_srgb@[j],
        decreases is_srgb@.len() - i,
    {
        if is_srgb[i] {
            return i;
        }
        i = i + 1;
    }
    0
}

/// The chosen mode is one the adapter offers: automatic vertical sync
/// whenever it is offered, otherwise first-in first-out whenever that is
/// offered, otherwise the first mode of the list.
pub proof fn lemma_present_mode_choice(supported: Seq<PresentMode>)
    requires
        supported.len() > 0,
    ensures
        supported.contains(preferred_present_mode(supported)),
        supported.contains(PresentMode::AutoVsync) ==> preferred_present_mode(supported)
            == PresentMode::AutoVsync,
        !supported.contains(PresentMode::AutoVsync) && supported.contains(PresentMode::Fifo)
            ==> preferred_present_mode(supported) == PresentMode::Fifo,
        !supported.contains(PresentMode::AutoVsync) && !supported.contains(PresentMode::Fifo)
            ==> preferred_present_mode(supported) == supported[0],
        preferred_present_mode(supported) == PresentMode::AutoVsync || preferred_present_mode(
            supported,
        ) == PresentMode::Fifo || preferred_present_mode(supported) == supported[0],
{
    assert(supported[0] == supported[0]);
    if !supported.contains(PresentMode::AutoVsync) && !supported.contains(PresentMode::Fifo) {
        assert(supported.contains(supported[0]));
    }
}

} // verus!

//! Parts of the physical world that do not depend on the physics engine.
use vstd::prelude::*;

pub mod collision_filter;

verus! {

/// The number of handles that one generation of collider slots spans: a handle keeps the
/// slot's index below it and the generation above it
pub open spec fn generation_span() -> int {
    0x1_0000_0000
}

/// The handle under which a collider in slot `index` of generation `generation` is known
pub open spec fn handle_of_raw_parts(index: int, generation: int) -> int {
    index + generation * generation_span()
}

/// The slot index that `handle` names
pub open spec fn index_of_handle(handle: int) -> int {
    handle % generation_span()
}

/// The slot generation that `handle` names
pub open spec fn generation_of_handle(handle: int) -> int {
    handle / generation_span()
}

/// Packs the slot index and the generation of a collider into one handle: the index in
/// the lower 32 bits, the generation above them.
pub fn handle_from_raw_parts(index: usize, generation: u64) -> (handle: usize)
    requires
        index < generation_span(),
        handle_of_raw_parts(index as int, generation as int) <= usize::MAX,
    ensures
        handle == handle_of_raw_parts(index as int, generation as int),
{
    let low: u64 = index as u64;
    assert(generation < 0x1_0000_0000) by (nonlinear_arith)
        requires
            index + generation * 0x1_0000_0000 <= usize::MAX,
            usize::MAX <= u64::MAX,
    ;
    let packed: u64 = low | (generation << 32u64);
    assert(packed == low + generation * 0x1_0000_0000) by (bit_vector)
        requires
            packed == low | (generation << 32u64),
            low < 0x1_0000_0000,
            generation < 0x1_0000_0000,
    ;
    packed as usize
}

/// Splits a handle into the slot index and the generation of the collider that it names.
pub fn raw_parts_of_handle(handle: usize) -> (parts: (usize, u64))
    ensures
        parts.0 == index_of_handle(handle as int),
        parts.1 == generation_of_handle(handle as int),
{
    let wide: u64 = handle as u64;
    let index: u64 = wide & 0xFFFF_FFFFu64;
    let generation: u64 = wide >> 32u64;
    assert(index == wide % 0x1_0000_0000 && generation == wide / 0x1_0000_0000) by (bit_vector)
        requires
            index == wide & 0xFFFF_FFFFu64,
            generation == wide >> 32u64,
    ;
    (index as usize, generation)
}

/// Packing raw parts into a handle and splitting it again gives the parts back, and
/// splitting a handle and packing its parts again gives the handle back.
pub proof fn law_handle_encoding_round_trips(index: int, generation: int, handle: int)
    requires
        0 <= index < generation_span(),
        0 <= generation,
        0 <= handle,
    ensures
        index_of_handle(handle_of_raw_parts(index, generation)) == index,
        generation_of_handle(handle_of_raw_parts(index, generation)) == generation,
        handle_of_raw_parts(index_of_handle(handle), generation_of_handle(handle)) == handle,
{
    vstd::arithmetic::div_mod::lemma_fundamental_div_mod_converse(
        index + generation * generation_span(),
        generation_span(),
        generation,
        index,
    );
    vstd::arithmetic::div_mod::lemma_fundamental_div_mod(handle, generation_span());
    vstd::arithmetic::mul::lemma_mul_is_commutative(
        generation_span(),
        handle / generation_span(),
    );
}

} // verus!

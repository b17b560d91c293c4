//! What holds of the fixed-function emulation across several calls.
use vstd::prelude::*;

use crate::gles::buffers::{bound_bytes, with_buffer};
use crate::gles::constants::LIGHTING;
use crate::gles::draw::{
    attrib_steps, draw_arrays_steps, draw_elements_steps, uniform_steps, DrawStep,
};
use crate::gles::gles1_on_gles2::{
    capability, is_translated, overwritten, with_capability, Matrix, MatrixView, StateView,
};

verus! {

/// Popping brings back the matrix that was pushed, whatever the current one
/// was replaced with in between.
pub proof fn pop_undoes_push(state: StateView, current: Matrix)
    requires
        state.wf(),
    ensures
        ({
            let pushed = state.with_matrix(state.matrix().pushed());
            let changed = pushed.with_current(current);
            let popped = changed.with_matrix(changed.matrix().popped());
            &&& popped == state
            &&& changed.matrix().current == current
        }),
{
    let pushed = state.with_matrix(state.matrix().pushed());
    let changed = pushed.with_current(current);
    let popped = changed.with_matrix(changed.matrix().popped());
    assert(state.matrix().pushed().stack.drop_last() =~= state.matrix().stack);
    assert(changed.matrix() == MatrixView { current, ..state.matrix().pushed() });
    assert(changed.matrix().popped() == state.matrix());
    assert(popped.units =~= state.units);
    assert(popped == state);
}

/// A capability that was switched is found as it was switched. Only lighting
/// stays off.
pub proof fn switched_capability_is_found(state: StateView, cap: u32, on: bool)
    requires
        state.wf(),
    ensures
        with_capability(state, cap, on).wf(),
        is_translated(cap) && cap != LIGHTING ==> capability(with_capability(state, cap, on), cap)
            == Some(on),
        capability(with_capability(state, LIGHTING, on), LIGHTING) == Some(false),
        !is_translated(cap) ==> with_capability(state, cap, on) == state,
{
}

/// Switching a capability leaves the others alone, and texturing on one unit
/// leaves the other units alone.
pub proof fn capabilities_are_independent(
    state: StateView,
    cap: u32,
    on: bool,
    other: u32,
    unit: int,
)
    requires
        state.wf(),
        0 <= unit < state.units.len(),
    ensures
        other != cap ==> capability(with_capability(state, cap, on), other) == capability(
            state,
            other,
        ),
        unit != state.active_texture ==> with_capability(state, cap, on).units[unit]
            == state.units[unit],
{
}

/// What is written to a part of a buffer is found there, and the rest of what
/// the buffer held is kept.
pub proof fn overwritten_part_is_found(bytes: Seq<u8>, offset: int, data: Seq<u8>)
    requires
        0 <= offset,
    ensures
        ({
            let after = overwritten(bytes, offset, data);
            &&& after.len() >= bytes.len()
            &&& after.len() >= offset + data.len()
            &&& after.subrange(offset, offset + data.len()) == data
            &&& forall|i: int|
                0 <= i < bytes.len() && !(offset <= i < offset + data.len()) ==> #[trigger] after[i]
                    == bytes[i]
        }),
{
    let after = overwritten(bytes, offset, data);
    assert(after.subrange(offset, offset + data.len()) =~= data);
}

/// The bound buffer holds what it was given.
pub proof fn buffer_holds_what_it_was_given(state: StateView, target: u32, bytes: Seq<u8>)
    ensures
        bound_bytes(with_buffer(state, target, bytes), target) == bytes,
{
}

/// Both ways of drawing tell the shaders the same: from one state they take
/// the same steps but for the last, which is the only one that draws.
pub proof fn both_draws_set_the_same_uniforms(
    state: StateView,
    program: u32,
    mode: u32,
    first: i32,
    count: i32,
    type_: u32,
    indices: usize,
)
    ensures
        ({
            let by_order = draw_arrays_steps(state, program, mode, first, count);
            let by_index = draw_elements_steps(state, program, mode, count, type_, indices);
            let shared = uniform_steps(state, program) + attrib_steps(state);
            &&& by_order.drop_last() == shared
            &&& by_index.drop_last() == shared
            &&& by_order.last() == (DrawStep::DrawArrays { mode, first, count })
            &&& by_index.last() == (DrawStep::DrawElements { mode, count, type_, indices })
            &&& forall|i: int|
                0 <= i < shared.len() ==> !(#[trigger] shared[i] is DrawArrays)
                    && !(shared[i] is DrawElements)
        }),
{
    let shared = uniform_steps(state, program) + attrib_steps(state);
    assert(draw_arrays_steps(state, program, mode, first, count).drop_last() =~= shared);
    assert(draw_elements_steps(state, program, mode, count, type_, indices).drop_last() =~= shared);
}

} // verus!

//! What a draw tells the shaders, in terms of the calls that came before it.
use vstd::prelude::*;

use crate::gles::constants::{
    ADD, ALPHA_TEST, ARRAY_BUFFER, COLOR_ARRAY, CURRENT_COLOR, CURRENT_NORMAL, DECAL,
    ELEMENT_ARRAY_BUFFER, FIXED, FOG, FOG_COLOR,
    FOG_DENSITY, FOG_END, FOG_MODE, FOG_START, LIGHTING, MODELVIEW, MODELVIEW_MATRIX, MODULATE,
    NORMAL_ARRAY, POINT_SIZE, PROJECTION, PROJECTION_MATRIX, REPLACE, TEXTURE, TEXTURE0,
    TEXTURE_2D, TEXTURE_COORD_ARRAY, TEXTURE_ENV, TEXTURE_ENV_COLOR, TEXTURE_ENV_MODE, TEXTURE_MATRIX,
    VERTEX_ARRAY,
};
use crate::gles::buffers::without_buffers;
use crate::gles::draw::{DrawStep, Uniform};
use crate::gles::gles1_on_gles2::{
    ArrayState, GLES1OnGLES2, GLES1OnGLES2Context, Matrix, StateView, Vec3, Vec4,
};
use crate::numeric::float::{float_to_int, float_to_uint};
use crate::numeric::float_laws::{is_closest, lemma_closest};

verus! {

/// What a step is about.
pub ghost enum Target {
    Program,
    Mvp,
    Parameter(Uniform),
    Attribute(u32),
    Drawing,
}

pub open spec fn target(step: DrawStep) -> Target {
    match step {
        DrawStep::UseProgram(_) => Target::Program,
        DrawStep::SetMvp { .. } => Target::Mvp,
        DrawStep::SetMatrix(uniform, _) => Target::Parameter(uniform),
        DrawStep::SetVec4(uniform, _) => Target::Parameter(uniform),
        DrawStep::SetFloat(uniform, _) => Target::Parameter(uniform),
        DrawStep::SetInt(uniform, _) => Target::Parameter(uniform),
        DrawStep::ConstantAttrib { index, .. } => Target::Attribute(index),
        DrawStep::ArrayAttrib { index, .. } => Target::Attribute(index),
        DrawStep::DrawArrays { .. } => Target::Drawing,
        DrawStep::DrawElements { .. } => Target::Drawing,
    }
}

/// Whether a step is taken, and no other one is about the same.
#[verifier::opaque]
pub open spec fn told(steps: Seq<DrawStep>, step: DrawStep) -> bool {
    exists|i: int|
        0 <= i < steps.len() && #[trigger] steps[i] == step && forall|j: int|
            0 <= j < steps.len() && target(#[trigger] steps[j]) == target(step) ==> j == i
}

/// Whether a parameter is told that something is on, or off.
pub open spec fn told_if(steps: Seq<DrawStep>, uniform: Uniform, on: bool) -> bool {
    &&& on ==> told(steps, DrawStep::SetInt(uniform, 1))
    &&& !on ==> told(steps, DrawStep::SetInt(uniform, 0))
}

/// Whether an attribute comes from its array, or has one value for all vertices
/// where the array is switched off.
pub open spec fn told_attrib(
    steps: Seq<DrawStep>,
    index: u32,
    array: ArrayState,
    value: Vec4,
) -> bool {
    &&& array.enabled ==> told(steps, DrawStep::ArrayAttrib { index, array })
    &&& !array.enabled ==> told(steps, DrawStep::ConstantAttrib { index, value })
}

/// Whether the shaders are told all of a state, each thing once, with the
/// program in use before and the drawing after everything else.
pub open spec fn tells(steps: Seq<DrawStep>, state: StateView, program: u32) -> bool {
    let unit = state.units[0];
    &&& steps.len() == 24
    &&& steps[0] == DrawStep::UseProgram(program)
    &&& target(steps[23]) == Target::Drawing
    &&& steps[1] == (DrawStep::SetMvp {
        projection: state.projection.current,
        modelview: state.modelview.current,
    })
    &&& told(steps, DrawStep::UseProgram(program))
    &&& told(
        steps,
        DrawStep::SetMvp {
            projection: state.projection.current,
            modelview: state.modelview.current,
        },
    )
    &&& told(steps, DrawStep::SetMatrix(Uniform::Modelview, state.modelview.current))
    &&& told(steps, DrawStep::SetMatrix(Uniform::TextureMatrix, unit.matrix.current))
    &&& told(steps, DrawStep::SetVec4(Uniform::Color, state.color))
    &&& told_if(steps, Uniform::AlphaTestEnabled, state.alpha_test_enabled)
    &&& told(steps, DrawStep::SetInt(Uniform::AlphaFunc, state.alpha_func as i32))
    &&& told(steps, DrawStep::SetFloat(Uniform::AlphaRef, state.alpha_ref))
    &&& told_if(steps, Uniform::FogEnabled, state.fog_enabled)
    &&& told(steps, DrawStep::SetVec4(Uniform::FogColor, state.fog_color))
    &&& told(steps, DrawStep::SetFloat(Uniform::FogDensity, state.fog_density))
    &&& told(steps, DrawStep::SetFloat(Uniform::FogStart, state.fog_start))
    &&& told(steps, DrawStep::SetFloat(Uniform::FogEnd, state.fog_end))
    &&& told(steps, DrawStep::SetInt(Uniform::FogMode, state.fog_mode as i32))
    &&& told(steps, DrawStep::SetFloat(Uniform::PointSize, state.point_size))
    &&& told_if(steps, Uniform::TexEnabled, unit.enabled)
    &&& unit.env_mode == REPLACE ==> told(steps, DrawStep::SetInt(Uniform::TexMode, 1))
    &&& unit.env_mode != REPLACE && unit.env_mode != ADD && unit.env_mode != DECAL ==> told(
        steps,
        DrawStep::SetInt(Uniform::TexMode, 2),
    )
    &&& unit.env_mode == ADD ==> told(steps, DrawStep::SetInt(Uniform::TexMode, 3))
    &&& unit.env_mode == DECAL ==> told(steps, DrawStep::SetInt(Uniform::TexMode, 4))
    &&& told(steps, DrawStep::SetVec4(Uniform::EnvColor, unit.env_color))
    &&& told(steps, DrawStep::SetInt(Uniform::Sampler, 0))
    &&& told_attrib(steps, 0, state.vertex_array, vec4(0, 0, 0, ONE))
    &&& told_attrib(steps, 1, state.color_array, state.color)
    &&& told_attrib(
        steps,
        2,
        state.normal_array,
        vec4(state.normal.x, state.normal.y, state.normal.z, ONE),
    )
    &&& told_attrib(steps, 3, unit.array, unit.texcoord)
}

/// The float 1.
pub const ONE: u32 = 0x3f80_0000;

pub open spec fn vec4(x: u32, y: u32, z: u32, w: u32) -> Vec4 {
    Vec4 { x, y, z, w }
}

/// Where in a draw a step about something is.
spec fn place(target: Target) -> int {
    match target {
        Target::Program => 0,
        Target::Mvp => 1,
        Target::Parameter(Uniform::Modelview) => 2,
        Target::Parameter(Uniform::TextureMatrix) => 3,
        Target::Parameter(Uniform::Color) => 4,
        Target::Parameter(Uniform::AlphaTestEnabled) => 5,
        Target::Parameter(Uniform::AlphaFunc) => 6,
        Target::Parameter(Uniform::AlphaRef) => 7,
        Target::Parameter(Uniform::FogEnabled) => 8,
        Target::Parameter(Uniform::FogColor) => 9,
        Target::Parameter(Uniform::FogDensity) => 10,
        Target::Parameter(Uniform::FogStart) => 11,
        Target::Parameter(Uniform::FogEnd) => 12,
        Target::Parameter(Uniform::FogMode) => 13,
        Target::Parameter(Uniform::PointSize) => 14,
        Target::Parameter(Uniform::TexEnabled) => 15,
        Target::Parameter(Uniform::TexMode) => 16,
        Target::Parameter(Uniform::EnvColor) => 17,
        Target::Parameter(Uniform::Sampler) => 18,
        Target::Attribute(index) => 19 + index as int,
        Target::Drawing => 23,
    }
}

/// Where every step is in its place, each of them is told.
proof fn lemma_told(steps: Seq<DrawStep>)
    requires
        forall|j: int| 0 <= j < steps.len() ==> place(target(#[trigger] steps[j])) == j,
    ensures
        forall|i: int| 0 <= i < steps.len() ==> told(steps, #[trigger] steps[i]),
{
    reveal(told);
    assert forall|i: int| 0 <= i < steps.len() implies told(steps, #[trigger] steps[i]) by {
        assert forall|j: int|
            0 <= j < steps.len() && target(#[trigger] steps[j]) == target(steps[i]) implies j
            == i by {
            assert(place(target(steps[j])) == place(target(steps[i])));
        }
    }
}

/// Drawing vertices in their order tells the shaders the state, and draws just
/// those vertices. A program of shaders is made only where there is none, and
/// without one nothing is drawn. The state stays as it is otherwise.
pub proof fn draw_arrays_renders_the_state(
    gles: &mut GLES1OnGLES2,
    mode: u32,
    first: i32,
    count: i32,
    made: Option<u32>,
    steps: Option<Vec<DrawStep>>,
)
    requires
        old(gles)@.wf(),
        call_ensures(GLES1OnGLES2::DrawArrays, (gles, mode, first, count, made), steps),
    ensures
        match (old(gles)@.program, made) {
            (Some(program), _) | (None, Some(program)) => {
                &&& steps matches Some(steps) && tells(steps@, old(gles)@, program)
                    && steps@[23] == (DrawStep::DrawArrays { mode, first, count })
                &&& final(gles)@ == (StateView { program: Some(program), ..old(gles)@ })
            },
            (None, None) => steps is None && final(gles)@ == old(gles)@,
        },
{
    if let Some(steps) = steps {
        let steps = steps@;
        assert(steps.len() == 24);
        assert forall|j: int| 0 <= j < steps.len() implies place(target(#[trigger] steps[j]))
            == j by {}
        lemma_told(steps);
        lemma_all_told(steps);
        lemma_mode(old(gles)@.units[0].env_mode);
    }
}

/// Drawing vertices by their indices tells the shaders the state in the same
/// way, and draws just those vertices.
pub proof fn draw_elements_renders_the_state(
    gles: &mut GLES1OnGLES2,
    mode: u32,
    count: i32,
    type_: u32,
    indices: usize,
    made: Option<u32>,
    steps: Option<Vec<DrawStep>>,
)
    requires
        old(gles)@.wf(),
        call_ensures(GLES1OnGLES2::DrawElements, (gles, mode, count, type_, indices, made), steps),
    ensures
        match (old(gles)@.program, made) {
            (Some(program), _) | (None, Some(program)) => {
                &&& steps matches Some(steps) && tells(steps@, old(gles)@, program)
                    && steps@[23] == (DrawStep::DrawElements { mode, count, type_, indices })
                &&& final(gles)@ == (StateView { program: Some(program), ..old(gles)@ })
            },
            (None, None) => steps is None && final(gles)@ == old(gles)@,
        },
{
    if let Some(steps) = steps {
        let steps = steps@;
        assert(steps.len() == 24);
        assert forall|j: int| 0 <= j < steps.len() implies place(target(#[trigger] steps[j]))
            == j by {}
        lemma_told(steps);
        lemma_all_told(steps);
        lemma_mode(old(gles)@.units[0].env_mode);
    }
}

/// A mode is the same number with a sign and without.
proof fn lemma_mode(mode: i32)
    ensures
        mode as u32 == REPLACE <==> mode == REPLACE,
        mode as u32 == ADD <==> mode == ADD,
        mode as u32 == DECAL <==> mode == DECAL,
{
    assert(mode as u32 == 0x1e01u32 <==> mode == 0x1e01i32) by (bit_vector);
    assert(mode as u32 == 0x104u32 <==> mode == 0x104i32) by (bit_vector);
    assert(mode as u32 == 0x2101u32 <==> mode == 0x2101i32) by (bit_vector);
}

proof fn lemma_all_told(steps: Seq<DrawStep>)
    requires
        steps.len() == 24,
        forall|i: int| 0 <= i < steps.len() ==> told(steps, #[trigger] steps[i]),
    ensures
        told(steps, steps[0]) && told(steps, steps[1]) && told(steps, steps[2]) && told(
            steps,
            steps[3],
        ) && told(steps, steps[4]) && told(steps, steps[5]) && told(steps, steps[6]) && told(
            steps,
            steps[7],
        ) && told(steps, steps[8]) && told(steps, steps[9]) && told(steps, steps[10]) && told(
            steps,
            steps[11],
        ) && told(steps, steps[12]) && told(steps, steps[13]) && told(steps, steps[14]) && told(
            steps,
            steps[15],
        ) && told(steps, steps[16]) && told(steps, steps[17]) && told(steps, steps[18]) && told(
            steps,
            steps[19],
        ) && told(steps, steps[20]) && told(steps, steps[21]) && told(steps, steps[22]) && told(
            steps,
            steps[23],
        ),
{
}

/// The product that positions vertices is of the matrix that was last loaded
/// for projection and the one that was last loaded for the model and view, in
/// this order, whichever was loaded first, and whatever other matrix is loaded
/// in between.
pub proof fn loaded_matrices_position_vertices(
    first: &mut GLES1OnGLES2,
    second: &mut GLES1OnGLES2,
    third: &mut GLES1OnGLES2,
    fourth: &mut GLES1OnGLES2,
    drawn: &mut GLES1OnGLES2,
    modes: (u32, u32),
    matrices: (Matrix, Matrix),
    draw: (u32, i32, i32),
    made: Option<u32>,
    steps: Vec<DrawStep>,
)
    requires
        old(first)@.wf(),
        call_ensures(GLES1OnGLES2::MatrixMode, (first, modes.0), ()),
        *old(second) == *final(first),
        call_ensures(GLES1OnGLES2::LoadMatrixf, (second, matrices.0), ()),
        *old(third) == *final(second),
        call_ensures(GLES1OnGLES2::MatrixMode, (third, modes.1), ()),
        *old(fourth) == *final(third),
        call_ensures(GLES1OnGLES2::LoadMatrixf, (fourth, matrices.1), ()),
        *old(drawn) == *final(fourth),
        call_ensures(GLES1OnGLES2::DrawArrays, (drawn, draw.0, draw.1, draw.2, made), Some(steps)),
    ensures
        modes == (PROJECTION, MODELVIEW) ==> {
            let mvp = DrawStep::SetMvp { projection: matrices.0, modelview: matrices.1 };
            &&& steps@[1] == mvp
            &&& told(steps@, mvp)
            &&& told(steps@, DrawStep::SetMatrix(Uniform::Modelview, matrices.1))
        },
        modes == (MODELVIEW, PROJECTION) ==> {
            let mvp = DrawStep::SetMvp { projection: matrices.1, modelview: matrices.0 };
            &&& steps@[1] == mvp
            &&& told(steps@, mvp)
            &&& told(steps@, DrawStep::SetMatrix(Uniform::Modelview, matrices.0))
        },
        modes == (PROJECTION, TEXTURE) ==> {
            let mvp = DrawStep::SetMvp {
                projection: matrices.0,
                modelview: old(first)@.modelview.current,
            };
            &&& told(steps@, mvp)
            &&& old(first)@.active_texture == 0 ==> told(
                steps@,
                DrawStep::SetMatrix(Uniform::TextureMatrix, matrices.1),
            )
            &&& old(first)@.active_texture != 0 ==> told(
                steps@,
                DrawStep::SetMatrix(
                    Uniform::TextureMatrix,
                    old(first)@.units[0].matrix.current,
                ),
            )
        },
{
    draw_arrays_renders_the_state(drawn, draw.0, draw.1, draw.2, made, Some(steps));
}

/// A loaded matrix is the current one of the mode, and is what a query for that
/// mode gives, column by column. Those of the other modes stay.
pub proof fn loaded_matrix_is_found(
    before: &mut GLES1OnGLES2,
    loading: &mut GLES1OnGLES2,
    mode: u32,
    matrix: Matrix,
    current: Matrix,
    modelview: Option<Vec<u32>>,
    projection: Option<Vec<u32>>,
    texture: Option<Vec<u32>>,
)
    requires
        old(before)@.wf(),
        call_ensures(GLES1OnGLES2::MatrixMode, (before, mode), ()),
        *old(loading) == *final(before),
        call_ensures(GLES1OnGLES2::LoadMatrixf, (loading, matrix), ()),
        call_ensures(GLES1OnGLES2::current_matrix, (final(loading),), current),
        call_ensures(GLES1OnGLES2::GetFloatv, (final(loading), MODELVIEW_MATRIX), modelview),
        call_ensures(GLES1OnGLES2::GetFloatv, (final(loading), PROJECTION_MATRIX), projection),
        call_ensures(GLES1OnGLES2::GetFloatv, (final(loading), TEXTURE_MATRIX), texture),
    ensures
        current == matrix,
        modelview is Some && projection is Some && texture is Some,
        ({
            let start = old(before)@;
            &&& are_columns(
                projection.unwrap()@,
                if mode == PROJECTION {
                    matrix
                } else {
                    start.projection.current
                },
            )
            &&& are_columns(
                texture.unwrap()@,
                if mode == TEXTURE {
                    matrix
                } else {
                    start.units[start.active_texture].matrix.current
                },
            )
            &&& are_columns(
                modelview.unwrap()@,
                if mode == PROJECTION || mode == TEXTURE {
                    start.modelview.current
                } else {
                    matrix
                },
            )
        }),
{
}

/// Whether the numbers are those of a matrix, column by column.
pub open spec fn are_columns(values: Seq<u32>, m: Matrix) -> bool {
    values =~= seq![
        m.c0.x,
        m.c0.y,
        m.c0.z,
        m.c0.w,
        m.c1.x,
        m.c1.y,
        m.c1.z,
        m.c1.w,
        m.c2.x,
        m.c2.y,
        m.c2.z,
        m.c2.w,
        m.c3.x,
        m.c3.y,
        m.c3.z,
        m.c3.w,
    ]
}

/// What was pushed comes back when it is popped, whatever is loaded in between,
/// and nothing else has changed then. Popping from an empty stack does nothing.
pub proof fn pushed_matrix_comes_back(
    pushing: &mut GLES1OnGLES2,
    loading: &mut GLES1OnGLES2,
    popping: &mut GLES1OnGLES2,
    matrix: Matrix,
    kept: Matrix,
    back: Matrix,
)
    requires
        old(pushing)@.wf(),
        call_ensures(GLES1OnGLES2::current_matrix, (old(pushing),), kept),
        call_ensures(GLES1OnGLES2::PushMatrix, (pushing,), ()),
        *old(loading) == *final(pushing),
        call_ensures(GLES1OnGLES2::LoadMatrixf, (loading, matrix), ()),
        *old(popping) == *final(loading),
        call_ensures(GLES1OnGLES2::PopMatrix, (popping,), ()),
        call_ensures(GLES1OnGLES2::current_matrix, (final(popping),), back),
    ensures
        back == kept,
        final(popping)@ == old(pushing)@,
        final(loading)@ != old(pushing)@,
{
    crate::gles::laws::pop_undoes_push(old(pushing)@, matrix);
    let state = old(pushing)@;
    assert(final(loading)@.matrix().stack.len() == state.matrix().stack.len() + 1);
}

/// A fresh context starts as the standard says: identity matrices, white, no
/// alpha test, fog or textures, modulating textures, points of size 1, no
/// arrays.
pub proof fn fresh_context_is_standard(context: GLES1OnGLES2Context)
    requires
        call_ensures(GLES1OnGLES2Context::new, (), context),
    ensures
        ({
            let state = context.gles@;
            let one = Matrix {
                c0: vec4(ONE, 0, 0, 0),
                c1: vec4(0, ONE, 0, 0),
                c2: vec4(0, 0, ONE, 0),
                c3: vec4(0, 0, 0, ONE),
            };
            &&& state.wf()
            &&& state.units.len() == 4
            &&& state.matrix_mode == MODELVIEW
            &&& state.modelview.current == one && state.modelview.stack.len() == 0
            &&& state.projection.current == one && state.projection.stack.len() == 0
            &&& state.active_texture == 0 && state.client_active_texture == 0
            &&& state.color == vec4(ONE, ONE, ONE, ONE)
            &&& state.normal == (Vec3 { x: 0, y: 0, z: ONE })
            &&& !state.alpha_test_enabled && state.alpha_func == 0x207 && state.alpha_ref == 0
            &&& !state.fog_enabled && state.fog_mode == 0x800 && state.fog_density == ONE
            &&& state.fog_start == 0 && state.fog_end == ONE
            &&& state.point_size == ONE
            &&& state.array_buffer_binding == 0 && state.element_array_buffer_binding == 0
            &&& !state.vertex_array.enabled && !state.color_array.enabled
            &&& !state.normal_array.enabled
            &&& state.program is None
            &&& forall|u: int|
                0 <= u < 4 ==> {
                    let unit = #[trigger] state.units[u];
                    &&& !unit.enabled && !unit.array.enabled
                    &&& unit.matrix.current == one && unit.matrix.stack.len() == 0
                    &&& unit.texcoord == vec4(0, 0, 0, ONE)
                    &&& unit.env_mode == 0x2100
                    &&& unit.env_color == vec4(0, 0, 0, 0)
                }
        }),
{
}

/// The current colour is what is drawn with, and what a query gives.
pub proof fn color_is_drawn_with(
    setting: &mut GLES1OnGLES2,
    drawn: &mut GLES1OnGLES2,
    color: (u32, u32, u32, u32),
    draw: (u32, i32, i32),
    made: Option<u32>,
    steps: Vec<DrawStep>,
    values: Option<Vec<u32>>,
)
    requires
        old(setting)@.wf(),
        call_ensures(GLES1OnGLES2::Color4f, (setting, color.0, color.1, color.2, color.3), ()),
        call_ensures(GLES1OnGLES2::GetFloatv, (final(setting), CURRENT_COLOR), values),
        *old(drawn) == *final(setting),
        call_ensures(GLES1OnGLES2::DrawArrays, (drawn, draw.0, draw.1, draw.2, made), Some(steps)),
    ensures
        ({
            let value = vec4(color.0, color.1, color.2, color.3);
            &&& told(steps@, DrawStep::SetVec4(Uniform::Color, value))
            &&& !old(setting)@.color_array.enabled ==> told(
                steps@,
                DrawStep::ConstantAttrib { index: 1, value },
            )
            &&& values matches Some(values) && values@ =~= seq![
                color.0,
                color.1,
                color.2,
                color.3,
            ]
            &&& final(setting)@ == (StateView { color: value, ..old(setting)@ })
        }),
{
    draw_arrays_renders_the_state(drawn, draw.0, draw.1, draw.2, made, Some(steps));
}

/// What is switched on is drawn with, and found on. What is switched off is
/// not. Textures count for the unit that is active, and only the first unit is
/// drawn with. Lighting stays off, and other capabilities are the driver's.
pub proof fn capabilities_are_drawn_with(
    setting: &mut GLES1OnGLES2,
    drawn: &mut GLES1OnGLES2,
    cap: u32,
    on: bool,
    forward: bool,
    found: Option<bool>,
    draw: (u32, i32, i32),
    made: Option<u32>,
    steps: Vec<DrawStep>,
)
    requires
        old(setting)@.wf(),
        on ==> call_ensures(GLES1OnGLES2::Enable, (setting, cap), forward),
        !on ==> call_ensures(GLES1OnGLES2::Disable, (setting, cap), forward),
        call_ensures(GLES1OnGLES2::IsEnabled, (final(setting), cap), found),
        *old(drawn) == *final(setting),
        call_ensures(GLES1OnGLES2::DrawArrays, (drawn, draw.0, draw.1, draw.2, made), Some(steps)),
    ensures
        ({
            let start = old(setting)@;
            let own = cap == ALPHA_TEST || cap == FOG || cap == TEXTURE_2D;
            &&& own ==> found == Some(on) && !forward
            &&& cap == LIGHTING ==> found == Some(false) && !forward
            &&& !own && cap != LIGHTING ==> found is None && forward
            &&& !own ==> final(setting)@ == start
            &&& told_if(
                steps@,
                Uniform::AlphaTestEnabled,
                if cap == ALPHA_TEST {
                    on
                } else {
                    start.alpha_test_enabled
                },
            )
            &&& told_if(
                steps@,
                Uniform::FogEnabled,
                if cap == FOG {
                    on
                } else {
                    start.fog_enabled
                },
            )
            &&& told_if(
                steps@,
                Uniform::TexEnabled,
                if cap == TEXTURE_2D && start.active_texture == 0 {
                    on
                } else {
                    start.units[0].enabled
                },
            )
        }),
{
    draw_arrays_renders_the_state(drawn, draw.0, draw.1, draw.2, made, Some(steps));
}

/// The alpha test and the size of points are drawn with as they were set.
pub proof fn alpha_test_and_point_size_are_drawn_with(
    alpha: &mut GLES1OnGLES2,
    points: &mut GLES1OnGLES2,
    drawn: &mut GLES1OnGLES2,
    func: u32,
    reference: u32,
    size: u32,
    draw: (u32, i32, i32),
    made: Option<u32>,
    steps: Vec<DrawStep>,
    values: Option<Vec<u32>>,
)
    requires
        old(alpha)@.wf(),
        call_ensures(GLES1OnGLES2::AlphaFunc, (alpha, func, reference), ()),
        *old(points) == *final(alpha),
        call_ensures(GLES1OnGLES2::PointSize, (points, size), ()),
        call_ensures(GLES1OnGLES2::GetFloatv, (final(points), POINT_SIZE), values),
        *old(drawn) == *final(points),
        call_ensures(GLES1OnGLES2::DrawArrays, (drawn, draw.0, draw.1, draw.2, made), Some(steps)),
    ensures
        told(steps@, DrawStep::SetInt(Uniform::AlphaFunc, func as i32)),
        told(steps@, DrawStep::SetFloat(Uniform::AlphaRef, reference)),
        told(steps@, DrawStep::SetFloat(Uniform::PointSize, size)),
        values matches Some(values) && values@ =~= seq![size],
        final(points)@ == (StateView {
            alpha_func: func,
            alpha_ref: reference,
            point_size: size,
            ..old(alpha)@
        }),
{
    draw_arrays_renders_the_state(drawn, draw.0, draw.1, draw.2, made, Some(steps));
}

/// Each parameter of the fog is drawn with as it was set, and found so, and
/// setting one leaves the others alone.
pub proof fn fog_is_drawn_with(
    setting: &mut GLES1OnGLES2,
    drawn: &mut GLES1OnGLES2,
    pname: u32,
    params: &[u32],
    draw: (u32, i32, i32),
    made: Option<u32>,
    steps: Vec<DrawStep>,
    values: Option<Vec<u32>>,
)
    requires
        old(setting)@.wf(),
        params@.len() >= 4,
        pname == FOG_COLOR || pname == FOG_DENSITY || pname == FOG_START || pname == FOG_END,
        call_ensures(GLES1OnGLES2::Fogfv, (setting, pname, params), ()),
        call_ensures(GLES1OnGLES2::GetFloatv, (final(setting), pname), values),
        *old(drawn) == *final(setting),
        call_ensures(GLES1OnGLES2::DrawArrays, (drawn, draw.0, draw.1, draw.2, made), Some(steps)),
    ensures
        ({
            let start = old(setting)@;
            let p = params@;
            let color = vec4(p[0], p[1], p[2], p[3]);
            &&& pname == FOG_COLOR ==> {
                &&& told(steps@, DrawStep::SetVec4(Uniform::FogColor, color))
                &&& values matches Some(values) && values@ =~= seq![p[0], p[1], p[2], p[3]]
                &&& final(setting)@ == (StateView { fog_color: color, ..start })
            }
            &&& pname == FOG_DENSITY ==> {
                &&& told(steps@, DrawStep::SetFloat(Uniform::FogDensity, p[0]))
                &&& values matches Some(values) && values@ =~= seq![p[0]]
                &&& final(setting)@ == (StateView { fog_density: p[0], ..start })
            }
            &&& pname == FOG_START ==> {
                &&& told(steps@, DrawStep::SetFloat(Uniform::FogStart, p[0]))
                &&& values matches Some(values) && values@ =~= seq![p[0]]
                &&& final(setting)@ == (StateView { fog_start: p[0], ..start })
            }
            &&& pname == FOG_END ==> {
                &&& told(steps@, DrawStep::SetFloat(Uniform::FogEnd, p[0]))
                &&& values matches Some(values) && values@ =~= seq![p[0]]
                &&& final(setting)@ == (StateView { fog_end: p[0], ..start })
            }
        }),
{
    draw_arrays_renders_the_state(drawn, draw.0, draw.1, draw.2, made, Some(steps));
}

/// The environment of the first texture unit is drawn with as it was set while
/// that unit was active, and what is set for another unit doesn't show.
pub proof fn texture_environment_is_drawn_with(
    choosing: &mut GLES1OnGLES2,
    mode: &mut GLES1OnGLES2,
    color: &mut GLES1OnGLES2,
    drawn: &mut GLES1OnGLES2,
    unit: u32,
    driver_unit: u32,
    target: u32,
    env_mode: i32,
    params: &[u32],
    draw: (u32, i32, i32),
    made: Option<u32>,
    steps: Vec<DrawStep>,
)
    requires
        old(choosing)@.wf(),
        unit < 4,
        params@.len() >= 4,
        call_ensures(
            GLES1OnGLES2::ActiveTexture,
            (choosing, (TEXTURE0 + unit) as u32),
            driver_unit,
        ),
        *old(mode) == *final(choosing),
        call_ensures(GLES1OnGLES2::TexEnvi, (mode, target, TEXTURE_ENV_MODE, env_mode), ()),
        *old(color) == *final(mode),
        call_ensures(GLES1OnGLES2::TexEnvfv, (color, target, TEXTURE_ENV_COLOR, params), ()),
        *old(drawn) == *final(color),
        call_ensures(GLES1OnGLES2::DrawArrays, (drawn, draw.0, draw.1, draw.2, made), Some(steps)),
    ensures
        ({
            let start = old(choosing)@.units[0];
            let p = params@;
            let shown = if unit == 0 {
                env_mode
            } else {
                start.env_mode
            };
            &&& driver_unit == TEXTURE0 + unit
            &&& shown == REPLACE ==> told(steps@, DrawStep::SetInt(Uniform::TexMode, 1))
            &&& shown == MODULATE ==> told(steps@, DrawStep::SetInt(Uniform::TexMode, 2))
            &&& shown == ADD ==> told(steps@, DrawStep::SetInt(Uniform::TexMode, 3))
            &&& shown == DECAL ==> told(steps@, DrawStep::SetInt(Uniform::TexMode, 4))
            &&& told(
                steps@,
                DrawStep::SetVec4(
                    Uniform::EnvColor,
                    if unit == 0 {
                        vec4(p[0], p[1], p[2], p[3])
                    } else {
                        start.env_color
                    },
                ),
            )
        }),
{
    draw_arrays_renders_the_state(drawn, draw.0, draw.1, draw.2, made, Some(steps));
}

/// Whether an array is the one that was described, from the buffer that was
/// bound.
pub open spec fn is_described(
    array: ArrayState,
    size: i32,
    type_: u32,
    stride: i32,
    pointer: usize,
    buffer: u32,
) -> bool {
    &&& array.size == size
    &&& array.type_ == type_
    &&& array.stride == stride
    &&& array.pointer == pointer
    &&& array.buffer_binding == buffer
    &&& array.fixed == (type_ == FIXED)
}

/// Vertices come from the array that was described, as long as it is switched
/// on, and the other arrays are left alone.
pub proof fn vertex_array_is_drawn_from(
    pointing: &mut GLES1OnGLES2,
    enabling: &mut GLES1OnGLES2,
    drawn: &mut GLES1OnGLES2,
    size: i32,
    type_: u32,
    stride: i32,
    pointer: usize,
    draw: (u32, i32, i32),
    made: Option<u32>,
    steps: Vec<DrawStep>,
)
    requires
        old(pointing)@.wf(),
        call_ensures(GLES1OnGLES2::VertexPointer, (pointing, size, type_, stride, pointer), ()),
        *old(enabling) == *final(pointing),
        call_ensures(GLES1OnGLES2::EnableClientState, (enabling, VERTEX_ARRAY), ()),
        *old(drawn) == *final(enabling),
        call_ensures(GLES1OnGLES2::DrawArrays, (drawn, draw.0, draw.1, draw.2, made), Some(steps)),
    ensures
        ({
            let start = old(pointing)@;
            let array = final(enabling)@.vertex_array;
            &&& told(steps@, DrawStep::ArrayAttrib { index: 0, array })
            &&& array.enabled && !array.normalized
            &&& is_described(array, size, type_, stride, pointer, start.array_buffer_binding)
            &&& final(enabling)@ == (StateView { vertex_array: array, ..start })
        }),
{
    draw_arrays_renders_the_state(drawn, draw.0, draw.1, draw.2, made, Some(steps));
}

/// Colours come from the array that was described, as long as it is switched
/// on. Whole numbers among them stand for fractions of full intensity.
pub proof fn color_array_is_drawn_from(
    pointing: &mut GLES1OnGLES2,
    enabling: &mut GLES1OnGLES2,
    drawn: &mut GLES1OnGLES2,
    size: i32,
    type_: u32,
    stride: i32,
    pointer: usize,
    draw: (u32, i32, i32),
    made: Option<u32>,
    steps: Vec<DrawStep>,
)
    requires
        old(pointing)@.wf(),
        call_ensures(GLES1OnGLES2::ColorPointer, (pointing, size, type_, stride, pointer), ()),
        *old(enabling) == *final(pointing),
        call_ensures(GLES1OnGLES2::EnableClientState, (enabling, COLOR_ARRAY), ()),
        *old(drawn) == *final(enabling),
        call_ensures(GLES1OnGLES2::DrawArrays, (drawn, draw.0, draw.1, draw.2, made), Some(steps)),
    ensures
        ({
            let start = old(pointing)@;
            let array = final(enabling)@.color_array;
            &&& told(steps@, DrawStep::ArrayAttrib { index: 1, array })
            &&& array.enabled && array.normalized
            &&& is_described(array, size, type_, stride, pointer, start.array_buffer_binding)
            &&& final(enabling)@ == (StateView { color_array: array, ..start })
        }),
{
    draw_arrays_renders_the_state(drawn, draw.0, draw.1, draw.2, made, Some(steps));
}

/// Normals come from the array that was described, as long as it is switched
/// on. They have three coordinates.
pub proof fn normal_array_is_drawn_from(
    pointing: &mut GLES1OnGLES2,
    enabling: &mut GLES1OnGLES2,
    drawn: &mut GLES1OnGLES2,
    type_: u32,
    stride: i32,
    pointer: usize,
    draw: (u32, i32, i32),
    made: Option<u32>,
    steps: Vec<DrawStep>,
)
    requires
        old(pointing)@.wf(),
        call_ensures(GLES1OnGLES2::NormalPointer, (pointing, type_, stride, pointer), ()),
        *old(enabling) == *final(pointing),
        call_ensures(GLES1OnGLES2::EnableClientState, (enabling, NORMAL_ARRAY), ()),
        *old(drawn) == *final(enabling),
        call_ensures(GLES1OnGLES2::DrawArrays, (drawn, draw.0, draw.1, draw.2, made), Some(steps)),
    ensures
        ({
            let start = old(pointing)@;
            let array = final(enabling)@.normal_array;
            &&& told(steps@, DrawStep::ArrayAttrib { index: 2, array })
            &&& array.enabled && !array.normalized
            &&& is_described(array, 3, type_, stride, pointer, start.array_buffer_binding)
            &&& final(enabling)@ == (StateView { normal_array: array, ..start })
        }),
{
    draw_arrays_renders_the_state(drawn, draw.0, draw.1, draw.2, made, Some(steps));
}

/// Texture coordinates come from the array that was described for the first
/// unit, as long as it is switched on. Arrays for other units don't show.
pub proof fn texcoord_array_is_drawn_from(
    choosing: &mut GLES1OnGLES2,
    pointing: &mut GLES1OnGLES2,
    enabling: &mut GLES1OnGLES2,
    drawn: &mut GLES1OnGLES2,
    unit: u32,
    size: i32,
    type_: u32,
    stride: i32,
    pointer: usize,
    draw: (u32, i32, i32),
    made: Option<u32>,
    steps: Vec<DrawStep>,
)
    requires
        old(choosing)@.wf(),
        unit < 4,
        call_ensures(GLES1OnGLES2::ClientActiveTexture, (choosing, (TEXTURE0 + unit) as u32), ()),
        *old(pointing) == *final(choosing),
        call_ensures(GLES1OnGLES2::TexCoordPointer, (pointing, size, type_, stride, pointer), ()),
        *old(enabling) == *final(pointing),
        call_ensures(GLES1OnGLES2::EnableClientState, (enabling, TEXTURE_COORD_ARRAY), ()),
        *old(drawn) == *final(enabling),
        call_ensures(GLES1OnGLES2::DrawArrays, (drawn, draw.0, draw.1, draw.2, made), Some(steps)),
    ensures
        ({
            let start = old(choosing)@;
            let array = final(enabling)@.units[unit as int].array;
            &&& array.enabled && !array.normalized
            &&& is_described(array, size, type_, stride, pointer, start.array_buffer_binding)
            &&& unit == 0 ==> told(steps@, DrawStep::ArrayAttrib { index: 3, array })
            &&& unit != 0 ==> told_attrib(
                steps@,
                3,
                start.units[0].array,
                start.units[0].texcoord,
            )
            &&& forall|other: int|
                0 <= other < 4 && other != unit ==> #[trigger] final(enabling)@.units[other]
                    == start.units[other]
        }),
{
    draw_arrays_renders_the_state(drawn, draw.0, draw.1, draw.2, made, Some(steps));
}

/// An array that is switched off leaves the current values for all vertices:
/// the colour, the normal and the texture coordinates of the first unit.
pub proof fn disabled_arrays_leave_current_values(
    disabling: &mut GLES1OnGLES2,
    normal: &mut GLES1OnGLES2,
    coord: &mut GLES1OnGLES2,
    drawn: &mut GLES1OnGLES2,
    array: u32,
    direction: (u32, u32, u32),
    unit: u32,
    at: (u32, u32, u32, u32),
    draw: (u32, i32, i32),
    made: Option<u32>,
    steps: Vec<DrawStep>,
)
    requires
        old(disabling)@.wf(),
        unit < 4,
        call_ensures(GLES1OnGLES2::DisableClientState, (disabling, array), ()),
        *old(normal) == *final(disabling),
        call_ensures(GLES1OnGLES2::Normal3f, (normal, direction.0, direction.1, direction.2), ()),
        *old(coord) == *final(normal),
        call_ensures(
            GLES1OnGLES2::MultiTexCoord4f,
            (coord, (TEXTURE0 + unit) as u32, at.0, at.1, at.2, at.3),
            (),
        ),
        *old(drawn) == *final(coord),
        call_ensures(GLES1OnGLES2::DrawArrays, (drawn, draw.0, draw.1, draw.2, made), Some(steps)),
    ensures
        ({
            let start = old(disabling)@;
            &&& array == VERTEX_ARRAY ==> told(
                steps@,
                DrawStep::ConstantAttrib { index: 0, value: vec4(0, 0, 0, ONE) },
            )
            &&& array == COLOR_ARRAY ==> told(
                steps@,
                DrawStep::ConstantAttrib { index: 1, value: start.color },
            )
            &&& array == NORMAL_ARRAY ==> told(
                steps@,
                DrawStep::ConstantAttrib {
                    index: 2,
                    value: vec4(direction.0, direction.1, direction.2, ONE),
                },
            )
            &&& array == TEXTURE_COORD_ARRAY && start.client_active_texture == 0 ==> told(
                steps@,
                DrawStep::ConstantAttrib {
                    index: 3,
                    value: if unit == 0 {
                        vec4(at.0, at.1, at.2, at.3)
                    } else {
                        start.units[0].texcoord
                    },
                },
            )
        }),
{
    draw_arrays_renders_the_state(drawn, draw.0, draw.1, draw.2, made, Some(steps));
}

/// A normal is found as it was set.
pub proof fn normal_is_found(
    setting: &mut GLES1OnGLES2,
    x: u32,
    y: u32,
    z: u32,
    values: Option<Vec<u32>>,
)
    requires
        old(setting)@.wf(),
        call_ensures(GLES1OnGLES2::Normal3f, (setting, x, y, z), ()),
        call_ensures(GLES1OnGLES2::GetFloatv, (final(setting), CURRENT_NORMAL), values),
    ensures
        values matches Some(values) && values@ =~= seq![x, y, z],
{
}

/// Popping where nothing was pushed changes nothing.
pub proof fn nothing_is_popped_from_an_empty_stack(popping: &mut GLES1OnGLES2)
    requires
        old(popping)@.wf(),
        call_ensures(GLES1OnGLES2::PopMatrix, (popping,), ()),
        ({
            let state = old(popping)@;
            let stack = if state.matrix_mode == PROJECTION {
                state.projection.stack
            } else if state.matrix_mode == TEXTURE {
                state.units[state.active_texture].matrix.stack
            } else {
                state.modelview.stack
            };
            stack.len() == 0
        }),
    ensures
        final(popping)@ == old(popping)@,
{
    assert(final(popping)@.units =~= old(popping)@.units);
}

/// Loading the identity is loading that matrix.
pub proof fn identity_is_loaded(loading: &mut GLES1OnGLES2, current: Matrix)
    requires
        old(loading)@.wf(),
        call_ensures(GLES1OnGLES2::LoadIdentity, (loading,), ()),
        call_ensures(GLES1OnGLES2::current_matrix, (final(loading),), current),
    ensures
        current == (Matrix {
            c0: vec4(ONE, 0, 0, 0),
            c1: vec4(0, ONE, 0, 0),
            c2: vec4(0, 0, ONE, 0),
            c3: vec4(0, 0, 0, ONE),
        }),
{
}

/// Names of texture units out of range mean the nearest one.
pub proof fn texture_units_are_kept_in_range(
    choosing: &mut GLES1OnGLES2,
    client: &mut GLES1OnGLES2,
    texture: u32,
    driver_unit: u32,
)
    requires
        old(choosing)@.wf(),
        old(client)@.wf(),
        call_ensures(GLES1OnGLES2::ActiveTexture, (choosing, texture), driver_unit),
        call_ensures(GLES1OnGLES2::ClientActiveTexture, (client, texture), ()),
    ensures
        ({
            let unit = if texture < 0x84c0 {
                0int
            } else if texture >= 0x84c3 {
                3
            } else {
                texture - 0x84c0
            };
            &&& driver_unit == 0x84c0 + unit
            &&& final(choosing)@ == (StateView { active_texture: unit, ..old(choosing)@ })
            &&& final(client)@ == (StateView { client_active_texture: unit, ..old(client)@ })
        }),
{
}

/// What a buffer holds, as far as anything is known of it.
pub open spec fn buffer_bytes(data: Map<u32, Seq<u8>>, buffer: u32) -> Seq<u8> {
    if data.contains_key(buffer) {
        data[buffer]
    } else {
        Seq::empty()
    }
}

/// The buffer that is bound holds what it was given, and after a part of it is
/// written, that part as well. The other buffers are left alone. Nothing is
/// kept where none is bound.
pub proof fn bound_buffers_hold_their_data(
    binding: &mut GLES1OnGLES2,
    filling: &mut GLES1OnGLES2,
    changing: &mut GLES1OnGLES2,
    target: u32,
    buffer: u32,
    size: isize,
    data: &[u8],
    offset: isize,
    part: &[u8],
    other: u32,
)
    requires
        old(binding)@.wf(),
        target == ARRAY_BUFFER || target == ELEMENT_ARRAY_BUFFER,
        call_ensures(GLES1OnGLES2::BindBuffer, (binding, target, buffer), ()),
        *old(filling) == *final(binding),
        data@.len() == size,
        call_ensures(GLES1OnGLES2::BufferData, (filling, target, size, Some(data)), ()),
        *old(changing) == *final(filling),
        offset >= 0,
        call_ensures(GLES1OnGLES2::BufferSubData, (changing, target, offset, Some(part)), ()),
    ensures
        ({
            let start = old(binding)@;
            let filled = final(filling)@;
            let end = final(changing)@;
            let arrays = target == ARRAY_BUFFER;
            let was = if arrays {
                start.array_buffer_data
            } else {
                start.element_array_buffer_data
            };
            let first = if arrays {
                filled.array_buffer_data
            } else {
                filled.element_array_buffer_data
            };
            let last = if arrays {
                end.array_buffer_data
            } else {
                end.element_array_buffer_data
            };
            let bytes = buffer_bytes(last, buffer);
            &&& arrays ==> end.array_buffer_binding == buffer && end.element_array_buffer_data
                == start.element_array_buffer_data && end.element_array_buffer_binding
                == start.element_array_buffer_binding
            &&& !arrays ==> end.element_array_buffer_binding == buffer && end.array_buffer_data
                == start.array_buffer_data && end.array_buffer_binding
                == start.array_buffer_binding
            &&& buffer != 0 ==> {
                &&& buffer_bytes(first, buffer) == data@
                &&& bytes.len() >= data@.len() && bytes.len() >= offset + part@.len()
                &&& bytes.len() == data@.len() || bytes.len() == offset + part@.len()
                &&& forall|i: int|
                    0 <= i < part@.len() ==> bytes[offset + i] == #[trigger] part@[i]
                &&& forall|i: int|
                    0 <= i < data@.len() && !(offset <= i < offset + part@.len())
                        ==> #[trigger] bytes[i] == data@[i]
            }
            &&& buffer == 0 ==> last == was
            &&& other != buffer ==> buffer_bytes(last, other) == buffer_bytes(was, other)
        }),
{
    crate::gles::laws::overwritten_part_is_found(data@, offset as int, part@);
    let bytes = crate::gles::gles1_on_gles2::overwritten(data@, offset as int, part@);
    let found = bytes.subrange(offset as int, offset + part@.len());
    assert forall|i: int| 0 <= i < part@.len() implies bytes[offset + i] == #[trigger] part@[i] by {
        assert(found[i] == bytes[offset + i]);
    }
}

/// Deleted buffers hold nothing any more, and the others what they held.
pub proof fn deleted_buffers_are_forgotten(
    deleting: &mut GLES1OnGLES2,
    buffers: &[u32],
    buffer: u32,
)
    requires
        old(deleting)@.wf(),
        call_ensures(GLES1OnGLES2::DeleteBuffers, (deleting, buffers), ()),
    ensures
        buffers@.contains(buffer) ==> {
            &&& !final(deleting)@.array_buffer_data.contains_key(buffer)
            &&& !final(deleting)@.element_array_buffer_data.contains_key(buffer)
        },
        !buffers@.contains(buffer) ==> {
            &&& buffer_bytes(final(deleting)@.array_buffer_data, buffer) == buffer_bytes(
                old(deleting)@.array_buffer_data,
                buffer,
            )
            &&& buffer_bytes(final(deleting)@.element_array_buffer_data, buffer) == buffer_bytes(
                old(deleting)@.element_array_buffer_data,
                buffer,
            )
        },
{
    lemma_without(old(deleting)@.array_buffer_data, buffers@, buffers@.len() as int, buffer);
    lemma_without(
        old(deleting)@.element_array_buffer_data,
        buffers@,
        buffers@.len() as int,
        buffer,
    );
}

proof fn lemma_without(data: Map<u32, Seq<u8>>, buffers: Seq<u32>, count: int, buffer: u32)
    requires
        0 <= count <= buffers.len(),
    ensures
        ({
            let rest = without_buffers(data, buffers, count);
            if exists|i: int| 0 <= i < count && buffers[i] == buffer {
                !rest.contains_key(buffer)
            } else {
                rest.contains_key(buffer) == data.contains_key(buffer) && (data.contains_key(buffer)
                    ==> rest[buffer] == data[buffer])
            }
        }),
    decreases count,
{
    if count > 0 {
        lemma_without(data, buffers, count - 1, buffer);
        assert(buffers[count - 1] == buffers[count - 1]);
        if exists|i: int| 0 <= i < count && buffers[i] == buffer {
            let i = choose|i: int| 0 <= i < count && buffers[i] == buffer;
            if i < count - 1 {
                assert(exists|k: int| 0 <= k < count - 1 && buffers[k] == buffer);
            }
        }
    }
}

/// The environment of the active texture unit is found as it was set.
pub proof fn texture_environment_is_found(
    mode: &mut GLES1OnGLES2,
    color: &mut GLES1OnGLES2,
    target: u32,
    env_mode: i32,
    params: &[u32],
    found_mode: Vec<i32>,
    found_color: Vec<u32>,
)
    requires
        old(mode)@.wf(),
        target == TEXTURE_ENV,
        params@.len() >= 4,
        call_ensures(GLES1OnGLES2::TexEnvi, (mode, target, TEXTURE_ENV_MODE, env_mode), ()),
        *old(color) == *final(mode),
        call_ensures(GLES1OnGLES2::TexEnvfv, (color, target, TEXTURE_ENV_COLOR, params), ()),
        call_ensures(
            GLES1OnGLES2::GetTexEnviv,
            (final(color), target, TEXTURE_ENV_MODE),
            found_mode,
        ),
        call_ensures(
            GLES1OnGLES2::GetTexEnvfv,
            (final(color), target, TEXTURE_ENV_COLOR),
            found_color,
        ),
    ensures
        found_mode@ =~= seq![env_mode],
        found_color@ =~= params@.take(4),
        forall|unit: int|
            0 <= unit < 4 && unit != old(mode)@.active_texture
                ==> #[trigger] final(color)@.units[unit] == old(mode)@.units[unit],
{
}

/// Whether a vector has the nearest floats to fixed-point numbers.
pub open spec fn is_vec_of_fixed(v: Vec4, x: int, y: int, z: int, w: int, other: int) -> bool {
    &&& is_closest(v.x, x, 65536, other)
    &&& is_closest(v.y, y, 65536, other)
    &&& is_closest(v.z, z, 65536, other)
    &&& is_closest(v.w, w, 65536, other)
}

proof fn lemma_fixed_vec(v: Vec4, x: i32, y: i32, z: i32, w: i32, other: int)
    requires
        crate::gles::gles1_on_gles2::is_fixed_vec(v, x, y, z, w),
        0 <= other < 0x7f80_0000,
    ensures
        is_vec_of_fixed(v, x as int, y as int, z as int, w as int, other),
{
    lemma_closest(v.x, x as int, 65536, other);
    lemma_closest(v.y, y as int, 65536, other);
    lemma_closest(v.z, z as int, 65536, other);
    lemma_closest(v.w, w as int, 65536, other);
}

/// Fixed-point numbers and bytes are set as the nearest floats, each in its
/// place: the numbers of a matrix column by column.
pub proof fn fixed_numbers_are_set_as_floats(
    matrix: &mut GLES1OnGLES2,
    m: &[i32],
    color: &mut GLES1OnGLES2,
    c: (i32, i32, i32, i32),
    bytes: &mut GLES1OnGLES2,
    b: (u8, u8, u8, u8),
    current: Matrix,
    other: int,
)
    requires
        old(matrix)@.wf(),
        old(color)@.wf(),
        old(bytes)@.wf(),
        m@.len() >= 16,
        0 <= other < 0x7f80_0000,
        call_ensures(GLES1OnGLES2::LoadMatrixx, (matrix, m), ()),
        call_ensures(GLES1OnGLES2::current_matrix, (final(matrix),), current),
        call_ensures(GLES1OnGLES2::Color4x, (color, c.0, c.1, c.2, c.3), ()),
        call_ensures(GLES1OnGLES2::Color4ub, (bytes, b.0, b.1, b.2, b.3), ()),
    ensures
        is_vec_of_fixed(
            current.c0,
            m@[0] as int,
            m@[1] as int,
            m@[2] as int,
            m@[3] as int,
            other,
        ),
        is_vec_of_fixed(
            current.c1,
            m@[4] as int,
            m@[5] as int,
            m@[6] as int,
            m@[7] as int,
            other,
        ),
        is_vec_of_fixed(
            current.c2,
            m@[8] as int,
            m@[9] as int,
            m@[10] as int,
            m@[11] as int,
            other,
        ),
        is_vec_of_fixed(
            current.c3,
            m@[12] as int,
            m@[13] as int,
            m@[14] as int,
            m@[15] as int,
            other,
        ),
        is_vec_of_fixed(
            final(color)@.color,
            c.0 as int,
            c.1 as int,
            c.2 as int,
            c.3 as int,
            other,
        ),
        is_closest(final(bytes)@.color.x, b.0 as int, 255, other),
        is_closest(final(bytes)@.color.y, b.1 as int, 255, other),
        is_closest(final(bytes)@.color.z, b.2 as int, 255, other),
        is_closest(final(bytes)@.color.w, b.3 as int, 255, other),
{
    lemma_fixed_vec(current.c0, m@[0], m@[1], m@[2], m@[3], other);
    lemma_fixed_vec(current.c1, m@[4], m@[5], m@[6], m@[7], other);
    lemma_fixed_vec(current.c2, m@[8], m@[9], m@[10], m@[11], other);
    lemma_fixed_vec(current.c3, m@[12], m@[13], m@[14], m@[15], other);
    lemma_fixed_vec(final(color)@.color, c.0, c.1, c.2, c.3, other);
    lemma_closest(final(bytes)@.color.x, b.0 as int, 255, other);
    lemma_closest(final(bytes)@.color.y, b.1 as int, 255, other);
    lemma_closest(final(bytes)@.color.z, b.2 as int, 255, other);
    lemma_closest(final(bytes)@.color.w, b.3 as int, 255, other);
}

/// The same holds of the other settings that have a fixed-point form.
pub proof fn fixed_settings_are_set_as_floats(
    alpha: &mut GLES1OnGLES2,
    point: &mut GLES1OnGLES2,
    normal: &mut GLES1OnGLES2,
    coord: &mut GLES1OnGLES2,
    func: u32,
    value: i32,
    n: (i32, i32, i32),
    unit: u32,
    t: (i32, i32, i32, i32),
    other: int,
)
    requires
        old(alpha)@.wf(),
        old(point)@.wf(),
        old(normal)@.wf(),
        old(coord)@.wf(),
        unit < 4,
        0 <= other < 0x7f80_0000,
        call_ensures(GLES1OnGLES2::AlphaFuncx, (alpha, func, value), ()),
        call_ensures(GLES1OnGLES2::PointSizex, (point, value), ()),
        call_ensures(GLES1OnGLES2::Normal3x, (normal, n.0, n.1, n.2), ()),
        call_ensures(
            GLES1OnGLES2::MultiTexCoord4x,
            (coord, (TEXTURE0 + unit) as u32, t.0, t.1, t.2, t.3),
            (),
        ),
    ensures
        final(alpha)@.alpha_func == func,
        is_closest(final(alpha)@.alpha_ref, value as int, 65536, other),
        is_closest(final(point)@.point_size, value as int, 65536, other),
        is_closest(final(normal)@.normal.x, n.0 as int, 65536, other),
        is_closest(final(normal)@.normal.y, n.1 as int, 65536, other),
        is_closest(final(normal)@.normal.z, n.2 as int, 65536, other),
        is_vec_of_fixed(
            final(coord)@.units[unit as int].texcoord,
            t.0 as int,
            t.1 as int,
            t.2 as int,
            t.3 as int,
            other,
        ),
{
    lemma_closest(final(alpha)@.alpha_ref, value as int, 65536, other);
    lemma_closest(final(point)@.point_size, value as int, 65536, other);
    lemma_closest(final(normal)@.normal.x, n.0 as int, 65536, other);
    lemma_closest(final(normal)@.normal.y, n.1 as int, 65536, other);
    lemma_closest(final(normal)@.normal.z, n.2 as int, 65536, other);
    lemma_fixed_vec(
        final(coord)@.units[unit as int].texcoord,
        t.0,
        t.1,
        t.2,
        t.3,
        other,
    );
}

/// A truth value of the state is whether the capability is on.
pub proof fn truth_values_are_capabilities(
    gles: &GLES1OnGLES2,
    pname: u32,
    value: Option<bool>,
    enabled: Option<bool>,
)
    requires
        gles@.wf(),
        call_ensures(GLES1OnGLES2::GetBooleanv, (gles, pname), value),
        call_ensures(GLES1OnGLES2::IsEnabled, (gles, pname), enabled),
    ensures
        value == enabled,
{
}

/// Each parameter goes by the name that the shaders have for it.
pub proof fn parameters_go_by_their_names(uniform: Uniform, name: &'static str)
    requires
        call_ensures(Uniform::name, (uniform,), name),
    ensures
        uniform == Uniform::Modelview ==> name@ == "u_modelview"@,
        uniform == Uniform::TextureMatrix ==> name@ == "u_texture_matrix0"@,
        uniform == Uniform::Color ==> name@ == "u_color"@,
        uniform == Uniform::AlphaTestEnabled ==> name@ == "u_alpha_test_enabled"@,
        uniform == Uniform::AlphaFunc ==> name@ == "u_alpha_func"@,
        uniform == Uniform::AlphaRef ==> name@ == "u_alpha_ref"@,
        uniform == Uniform::FogEnabled ==> name@ == "u_fog_enabled"@,
        uniform == Uniform::FogColor ==> name@ == "u_fog_color"@,
        uniform == Uniform::FogDensity ==> name@ == "u_fog_density"@,
        uniform == Uniform::FogStart ==> name@ == "u_fog_start"@,
        uniform == Uniform::FogEnd ==> name@ == "u_fog_end"@,
        uniform == Uniform::FogMode ==> name@ == "u_fog_mode"@,
        uniform == Uniform::PointSize ==> name@ == "u_point_size"@,
        uniform == Uniform::TexEnabled ==> name@ == "u_tex_enabled0"@,
        uniform == Uniform::TexMode ==> name@ == "u_tex_mode0"@,
        uniform == Uniform::EnvColor ==> name@ == "u_env_color0"@,
        uniform == Uniform::Sampler ==> name@ == "u_tex0"@,
{
}

/// All ways to set the mode of the texture environment set the same mode: an
/// integer as it is, a float without what is behind the point, and a
/// fixed-point number as it is too.
pub proof fn texture_modes_are_set_alike(
    gles: (&mut GLES1OnGLES2, &mut GLES1OnGLES2, &mut GLES1OnGLES2, &mut GLES1OnGLES2),
    target: u32,
    mode: i32,
    float: u32,
    integers: &[i32],
    floats: &[u32],
)
    requires
        old(gles.0)@.wf(),
        *old(gles.1) == *old(gles.0),
        *old(gles.2) == *old(gles.0),
        *old(gles.3) == *old(gles.0),
        integers@.len() >= 1 && integers@[0] == mode,
        floats@.len() >= 1 && floats@[0] == float,
        call_ensures(float_to_int, (float,), mode),
        call_ensures(GLES1OnGLES2::TexEnvi, (gles.0, target, TEXTURE_ENV_MODE, mode), ()),
        call_ensures(GLES1OnGLES2::TexEnvf, (gles.1, target, TEXTURE_ENV_MODE, float), ()),
        call_ensures(GLES1OnGLES2::TexEnviv, (gles.2, target, TEXTURE_ENV_MODE, integers), ()),
        call_ensures(GLES1OnGLES2::TexEnvfv, (gles.3, target, TEXTURE_ENV_MODE, floats), ()),
    ensures
        final(gles.0)@.units[old(gles.0)@.active_texture].env_mode == mode,
        final(gles.1)@ == final(gles.0)@,
        final(gles.2)@ == final(gles.0)@,
        final(gles.3)@ == final(gles.0)@,
{
}

/// A fixed-point form of the mode is no fixed-point number, and the colours of
/// the environment are set as the nearest floats.
pub proof fn fixed_environment_is_set_as_floats(
    plain: &mut GLES1OnGLES2,
    single: &mut GLES1OnGLES2,
    several: &mut GLES1OnGLES2,
    color: &mut GLES1OnGLES2,
    whole: &mut GLES1OnGLES2,
    target: u32,
    mode: i32,
    params: &[i32],
    other: int,
)
    requires
        old(plain)@.wf(),
        *old(single) == *old(plain),
        *old(several) == *old(plain),
        *old(color) == *old(plain),
        *old(whole) == *old(plain),
        params@.len() >= 4 && params@[0] == mode,
        0 <= other < 0x7f80_0000,
        call_ensures(GLES1OnGLES2::TexEnvi, (plain, target, TEXTURE_ENV_MODE, mode), ()),
        call_ensures(GLES1OnGLES2::TexEnvx, (single, target, TEXTURE_ENV_MODE, mode), ()),
        call_ensures(GLES1OnGLES2::TexEnvxv, (several, target, TEXTURE_ENV_MODE, params), ()),
        call_ensures(GLES1OnGLES2::TexEnvxv, (color, target, TEXTURE_ENV_COLOR, params), ()),
        call_ensures(GLES1OnGLES2::TexEnviv, (whole, target, TEXTURE_ENV_COLOR, params), ()),
    ensures
        final(single)@ == final(plain)@,
        final(several)@ == final(plain)@,
        ({
            let at = old(plain)@.active_texture;
            let fixed = final(color)@.units[at].env_color;
            let integers = final(whole)@.units[at].env_color;
            let p = params@;
            &&& is_vec_of_fixed(
                fixed,
                p[0] as int,
                p[1] as int,
                p[2] as int,
                p[3] as int,
                other,
            )
            &&& is_closest(integers.x, p[0] as int, 1, other)
            &&& is_closest(integers.y, p[1] as int, 1, other)
            &&& is_closest(integers.z, p[2] as int, 1, other)
            &&& is_closest(integers.w, p[3] as int, 1, other)
        }),
{
    let at = old(plain)@.active_texture;
    let p = params@;
    let fixed = final(color)@.units[at].env_color;
    let integers = final(whole)@.units[at].env_color;
    lemma_fixed_vec(fixed, p[0], p[1], p[2], p[3], other);
    lemma_closest(integers.x, p[0] as int, 1, other);
    lemma_closest(integers.y, p[1] as int, 1, other);
    lemma_closest(integers.z, p[2] as int, 1, other);
    lemma_closest(integers.w, p[3] as int, 1, other);
}

/// All ways to set a parameter of the fog set the same: the mode as a whole
/// number, and the others as they are.
pub proof fn fog_is_set_alike(
    one: &mut GLES1OnGLES2,
    several: &mut GLES1OnGLES2,
    pname: u32,
    params: &[u32],
    mode: u32,
)
    requires
        old(one)@.wf(),
        *old(several) == *old(one),
        params@.len() >= 4,
        pname != FOG_COLOR,
        call_ensures(float_to_uint, (params@[0],), mode),
        call_ensures(GLES1OnGLES2::Fogf, (one, pname, params@[0]), ()),
        call_ensures(GLES1OnGLES2::Fogfv, (several, pname, params), ()),
    ensures
        final(several)@ == final(one)@,
        pname == FOG_MODE ==> final(one)@ == (StateView { fog_mode: mode, ..old(one)@ }),
        pname != FOG_MODE && pname != FOG_DENSITY && pname != FOG_START && pname != FOG_END
            ==> final(one)@ == old(one)@,
{
}

/// Fixed-point parameters of the fog are set as the nearest floats.
pub proof fn fixed_fog_is_set_as_floats(
    one: &mut GLES1OnGLES2,
    color: &mut GLES1OnGLES2,
    pname: u32,
    value: i32,
    params: &[i32],
    other: int,
)
    requires
        old(one)@.wf(),
        old(color)@.wf(),
        params@.len() >= 4,
        0 <= other < 0x7f80_0000,
        call_ensures(GLES1OnGLES2::Fogx, (one, pname, value), ()),
        call_ensures(GLES1OnGLES2::Fogxv, (color, FOG_COLOR, params), ()),
    ensures
        pname == FOG_DENSITY ==> is_closest(final(one)@.fog_density, value as int, 65536, other),
        pname == FOG_START ==> is_closest(final(one)@.fog_start, value as int, 65536, other),
        pname == FOG_END ==> is_closest(final(one)@.fog_end, value as int, 65536, other),
        is_vec_of_fixed(
            final(color)@.fog_color,
            params@[0] as int,
            params@[1] as int,
            params@[2] as int,
            params@[3] as int,
            other,
        ),
{
    let float = choose|float: u32| #[trigger]
        crate::numeric::float::is_nearest(float, value as int, 0x1_0000) && final(one)@
            == crate::gles::buffers::with_fog(old(one)@, pname, float);
    lemma_closest(float, value as int, 65536, other);
    lemma_fixed_vec(
        final(color)@.fog_color,
        params@[0],
        params@[1],
        params@[2],
        params@[3],
        other,
    );
}

/// A context has to be made current if it isn't, and the first time in any
/// case.
pub proof fn contexts_are_loaded_once(
    first: &mut GLES1OnGLES2Context,
    second: &mut GLES1OnGLES2Context,
    is_current: bool,
    again: bool,
    load: bool,
    load_again: bool,
)
    requires
        call_ensures(GLES1OnGLES2Context::make_current, (first, is_current), load),
        *old(second) == *final(first),
        call_ensures(GLES1OnGLES2Context::make_current, (second, again), load_again),
    ensures
        !old(first).is_loaded ==> load,
        !is_current ==> load,
        old(first).is_loaded && is_current ==> !load,
        load_again == !again,
        final(second).gles == old(first).gles,
{
}

} // verus!

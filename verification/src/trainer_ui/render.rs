//! How the overlay is drawn over a frame that is about to be presented.
//!
//! Only the fixed-function API is used, so this works on every backend. The
//! drawing is a list of steps, which say nothing about how they are carried
//! out.
use vstd::prelude::*;

verus! {

/// A colour with an opacity, as bit patterns of floats.
#[derive(Clone, Copy, Debug, PartialEq, Eq, Structural)]
pub struct Color {
    pub r: u32,
    pub g: u32,
    pub b: u32,
    pub a: u32,
}

/// A rectangle, as bit patterns of floats.
#[derive(Clone, Copy, Debug, PartialEq, Eq, Structural)]
pub struct RectBits {
    pub x: u32,
    pub y: u32,
    pub w: u32,
    pub h: u32,
}

/// A rectangle to draw: of a plain colour, or of a coloured texture.
#[derive(Clone, Copy, Debug, PartialEq, Eq, Structural)]
pub struct Quad {
    pub rect: RectBits,
    /// The part of the texture.
    pub uv: RectBits,
    /// The texture, or zero for none.
    pub tex: u32,
    pub col: Color,
}

/// A step of drawing the overlay.
#[derive(Clone, Copy, Debug, PartialEq, Eq, Structural)]
pub enum OverlayOp {
    SaveActiveTexture,
    SaveTextureBinding,
    SaveTexEnvMode,
    MatrixModeProjection,
    MatrixModeModelview,
    MatrixModeTexture,
    PushMatrix,
    PopMatrix,
    LoadIdentity,
    /// Coordinates are pixels of the viewport, from the top left.
    OrthoViewport,
    EnableVertexArray,
    DisableVertexArray,
    EnableTexCoordArray,
    DisableTexCoordArray,
    EnableBlend,
    DisableBlend,
    BlendSourceAlpha,
    /// The colour tints the texture.
    TexEnvModulate,
    EnableTexture,
    DisableTexture,
    BindTexture(u32),
    SetColor(Color),
    /// Draws the quad with this index.
    DrawQuad(usize),
    RestoreTexEnvMode,
    RestoreTextureBinding,
    RestoreActiveTexture,
}

/// The steps before the first quad.
pub open spec fn setup_ops() -> Seq<OverlayOp> {
    seq![
        OverlayOp::SaveActiveTexture,
        OverlayOp::SaveTextureBinding,
        OverlayOp::SaveTexEnvMode,
        OverlayOp::MatrixModeProjection,
        OverlayOp::PushMatrix,
        OverlayOp::LoadIdentity,
        OverlayOp::OrthoViewport,
        OverlayOp::MatrixModeModelview,
        OverlayOp::PushMatrix,
        OverlayOp::LoadIdentity,
        OverlayOp::EnableVertexArray,
        OverlayOp::EnableTexCoordArray,
        OverlayOp::EnableBlend,
        OverlayOp::BlendSourceAlpha,
        OverlayOp::TexEnvModulate,
    ]
}

/// The steps for one quad.
pub open spec fn quad_ops(quads: Seq<Quad>, i: int) -> Seq<OverlayOp> {
    if quads[i].tex == 0 {
        seq![
            OverlayOp::SetColor(quads[i].col),
            OverlayOp::DisableTexture,
            OverlayOp::DrawQuad(i as usize),
        ]
    } else {
        seq![
            OverlayOp::SetColor(quads[i].col),
            OverlayOp::EnableTexture,
            OverlayOp::BindTexture(quads[i].tex),
            OverlayOp::DrawQuad(i as usize),
        ]
    }
}

/// The steps for the first `count` quads.
pub open spec fn quads_ops(quads: Seq<Quad>, count: int) -> Seq<OverlayOp>
    decreases count,
{
    if count <= 0 {
        Seq::empty()
    } else {
        quads_ops(quads, count - 1) + quad_ops(quads, count - 1)
    }
}

/// The steps after the last quad.
pub open spec fn teardown_ops() -> Seq<OverlayOp> {
    seq![
        OverlayOp::RestoreTexEnvMode,
        OverlayOp::RestoreTextureBinding,
        OverlayOp::RestoreActiveTexture,
        OverlayOp::DisableBlend,
        OverlayOp::DisableTexture,
        OverlayOp::DisableTexCoordArray,
        OverlayOp::DisableVertexArray,
        OverlayOp::MatrixModeModelview,
        OverlayOp::PopMatrix,
        OverlayOp::MatrixModeProjection,
        OverlayOp::PopMatrix,
        OverlayOp::MatrixModeTexture,
        OverlayOp::LoadIdentity,
    ]
}

/// Adds a rectangle of a plain colour.
pub fn push_rect(quads: &mut Vec<Quad>, rect: RectBits, col: Color)
    ensures
        final(quads)@ == old(quads)@.push(
            Quad { rect, uv: RectBits { x: 0, y: 0, w: 0, h: 0 }, tex: 0, col },
        ),
{
    quads.push(Quad { rect, uv: RectBits { x: 0, y: 0, w: 0, h: 0 }, tex: 0, col });
}

/// Works out how to draw the quads, in their order, with the fixed-function
/// API.
pub fn render_gles1(quads: &[Quad]) -> (ops: Vec<OverlayOp>)
    ensures
        ops@ == setup_ops() + quads_ops(quads@, quads@.len() as int) + teardown_ops(),
{
    let mut ops: Vec<OverlayOp> = Vec::new();
    ops.push(OverlayOp::SaveActiveTexture);
    ops.push(OverlayOp::SaveTextureBinding);
    ops.push(OverlayOp::SaveTexEnvMode);
    ops.push(OverlayOp::MatrixModeProjection);
    ops.push(OverlayOp::PushMatrix);
    ops.push(OverlayOp::LoadIdentity);
    ops.push(OverlayOp::OrthoViewport);
    ops.push(OverlayOp::MatrixModeModelview);
    ops.push(OverlayOp::PushMatrix);
    ops.push(OverlayOp::LoadIdentity);
    ops.push(OverlayOp::EnableVertexArray);
    ops.push(OverlayOp::EnableTexCoordArray);
    ops.push(OverlayOp::EnableBlend);
    ops.push(OverlayOp::BlendSourceAlpha);
    ops.push(OverlayOp::TexEnvModulate);
    assert(ops@ =~= setup_ops() + quads_ops(quads@, 0));
    let mut i: usize = 0;
    while i < quads.len()
        invariant
            i <= quads@.len(),
            ops@ == setup_ops() + quads_ops(quads@, i as int),
        decreases quads@.len() - i,
    {
        let quad = quads[i];
        let ghost before = ops@;
        ops.push(OverlayOp::SetColor(quad.col));
        if quad.tex == 0 {
            ops.push(OverlayOp::DisableTexture);
        } else {
            ops.push(OverlayOp::EnableTexture);
            ops.push(OverlayOp::BindTexture(quad.tex));
        }
        ops.push(OverlayOp::DrawQuad(i));
        proof {
            assert(ops@ =~= before + quad_ops(quads@, i as int));
            assert(ops@ =~= setup_ops() + quads_ops(quads@, i + 1));
        }
        i = i + 1;
    }
    let ghost drawn = ops@;
    ops.push(OverlayOp::RestoreTexEnvMode);
    ops.push(OverlayOp::RestoreTextureBinding);
    ops.push(OverlayOp::RestoreActiveTexture);
    ops.push(OverlayOp::DisableBlend);
    ops.push(OverlayOp::DisableTexture);
    ops.push(OverlayOp::DisableTexCoordArray);
    ops.push(OverlayOp::DisableVertexArray);
    ops.push(OverlayOp::MatrixModeModelview);
    ops.push(OverlayOp::PopMatrix);
    ops.push(OverlayOp::MatrixModeProjection);
    ops.push(OverlayOp::PopMatrix);
    ops.push(OverlayOp::MatrixModeTexture);
    ops.push(OverlayOp::LoadIdentity);
    assert(ops@ =~= drawn + teardown_ops());
    ops
}

/// How a texture and the colour are combined.
pub ghost enum TexEnv {
    Modulate,
    Other(int),
}

/// Which matrix the matrix functions are about.
pub ghost enum MatrixMode {
    Projection,
    Modelview,
    Texture,
    Other,
}

/// What a matrix makes of coordinates.
pub ghost enum Coords {
    /// They stay as they are.
    Unchanged,
    /// Pixels of the viewport go to the screen.
    Viewport,
    Other(int),
}

/// What is known of a quad that was drawn: its texture, if it has one, how
/// that is combined with the colour, and the colour, what its coordinates
/// mean, and whether it is blended with the frame by its opacity.
pub ghost struct Drawn {
    pub quad: usize,
    pub texture: Option<u32>,
    pub tex_env: TexEnv,
    pub col: Color,
    pub projection: Coords,
    pub modelview: Coords,
    pub blended: bool,
    pub by_opacity: bool,
    /// Whether the vertices come from an array, and the texture coordinates.
    pub from_arrays: (bool, bool),
}

/// The part of the graphics state that drawing the overlay touches.
pub ghost struct FrameState {
    pub textured: bool,
    pub texture: u32,
    pub active_texture: int,
    pub tex_env: TexEnv,
    pub col: Color,
    pub mode: MatrixMode,
    /// Number of matrices on the projection stack and on the modelview stack.
    pub projection_depth: int,
    pub modelview_depth: int,
    pub saved_texture: u32,
    pub saved_active_texture: int,
    pub saved_tex_env: TexEnv,
    pub projection: Seq<Coords>,
    pub modelview: Seq<Coords>,
    pub blended: bool,
    pub by_opacity: bool,
    pub arrays: (bool, bool),
    pub drawn: Seq<Drawn>,
}

/// A stack of matrices with another one on top.
pub open spec fn with_top(stack: Seq<Coords>, top: Coords) -> Seq<Coords> {
    stack.drop_last().push(top)
}

/// What a step makes of the state.
pub open spec fn step(s: FrameState, op: OverlayOp) -> FrameState {
    match op {
        OverlayOp::SaveActiveTexture => FrameState { saved_active_texture: s.active_texture, ..s },
        OverlayOp::SaveTextureBinding => FrameState { saved_texture: s.texture, ..s },
        OverlayOp::SaveTexEnvMode => FrameState { saved_tex_env: s.tex_env, ..s },
        OverlayOp::MatrixModeProjection => FrameState { mode: MatrixMode::Projection, ..s },
        OverlayOp::MatrixModeModelview => FrameState { mode: MatrixMode::Modelview, ..s },
        OverlayOp::MatrixModeTexture => FrameState { mode: MatrixMode::Texture, ..s },
        OverlayOp::PushMatrix => match s.mode {
            MatrixMode::Projection => FrameState {
                projection_depth: s.projection_depth + 1,
                projection: s.projection.push(s.projection.last()),
                ..s
            },
            MatrixMode::Modelview => FrameState {
                modelview_depth: s.modelview_depth + 1,
                modelview: s.modelview.push(s.modelview.last()),
                ..s
            },
            _ => s,
        },
        OverlayOp::PopMatrix => match s.mode {
            MatrixMode::Projection => FrameState {
                projection_depth: s.projection_depth - 1,
                projection: s.projection.drop_last(),
                ..s
            },
            MatrixMode::Modelview => FrameState {
                modelview_depth: s.modelview_depth - 1,
                modelview: s.modelview.drop_last(),
                ..s
            },
            _ => s,
        },
        OverlayOp::LoadIdentity => match s.mode {
            MatrixMode::Projection => FrameState {
                projection: with_top(s.projection, Coords::Unchanged),
                ..s
            },
            MatrixMode::Modelview => FrameState {
                modelview: with_top(s.modelview, Coords::Unchanged),
                ..s
            },
            _ => s,
        },
        OverlayOp::OrthoViewport => if s.mode == MatrixMode::Projection && s.projection.last()
            == Coords::Unchanged {
            FrameState { projection: with_top(s.projection, Coords::Viewport), ..s }
        } else {
            s
        },
        OverlayOp::EnableVertexArray => FrameState { arrays: (true, s.arrays.1), ..s },
        OverlayOp::DisableVertexArray => FrameState { arrays: (false, s.arrays.1), ..s },
        OverlayOp::EnableTexCoordArray => FrameState { arrays: (s.arrays.0, true), ..s },
        OverlayOp::DisableTexCoordArray => FrameState { arrays: (s.arrays.0, false), ..s },
        OverlayOp::EnableBlend => FrameState { blended: true, ..s },
        OverlayOp::DisableBlend => FrameState { blended: false, ..s },
        OverlayOp::BlendSourceAlpha => FrameState { by_opacity: true, ..s },
        OverlayOp::TexEnvModulate => FrameState { tex_env: TexEnv::Modulate, ..s },
        OverlayOp::EnableTexture => FrameState { textured: true, ..s },
        OverlayOp::DisableTexture => FrameState { textured: false, ..s },
        OverlayOp::BindTexture(texture) => FrameState { texture, ..s },
        OverlayOp::SetColor(col) => FrameState { col, ..s },
        OverlayOp::DrawQuad(quad) => FrameState {
            drawn: s.drawn.push(
                Drawn {
                    quad,
                    texture: if s.textured {
                        Some(s.texture)
                    } else {
                        None
                    },
                    tex_env: s.tex_env,
                    col: s.col,
                    projection: s.projection.last(),
                    modelview: s.modelview.last(),
                    blended: s.blended,
                    by_opacity: s.by_opacity,
                    from_arrays: s.arrays,
                },
            ),
            ..s
        },
        OverlayOp::RestoreTexEnvMode => FrameState { tex_env: s.saved_tex_env, ..s },
        OverlayOp::RestoreTextureBinding => FrameState { texture: s.saved_texture, ..s },
        OverlayOp::RestoreActiveTexture => FrameState { active_texture: s.saved_active_texture, ..s },
    }
}

/// What steps make of the state, one after the other.
pub open spec fn run(s: FrameState, ops: Seq<OverlayOp>) -> FrameState
    decreases ops.len(),
{
    if ops.len() == 0 {
        s
    } else {
        step(run(s, ops.drop_last()), ops.last())
    }
}

proof fn lemma_run_concat(s: FrameState, a: Seq<OverlayOp>, b: Seq<OverlayOp>)
    ensures
        run(s, a + b) == run(run(s, a), b),
    decreases b.len(),
{
    if b.len() == 0 {
        assert(a + b =~= a);
    } else {
        lemma_run_concat(s, a, b.drop_last());
        assert((a + b).drop_last() =~= a + b.drop_last());
        assert((a + b).last() == b.last());
    }
}

/// What is to be seen of the quads.
pub open spec fn expected_draws(quads: Seq<Quad>) -> Seq<Drawn> {
    Seq::new(
        quads.len(),
        |i: int|
            Drawn {
                quad: i as usize,
                texture: if quads[i].tex == 0 {
                    None
                } else {
                    Some(quads[i].tex)
                },
                tex_env: TexEnv::Modulate,
                col: quads[i].col,
                projection: Coords::Viewport,
                modelview: Coords::Unchanged,
                blended: true,
                by_opacity: true,
                from_arrays: (true, true),
            },
    )
}

/// Whatever state the frame was left in, each quad is drawn once, in order,
/// with its own texture or none and its own colour: the texture of the frame
/// is never sampled. It is placed in pixels of the viewport, and blended with
/// the frame by its opacity. Afterwards the texture binding, the texture
/// environment and the matrices are as they were, and texturing, blending and
/// the arrays are off.
pub proof fn overlay_leaves_the_frame_alone(s: FrameState, quads: Seq<Quad>)
    ensures
        ({
            let ops = setup_ops() + quads_ops(quads, quads.len() as int) + teardown_ops();
            is_left_alone(s, run(s, ops), quads)
        }),
{
    let count = quads.len() as int;
    let body = quads_ops(quads, count);
    lemma_run_concat(s, setup_ops() + body, teardown_ops());
    lemma_run_concat(s, setup_ops(), body);
    let ready = run(s, setup_ops());
    lemma_setup(s);
    lemma_quads(ready, quads, count);
    let done = run(ready, body);
    lemma_teardown(done);
    assert(expected_draws(quads).take(count) =~= expected_draws(quads));
    assert(done.projection.drop_last() =~= s.projection);
    assert(done.modelview.drop_last() =~= s.modelview);
}

/// Whether the quads are drawn over a frame, and the frame is as it was
/// otherwise.
pub open spec fn is_left_alone(s: FrameState, t: FrameState, quads: Seq<Quad>) -> bool {
    &&& t.drawn == s.drawn + expected_draws(quads)
    &&& t.texture == s.texture
    &&& t.active_texture == s.active_texture
    &&& t.tex_env == s.tex_env
    &&& t.projection_depth == s.projection_depth
    &&& t.modelview_depth == s.modelview_depth
    &&& t.projection == s.projection
    &&& t.modelview == s.modelview
    &&& !t.textured
    &&& !t.blended
    &&& t.arrays == (false, false)
}

/// The steps for some quads draw just these over any frame.
pub proof fn rendering_draws_the_quads(s: FrameState, quads: &[Quad], ops: Vec<OverlayOp>)
    requires
        call_ensures(render_gles1, (quads,), ops),
    ensures
        is_left_alone(s, run(s, ops@), quads@),
{
    overlay_leaves_the_frame_alone(s, quads@);
}

proof fn lemma_run_first(s: FrameState, ops: Seq<OverlayOp>)
    requires
        ops.len() > 0,
    ensures
        run(s, ops) == run(step(s, ops[0]), ops.drop_first()),
{
    let first = seq![ops[0]];
    assert(ops =~= first + ops.drop_first());
    lemma_run_concat(s, first, ops.drop_first());
    assert(first.drop_last() =~= Seq::empty());
    assert(run(s, Seq::empty()) == s);
    assert(run(s, first) == step(run(s, first.drop_last()), first.last()));
}

proof fn lemma_setup(s: FrameState)
    ensures
        run(s, setup_ops()) == (FrameState {
            saved_active_texture: s.active_texture,
            saved_texture: s.texture,
            saved_tex_env: s.tex_env,
            mode: MatrixMode::Modelview,
            projection_depth: s.projection_depth + 1,
            modelview_depth: s.modelview_depth + 1,
            tex_env: TexEnv::Modulate,
            projection: s.projection.push(Coords::Viewport),
            modelview: s.modelview.push(Coords::Unchanged),
            blended: true,
            by_opacity: true,
            arrays: (true, true),
            ..s
        }),
{
    lemma_run_list(s, setup_ops());
    reveal_with_fuel(run_list, 16);
    let p = s.projection.push(s.projection.last());
    let q = with_top(p, Coords::Unchanged);
    assert(p.drop_last() =~= s.projection);
    assert(q.drop_last() =~= s.projection);
    assert(s.modelview.push(s.modelview.last()).drop_last() =~= s.modelview);
}

/// The same as [run], from the first step on.
spec fn run_list(s: FrameState, ops: Seq<OverlayOp>, from: int) -> FrameState
    decreases ops.len() - from,
{
    if from >= ops.len() {
        s
    } else {
        run_list(step(s, ops[from]), ops, from + 1)
    }
}

proof fn lemma_run_list(s: FrameState, ops: Seq<OverlayOp>)
    ensures
        run(s, ops) == run_list(s, ops, 0),
{
    lemma_run_list_from(s, ops, 0);
    assert(ops.skip(0) =~= ops);
}

proof fn lemma_run_list_from(s: FrameState, ops: Seq<OverlayOp>, from: int)
    requires
        0 <= from <= ops.len(),
    ensures
        run(s, ops.skip(from)) == run_list(s, ops, from),
    decreases ops.len() - from,
{
    if from < ops.len() {
        let rest = ops.skip(from);
        lemma_run_first(s, rest);
        assert(rest.drop_first() =~= ops.skip(from + 1));
        lemma_run_list_from(step(s, ops[from]), ops, from + 1);
    }
}

proof fn lemma_quads(s: FrameState, quads: Seq<Quad>, count: int)
    requires
        0 <= count <= quads.len(),
        s.tex_env == TexEnv::Modulate,
        s.projection.last() == Coords::Viewport,
        s.modelview.last() == Coords::Unchanged,
        s.blended,
        s.by_opacity,
        s.arrays == (true, true),
    ensures
        ({
            let t = run(s, quads_ops(quads, count));
            &&& t.drawn == s.drawn + expected_draws(quads).take(count)
            &&& t == (FrameState {
                drawn: t.drawn,
                texture: t.texture,
                textured: t.textured,
                col: t.col,
                ..s
            })
        }),
    decreases count,
{
    if count == 0 {
        assert(s.drawn + expected_draws(quads).take(0) =~= s.drawn);
    } else {
        lemma_quads(s, quads, count - 1);
        let before = run(s, quads_ops(quads, count - 1));
        lemma_run_concat(s, quads_ops(quads, count - 1), quad_ops(quads, count - 1));
        lemma_run_list(before, quad_ops(quads, count - 1));
        reveal_with_fuel(run_list, 5);
        let t = run(s, quads_ops(quads, count));
        assert(t.drawn =~= s.drawn + expected_draws(quads).take(count));
    }
}

proof fn lemma_teardown(s: FrameState)
    requires
        s.mode == MatrixMode::Modelview,
    ensures
        run(s, teardown_ops()) == (FrameState {
            tex_env: s.saved_tex_env,
            texture: s.saved_texture,
            active_texture: s.saved_active_texture,
            textured: false,
            blended: false,
            arrays: (false, false),
            modelview_depth: s.modelview_depth - 1,
            projection_depth: s.projection_depth - 1,
            modelview: s.modelview.drop_last(),
            projection: s.projection.drop_last(),
            mode: MatrixMode::Texture,
            ..s
        }),
{
    lemma_run_list(s, teardown_ops());
    reveal_with_fuel(run_list, 14);
}

} // verus!

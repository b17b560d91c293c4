//! How the fixed-function emulation draws: what the shaders are told, and
//! where the vertices come from.
use vstd::prelude::*;

use crate::gles::constants::{ADD, DECAL, REPLACE};
use crate::gles::gles1_on_gles2::{
    ArrayState, GLES1OnGLES2, Matrix, StateView, Vec4, ATTR_COLOR, ATTR_NORMAL, ATTR_POSITION,
    ATTR_TEX0, F_ONE,
};

verus! {

/// A parameter of the shaders.
#[derive(Clone, Copy, Debug, PartialEq, Eq, Structural)]
pub enum Uniform {
    Modelview,
    TextureMatrix,
    Color,
    AlphaTestEnabled,
    AlphaFunc,
    AlphaRef,
    FogEnabled,
    FogColor,
    FogDensity,
    FogStart,
    FogEnd,
    FogMode,
    PointSize,
    TexEnabled,
    TexMode,
    EnvColor,
    Sampler,
}

impl Uniform {
    /// How the parameter is called in the shaders.
    pub fn name(self) -> (name: &'static str)
        ensures
            name@ == match self {
                Uniform::Modelview => "u_modelview"@,
                Uniform::TextureMatrix => "u_texture_matrix0"@,
                Uniform::Color => "u_color"@,
                Uniform::AlphaTestEnabled => "u_alpha_test_enabled"@,
                Uniform::AlphaFunc => "u_alpha_func"@,
                Uniform::AlphaRef => "u_alpha_ref"@,
                Uniform::FogEnabled => "u_fog_enabled"@,
                Uniform::FogColor => "u_fog_color"@,
                Uniform::FogDensity => "u_fog_density"@,
                Uniform::FogStart => "u_fog_start"@,
                Uniform::FogEnd => "u_fog_end"@,
                Uniform::FogMode => "u_fog_mode"@,
                Uniform::PointSize => "u_point_size"@,
                Uniform::TexEnabled => "u_tex_enabled0"@,
                Uniform::TexMode => "u_tex_mode0"@,
                Uniform::EnvColor => "u_env_color0"@,
                Uniform::Sampler => "u_tex0"@,
            },
    {
        match self {
            Uniform::Modelview => "u_modelview",
            Uniform::TextureMatrix => "u_texture_matrix0",
            Uniform::Color => "u_color",
            Uniform::AlphaTestEnabled => "u_alpha_test_enabled",
            Uniform::AlphaFunc => "u_alpha_func",
            Uniform::AlphaRef => "u_alpha_ref",
            Uniform::FogEnabled => "u_fog_enabled",
            Uniform::FogColor => "u_fog_color",
            Uniform::FogDensity => "u_fog_density",
            Uniform::FogStart => "u_fog_start",
            Uniform::FogEnd => "u_fog_end",
            Uniform::FogMode => "u_fog_mode",
            Uniform::PointSize => "u_point_size",
            Uniform::TexEnabled => "u_tex_enabled0",
            Uniform::TexMode => "u_tex_mode0",
            Uniform::EnvColor => "u_env_color0",
            Uniform::Sampler => "u_tex0",
        }
    }
}

/// A step of drawing.
#[derive(Clone, Copy, Debug, PartialEq, Eq, Structural)]
pub enum DrawStep {
    UseProgram(u32),
    /// The product of the two matrices goes to the parameter `u_mvp`.
    SetMvp { projection: Matrix, modelview: Matrix },
    SetMatrix(Uniform, Matrix),
    SetVec4(Uniform, Vec4),
    SetFloat(Uniform, u32),
    SetInt(Uniform, i32),
    /// All vertices have the same value.
    ConstantAttrib { index: u32, value: Vec4 },
    /// Each vertex has a value of its own.
    ArrayAttrib { index: u32, array: ArrayState },
    DrawArrays { mode: u32, first: i32, count: i32 },
    DrawElements { mode: u32, count: i32, type_: u32, indices: usize },
}

pub open spec fn flag(on: bool) -> i32 {
    if on {
        1
    } else {
        0
    }
}

/// How the shaders call a mode of the texture environment.
pub open spec fn shader_mode(env_mode: i32) -> i32 {
    let mode = env_mode as u32;
    if mode == REPLACE {
        1
    } else if mode == ADD {
        3
    } else if mode == DECAL {
        4
    } else {
        2
    }
}

/// The value of an attribute where there is no array for it.
pub open spec fn constant_value(state: StateView, index: u32) -> Vec4 {
    if index == ATTR_COLOR {
        state.color
    } else if index == ATTR_TEX0 {
        state.units[0].texcoord
    } else if index == ATTR_NORMAL {
        Vec4 { x: state.normal.x, y: state.normal.y, z: state.normal.z, w: F_ONE }
    } else {
        Vec4 { x: 0, y: 0, z: 0, w: F_ONE }
    }
}

/// How an attribute is set up.
pub open spec fn attrib_step(state: StateView, index: u32, array: ArrayState) -> DrawStep {
    if array.enabled {
        DrawStep::ArrayAttrib { index, array }
    } else {
        DrawStep::ConstantAttrib { index, value: constant_value(state, index) }
    }
}

pub open spec fn attrib_steps(state: StateView) -> Seq<DrawStep> {
    seq![
        attrib_step(state, ATTR_POSITION, state.vertex_array),
        attrib_step(state, ATTR_COLOR, state.color_array),
        attrib_step(state, ATTR_NORMAL, state.normal_array),
        attrib_step(state, ATTR_TEX0, state.units[0].array),
    ]
}

/// What the shaders are told of transformation and colour.
pub open spec fn transform_steps(state: StateView, program: u32) -> Seq<DrawStep> {
    seq![
        DrawStep::UseProgram(program),
        DrawStep::SetMvp {
            projection: state.projection.current,
            modelview: state.modelview.current,
        },
        DrawStep::SetMatrix(Uniform::Modelview, state.modelview.current),
        DrawStep::SetMatrix(Uniform::TextureMatrix, state.units[0].matrix.current),
        DrawStep::SetVec4(Uniform::Color, state.color),
    ]
}

/// What the shaders are told of the alpha test and the fog.
pub open spec fn fragment_steps(state: StateView) -> Seq<DrawStep> {
    seq![
        DrawStep::SetInt(Uniform::AlphaTestEnabled, flag(state.alpha_test_enabled)),
        DrawStep::SetInt(Uniform::AlphaFunc, state.alpha_func as i32),
        DrawStep::SetFloat(Uniform::AlphaRef, state.alpha_ref),
        DrawStep::SetInt(Uniform::FogEnabled, flag(state.fog_enabled)),
        DrawStep::SetVec4(Uniform::FogColor, state.fog_color),
        DrawStep::SetFloat(Uniform::FogDensity, state.fog_density),
        DrawStep::SetFloat(Uniform::FogStart, state.fog_start),
        DrawStep::SetFloat(Uniform::FogEnd, state.fog_end),
        DrawStep::SetInt(Uniform::FogMode, state.fog_mode as i32),
    ]
}

/// What the shaders are told of points and the texture.
pub open spec fn texture_steps(state: StateView) -> Seq<DrawStep> {
    seq![
        DrawStep::SetFloat(Uniform::PointSize, state.point_size),
        DrawStep::SetInt(Uniform::TexEnabled, flag(state.units[0].enabled)),
        DrawStep::SetInt(Uniform::TexMode, shader_mode(state.units[0].env_mode)),
    ]
}

/// Everything that the shaders are told before anything is drawn. It depends
/// on the state alone, not on how the vertices are picked.
pub open spec fn uniform_steps(state: StateView, program: u32) -> Seq<DrawStep> {
    transform_steps(state, program) + fragment_steps(state) + texture_steps(state) + seq![
        DrawStep::SetVec4(Uniform::EnvColor, state.units[0].env_color),
        DrawStep::SetInt(Uniform::Sampler, 0),
    ]
}

/// All steps of drawing vertices in their order.
pub open spec fn draw_arrays_steps(
    state: StateView,
    program: u32,
    mode: u32,
    first: i32,
    count: i32,
) -> Seq<DrawStep> {
    uniform_steps(state, program) + attrib_steps(state) + seq![
        DrawStep::DrawArrays { mode, first, count },
    ]
}

/// All steps of drawing vertices by their indices.
pub open spec fn draw_elements_steps(
    state: StateView,
    program: u32,
    mode: u32,
    count: i32,
    type_: u32,
    indices: usize,
) -> Seq<DrawStep> {
    uniform_steps(state, program) + attrib_steps(state) + seq![
        DrawStep::DrawElements { mode, count, type_, indices },
    ]
}

fn flag_value(on: bool) -> (value: i32)
    ensures
        value == flag(on),
{
    if on {
        1
    } else {
        0
    }
}

fn shader_mode_value(env_mode: i32) -> (value: i32)
    ensures
        value == shader_mode(env_mode),
{
    let mode: u32 = env_mode as u32;
    if mode == REPLACE {
        1
    } else if mode == ADD {
        3
    } else if mode == DECAL {
        4
    } else {
        2
    }
}

#[allow(non_snake_case)]
impl GLES1OnGLES2 {
    /// Whether a program of shaders has to be made before anything is drawn.
    pub fn needs_program(&self) -> (yes: bool)
        ensures
            yes == (self@.program is None),
    {
        self.state.program.is_none()
    }

    /// The program to draw with: the one that is there, or one that was made
    /// just now. Without one, nothing can be drawn.
    fn take_program(&mut self, made: Option<u32>) -> (program: Option<u32>)
        requires
            old(self)@.wf(),
        ensures
            final(self)@.wf(),
            program == if old(self)@.program is Some {
                old(self)@.program
            } else {
                made
            },
            final(self)@ == (StateView { program, ..old(self)@ }),
    {
        if self.state.program.is_none() {
            self.state.program = made;
        }
        self.state.program
    }

    fn bind_array(&self, index: u32, array: ArrayState) -> (step: DrawStep)
        requires
            self@.wf(),
        ensures
            step == attrib_step(self@, index, array),
    {
        if array.enabled {
            return DrawStep::ArrayAttrib { index, array };
        }
        let value = if index == ATTR_COLOR {
            self.state.color
        } else if index == ATTR_TEX0 {
            self.state.units[0].texcoord
        } else if index == ATTR_NORMAL {
            Vec4 {
                x: self.state.normal.x,
                y: self.state.normal.y,
                z: self.state.normal.z,
                w: F_ONE,
            }
        } else {
            Vec4 { x: 0, y: 0, z: 0, w: F_ONE }
        };
        DrawStep::ConstantAttrib { index, value }
    }

    fn push_transform(&self, steps: &mut Vec<DrawStep>, program: u32)
        requires
            self@.wf(),
        ensures
            final(steps)@ == old(steps)@ + transform_steps(self@, program),
    {
        steps.push(DrawStep::UseProgram(program));
        steps.push(
            DrawStep::SetMvp {
                projection: self.state.projection.current,
                modelview: self.state.modelview.current,
            },
        );
        steps.push(DrawStep::SetMatrix(Uniform::Modelview, self.state.modelview.current));
        steps.push(DrawStep::SetMatrix(Uniform::TextureMatrix, self.state.units[0].matrix.current));
        steps.push(DrawStep::SetVec4(Uniform::Color, self.state.color));
        assert(steps@ =~= old(steps)@ + transform_steps(self@, program));
    }

    fn push_fragment(&self, steps: &mut Vec<DrawStep>)
        requires
            self@.wf(),
        ensures
            final(steps)@ == old(steps)@ + fragment_steps(self@),
    {
        steps.push(
            DrawStep::SetInt(Uniform::AlphaTestEnabled, flag_value(self.state.alpha_test_enabled)),
        );
        steps.push(DrawStep::SetInt(Uniform::AlphaFunc, self.state.alpha_func as i32));
        steps.push(DrawStep::SetFloat(Uniform::AlphaRef, self.state.alpha_ref));
        steps.push(DrawStep::SetInt(Uniform::FogEnabled, flag_value(self.state.fog_enabled)));
        steps.push(DrawStep::SetVec4(Uniform::FogColor, self.state.fog_color));
        steps.push(DrawStep::SetFloat(Uniform::FogDensity, self.state.fog_density));
        steps.push(DrawStep::SetFloat(Uniform::FogStart, self.state.fog_start));
        steps.push(DrawStep::SetFloat(Uniform::FogEnd, self.state.fog_end));
        steps.push(DrawStep::SetInt(Uniform::FogMode, self.state.fog_mode as i32));
        assert(steps@ =~= old(steps)@ + fragment_steps(self@));
    }

    fn push_texture(&self, steps: &mut Vec<DrawStep>)
        requires
            self@.wf(),
        ensures
            final(steps)@ == old(steps)@ + texture_steps(self@),
    {
        steps.push(DrawStep::SetFloat(Uniform::PointSize, self.state.point_size));
        steps.push(
            DrawStep::SetInt(Uniform::TexEnabled, flag_value(self.state.units[0].enabled)),
        );
        steps.push(
            DrawStep::SetInt(Uniform::TexMode, shader_mode_value(self.state.units[0].env_mode)),
        );
        assert(steps@ =~= old(steps)@ + texture_steps(self@));
    }

    fn push_uniforms(&self, steps: &mut Vec<DrawStep>, program: u32)
        requires
            self@.wf(),
        ensures
            final(steps)@ == old(steps)@ + uniform_steps(self@, program),
    {
        self.push_transform(steps, program);
        self.push_fragment(steps);
        self.push_texture(steps);
        steps.push(DrawStep::SetVec4(Uniform::EnvColor, self.state.units[0].env_color));
        steps.push(DrawStep::SetInt(Uniform::Sampler, 0));
        assert(steps@ =~= old(steps)@ + uniform_steps(self@, program));
    }

    fn push_attribs(&self, steps: &mut Vec<DrawStep>)
        requires
            self@.wf(),
        ensures
            final(steps)@ == old(steps)@ + attrib_steps(self@),
    {
        steps.push(self.bind_array(ATTR_POSITION, self.state.vertex_array));
        steps.push(self.bind_array(ATTR_COLOR, self.state.color_array));
        steps.push(self.bind_array(ATTR_NORMAL, self.state.normal_array));
        steps.push(self.bind_array(ATTR_TEX0, self.state.units[0].array));
        assert(steps@ =~= old(steps)@ + attrib_steps(self@));
    }

    /// Works out how to draw vertices in their order. `made` is the program of
    /// shaders that was made, where there was none. `None` if there still is
    /// none: then nothing is drawn.
    pub fn DrawArrays(
        &mut self,
        mode: u32,
        first: i32,
        count: i32,
        made: Option<u32>,
    ) -> (steps: Option<Vec<DrawStep>>)
        requires
            old(self)@.wf(),
        ensures
            final(self)@.wf(),
            ({
                let program = if old(self)@.program is Some {
                    old(self)@.program
                } else {
                    made
                };
                &&& final(self)@ == (StateView { program, ..old(self)@ })
                &&& match steps {
                    Some(steps) => program is Some && steps@ == draw_arrays_steps(
                        old(self)@,
                        program.unwrap(),
                        mode,
                        first,
                        count,
                    ),
                    None => program is None,
                }
            }),
    {
        let program: u32 = match self.take_program(made) {
            Some(program) => program,
            None => {
                return None;
            },
        };
        let mut steps: Vec<DrawStep> = Vec::new();
        self.push_uniforms(&mut steps, program);
        self.push_attribs(&mut steps);
        steps.push(DrawStep::DrawArrays { mode, first, count });
        assert(steps@ =~= draw_arrays_steps(old(self)@, program, mode, first, count));
        Some(steps)
    }

    /// Works out how to draw vertices by their indices.
    pub fn DrawElements(
        &mut self,
        mode: u32,
        count: i32,
        type_: u32,
        indices: usize,
        made: Option<u32>,
    ) -> (steps: Option<Vec<DrawStep>>)
        requires
            old(self)@.wf(),
        ensures
            final(self)@.wf(),
            ({
                let program = if old(self)@.program is Some {
                    old(self)@.program
                } else {
                    made
                };
                &&& final(self)@ == (StateView { program, ..old(self)@ })
                &&& match steps {
                    Some(steps) => program is Some && steps@ == draw_elements_steps(
                        old(self)@,
                        program.unwrap(),
                        mode,
                        count,
                        type_,
                        indices,
                    ),
                    None => program is None,
                }
            }),
    {
        let program: u32 = match self.take_program(made) {
            Some(program) => program,
            None => {
                return None;
            },
        };
        let mut steps: Vec<DrawStep> = Vec::new();
        self.push_uniforms(&mut steps, program);
        self.push_attribs(&mut steps);
        steps.push(DrawStep::DrawElements { mode, count, type_, indices });
        assert(steps@ =~= draw_elements_steps(
            old(self)@,
            program,
            mode,
            count,
            type_,
            indices,
        ));
        Some(steps)
    }
}

} // verus!

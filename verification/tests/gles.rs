use touchhle::gles::constants::{
    ADD, ALPHA_TEST, ALWAYS, ARRAY_BUFFER, COLOR_ARRAY, CURRENT_COLOR, CURRENT_NORMAL, DECAL,
    ELEMENT_ARRAY_BUFFER, EXP, FIXED, FLOAT, FOG, FOG_COLOR, FOG_DENSITY, FOG_END, FOG_MODE,
    FOG_START, LIGHTING, MODELVIEW, MODELVIEW_MATRIX, MODULATE, NORMAL_ARRAY, POINT_SIZE,
    PROJECTION, PROJECTION_MATRIX, REPLACE, TEXTURE, TEXTURE0, TEXTURE_2D, TEXTURE_COORD_ARRAY,
    TEXTURE_ENV, TEXTURE_ENV_COLOR, TEXTURE_ENV_MODE, TEXTURE_MATRIX, VERTEX_ARRAY,
};
use touchhle::gles::draw::{DrawStep, Uniform};
use touchhle::gles::gles1_on_gles2::{
    matrix_identity, GLES1OnGLES2, GLES1OnGLES2Context, Matrix, Vec3, Vec4,
};

fn gles() -> GLES1OnGLES2 {
    GLES1OnGLES2Context::new().gles
}

fn vec4(x: f32, y: f32, z: f32, w: f32) -> Vec4 {
    Vec4 { x: x.to_bits(), y: y.to_bits(), z: z.to_bits(), w: w.to_bits() }
}

fn other_matrix() -> Matrix {
    Matrix { c0: vec4(2.0, 0.0, 0.0, 0.0), ..matrix_identity() }
}

#[test]
fn contexts_load_once() {
    let mut context = GLES1OnGLES2Context::new();
    assert!(context.make_current(false));
    assert!(context.make_current(false));
    assert!(!context.make_current(true));
    let mut fresh = GLES1OnGLES2Context::new();
    assert!(fresh.make_current(true));
    assert!(!fresh.make_current(true));
    assert_eq!(
        GLES1OnGLES2Context::description(),
        "OpenGL ES 1.1 translated to native OpenGL ES 2.0 shaders"
    );
}

#[test]
fn capabilities_are_kept_per_unit() {
    let mut gles = gles();
    assert!(!gles.Enable(TEXTURE_2D));
    assert_eq!(gles.IsEnabled(TEXTURE_2D), Some(true));
    assert_eq!(gles.ActiveTexture(TEXTURE0 + 1), TEXTURE0 + 1);
    assert_eq!(gles.IsEnabled(TEXTURE_2D), Some(false));
    assert_eq!(gles.ActiveTexture(TEXTURE0 + 100), TEXTURE0 + 3);
    assert_eq!(gles.ActiveTexture(7), TEXTURE0);
    assert_eq!(gles.GetBooleanv(TEXTURE_2D), Some(true));
    assert!(!gles.Disable(TEXTURE_2D));
    assert_eq!(gles.IsEnabled(TEXTURE_2D), Some(false));
    for cap in [ALPHA_TEST, FOG] {
        assert!(!gles.Enable(cap));
        assert_eq!(gles.IsEnabled(cap), Some(true));
        assert!(!gles.Disable(cap));
        assert_eq!(gles.GetBooleanv(cap), Some(false));
    }
    assert!(!gles.Enable(LIGHTING));
    assert_eq!(gles.IsEnabled(LIGHTING), Some(false));
    assert!(gles.Enable(0x0be2));
    assert!(gles.Disable(0x0be2));
    assert_eq!(gles.IsEnabled(0x0be2), None);
}

#[test]
fn matrices_are_pushed_and_popped() {
    let mut gles = gles();
    for mode in [MODELVIEW, PROJECTION, TEXTURE] {
        gles.MatrixMode(mode);
        assert_eq!(gles.current_matrix(), matrix_identity());
        gles.PushMatrix();
        gles.LoadMatrixf(other_matrix());
        assert_eq!(gles.current_matrix(), other_matrix());
        gles.PushMatrix();
        gles.LoadIdentity();
        gles.PopMatrix();
        assert_eq!(gles.current_matrix(), other_matrix());
    }
    let numbers = gles.GetFloatv(MODELVIEW_MATRIX).unwrap();
    assert_eq!((numbers.len(), numbers[0], numbers[5]), (16, 2.0f32.to_bits(), 1.0f32.to_bits()));
    assert_eq!(gles.GetFloatv(PROJECTION_MATRIX), Some(numbers.clone()));
    assert_eq!(gles.GetFloatv(TEXTURE_MATRIX), Some(numbers));
    gles.PopMatrix();
    assert_eq!(gles.current_matrix(), matrix_identity());
    gles.PopMatrix();
    assert_eq!(gles.current_matrix(), matrix_identity());
    let fixed: Vec<i32> = (0..16).map(|i| i * 0x8000).collect();
    gles.LoadMatrixx(&fixed);
    assert_eq!(gles.current_matrix().c0, vec4(0.0, 0.5, 1.0, 1.5));
    assert_eq!(gles.current_matrix().c3, vec4(6.0, 6.5, 7.0, 7.5));
}

#[test]
fn current_values_are_read_back() {
    let mut gles = gles();
    gles.Color4x(0x10000, 0x8000, 0, -0x10000);
    assert_eq!(gles.state.color, vec4(1.0, 0.5, 0.0, -1.0));
    gles.Color4ub(255, 0, 51, 128);
    assert_eq!(gles.state.color, vec4(1.0, 0.0, 0.2, 128.0 / 255.0));
    gles.Color4f(1, 2, 3, 4);
    assert_eq!(gles.GetFloatv(CURRENT_COLOR), Some(vec![1, 2, 3, 4]));
    gles.Normal3x(0x10000, 0, 0x4000);
    assert_eq!(gles.GetFloatv(CURRENT_NORMAL), Some(vec![1.0f32.to_bits(), 0, 0.25f32.to_bits()]));
    gles.Normal3f(5, 6, 7);
    assert_eq!(gles.state.normal, Vec3 { x: 5, y: 6, z: 7 });
    gles.MultiTexCoord4x(TEXTURE0 + 2, 0x10000, 0, 0, 0x20000);
    assert_eq!(gles.state.units[2].texcoord, vec4(1.0, 0.0, 0.0, 2.0));
    gles.MultiTexCoord4f(TEXTURE0 + 9, 1, 2, 3, 4);
    assert_eq!(gles.state.units[3].texcoord, Vec4 { x: 1, y: 2, z: 3, w: 4 });
    gles.PointSizex(0x18000);
    assert_eq!(gles.GetFloatv(POINT_SIZE), Some(vec![1.5f32.to_bits()]));
    gles.PointSize(9);
    assert_eq!(gles.state.point_size, 9);
    gles.AlphaFuncx(ALWAYS, 0x8000);
    assert_eq!((gles.state.alpha_func, gles.state.alpha_ref), (ALWAYS, 0.5f32.to_bits()));
    gles.AlphaFunc(0x204, 3);
    assert_eq!((gles.state.alpha_func, gles.state.alpha_ref), (0x204, 3));
    assert_eq!(gles.GetFloatv(0x1234), None);
}

#[test]
fn fog_parameters_are_read_back() {
    let mut gles = gles();
    assert_eq!(gles.state.fog_mode, EXP);
    gles.Fogx(FOG_DENSITY, 0x8000);
    gles.Fogf(FOG_START, 2.0f32.to_bits());
    gles.Fogfv(FOG_END, &[3.0f32.to_bits()]);
    gles.Fogf(FOG_MODE, 2049.0f32.to_bits());
    assert_eq!(gles.GetFloatv(FOG_DENSITY), Some(vec![0.5f32.to_bits()]));
    assert_eq!(gles.GetFloatv(FOG_START), Some(vec![2.0f32.to_bits()]));
    assert_eq!(gles.GetFloatv(FOG_END), Some(vec![3.0f32.to_bits()]));
    assert_eq!(gles.state.fog_mode, 2049);
    gles.Fogfv(FOG_COLOR, &[1, 2, 3, 4]);
    assert_eq!(gles.GetFloatv(FOG_COLOR), Some(vec![1, 2, 3, 4]));
    gles.Fogxv(FOG_COLOR, &[0x10000, 0, 0, 0x10000]);
    assert_eq!(gles.state.fog_color, vec4(1.0, 0.0, 0.0, 1.0));
    gles.Fogxv(FOG_START, &[0x10000]);
    assert_eq!(gles.state.fog_start, 1.0f32.to_bits());
    gles.Fogf(0x1234, 7);
    assert_eq!(gles.state.fog_start, 1.0f32.to_bits());
}

#[test]
fn texture_environment_is_per_unit() {
    let mut gles = gles();
    assert_eq!(gles.GetTexEnviv(TEXTURE_ENV, TEXTURE_ENV_MODE), vec![MODULATE as i32]);
    gles.TexEnvi(TEXTURE_ENV, TEXTURE_ENV_MODE, REPLACE as i32);
    assert_eq!(gles.GetTexEnviv(TEXTURE_ENV, TEXTURE_ENV_MODE), vec![REPLACE as i32]);
    assert_eq!(gles.GetTexEnvfv(TEXTURE_ENV, TEXTURE_ENV_MODE), vec![(REPLACE as f32).to_bits()]);
    assert_eq!(gles.GetTexEnvxv(TEXTURE_ENV, TEXTURE_ENV_MODE), vec![(REPLACE as i32) << 16, 0, 0, 0]);
    gles.TexEnvf(TEXTURE_ENV, TEXTURE_ENV_MODE, (ADD as f32).to_bits());
    assert_eq!(gles.state.units[0].env_mode, ADD as i32);
    gles.TexEnvx(TEXTURE_ENV, TEXTURE_ENV_MODE, DECAL as i32);
    assert_eq!(gles.state.units[0].env_mode, DECAL as i32);
    gles.TexEnvi(TEXTURE_ENV, TEXTURE_ENV_COLOR, 2);
    assert_eq!(gles.state.units[0].env_color, vec4(2.0, 2.0, 2.0, 2.0));
    gles.TexEnviv(TEXTURE_ENV, TEXTURE_ENV_COLOR, &[1, 2, 3, 4]);
    assert_eq!(gles.GetTexEnviv(TEXTURE_ENV, TEXTURE_ENV_COLOR), vec![1, 2, 3, 4]);
    gles.TexEnvxv(TEXTURE_ENV, TEXTURE_ENV_COLOR, &[0x8000, 0x10000, 0, 0]);
    assert_eq!(gles.GetTexEnvxv(TEXTURE_ENV, TEXTURE_ENV_COLOR), vec![0x8000, 0x10000, 0, 0]);
    gles.TexEnvfv(TEXTURE_ENV, TEXTURE_ENV_COLOR, &[5, 6, 7, 8]);
    assert_eq!(gles.GetTexEnvfv(TEXTURE_ENV, TEXTURE_ENV_COLOR), vec![5, 6, 7, 8]);
    gles.TexEnviv(TEXTURE_ENV, TEXTURE_ENV_MODE, &[9]);
    gles.TexEnvxv(TEXTURE_ENV, TEXTURE_ENV_MODE, &[10]);
    gles.TexEnvfv(TEXTURE_ENV, TEXTURE_ENV_MODE, &[11.9f32.to_bits()]);
    assert_eq!(gles.state.units[0].env_mode, 11);
    gles.ActiveTexture(TEXTURE0 + 1);
    assert_eq!(gles.GetTexEnviv(TEXTURE_ENV, TEXTURE_ENV_MODE), vec![MODULATE as i32]);
    assert_eq!(gles.GetTexEnviv(TEXTURE_ENV, 1), Vec::<i32>::new());
    assert_eq!(gles.GetTexEnvxv(TEXTURE_ENV, 1), vec![0; 4]);
}

#[test]
fn arrays_remember_the_bound_buffer() {
    let mut gles = gles();
    gles.BindBuffer(ARRAY_BUFFER, 5);
    gles.EnableClientState(VERTEX_ARRAY);
    gles.VertexPointer(3, FIXED, 12, 0x100);
    let array = gles.state.vertex_array;
    assert_eq!((array.size, array.type_, array.stride, array.pointer), (3, FIXED, 12, 0x100));
    assert_eq!((array.buffer_binding, array.enabled, array.fixed, array.normalized), (5, true, true, false));
    gles.ColorPointer(4, FLOAT, 0, 1);
    assert!(gles.state.color_array.normalized && !gles.state.color_array.fixed);
    gles.NormalPointer(FLOAT, 0, 2);
    assert_eq!(gles.state.normal_array.size, 3);
    gles.ClientActiveTexture(TEXTURE0 + 1);
    gles.EnableClientState(TEXTURE_COORD_ARRAY);
    gles.TexCoordPointer(2, FLOAT, 0, 3);
    assert!(gles.state.units[1].array.enabled && !gles.state.units[0].array.enabled);
    assert_eq!(gles.state.units[1].array.pointer, 3);
    for array in [COLOR_ARRAY, NORMAL_ARRAY] {
        gles.EnableClientState(array);
    }
    gles.DisableClientState(VERTEX_ARRAY);
    gles.DisableClientState(0x1234);
    assert!(!gles.state.vertex_array.enabled && gles.state.color_array.enabled && gles.state.normal_array.enabled);
}

#[test]
fn buffers_keep_what_they_are_given() {
    let mut gles = gles();
    gles.BufferData(ARRAY_BUFFER, 2, Some(&[1, 2]));
    assert_eq!(gles.state.array_buffer_data.get(0), None);
    gles.BindBuffer(ARRAY_BUFFER, 5);
    gles.BindBuffer(ELEMENT_ARRAY_BUFFER, 6);
    gles.BindBuffer(0x1234, 7);
    gles.BufferData(ARRAY_BUFFER, 4, Some(&[1, 2, 3, 4]));
    gles.BufferSubData(ARRAY_BUFFER, 1, Some(&[9]));
    assert_eq!(gles.state.array_buffer_data.get(5), Some(vec![1, 9, 3, 4]));
    gles.BufferSubData(ARRAY_BUFFER, 5, Some(&[8, 8]));
    assert_eq!(gles.state.array_buffer_data.get(5), Some(vec![1, 9, 3, 4, 0, 8, 8]));
    gles.BufferSubData(ARRAY_BUFFER, -1, Some(&[7]));
    gles.BufferSubData(ARRAY_BUFFER, 0, None);
    gles.BufferData(ARRAY_BUFFER, -1, None);
    assert_eq!(gles.state.array_buffer_data.get(5).unwrap().len(), 7);
    gles.BufferData(ARRAY_BUFFER, 2, None);
    assert_eq!(gles.state.array_buffer_data.get(5), Some(vec![1, 9]));
    gles.BufferData(ARRAY_BUFFER, 3, None);
    assert_eq!(gles.state.array_buffer_data.get(5), Some(vec![1, 9, 0]));
    gles.BufferSubData(ELEMENT_ARRAY_BUFFER, 2, Some(&[4]));
    assert_eq!(gles.state.element_array_buffer_data.get(6), Some(vec![0, 0, 4]));
    gles.BufferData(0x1234, 1, Some(&[1]));
    gles.DeleteBuffers(&[6, 1]);
    assert_eq!(gles.state.element_array_buffer_data.get(6), None);
    gles.DeleteBuffers(&[5]);
    assert_eq!(gles.state.array_buffer_data.get(5), None);
}

#[test]
fn drawing_needs_a_program() {
    let mut gles = gles();
    assert!(gles.needs_program());
    assert!(gles.DrawArrays(4, 0, 3, None).is_none());
    assert!(gles.DrawElements(4, 3, 0x1403, 0, None).is_none());
    assert!(gles.needs_program());
    assert!(gles.DrawArrays(4, 0, 3, Some(77)).is_some());
    assert!(!gles.needs_program());
    let steps = gles.DrawArrays(4, 0, 3, Some(78)).unwrap();
    assert_eq!(steps[0], DrawStep::UseProgram(77));
}

#[test]
fn drawing_tells_the_shaders_everything() {
    let mut gles = gles();
    gles.Enable(TEXTURE_2D);
    gles.Enable(FOG);
    gles.TexEnvi(TEXTURE_ENV, TEXTURE_ENV_MODE, DECAL as i32);
    gles.Normal3f(1, 2, 3);
    gles.EnableClientState(VERTEX_ARRAY);
    gles.VertexPointer(2, FLOAT, 0, 0x40);
    let steps = gles.DrawArrays(5, 1, 4, Some(7)).unwrap();
    assert_eq!(steps.len(), 24);
    assert_eq!(steps[1], DrawStep::SetMvp { projection: matrix_identity(), modelview: matrix_identity() });
    assert!(steps.contains(&DrawStep::SetInt(Uniform::TexEnabled, 1)));
    assert!(steps.contains(&DrawStep::SetInt(Uniform::FogEnabled, 1)));
    assert!(steps.contains(&DrawStep::SetInt(Uniform::AlphaTestEnabled, 0)));
    assert!(steps.contains(&DrawStep::SetInt(Uniform::TexMode, 4)));
    let array = gles.state.vertex_array;
    let one = 1.0f32.to_bits();
    assert_eq!(steps[19], DrawStep::ArrayAttrib { index: 0, array });
    assert_eq!(steps[20], DrawStep::ConstantAttrib { index: 1, value: vec4(1.0, 1.0, 1.0, 1.0) });
    assert_eq!(steps[21], DrawStep::ConstantAttrib { index: 2, value: Vec4 { x: 1, y: 2, z: 3, w: one } });
    assert_eq!(steps[22], DrawStep::ConstantAttrib { index: 3, value: vec4(0.0, 0.0, 0.0, 1.0) });
    assert_eq!(steps[23], DrawStep::DrawArrays { mode: 5, first: 1, count: 4 });

    let by_order = steps;
    let steps = gles.DrawElements(5, 6, 0x1403, 0x80, None).unwrap();
    assert_eq!(steps.len(), 24);
    assert_eq!(steps[..23], by_order[..23]);
    assert!(steps.contains(&DrawStep::SetInt(Uniform::TexMode, 4)));
    assert!(steps.contains(&DrawStep::SetInt(Uniform::FogEnabled, 1)));
    assert_eq!(steps[23], DrawStep::DrawElements { mode: 5, count: 6, type_: 0x1403, indices: 0x80 });
    for (mode, number) in [(REPLACE, 1), (ADD, 3), (MODULATE, 2)] {
        gles.TexEnvi(TEXTURE_ENV, TEXTURE_ENV_MODE, mode as i32);
        let steps = gles.DrawElements(5, 6, 0x1403, 0x80, None).unwrap();
        assert!(steps.contains(&DrawStep::SetInt(Uniform::TexMode, number)));
    }
    assert_eq!(Uniform::TexMode.name(), "u_tex_mode0");
    assert_eq!(Uniform::Sampler.name(), "u_tex0");
}

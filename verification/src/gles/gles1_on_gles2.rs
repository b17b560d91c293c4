//! OpenGL ES 1.1 fixed-function emulation on an OpenGL ES 2.0 context.
//!
//! OpenGL ES 2.0 removed the fixed-function pipeline. This backend keeps the
//! GLES 1.1 API state on the CPU and renders it through a small program of
//! shaders. Floating-point numbers are handled as bit patterns here; what has
//! to be computed with them is handed in as a result.
use vstd::prelude::*;

use std::collections::HashMap;

use crate::gles::constants::{
    ALPHA_TEST, ALWAYS, COLOR_ARRAY, CURRENT_COLOR, CURRENT_NORMAL, EXP, FIXED, FLOAT, FOG,
    FOG_COLOR, FOG_DENSITY, FOG_END, FOG_START, LIGHTING, MODELVIEW, MODELVIEW_MATRIX, MODULATE,
    NORMAL_ARRAY, POINT_SIZE, PROJECTION, PROJECTION_MATRIX, TEXTURE, TEXTURE0, TEXTURE_2D,
    TEXTURE_COORD_ARRAY, TEXTURE_MATRIX, VERTEX_ARRAY,
};
use crate::mem::bytes::splice;
use crate::numeric::float::{byte_to_float, fixed_to_float, is_nearest};

verus! {

pub const ATTR_POSITION: u32 = 0;

pub const ATTR_COLOR: u32 = 1;

pub const ATTR_NORMAL: u32 = 2;

pub const ATTR_TEX0: u32 = 3;

pub const MAX_TEXTURE_UNITS: usize = 4;

/// The float 1.
pub const F_ONE: u32 = 0x3f80_0000;

/// Four numbers, as bit patterns of floats.
#[derive(Clone, Copy, Debug, PartialEq, Eq, Structural)]
pub struct Vec4 {
    pub x: u32,
    pub y: u32,
    pub z: u32,
    pub w: u32,
}

/// Three numbers, as bit patterns of floats.
#[derive(Clone, Copy, Debug, PartialEq, Eq, Structural)]
pub struct Vec3 {
    pub x: u32,
    pub y: u32,
    pub z: u32,
}

/// A matrix, column by column.
#[derive(Clone, Copy, Debug, PartialEq, Eq, Structural)]
pub struct Matrix {
    pub c0: Vec4,
    pub c1: Vec4,
    pub c2: Vec4,
    pub c3: Vec4,
}

/// The matrix that changes nothing.
pub open spec fn identity() -> Matrix {
    Matrix {
        c0: Vec4 { x: F_ONE, y: 0, z: 0, w: 0 },
        c1: Vec4 { x: 0, y: F_ONE, z: 0, w: 0 },
        c2: Vec4 { x: 0, y: 0, z: F_ONE, w: 0 },
        c3: Vec4 { x: 0, y: 0, z: 0, w: F_ONE },
    }
}

pub fn matrix_identity() -> (matrix: Matrix)
    ensures
        matrix == identity(),
{
    Matrix {
        c0: Vec4 { x: F_ONE, y: 0, z: 0, w: 0 },
        c1: Vec4 { x: 0, y: F_ONE, z: 0, w: 0 },
        c2: Vec4 { x: 0, y: 0, z: F_ONE, w: 0 },
        c3: Vec4 { x: 0, y: 0, z: 0, w: F_ONE },
    }
}

/// Where the data for one attribute of the vertices comes from.
#[derive(Clone, Copy, Debug, PartialEq, Eq, Structural)]
pub struct ArrayState {
    pub size: i32,
    pub type_: u32,
    pub stride: i32,
    /// An address, or an offset into a buffer.
    pub pointer: usize,
    pub buffer_binding: u32,
    pub enabled: bool,
    pub fixed: bool,
    pub normalized: bool,
}

/// An array of which nothing has been said yet.
pub open spec fn initial_array() -> ArrayState {
    ArrayState {
        size: 4,
        type_: FLOAT,
        stride: 0,
        pointer: 0,
        buffer_binding: 0,
        enabled: false,
        fixed: false,
        normalized: false,
    }
}

impl Default for ArrayState {
    fn default() -> (array: Self)
        ensures
            array == initial_array(),
    {
        ArrayState {
            size: 4,
            type_: FLOAT,
            stride: 0,
            pointer: 0,
            buffer_binding: 0,
            enabled: false,
            fixed: false,
            normalized: false,
        }
    }
}

/// A current matrix and those that were set aside.
pub struct MatrixState {
    pub current: Matrix,
    pub stack: Vec<Matrix>,
}

/// A current matrix and those that were set aside, as a mathematical value.
pub ghost struct MatrixView {
    pub current: Matrix,
    pub stack: Seq<Matrix>,
}

impl View for MatrixState {
    type V = MatrixView;

    open spec fn view(&self) -> MatrixView {
        MatrixView { current: self.current, stack: self.stack@ }
    }
}

impl MatrixView {
    pub open spec fn initial() -> MatrixView {
        MatrixView { current: identity(), stack: Seq::empty() }
    }

    /// The current matrix is set aside, and stays current.
    pub open spec fn pushed(self) -> MatrixView {
        MatrixView { stack: self.stack.push(self.current), ..self }
    }

    /// The matrix that was last set aside becomes current again, if there is
    /// one.
    pub open spec fn popped(self) -> MatrixView {
        if self.stack.len() == 0 {
            self
        } else {
            MatrixView { current: self.stack.last(), stack: self.stack.drop_last() }
        }
    }
}

impl MatrixState {
    pub fn new() -> (state: Self)
        ensures
            state@ == MatrixView::initial(),
    {
        let state = MatrixState { current: matrix_identity(), stack: Vec::new() };
        assert(state@.stack =~= Seq::empty());
        state
    }

    fn push(&mut self)
        ensures
            final(self)@ == old(self)@.pushed(),
    {
        self.stack.push(self.current);
    }

    fn pop(&mut self)
        ensures
            final(self)@ == old(self)@.popped(),
    {
        if let Some(matrix) = self.stack.pop() {
            self.current = matrix;
        }
    }
}

/// What belongs to one texture unit.
pub struct TextureUnit {
    pub matrix: MatrixState,
    pub texcoord: Vec4,
    pub array: ArrayState,
    pub enabled: bool,
    pub env_mode: i32,
    pub env_color: Vec4,
}

/// What belongs to one texture unit, as a mathematical value.
pub ghost struct UnitView {
    pub matrix: MatrixView,
    pub texcoord: Vec4,
    pub array: ArrayState,
    pub enabled: bool,
    pub env_mode: i32,
    pub env_color: Vec4,
}

impl View for TextureUnit {
    type V = UnitView;

    open spec fn view(&self) -> UnitView {
        UnitView {
            matrix: self.matrix@,
            texcoord: self.texcoord,
            array: self.array,
            enabled: self.enabled,
            env_mode: self.env_mode,
            env_color: self.env_color,
        }
    }
}

impl UnitView {
    pub open spec fn initial() -> UnitView {
        UnitView {
            matrix: MatrixView::initial(),
            texcoord: Vec4 { x: 0, y: 0, z: 0, w: F_ONE },
            array: initial_array(),
            enabled: false,
            env_mode: MODULATE as i32,
            env_color: Vec4 { x: 0, y: 0, z: 0, w: 0 },
        }
    }
}

impl TextureUnit {
    fn new() -> (unit: Self)
        ensures
            unit@ == UnitView::initial(),
    {
        TextureUnit {
            matrix: MatrixState::new(),
            texcoord: Vec4 { x: 0, y: 0, z: 0, w: F_ONE },
            array: ArrayState::default(),
            enabled: false,
            env_mode: MODULATE as i32,
            env_color: Vec4 { x: 0, y: 0, z: 0, w: 0 },
        }
    }
}

/// Copies of what buffers hold, by their number.
pub struct BufferData {
    entries: HashMap<u32, Vec<u8>>,
}

impl View for BufferData {
    type V = Map<u32, Seq<u8>>;

    closed spec fn view(&self) -> Map<u32, Seq<u8>> {
        self.entries@.map_values(|bytes: Vec<u8>| bytes@)
    }
}

impl BufferData {
    pub fn new() -> (data: Self)
        ensures
            data@ == Map::<u32, Seq<u8>>::empty(),
    {
        broadcast use vstd::std_specs::hash::group_hash_axioms;

        let data = BufferData { entries: HashMap::new() };
        assert(data@ =~= Map::<u32, Seq<u8>>::empty());
        data
    }

    /// A copy of what a buffer holds.
    pub fn get(&self, buffer: u32) -> (bytes: Option<Vec<u8>>)
        ensures
            match bytes {
                Some(bytes) => self@.contains_key(buffer) && self@[buffer] == bytes@,
                None => !self@.contains_key(buffer),
            },
    {
        broadcast use vstd::std_specs::hash::group_hash_axioms;

        match self.entries.get(&buffer) {
            Some(bytes) => Some(vstd::slice::slice_to_vec(bytes.as_slice())),
            None => None,
        }
    }

    /// Notes what a buffer holds.
    pub fn insert(&mut self, buffer: u32, bytes: Vec<u8>)
        ensures
            final(self)@ == old(self)@.insert(buffer, bytes@),
    {
        broadcast use vstd::std_specs::hash::group_hash_axioms;

        let _ = self.entries.insert(buffer, bytes);
        assert(self@ =~= old(self)@.insert(buffer, bytes@));
    }

    /// Forgets what a buffer holds.
    pub fn remove(&mut self, buffer: u32)
        ensures
            final(self)@ == old(self)@.remove(buffer),
    {
        broadcast use vstd::std_specs::hash::group_hash_axioms;

        let _ = self.entries.remove(&buffer);
        assert(self@ =~= old(self)@.remove(buffer));
    }
}

/// What a buffer holds, with missing bytes set to zero.
pub open spec fn resized(bytes: Seq<u8>, size: int) -> Seq<u8> {
    Seq::new(
        size as nat,
        |i: int|
            if i < bytes.len() {
                bytes[i]
            } else {
                0
            },
    )
}

/// What a buffer holds, or nothing.
pub open spec fn held(data: Map<u32, Seq<u8>>, buffer: u32) -> Seq<u8> {
    if data.contains_key(buffer) {
        data[buffer]
    } else {
        Seq::empty()
    }
}

/// What a buffer holds after some of it is written. It grows where it has to.
pub open spec fn overwritten(bytes: Seq<u8>, offset: int, data: Seq<u8>) -> Seq<u8> {
    let end = offset + data.len();
    splice(
        if end > bytes.len() {
            resized(bytes, end)
        } else {
            bytes
        },
        offset,
        data,
    )
}

/// State of the fixed-function pipeline.
pub struct TranslatorState {
    pub modelview: MatrixState,
    pub projection: MatrixState,
    pub units: Vec<TextureUnit>,
    pub matrix_mode: u32,
    pub active_texture: usize,
    pub client_active_texture: usize,
    pub color: Vec4,
    pub normal: Vec3,
    pub vertex_array: ArrayState,
    pub color_array: ArrayState,
    pub normal_array: ArrayState,
    pub array_buffer_binding: u32,
    pub element_array_buffer_binding: u32,
    pub array_buffer_data: BufferData,
    pub element_array_buffer_data: BufferData,
    pub point_size: u32,
    pub alpha_test_enabled: bool,
    pub alpha_func: u32,
    pub alpha_ref: u32,
    pub fog_enabled: bool,
    pub fog_mode: u32,
    pub fog_density: u32,
    pub fog_start: u32,
    pub fog_end: u32,
    pub fog_color: Vec4,
    /// The program of shaders, once there is one.
    pub program: Option<u32>,
}

/// State of the fixed-function pipeline as a mathematical value.
pub ghost struct StateView {
    pub modelview: MatrixView,
    pub projection: MatrixView,
    pub units: Seq<UnitView>,
    pub matrix_mode: u32,
    pub active_texture: int,
    pub client_active_texture: int,
    pub color: Vec4,
    pub normal: Vec3,
    pub vertex_array: ArrayState,
    pub color_array: ArrayState,
    pub normal_array: ArrayState,
    pub array_buffer_binding: u32,
    pub element_array_buffer_binding: u32,
    pub array_buffer_data: Map<u32, Seq<u8>>,
    pub element_array_buffer_data: Map<u32, Seq<u8>>,
    pub point_size: u32,
    pub alpha_test_enabled: bool,
    pub alpha_func: u32,
    pub alpha_ref: u32,
    pub fog_enabled: bool,
    pub fog_mode: u32,
    pub fog_density: u32,
    pub fog_start: u32,
    pub fog_end: u32,
    pub fog_color: Vec4,
    pub program: Option<u32>,
}

pub open spec fn unit_views(units: Seq<TextureUnit>) -> Seq<UnitView> {
    units.map_values(|unit: TextureUnit| unit@)
}

impl View for TranslatorState {
    type V = StateView;

    open spec fn view(&self) -> StateView {
        StateView {
            modelview: self.modelview@,
            projection: self.projection@,
            units: unit_views(self.units@),
            matrix_mode: self.matrix_mode,
            active_texture: self.active_texture as int,
            client_active_texture: self.client_active_texture as int,
            color: self.color,
            normal: self.normal,
            vertex_array: self.vertex_array,
            color_array: self.color_array,
            normal_array: self.normal_array,
            array_buffer_binding: self.array_buffer_binding,
            element_array_buffer_binding: self.element_array_buffer_binding,
            array_buffer_data: self.array_buffer_data@,
            element_array_buffer_data: self.element_array_buffer_data@,
            point_size: self.point_size,
            alpha_test_enabled: self.alpha_test_enabled,
            alpha_func: self.alpha_func,
            alpha_ref: self.alpha_ref,
            fog_enabled: self.fog_enabled,
            fog_mode: self.fog_mode,
            fog_density: self.fog_density,
            fog_start: self.fog_start,
            fog_end: self.fog_end,
            fog_color: self.fog_color,
            program: self.program,
        }
    }
}

impl StateView {
    /// There are four texture units, and the active ones are among them.
    pub open spec fn wf(self) -> bool {
        &&& self.units.len() == MAX_TEXTURE_UNITS
        &&& 0 <= self.active_texture < MAX_TEXTURE_UNITS
        &&& 0 <= self.client_active_texture < MAX_TEXTURE_UNITS
    }

    pub open spec fn initial() -> StateView {
        StateView {
            modelview: MatrixView::initial(),
            projection: MatrixView::initial(),
            units: Seq::new(MAX_TEXTURE_UNITS as nat, |i: int| UnitView::initial()),
            matrix_mode: MODELVIEW,
            active_texture: 0,
            client_active_texture: 0,
            color: Vec4 { x: F_ONE, y: F_ONE, z: F_ONE, w: F_ONE },
            normal: Vec3 { x: 0, y: 0, z: F_ONE },
            vertex_array: initial_array(),
            color_array: initial_array(),
            normal_array: initial_array(),
            array_buffer_binding: 0,
            element_array_buffer_binding: 0,
            array_buffer_data: Map::empty(),
            element_array_buffer_data: Map::empty(),
            point_size: F_ONE,
            alpha_test_enabled: false,
            alpha_func: ALWAYS,
            alpha_ref: 0,
            fog_enabled: false,
            fog_mode: EXP,
            fog_density: F_ONE,
            fog_start: 0,
            fog_end: F_ONE,
            fog_color: Vec4 { x: 0, y: 0, z: 0, w: F_ONE },
            program: None,
        }
    }

    /// The active texture unit.
    pub open spec fn unit(self) -> UnitView {
        self.units[self.active_texture]
    }

    /// The state with another active texture unit in place of the active one.
    pub open spec fn with_unit(self, unit: UnitView) -> StateView {
        StateView { units: self.units.update(self.active_texture, unit), ..self }
    }

    /// The texture unit whose array is set up.
    pub open spec fn client_unit(self) -> UnitView {
        self.units[self.client_active_texture]
    }

    pub open spec fn with_client_unit(self, unit: UnitView) -> StateView {
        StateView { units: self.units.update(self.client_active_texture, unit), ..self }
    }

    /// The matrices that the matrix functions are about.
    pub open spec fn matrix(self) -> MatrixView {
        if self.matrix_mode == PROJECTION {
            self.projection
        } else if self.matrix_mode == TEXTURE {
            self.unit().matrix
        } else {
            self.modelview
        }
    }

    /// The state with other matrices in place of those.
    pub open spec fn with_matrix(self, matrix: MatrixView) -> StateView {
        if self.matrix_mode == PROJECTION {
            StateView { projection: matrix, ..self }
        } else if self.matrix_mode == TEXTURE {
            self.with_unit(UnitView { matrix, ..self.unit() })
        } else {
            StateView { modelview: matrix, ..self }
        }
    }

    /// The state with another current matrix.
    pub open spec fn with_current(self, current: Matrix) -> StateView {
        self.with_matrix(MatrixView { current, ..self.matrix() })
    }
}

impl TranslatorState {
    pub fn new() -> (state: Self)
        ensures
            state@ == StateView::initial(),
            state@.wf(),
    {
        let mut units: Vec<TextureUnit> = Vec::new();
        units.push(TextureUnit::new());
        units.push(TextureUnit::new());
        units.push(TextureUnit::new());
        units.push(TextureUnit::new());
        let state = TranslatorState {
            modelview: MatrixState::new(),
            projection: MatrixState::new(),
            units,
            matrix_mode: MODELVIEW,
            active_texture: 0,
            client_active_texture: 0,
            color: Vec4 { x: F_ONE, y: F_ONE, z: F_ONE, w: F_ONE },
            normal: Vec3 { x: 0, y: 0, z: F_ONE },
            vertex_array: ArrayState::default(),
            color_array: ArrayState::default(),
            normal_array: ArrayState::default(),
            array_buffer_binding: 0,
            element_array_buffer_binding: 0,
            array_buffer_data: BufferData::new(),
            element_array_buffer_data: BufferData::new(),
            point_size: F_ONE,
            alpha_test_enabled: false,
            alpha_func: ALWAYS,
            alpha_ref: 0,
            fog_enabled: false,
            fog_mode: EXP,
            fog_density: F_ONE,
            fog_start: 0,
            fog_end: F_ONE,
            fog_color: Vec4 { x: 0, y: 0, z: 0, w: F_ONE },
            program: None,
        };
        assert(state@.units =~= Seq::new(
            MAX_TEXTURE_UNITS as nat,
            |i: int| UnitView::initial(),
        ));
        state
    }
}

/// The fixed-function API.
pub struct GLES1OnGLES2 {
    pub state: TranslatorState,
}

#[allow(non_snake_case)]
impl GLES1OnGLES2 {
    pub open spec fn view(self) -> StateView {
        self.state@
    }

    pub fn MatrixMode(&mut self, mode: u32)
        requires
            old(self)@.wf(),
        ensures
            final(self)@.wf(),
            final(self)@ == (StateView { matrix_mode: mode, ..old(self)@ }),
    {
        self.state.matrix_mode = mode;
    }

    /// The current matrix.
    pub fn current_matrix(&self) -> (matrix: Matrix)
        requires
            self@.wf(),
        ensures
            matrix == self@.matrix().current,
    {
        if self.state.matrix_mode == PROJECTION {
            self.state.projection.current
        } else if self.state.matrix_mode == TEXTURE {
            self.state.units[self.state.active_texture].matrix.current
        } else {
            self.state.modelview.current
        }
    }

    /// Makes a matrix the current one.
    pub fn LoadMatrixf(&mut self, matrix: Matrix)
        requires
            old(self)@.wf(),
        ensures
            final(self)@.wf(),
            final(self)@ == old(self)@.with_current(matrix),
    {
        if self.state.matrix_mode == PROJECTION {
            self.state.projection.current = matrix;
        } else if self.state.matrix_mode == TEXTURE {
            let unit: usize = self.state.active_texture;
            self.state.units[unit].matrix.current = matrix;
            assert(self@.units =~= old(self)@.with_current(matrix).units);
        } else {
            self.state.modelview.current = matrix;
        }
    }

    pub fn LoadIdentity(&mut self)
        requires
            old(self)@.wf(),
        ensures
            final(self)@.wf(),
            final(self)@ == old(self)@.with_current(identity()),
    {
        self.LoadMatrixf(matrix_identity());
    }

    pub fn PushMatrix(&mut self)
        requires
            old(self)@.wf(),
        ensures
            final(self)@.wf(),
            final(self)@ == old(self)@.with_matrix(old(self)@.matrix().pushed()),
    {
        if self.state.matrix_mode == PROJECTION {
            self.state.projection.push();
        } else if self.state.matrix_mode == TEXTURE {
            let unit: usize = self.state.active_texture;
            self.state.units[unit].matrix.push();
            assert(self@.units =~= old(self)@.with_matrix(old(self)@.matrix().pushed()).units);
        } else {
            self.state.modelview.push();
        }
    }

    pub fn PopMatrix(&mut self)
        requires
            old(self)@.wf(),
        ensures
            final(self)@.wf(),
            final(self)@ == old(self)@.with_matrix(old(self)@.matrix().popped()),
    {
        if self.state.matrix_mode == PROJECTION {
            self.state.projection.pop();
        } else if self.state.matrix_mode == TEXTURE {
            let unit: usize = self.state.active_texture;
            self.state.units[unit].matrix.pop();
            assert(self@.units =~= old(self)@.with_matrix(old(self)@.matrix().popped()).units);
        } else {
            self.state.modelview.pop();
        }
    }

    /// Switches a capability on. Returns whether it is one of the driver's,
    /// which has to be told.
    pub fn Enable(&mut self, cap: u32) -> (forward: bool)
        requires
            old(self)@.wf(),
        ensures
            final(self)@.wf(),
            final(self)@ == with_capability(old(self)@, cap, true),
            forward == !is_translated(cap),
    {
        self.set_capability(cap, true)
    }

    /// Switches a capability off. Returns whether it is one of the driver's,
    /// which has to be told.
    pub fn Disable(&mut self, cap: u32) -> (forward: bool)
        requires
            old(self)@.wf(),
        ensures
            final(self)@.wf(),
            final(self)@ == with_capability(old(self)@, cap, false),
            forward == !is_translated(cap),
    {
        self.set_capability(cap, false)
    }

    fn set_capability(&mut self, cap: u32, on: bool) -> (forward: bool)
        requires
            old(self)@.wf(),
        ensures
            final(self)@.wf(),
            final(self)@ == with_capability(old(self)@, cap, on),
            forward == !is_translated(cap),
    {
        if cap == TEXTURE_2D {
            let unit: usize = self.state.active_texture;
            self.state.units[unit].enabled = on;
            assert(self@.units =~= with_capability(old(self)@, cap, on).units);
            false
        } else if cap == ALPHA_TEST {
            self.state.alpha_test_enabled = on;
            false
        } else if cap == FOG {
            self.state.fog_enabled = on;
            false
        } else {
            cap != LIGHTING
        }
    }

    /// Whether a capability is on. `None` if the driver has to be asked.
    pub fn IsEnabled(&self, cap: u32) -> (enabled: Option<bool>)
        requires
            self@.wf(),
        ensures
            enabled == capability(self@, cap),
    {
        if cap == TEXTURE_2D {
            return Some(self.state.units[self.state.active_texture].enabled);
        }
        if cap == ALPHA_TEST {
            return Some(self.state.alpha_test_enabled);
        }
        if cap == FOG {
            return Some(self.state.fog_enabled);
        }
        if cap == LIGHTING {
            return Some(false);
        }
        None
    }

    /// A truth value of the state. `None` if the driver has to be asked.
    pub fn GetBooleanv(&self, pname: u32) -> (value: Option<bool>)
        requires
            self@.wf(),
        ensures
            value == capability(self@, pname),
    {
        self.IsEnabled(pname)
    }

    /// Numbers of the state. `None` if the driver has to be asked.
    pub fn GetFloatv(&self, pname: u32) -> (values: Option<Vec<u32>>)
        requires
            self@.wf(),
        ensures
            match values {
                Some(values) => numbers(self@, pname) == Some(values@),
                None => numbers(self@, pname) is None,
            },
    {
        if pname == MODELVIEW_MATRIX {
            Some(matrix_values(self.state.modelview.current))
        } else if pname == PROJECTION_MATRIX {
            Some(matrix_values(self.state.projection.current))
        } else if pname == TEXTURE_MATRIX {
            Some(matrix_values(self.state.units[self.state.active_texture].matrix.current))
        } else if pname == CURRENT_COLOR {
            Some(vec4_values(self.state.color))
        } else if pname == CURRENT_NORMAL {
            let values: Vec<u32> = vec![
                self.state.normal.x,
                self.state.normal.y,
                self.state.normal.z,
            ];
            assert(values@ =~= seq![self@.normal.x, self@.normal.y, self@.normal.z]);
            Some(values)
        } else if pname == FOG_COLOR {
            Some(vec4_values(self.state.fog_color))
        } else if pname == FOG_DENSITY {
            Some(single(self.state.fog_density))
        } else if pname == FOG_START {
            Some(single(self.state.fog_start))
        } else if pname == FOG_END {
            Some(single(self.state.fog_end))
        } else if pname == POINT_SIZE {
            Some(single(self.state.point_size))
        } else {
            None
        }
    }

    /// Says which texture unit the texture coordinate array is of.
    pub fn ClientActiveTexture(&mut self, texture: u32)
        requires
            old(self)@.wf(),
            texture >= TEXTURE0,
        ensures
            final(self)@.wf(),
            final(self)@ == (StateView {
                client_active_texture: unit_of(texture),
                ..old(self)@
            }),
    {
        self.state.client_active_texture = unit_index(texture);
    }

    /// Says which texture unit is active. Returns the name of that unit, which
    /// the driver has to be told.
    pub fn ActiveTexture(&mut self, texture: u32) -> (driver_texture: u32)
        requires
            old(self)@.wf(),
        ensures
            final(self)@.wf(),
            final(self)@ == (StateView { active_texture: unit_of(texture), ..old(self)@ }),
            driver_texture == TEXTURE0 + unit_of(texture),
    {
        self.state.active_texture = unit_index(texture);
        TEXTURE0 + self.state.active_texture as u32
    }

    pub fn EnableClientState(&mut self, array: u32)
        requires
            old(self)@.wf(),
        ensures
            final(self)@.wf(),
            final(self)@ == with_array_enabled(old(self)@, array, true),
    {
        self.set_array_enabled(array, true);
    }

    pub fn DisableClientState(&mut self, array: u32)
        requires
            old(self)@.wf(),
        ensures
            final(self)@.wf(),
            final(self)@ == with_array_enabled(old(self)@, array, false),
    {
        self.set_array_enabled(array, false);
    }

    fn set_array_enabled(&mut self, array: u32, on: bool)
        requires
            old(self)@.wf(),
        ensures
            final(self)@.wf(),
            final(self)@ == with_array_enabled(old(self)@, array, on),
    {
        if array == VERTEX_ARRAY {
            self.state.vertex_array.enabled = on;
        } else if array == COLOR_ARRAY {
            self.state.color_array.enabled = on;
        } else if array == NORMAL_ARRAY {
            self.state.normal_array.enabled = on;
        } else if array == TEXTURE_COORD_ARRAY {
            let unit: usize = self.state.client_active_texture;
            self.state.units[unit].array.enabled = on;
            assert(self@.units =~= with_array_enabled(old(self)@, array, on).units);
        }
    }

    pub fn VertexPointer(&mut self, size: i32, type_: u32, stride: i32, pointer: usize)
        requires
            old(self)@.wf(),
        ensures
            final(self)@.wf(),
            final(self)@ == (StateView {
                vertex_array: pointed(
                    old(self)@,
                    old(self)@.vertex_array,
                    size,
                    type_,
                    stride,
                    pointer,
                    false,
                ),
                ..old(self)@
            }),
    {
        self.state.vertex_array = ArrayState {
            size,
            type_,
            stride,
            pointer,
            buffer_binding: self.state.array_buffer_binding,
            enabled: self.state.vertex_array.enabled,
            fixed: type_ == FIXED,
            normalized: false,
        };
    }

    pub fn ColorPointer(&mut self, size: i32, type_: u32, stride: i32, pointer: usize)
        requires
            old(self)@.wf(),
        ensures
            final(self)@.wf(),
            final(self)@ == (StateView {
                color_array: pointed(
                    old(self)@,
                    old(self)@.color_array,
                    size,
                    type_,
                    stride,
                    pointer,
                    true,
                ),
                ..old(self)@
            }),
    {
        self.state.color_array = ArrayState {
            size,
            type_,
            stride,
            pointer,
            buffer_binding: self.state.array_buffer_binding,
            enabled: self.state.color_array.enabled,
            fixed: type_ == FIXED,
            normalized: true,
        };
    }

    pub fn NormalPointer(&mut self, type_: u32, stride: i32, pointer: usize)
        requires
            old(self)@.wf(),
        ensures
            final(self)@.wf(),
            final(self)@ == (StateView {
                normal_array: pointed(
                    old(self)@,
                    old(self)@.normal_array,
                    3,
                    type_,
                    stride,
                    pointer,
                    false,
                ),
                ..old(self)@
            }),
    {
        self.state.normal_array = ArrayState {
            size: 3,
            type_,
            stride,
            pointer,
            buffer_binding: self.state.array_buffer_binding,
            enabled: self.state.normal_array.enabled,
            fixed: type_ == FIXED,
            normalized: false,
        };
    }

    pub fn TexCoordPointer(&mut self, size: i32, type_: u32, stride: i32, pointer: usize)
        requires
            old(self)@.wf(),
        ensures
            final(self)@.wf(),
            final(self)@ == old(self)@.with_client_unit(
                UnitView {
                    array: pointed(
                        old(self)@,
                        old(self)@.client_unit().array,
                        size,
                        type_,
                        stride,
                        pointer,
                        false,
                    ),
                    ..old(self)@.client_unit()
                },
            ),
    {
        let unit: usize = self.state.client_active_texture;
        let enabled = self.state.units[unit].array.enabled;
        let buffer_binding: u32 = self.state.array_buffer_binding;
        self.state.units[unit].array =
        ArrayState {
            size,
            type_,
            stride,
            pointer,
            buffer_binding,
            enabled,
            fixed: type_ == FIXED,
            normalized: false,
        };
        assert(self@.units =~= old(self)@.units.update(
            unit as int,
            UnitView { array: self.state.units@[unit as int].array, ..old(self)@.client_unit() },
        ));
    }

    pub fn AlphaFunc(&mut self, func: u32, reference: u32)
        requires
            old(self)@.wf(),
        ensures
            final(self)@.wf(),
            final(self)@ == (StateView { alpha_func: func, alpha_ref: reference, ..old(self)@ }),
    {
        self.state.alpha_func = func;
        self.state.alpha_ref = reference;
    }

    pub fn AlphaFuncx(&mut self, func: u32, reference: i32)
        requires
            old(self)@.wf(),
        ensures
            final(self)@.wf(),
            final(self)@ == (StateView {
                alpha_func: func,
                alpha_ref: final(self)@.alpha_ref,
                ..old(self)@
            }),
            is_nearest(final(self)@.alpha_ref, reference as int, 0x1_0000),
    {
        self.AlphaFunc(func, fixed_to_float(reference));
    }

    pub fn Color4f(&mut self, r: u32, g: u32, b: u32, a: u32)
        requires
            old(self)@.wf(),
        ensures
            final(self)@.wf(),
            final(self)@ == (StateView { color: Vec4 { x: r, y: g, z: b, w: a }, ..old(self)@ }),
    {
        self.state.color = Vec4 { x: r, y: g, z: b, w: a };
    }

    pub fn Color4x(&mut self, r: i32, g: i32, b: i32, a: i32)
        requires
            old(self)@.wf(),
        ensures
            final(self)@.wf(),
            final(self)@ == (StateView { color: final(self)@.color, ..old(self)@ }),
            is_fixed_vec(final(self)@.color, r, g, b, a),
    {
        self.state.color = vec4_from_fixed(r, g, b, a);
    }

    pub fn Color4ub(&mut self, r: u8, g: u8, b: u8, a: u8)
        requires
            old(self)@.wf(),
        ensures
            final(self)@.wf(),
            final(self)@ == (StateView { color: final(self)@.color, ..old(self)@ }),
            is_nearest(final(self)@.color.x, r as int, 255),
            is_nearest(final(self)@.color.y, g as int, 255),
            is_nearest(final(self)@.color.z, b as int, 255),
            is_nearest(final(self)@.color.w, a as int, 255),
    {
        self.state.color =
        Vec4 {
            x: byte_to_float(r),
            y: byte_to_float(g),
            z: byte_to_float(b),
            w: byte_to_float(a),
        };
    }

    pub fn Normal3f(&mut self, x: u32, y: u32, z: u32)
        requires
            old(self)@.wf(),
        ensures
            final(self)@.wf(),
            final(self)@ == (StateView { normal: Vec3 { x, y, z }, ..old(self)@ }),
    {
        self.state.normal = Vec3 { x, y, z };
    }

    pub fn Normal3x(&mut self, x: i32, y: i32, z: i32)
        requires
            old(self)@.wf(),
        ensures
            final(self)@.wf(),
            final(self)@ == (StateView { normal: final(self)@.normal, ..old(self)@ }),
            is_nearest(final(self)@.normal.x, x as int, 0x1_0000),
            is_nearest(final(self)@.normal.y, y as int, 0x1_0000),
            is_nearest(final(self)@.normal.z, z as int, 0x1_0000),
    {
        self.Normal3f(fixed_to_float(x), fixed_to_float(y), fixed_to_float(z));
    }

    pub fn MultiTexCoord4f(&mut self, texture: u32, s: u32, t: u32, r: u32, q: u32)
        requires
            old(self)@.wf(),
            texture >= TEXTURE0,
        ensures
            final(self)@.wf(),
            final(self)@ == with_texcoord(
                old(self)@,
                texture,
                Vec4 { x: s, y: t, z: r, w: q },
            ),
    {
        let unit: usize = unit_index(texture);
        self.state.units[unit].texcoord = Vec4 { x: s, y: t, z: r, w: q };
        assert(self@.units =~= with_texcoord(
            old(self)@,
            texture,
            Vec4 { x: s, y: t, z: r, w: q },
        ).units);
    }

    pub fn MultiTexCoord4x(&mut self, texture: u32, s: i32, t: i32, r: i32, q: i32)
        requires
            old(self)@.wf(),
            texture >= TEXTURE0,
        ensures
            final(self)@.wf(),
            ({
                let coord = final(self)@.units[unit_of(texture)].texcoord;
                &&& final(self)@ == with_texcoord(old(self)@, texture, coord)
                &&& is_fixed_vec(coord, s, t, r, q)
            }),
    {
        let coord = vec4_from_fixed(s, t, r, q);
        self.MultiTexCoord4f(texture, coord.x, coord.y, coord.z, coord.w);
    }

    pub fn PointSize(&mut self, size: u32)
        requires
            old(self)@.wf(),
        ensures
            final(self)@.wf(),
            final(self)@ == (StateView { point_size: size, ..old(self)@ }),
    {
        self.state.point_size = size;
    }

    pub fn PointSizex(&mut self, size: i32)
        requires
            old(self)@.wf(),
        ensures
            final(self)@.wf(),
            final(self)@ == (StateView { point_size: final(self)@.point_size, ..old(self)@ }),
            is_nearest(final(self)@.point_size, size as int, 0x1_0000),
    {
        self.state.point_size = fixed_to_float(size);
    }
}

/// Capabilities that are the translator's own business. Lighting is left out
/// altogether.
pub open spec fn is_translated(cap: u32) -> bool {
    cap == TEXTURE_2D || cap == ALPHA_TEST || cap == FOG || cap == LIGHTING
}

/// The state with a capability switched on or off.
pub open spec fn with_capability(state: StateView, cap: u32, on: bool) -> StateView {
    if cap == TEXTURE_2D {
        state.with_unit(UnitView { enabled: on, ..state.unit() })
    } else if cap == ALPHA_TEST {
        StateView { alpha_test_enabled: on, ..state }
    } else if cap == FOG {
        StateView { fog_enabled: on, ..state }
    } else {
        state
    }
}

/// Whether a capability is on, as far as the translator knows.
pub open spec fn capability(state: StateView, cap: u32) -> Option<bool> {
    if cap == TEXTURE_2D {
        Some(state.unit().enabled)
    } else if cap == ALPHA_TEST {
        Some(state.alpha_test_enabled)
    } else if cap == FOG {
        Some(state.fog_enabled)
    } else if cap == LIGHTING {
        Some(false)
    } else {
        None
    }
}

pub open spec fn vec4_seq(v: Vec4) -> Seq<u32> {
    seq![v.x, v.y, v.z, v.w]
}

pub open spec fn matrix_seq(m: Matrix) -> Seq<u32> {
    vec4_seq(m.c0) + vec4_seq(m.c1) + vec4_seq(m.c2) + vec4_seq(m.c3)
}

/// Numbers of the state, as far as the translator knows.
pub open spec fn numbers(state: StateView, pname: u32) -> Option<Seq<u32>> {
    if pname == MODELVIEW_MATRIX {
        Some(matrix_seq(state.modelview.current))
    } else if pname == PROJECTION_MATRIX {
        Some(matrix_seq(state.projection.current))
    } else if pname == TEXTURE_MATRIX {
        Some(matrix_seq(state.unit().matrix.current))
    } else if pname == CURRENT_COLOR {
        Some(vec4_seq(state.color))
    } else if pname == CURRENT_NORMAL {
        Some(seq![state.normal.x, state.normal.y, state.normal.z])
    } else if pname == FOG_COLOR {
        Some(vec4_seq(state.fog_color))
    } else if pname == FOG_DENSITY {
        Some(seq![state.fog_density])
    } else if pname == FOG_START {
        Some(seq![state.fog_start])
    } else if pname == FOG_END {
        Some(seq![state.fog_end])
    } else if pname == POINT_SIZE {
        Some(seq![state.point_size])
    } else {
        None
    }
}

fn vec4_values(v: Vec4) -> (values: Vec<u32>)
    ensures
        values@ == vec4_seq(v),
{
    let values: Vec<u32> = vec![v.x, v.y, v.z, v.w];
    assert(values@ =~= vec4_seq(v));
    values
}

fn matrix_values(m: Matrix) -> (values: Vec<u32>)
    ensures
        values@ == matrix_seq(m),
{
    let mut values = vec4_values(m.c0);
    values.append(&mut vec4_values(m.c1));
    values.append(&mut vec4_values(m.c2));
    values.append(&mut vec4_values(m.c3));
    values
}

fn single(value: u32) -> (values: Vec<u32>)
    ensures
        values@ == seq![value],
{
    let values: Vec<u32> = vec![value];
    assert(values@ =~= seq![value]);
    values
}

/// The texture unit that a name means. Names out of range mean the nearest
/// one.
pub open spec fn unit_of(texture: u32) -> int {
    if texture < TEXTURE0 {
        0
    } else if texture - TEXTURE0 >= MAX_TEXTURE_UNITS {
        MAX_TEXTURE_UNITS - 1
    } else {
        texture - TEXTURE0
    }
}

fn unit_index(texture: u32) -> (unit: usize)
    ensures
        unit == unit_of(texture),
        unit < MAX_TEXTURE_UNITS,
{
    let unit: u32 = texture.saturating_sub(TEXTURE0);
    if unit >= 4 {
        3
    } else {
        unit as usize
    }
}

/// The state with an array switched on or off.
pub open spec fn with_array_enabled(state: StateView, array: u32, on: bool) -> StateView {
    if array == VERTEX_ARRAY {
        StateView {
            vertex_array: ArrayState { enabled: on, ..state.vertex_array },
            ..state
        }
    } else if array == COLOR_ARRAY {
        StateView { color_array: ArrayState { enabled: on, ..state.color_array }, ..state }
    } else if array == NORMAL_ARRAY {
        StateView {
            normal_array: ArrayState { enabled: on, ..state.normal_array },
            ..state
        }
    } else if array == TEXTURE_COORD_ARRAY {
        state.with_client_unit(
            UnitView {
                array: ArrayState { enabled: on, ..state.client_unit().array },
                ..state.client_unit()
            },
        )
    } else {
        state
    }
}

/// An array with other data: from the buffer that is bound. Whether it is
/// switched on stays.
pub open spec fn pointed(
    state: StateView,
    array: ArrayState,
    size: i32,
    type_: u32,
    stride: i32,
    pointer: usize,
    normalized: bool,
) -> ArrayState {
    ArrayState {
        size,
        type_,
        stride,
        pointer,
        buffer_binding: state.array_buffer_binding,
        enabled: array.enabled,
        fixed: type_ == FIXED,
        normalized,
    }
}

pub open spec fn with_texcoord(state: StateView, texture: u32, texcoord: Vec4) -> StateView {
    let unit = unit_of(texture);
    StateView {
        units: state.units.update(unit, UnitView { texcoord, ..state.units[unit] }),
        ..state
    }
}

/// Whether the numbers are the nearest to fixed-point ones.
pub open spec fn is_fixed_vec(v: Vec4, x: i32, y: i32, z: i32, w: i32) -> bool {
    &&& is_nearest(v.x, x as int, 0x1_0000)
    &&& is_nearest(v.y, y as int, 0x1_0000)
    &&& is_nearest(v.z, z as int, 0x1_0000)
    &&& is_nearest(v.w, w as int, 0x1_0000)
}

pub fn vec4_from_fixed(x: i32, y: i32, z: i32, w: i32) -> (v: Vec4)
    ensures
        is_fixed_vec(v, x, y, z, w),
{
    Vec4 {
        x: fixed_to_float(x),
        y: fixed_to_float(y),
        z: fixed_to_float(z),
        w: fixed_to_float(w),
    }
}

/// An emulated context.
pub struct GLES1OnGLES2Context {
    /// Whether the functions of the driver have been looked up.
    pub is_loaded: bool,
    pub gles: GLES1OnGLES2,
}

impl GLES1OnGLES2Context {
    pub fn description() -> (text: &'static str)
        ensures
            text@ == "OpenGL ES 1.1 translated to native OpenGL ES 2.0 shaders"@,
    {
        "OpenGL ES 1.1 translated to native OpenGL ES 2.0 shaders"
    }

    pub fn new() -> (context: Self)
        ensures
            !context.is_loaded,
            context.gles@ == StateView::initial(),
            context.gles@.wf(),
    {
        GLES1OnGLES2Context {
            is_loaded: false,
            gles: GLES1OnGLES2 { state: TranslatorState::new() },
        }
    }

    /// Prepares the context for use. Returns whether it has to be made current
    /// and the functions of the driver looked up first.
    pub fn make_current(&mut self, is_current: bool) -> (load: bool)
        ensures
            load == (!is_current || !old(self).is_loaded),
            final(self).is_loaded,
            final(self).gles == old(self).gles,
    {
        let load = !is_current || !self.is_loaded;
        self.is_loaded = true;
        load
    }
}

} // verus!

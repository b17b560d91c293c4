//! Buffers, texture environment and fog of the fixed-function emulation.
use vstd::prelude::*;

use crate::gles::constants::{
    ARRAY_BUFFER, ELEMENT_ARRAY_BUFFER, FOG_COLOR, FOG_DENSITY, FOG_END, FOG_MODE, FOG_START,
    TEXTURE_ENV, TEXTURE_ENV_COLOR, TEXTURE_ENV_MODE,
};
use crate::gles::gles1_on_gles2::{
    held, is_fixed_vec, overwritten, resized, vec4_from_fixed, vec4_seq, BufferData,
    GLES1OnGLES2, Matrix, StateView, UnitView, Vec4,
};
use crate::mem::bytes::store;
use crate::numeric::float::{
    fixed_to_float, float_to_fixed, float_to_int, float_to_uint, int_to_float, is_nearest,
    truncated, truncated_unsigned,
};

verus! {

/// The buffer that is bound to a target. Zero means none.
pub open spec fn bound_buffer(state: StateView, target: u32) -> u32 {
    if target == ARRAY_BUFFER {
        state.array_buffer_binding
    } else if target == ELEMENT_ARRAY_BUFFER {
        state.element_array_buffer_binding
    } else {
        0
    }
}

/// The state with another content of the buffer that is bound to a target.
pub open spec fn with_buffer(state: StateView, target: u32, bytes: Seq<u8>) -> StateView {
    let buffer = bound_buffer(state, target);
    if target == ARRAY_BUFFER {
        StateView { array_buffer_data: state.array_buffer_data.insert(buffer, bytes), ..state }
    } else {
        StateView {
            element_array_buffer_data: state.element_array_buffer_data.insert(buffer, bytes),
            ..state
        }
    }
}

/// What the buffer that is bound to a target holds.
pub open spec fn bound_bytes(state: StateView, target: u32) -> Seq<u8> {
    let buffer = bound_buffer(state, target);
    if target == ARRAY_BUFFER {
        held(state.array_buffer_data, buffer)
    } else {
        held(state.element_array_buffer_data, buffer)
    }
}

/// What buffers hold, without the first `count` of the given ones.
pub open spec fn without_buffers(
    data: Map<u32, Seq<u8>>,
    buffers: Seq<u32>,
    count: int,
) -> Map<u32, Seq<u8>>
    decreases count,
{
    if count <= 0 {
        data
    } else {
        without_buffers(data, buffers, count - 1).remove(buffers[count - 1])
    }
}

fn resize(bytes: &mut Vec<u8>, size: usize)
    ensures
        final(bytes)@ == resized(old(bytes)@, size as int),
{
    if bytes.len() > size {
        bytes.truncate(size);
    }
    while bytes.len() < size
        invariant
            bytes@.len() <= size,
            forall|k: int|
                0 <= k < bytes@.len() ==> #[trigger] bytes@[k] == resized(
                    old(bytes)@,
                    size as int,
                )[k],
            bytes@.len() >= old(bytes)@.len() || bytes@.len() == size,
        decreases size - bytes@.len(),
    {
        bytes.push(0);
    }
    assert(bytes@ =~= resized(old(bytes)@, size as int));
}

#[allow(non_snake_case)]
impl GLES1OnGLES2 {
    /// Binds a buffer. The driver has to be told too.
    pub fn BindBuffer(&mut self, target: u32, buffer: u32)
        requires
            old(self)@.wf(),
        ensures
            final(self)@.wf(),
            final(self)@ == if target == ARRAY_BUFFER {
                StateView { array_buffer_binding: buffer, ..old(self)@ }
            } else if target == ELEMENT_ARRAY_BUFFER {
                StateView { element_array_buffer_binding: buffer, ..old(self)@ }
            } else {
                old(self)@
            },
    {
        if target == ARRAY_BUFFER {
            self.state.array_buffer_binding = buffer;
        } else if target == ELEMENT_ARRAY_BUFFER {
            self.state.element_array_buffer_binding = buffer;
        }
    }

    /// Forgets what buffers hold. The driver has to be told too.
    pub fn DeleteBuffers(&mut self, buffers: &[u32])
        requires
            old(self)@.wf(),
        ensures
            final(self)@.wf(),
            final(self)@ == (StateView {
                array_buffer_data: without_buffers(
                    old(self)@.array_buffer_data,
                    buffers@,
                    buffers@.len() as int,
                ),
                element_array_buffer_data: without_buffers(
                    old(self)@.element_array_buffer_data,
                    buffers@,
                    buffers@.len() as int,
                ),
                ..old(self)@
            }),
    {
        let mut i: usize = 0;
        while i < buffers.len()
            invariant
                i <= buffers@.len(),
                self@.wf(),
                self@ == (StateView {
                    array_buffer_data: without_buffers(
                        old(self)@.array_buffer_data,
                        buffers@,
                        i as int,
                    ),
                    element_array_buffer_data: without_buffers(
                        old(self)@.element_array_buffer_data,
                        buffers@,
                        i as int,
                    ),
                    ..old(self)@
                }),
            decreases buffers@.len() - i,
        {
            let buffer: u32 = buffers[i];
            self.state.array_buffer_data.remove(buffer);
            self.state.element_array_buffer_data.remove(buffer);
            i = i + 1;
        }
    }

    fn bound(&self, target: u32) -> (buffer: u32)
        ensures
            buffer == bound_buffer(self@, target),
    {
        if target == ARRAY_BUFFER {
            self.state.array_buffer_binding
        } else if target == ELEMENT_ARRAY_BUFFER {
            self.state.element_array_buffer_binding
        } else {
            0
        }
    }

    /// A copy of what the bound buffer holds.
    fn copy_bound(&self, target: u32, buffer: u32) -> (bytes: Vec<u8>)
        requires
            buffer == bound_buffer(self@, target),
        ensures
            bytes@ == bound_bytes(self@, target),
    {
        let found = if target == ARRAY_BUFFER {
            self.state.array_buffer_data.get(buffer)
        } else {
            self.state.element_array_buffer_data.get(buffer)
        };
        match found {
            Some(bytes) => bytes,
            None => {
                let bytes: Vec<u8> = Vec::new();
                assert(bytes@ =~= Seq::empty());
                bytes
            },
        }
    }

    fn replace_bound(&mut self, target: u32, buffer: u32, bytes: Vec<u8>)
        requires
            old(self)@.wf(),
            buffer == bound_buffer(old(self)@, target),
        ensures
            final(self)@.wf(),
            final(self)@ == with_buffer(old(self)@, target, bytes@),
    {
        if target == ARRAY_BUFFER {
            self.state.array_buffer_data.insert(buffer, bytes);
        } else {
            self.state.element_array_buffer_data.insert(buffer, bytes);
        }
    }

    /// Sets the size of the bound buffer, and what it holds. Without data, it
    /// keeps what still fits. The driver has to be told too.
    pub fn BufferData(&mut self, target: u32, size: isize, data: Option<&[u8]>)
        requires
            old(self)@.wf(),
            data matches Some(bytes) ==> bytes@.len() == size,
        ensures
            final(self)@.wf(),
            final(self)@ == if bound_buffer(old(self)@, target) != 0 && size >= 0 {
                with_buffer(
                    old(self)@,
                    target,
                    match data {
                        Some(bytes) => bytes@,
                        None => resized(bound_bytes(old(self)@, target), size as int),
                    },
                )
            } else {
                old(self)@
            },
    {
        let buffer: u32 = self.bound(target);
        if buffer == 0 || size < 0 {
            return ;
        }
        let bytes: Vec<u8> = match data {
            Some(bytes) => vstd::slice::slice_to_vec(bytes),
            None => {
                let mut bytes = self.copy_bound(target, buffer);
                resize(&mut bytes, size as usize);
                bytes
            },
        };
        self.replace_bound(target, buffer, bytes);
    }

    /// Changes a part of what the bound buffer holds. The driver has to be
    /// told too.
    pub fn BufferSubData(&mut self, target: u32, offset: isize, data: Option<&[u8]>)
        requires
            old(self)@.wf(),
            data matches Some(bytes) ==> bytes@.len() <= isize::MAX,
        ensures
            final(self)@.wf(),
            final(self)@ == if bound_buffer(old(self)@, target) != 0 && offset >= 0
                && data is Some {
                with_buffer(
                    old(self)@,
                    target,
                    overwritten(
                        bound_bytes(old(self)@, target),
                        offset as int,
                        data.unwrap()@,
                    ),
                )
            } else {
                old(self)@
            },
    {
        let buffer: u32 = self.bound(target);
        if buffer == 0 || offset < 0 {
            return ;
        }
        if let Some(data) = data {
            let mut bytes = self.copy_bound(target, buffer);
            let end: usize = offset as usize + data.len();
            if end > bytes.len() {
                resize(&mut bytes, end);
            }
            store(&mut bytes, offset as usize, data);
            self.replace_bound(target, buffer, bytes);
        }
    }

    /// Sets the texture environment of the active unit.
    pub fn TexEnvi(&mut self, _target: u32, pname: u32, param: i32)
        requires
            old(self)@.wf(),
        ensures
            final(self)@.wf(),
            pname == TEXTURE_ENV_MODE ==> final(self)@ == old(self)@.with_unit(
                UnitView { env_mode: param, ..old(self)@.unit() },
            ),
            pname == TEXTURE_ENV_COLOR ==> {
                let color = final(self)@.unit().env_color;
                &&& final(self)@ == old(self)@.with_unit(
                    UnitView { env_color: color, ..old(self)@.unit() },
                )
                &&& is_int_vec(color, param, param, param, param)
            },
            pname != TEXTURE_ENV_MODE && pname != TEXTURE_ENV_COLOR ==> final(self)@ == old(self)@,
    {
        if pname == TEXTURE_ENV_MODE {
            self.set_env_mode(param);
        } else if pname == TEXTURE_ENV_COLOR {
            let value: u32 = int_to_float(param);
            self.set_env_color(Vec4 { x: value, y: value, z: value, w: value });
        }
    }

    fn set_env_mode(&mut self, mode: i32)
        requires
            old(self)@.wf(),
        ensures
            final(self)@.wf(),
            final(self)@ == old(self)@.with_unit(
                UnitView { env_mode: mode, ..old(self)@.unit() },
            ),
    {
        let unit: usize = self.state.active_texture;
        self.state.units[unit].env_mode = mode;
        assert(self@.units =~= old(self)@.with_unit(
            UnitView { env_mode: mode, ..old(self)@.unit() },
        ).units);
    }

    fn set_env_color(&mut self, color: Vec4)
        requires
            old(self)@.wf(),
        ensures
            final(self)@.wf(),
            final(self)@ == old(self)@.with_unit(
                UnitView { env_color: color, ..old(self)@.unit() },
            ),
    {
        let unit: usize = self.state.active_texture;
        self.state.units[unit].env_color = color;
        assert(self@.units =~= old(self)@.with_unit(
            UnitView { env_color: color, ..old(self)@.unit() },
        ).units);
    }

    pub fn TexEnvf(&mut self, _target: u32, pname: u32, param: u32)
        requires
            old(self)@.wf(),
        ensures
            final(self)@.wf(),
            pname == TEXTURE_ENV_MODE ==> final(self)@ == old(self)@.with_unit(
                UnitView { env_mode: truncated(param, 1) as i32, ..old(self)@.unit() },
            ),
            pname == TEXTURE_ENV_COLOR ==> {
                let color = final(self)@.unit().env_color;
                let whole = truncated(param, 1) as i32;
                &&& final(self)@ == old(self)@.with_unit(
                    UnitView { env_color: color, ..old(self)@.unit() },
                )
                &&& is_int_vec(color, whole, whole, whole, whole)
            },
            pname != TEXTURE_ENV_MODE && pname != TEXTURE_ENV_COLOR ==> final(self)@ == old(self)@,
    {
        self.TexEnvi(_target, pname, float_to_int(param));
    }

    /// The mode is not a fixed-point number, even here.
    pub fn TexEnvx(&mut self, _target: u32, pname: u32, param: i32)
        requires
            old(self)@.wf(),
        ensures
            final(self)@.wf(),
            pname == TEXTURE_ENV_MODE ==> final(self)@ == old(self)@.with_unit(
                UnitView { env_mode: param, ..old(self)@.unit() },
            ),
            pname == TEXTURE_ENV_COLOR ==> {
                let color = final(self)@.unit().env_color;
                &&& final(self)@ == old(self)@.with_unit(
                    UnitView { env_color: color, ..old(self)@.unit() },
                )
                &&& is_int_vec(color, param, param, param, param)
            },
            pname != TEXTURE_ENV_MODE && pname != TEXTURE_ENV_COLOR ==> final(self)@ == old(self)@,
    {
        self.TexEnvi(_target, pname, param);
    }

    pub fn TexEnviv(&mut self, _target: u32, pname: u32, params: &[i32])
        requires
            old(self)@.wf(),
            params@.len() >= 1,
            pname == TEXTURE_ENV_COLOR ==> params@.len() >= 4,
        ensures
            final(self)@.wf(),
            pname == TEXTURE_ENV_MODE ==> final(self)@ == old(self)@.with_unit(
                UnitView { env_mode: params@[0], ..old(self)@.unit() },
            ),
            pname == TEXTURE_ENV_COLOR ==> {
                let color = final(self)@.unit().env_color;
                &&& final(self)@ == old(self)@.with_unit(
                    UnitView { env_color: color, ..old(self)@.unit() },
                )
                &&& is_int_vec(color, params@[0], params@[1], params@[2], params@[3])
            },
            pname != TEXTURE_ENV_MODE && pname != TEXTURE_ENV_COLOR ==> final(self)@ == old(self)@,
    {
        if pname == TEXTURE_ENV_COLOR {
            self.set_env_color(
                Vec4 {
                    x: int_to_float(params[0]),
                    y: int_to_float(params[1]),
                    z: int_to_float(params[2]),
                    w: int_to_float(params[3]),
                },
            );
        } else {
            self.TexEnvi(_target, pname, params[0]);
        }
    }

    pub fn TexEnvfv(&mut self, _target: u32, pname: u32, params: &[u32])
        requires
            old(self)@.wf(),
            params@.len() >= 1,
            pname == TEXTURE_ENV_COLOR ==> params@.len() >= 4,
        ensures
            final(self)@.wf(),
            final(self)@ == if pname == TEXTURE_ENV_MODE {
                old(self)@.with_unit(
                    UnitView { env_mode: truncated(params@[0], 1) as i32, ..old(self)@.unit() },
                )
            } else if pname == TEXTURE_ENV_COLOR {
                old(self)@.with_unit(
                    UnitView {
                        env_color: Vec4 {
                            x: params@[0],
                            y: params@[1],
                            z: params@[2],
                            w: params@[3],
                        },
                        ..old(self)@.unit()
                    },
                )
            } else {
                old(self)@
            },
    {
        if pname == TEXTURE_ENV_COLOR {
            self.set_env_color(
                Vec4 { x: params[0], y: params[1], z: params[2], w: params[3] },
            );
        } else {
            self.TexEnvi(_target, pname, float_to_int(params[0]));
        }
    }

    pub fn TexEnvxv(&mut self, _target: u32, pname: u32, params: &[i32])
        requires
            old(self)@.wf(),
            params@.len() >= 1,
            pname == TEXTURE_ENV_COLOR ==> params@.len() >= 4,
        ensures
            final(self)@.wf(),
            pname == TEXTURE_ENV_MODE ==> final(self)@ == old(self)@.with_unit(
                UnitView { env_mode: params@[0], ..old(self)@.unit() },
            ),
            pname == TEXTURE_ENV_COLOR ==> {
                let color = final(self)@.unit().env_color;
                &&& final(self)@ == old(self)@.with_unit(
                    UnitView { env_color: color, ..old(self)@.unit() },
                )
                &&& is_fixed_vec(color, params@[0], params@[1], params@[2], params@[3])
            },
            pname != TEXTURE_ENV_MODE && pname != TEXTURE_ENV_COLOR ==> final(self)@ == old(self)@,
    {
        if pname == TEXTURE_ENV_COLOR {
            self.set_env_color(vec4_from_fixed(params[0], params[1], params[2], params[3]));
        } else {
            self.TexEnvi(_target, pname, params[0]);
        }
    }

    /// The texture environment of the active unit, in integers.
    pub fn GetTexEnviv(&self, target: u32, pname: u32) -> (values: Vec<i32>)
        requires
            self@.wf(),
            target == TEXTURE_ENV,
        ensures
            values@ == if pname == TEXTURE_ENV_MODE {
                seq![self@.unit().env_mode]
            } else if pname == TEXTURE_ENV_COLOR {
                seq![
                    truncated(self@.unit().env_color.x, 1) as i32,
                    truncated(self@.unit().env_color.y, 1) as i32,
                    truncated(self@.unit().env_color.z, 1) as i32,
                    truncated(self@.unit().env_color.w, 1) as i32,
                ]
            } else {
                Seq::empty()
            },
    {
        let unit: usize = self.state.active_texture;
        let mut values: Vec<i32> = Vec::new();
        if pname == TEXTURE_ENV_MODE {
            values.push(self.state.units[unit].env_mode);
            assert(values@ =~= seq![self@.unit().env_mode]);
        } else if pname == TEXTURE_ENV_COLOR {
            let color = self.state.units[unit].env_color;
            values.push(float_to_int(color.x));
            values.push(float_to_int(color.y));
            values.push(float_to_int(color.z));
            values.push(float_to_int(color.w));
            assert(values@ =~= seq![
                truncated(color.x, 1) as i32,
                truncated(color.y, 1) as i32,
                truncated(color.z, 1) as i32,
                truncated(color.w, 1) as i32,
            ]);
        } else {
            assert(values@ =~= Seq::empty());
        }
        values
    }

    /// The texture environment of the active unit.
    pub fn GetTexEnvfv(&self, target: u32, pname: u32) -> (values: Vec<u32>)
        requires
            self@.wf(),
            target == TEXTURE_ENV,
        ensures
            pname == TEXTURE_ENV_MODE ==> values@.len() == 1 && is_nearest(
                values@[0],
                self@.unit().env_mode as int,
                1,
            ),
            pname == TEXTURE_ENV_COLOR ==> values@ == vec4_seq(self@.unit().env_color),
            pname != TEXTURE_ENV_MODE && pname != TEXTURE_ENV_COLOR ==> values@
                == Seq::<u32>::empty(),
    {
        let unit: usize = self.state.active_texture;
        let mut values: Vec<u32> = Vec::new();
        if pname == TEXTURE_ENV_MODE {
            values.push(int_to_float(self.state.units[unit].env_mode));
        } else if pname == TEXTURE_ENV_COLOR {
            let color = self.state.units[unit].env_color;
            values.push(color.x);
            values.push(color.y);
            values.push(color.z);
            values.push(color.w);
            assert(values@ =~= vec4_seq(color));
        } else {
            assert(values@ =~= Seq::<u32>::empty());
        }
        values
    }

    /// The texture environment of the active unit, in four fixed-point
    /// numbers. Those that are not asked for are zero.
    pub fn GetTexEnvxv(&self, target: u32, pname: u32) -> (values: Vec<i32>)
        requires
            self@.wf(),
            target == TEXTURE_ENV,
        ensures
            values@.len() == 4,
            pname == TEXTURE_ENV_MODE ==> {
                &&& exists|mode: u32| #[trigger]
                    is_nearest(mode, self@.unit().env_mode as int, 1) && values@[0] == truncated(
                        mode,
                        0x1_0000,
                    )
                &&& values@[1] == 0 && values@[2] == 0 && values@[3] == 0
            },
            pname == TEXTURE_ENV_COLOR ==> forall|k: int|
                0 <= k < 4 ==> #[trigger] values@[k] == truncated(
                    vec4_seq(self@.unit().env_color)[k],
                    0x1_0000,
                ),
            pname != TEXTURE_ENV_MODE && pname != TEXTURE_ENV_COLOR ==> values@ == seq![
                0i32,
                0i32,
                0i32,
                0i32,
            ],
    {
        let floats = self.GetTexEnvfv(target, pname);
        let mut values: Vec<i32> = Vec::new();
        let mut i: usize = 0;
        while i < 4
            invariant
                i <= 4,
                values@.len() == i,
                floats@.len() <= 4,
                forall|k: int|
                    0 <= k < i ==> #[trigger] values@[k] == if k < floats@.len() {
                        truncated(floats@[k], 0x1_0000)
                    } else {
                        0
                    },
            decreases 4 - i,
        {
            if i < floats.len() {
                values.push(float_to_fixed(floats[i]));
            } else {
                values.push(0);
            }
            i = i + 1;
        }
        proof {
            if pname == TEXTURE_ENV_MODE {
                assert(is_nearest(floats@[0], self@.unit().env_mode as int, 1));
            }
            if pname != TEXTURE_ENV_MODE && pname != TEXTURE_ENV_COLOR {
                assert(values@ =~= seq![0i32, 0i32, 0i32, 0i32]);
            }
        }
        values
    }

    pub fn Fogf(&mut self, pname: u32, param: u32)
        requires
            old(self)@.wf(),
        ensures
            final(self)@.wf(),
            final(self)@ == with_fog(old(self)@, pname, param),
    {
        if pname == FOG_MODE {
            self.state.fog_mode = float_to_uint(param);
        } else if pname == FOG_DENSITY {
            self.state.fog_density = param;
        } else if pname == FOG_START {
            self.state.fog_start = param;
        } else if pname == FOG_END {
            self.state.fog_end = param;
        }
    }

    pub fn Fogx(&mut self, pname: u32, param: i32)
        requires
            old(self)@.wf(),
        ensures
            final(self)@.wf(),
            exists|value: u32| #[trigger]
                is_nearest(value, param as int, 0x1_0000) && final(self)@ == with_fog(
                    old(self)@,
                    pname,
                    value,
                ),
    {
        let value: u32 = fixed_to_float(param);
        self.Fogf(pname, value);
    }

    pub fn Fogfv(&mut self, pname: u32, params: &[u32])
        requires
            old(self)@.wf(),
            params@.len() >= 1,
            pname == FOG_COLOR ==> params@.len() >= 4,
        ensures
            final(self)@.wf(),
            final(self)@ == if pname == FOG_COLOR {
                StateView {
                    fog_color: Vec4 { x: params@[0], y: params@[1], z: params@[2], w: params@[3] },
                    ..old(self)@
                }
            } else {
                with_fog(old(self)@, pname, params@[0])
            },
    {
        if pname == FOG_COLOR {
            self.state.fog_color =
            Vec4 { x: params[0], y: params[1], z: params[2], w: params[3] };
        } else {
            self.Fogf(pname, params[0]);
        }
    }

    pub fn Fogxv(&mut self, pname: u32, params: &[i32])
        requires
            old(self)@.wf(),
            params@.len() >= 1,
            pname == FOG_COLOR ==> params@.len() >= 4,
        ensures
            final(self)@.wf(),
            pname == FOG_COLOR ==> {
                &&& final(self)@ == (StateView { fog_color: final(self)@.fog_color, ..old(self)@ })
                &&& is_fixed_vec(
                    final(self)@.fog_color,
                    params@[0],
                    params@[1],
                    params@[2],
                    params@[3],
                )
            },
            pname != FOG_COLOR ==> exists|value: u32| #[trigger]
                is_nearest(value, params@[0] as int, 0x1_0000) && final(self)@ == with_fog(
                    old(self)@,
                    pname,
                    value,
                ),
    {
        if pname == FOG_COLOR {
            self.state.fog_color = vec4_from_fixed(params[0], params[1], params[2], params[3]);
        } else {
            self.Fogx(pname, params[0]);
        }
    }

    /// Makes a matrix of fixed-point numbers the current one.
    pub fn LoadMatrixx(&mut self, m: &[i32])
        requires
            old(self)@.wf(),
            m@.len() >= 16,
        ensures
            final(self)@.wf(),
            ({
                let matrix = final(self)@.matrix().current;
                &&& final(self)@ == old(self)@.with_current(matrix)
                &&& is_fixed_matrix(matrix, m@)
            }),
    {
        let matrix = matrix_from_fixed(m);
        self.LoadMatrixf(matrix);
    }
}

/// The state with another parameter of the fog.
pub open spec fn with_fog(state: StateView, pname: u32, param: u32) -> StateView {
    if pname == FOG_MODE {
        StateView { fog_mode: truncated_unsigned(param) as u32, ..state }
    } else if pname == FOG_DENSITY {
        StateView { fog_density: param, ..state }
    } else if pname == FOG_START {
        StateView { fog_start: param, ..state }
    } else if pname == FOG_END {
        StateView { fog_end: param, ..state }
    } else {
        state
    }
}

/// Whether the numbers are the nearest to integers.
pub open spec fn is_int_vec(v: Vec4, x: i32, y: i32, z: i32, w: i32) -> bool {
    &&& is_nearest(v.x, x as int, 1)
    &&& is_nearest(v.y, y as int, 1)
    &&& is_nearest(v.z, z as int, 1)
    &&& is_nearest(v.w, w as int, 1)
}

/// Whether the numbers are the nearest to fixed-point ones.
pub open spec fn is_fixed_matrix(matrix: Matrix, m: Seq<i32>) -> bool {
    &&& is_fixed_vec(matrix.c0, m[0], m[1], m[2], m[3])
    &&& is_fixed_vec(matrix.c1, m[4], m[5], m[6], m[7])
    &&& is_fixed_vec(matrix.c2, m[8], m[9], m[10], m[11])
    &&& is_fixed_vec(matrix.c3, m[12], m[13], m[14], m[15])
}

/// A matrix of fixed-point numbers.
pub fn matrix_from_fixed(m: &[i32]) -> (matrix: Matrix)
    requires
        m@.len() >= 16,
    ensures
        is_fixed_matrix(matrix, m@),
{
    Matrix {
        c0: vec4_from_fixed(m[0], m[1], m[2], m[3]),
        c1: vec4_from_fixed(m[4], m[5], m[6], m[7]),
        c2: vec4_from_fixed(m[8], m[9], m[10], m[11]),
        c3: vec4_from_fixed(m[12], m[13], m[14], m[15]),
    }
}

} // verus!

//! Constants of OpenGL ES.
use vstd::prelude::*;

verus! {

pub const ADD: u32 = 0x0104;

pub const ALWAYS: u32 = 0x0207;

pub const EXP: u32 = 0x0800;

pub const CURRENT_COLOR: u32 = 0x0b00;

pub const CURRENT_NORMAL: u32 = 0x0b02;

pub const POINT_SIZE: u32 = 0x0b11;

pub const LIGHTING: u32 = 0x0b50;

pub const FOG: u32 = 0x0b60;

pub const FOG_DENSITY: u32 = 0x0b62;

pub const FOG_START: u32 = 0x0b63;

pub const FOG_END: u32 = 0x0b64;

pub const FOG_MODE: u32 = 0x0b65;

pub const FOG_COLOR: u32 = 0x0b66;

pub const MODELVIEW_MATRIX: u32 = 0x0ba6;

pub const PROJECTION_MATRIX: u32 = 0x0ba7;

pub const TEXTURE_MATRIX: u32 = 0x0ba8;

pub const ALPHA_TEST: u32 = 0x0bc0;

pub const TEXTURE_2D: u32 = 0x0de1;

pub const FLOAT: u32 = 0x1406;

pub const FIXED: u32 = 0x140c;

pub const MODELVIEW: u32 = 0x1700;

pub const PROJECTION: u32 = 0x1701;

pub const TEXTURE: u32 = 0x1702;

pub const REPLACE: u32 = 0x1e01;

pub const MODULATE: u32 = 0x2100;

pub const DECAL: u32 = 0x2101;

pub const TEXTURE_ENV_MODE: u32 = 0x2200;

pub const TEXTURE_ENV_COLOR: u32 = 0x2201;

pub const TEXTURE_ENV: u32 = 0x2300;

pub const VERTEX_ARRAY: u32 = 0x8074;

pub const NORMAL_ARRAY: u32 = 0x8075;

pub const COLOR_ARRAY: u32 = 0x8076;

pub const TEXTURE_COORD_ARRAY: u32 = 0x8078;

pub const TEXTURE0: u32 = 0x84c0;

pub const ARRAY_BUFFER: u32 = 0x8892;

pub const ELEMENT_ARRAY_BUFFER: u32 = 0x8893;

} // verus!

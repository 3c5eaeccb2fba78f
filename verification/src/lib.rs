//! Colorify: turning images and 3D models into Minecraft Bedrock content (pixel art,
//! staircase map art, particle art and voxel builds) as function files, structure files,
//! game commands or direct world writes. This crate holds the logic, each function proved
//! against its contract; `app/` holds the I/O and floating-point work around it.
use vstd::prelude::*;

pub mod block;
pub mod calendar;
pub mod common;
pub mod fill;
pub mod ditherer;
pub mod generator;
pub mod glb;
pub mod json;
pub mod ldb;
pub mod model;
pub mod nbt;
pub mod obj;
pub mod pack;
pub mod particle;
pub mod pixel;
pub mod primitive;
pub mod process;
pub mod staircase;
pub mod text;
pub mod window;
pub mod ws;

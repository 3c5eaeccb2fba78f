//! The 3D-model run's choices read from its request, the blocks it hands to a world write,
//! and what it reports at the end.
use vstd::prelude::*;
use vstd::string::*;

use crate::block::{DitherMode, FallableBehaviour};
use crate::common::str_eq;
use crate::process::{cancelled_text, opt_string_view, ProgressMessage};

verus! {

/// Which colour overlapping voxels keep.
#[derive(Clone, Copy, PartialEq, Eq, Structural, Debug)]
pub enum VoxelOverlapRule {
    /// The first voxel's colour.
    First,
    /// The running average.
    Average,
}

/// How a model is voxelised.
#[derive(Clone, Copy, PartialEq, Eq, Structural, Debug)]
pub enum VoxeliserKind {
    Triplane,
    BvhRay,
}

/// The axis along which the model's size is measured.
#[derive(Clone, Copy, PartialEq, Eq, Structural, Debug)]
pub enum Axis {
    X,
    Y,
    Z,
}

/// The voxeliser a request names.
pub fn voxeliser_kind_of(name: &str) -> (res: VoxeliserKind)
    ensures
        res == if name@ == "bvh-ray"@ {
            VoxeliserKind::BvhRay
        } else {
            VoxeliserKind::Triplane
        },
{
    if str_eq(name, "bvh-ray") {
        VoxeliserKind::BvhRay
    } else {
        VoxeliserKind::Triplane
    }
}

/// The constraint axis a request names.
pub fn axis_of(name: &str) -> (res: Axis)
    ensures
        res == if name@ == "x"@ {
            Axis::X
        } else if name@ == "z"@ {
            Axis::Z
        } else {
            Axis::Y
        },
{
    if str_eq(name, "x") {
        Axis::X
    } else if str_eq(name, "z") {
        Axis::Z
    } else {
        Axis::Y
    }
}

/// The voxel overlap rule a request names.
pub fn overlap_rule_of(name: &str) -> (res: VoxelOverlapRule)
    ensures
        res == if name@ == "first"@ {
            VoxelOverlapRule::First
        } else {
            VoxelOverlapRule::Average
        },
{
    if str_eq(name, "first") {
        VoxelOverlapRule::First
    } else {
        VoxelOverlapRule::Average
    }
}

/// The dithering a request names.
pub fn dither_mode_of(name: &str) -> (res: DitherMode)
    ensures
        res == if name@ == "random"@ {
            DitherMode::Random
        } else if name@ == "ordered"@ {
            DitherMode::Ordered
        } else {
            DitherMode::Off
        },
{
    if str_eq(name, "random") {
        DitherMode::Random
    } else if str_eq(name, "ordered") {
        DitherMode::Ordered
    } else {
        DitherMode::Off
    }
}

/// What a request asks for fallable blocks.
pub fn fallable_of(name: &str) -> (res: FallableBehaviour)
    ensures
        res == if name@ == "replace-fallable"@ {
            FallableBehaviour::ReplaceFallable
        } else if name@ == "do-nothing"@ {
            FallableBehaviour::DoNothing
        } else {
            FallableBehaviour::ReplaceFalling
        },
{
    if str_eq(name, "replace-fallable") {
        FallableBehaviour::ReplaceFallable
    } else if str_eq(name, "do-nothing") {
        FallableBehaviour::DoNothing
    } else {
        FallableBehaviour::ReplaceFalling
    }
}

/// The stage shown while a model's blocks are exported.
pub fn export_stage(use_socket: bool, use_struct: bool) -> (res: &'static str)
    ensures
        res@ == if use_socket {
            "生成命令"@
        } else if use_struct {
            "输出结构文件"@
        } else {
            "输出函数"@
        },
{
    if use_socket {
        "生成命令"
    } else if use_struct {
        "输出结构文件"
    } else {
        "输出函数"
    }
}

/// Every block shifted by `offset`, with its name.
pub open spec fn offset_fits(blocks: Seq<(i32, i32, i32, &str)>, offset: [i32; 3]) -> bool {
    forall|i: int|
        0 <= i < blocks.len() ==> {
            let b = #[trigger] blocks[i];
            &&& i32::MIN <= b.0 + offset[0] <= i32::MAX
            &&& i32::MIN <= b.1 + offset[1] <= i32::MAX
            &&& i32::MIN <= b.2 + offset[2] <= i32::MAX
        }
}

/// The blocks handed to a world write: each position shifted by `offset`, with its name.
pub fn offset_blocks(blocks: &Vec<(i32, i32, i32, &str)>, offset: [i32; 3]) -> (res: Vec<
    (i32, i32, i32, String),
>)
    requires
        offset_fits(blocks@, offset),
    ensures
        res@.len() == blocks@.len(),
        forall|i: int|
            0 <= i < blocks@.len() ==> {
                let r = #[trigger] res@[i];
                let b = blocks@[i];
                &&& r.0 == b.0 + offset[0]
                &&& r.1 == b.1 + offset[1]
                &&& r.2 == b.2 + offset[2]
                &&& r.3@ == b.3@
            },
{
    let mut out: Vec<(i32, i32, i32, String)> = Vec::new();
    let mut i: usize = 0;
    while i < blocks.len()
        invariant
            i <= blocks@.len(),
            offset_fits(blocks@, offset),
            out@.len() == i,
            forall|k: int|
                0 <= k < i ==> {
                    let r = #[trigger] out@[k];
                    let b = blocks@[k];
                    &&& r.0 == b.0 + offset[0]
                    &&& r.1 == b.1 + offset[1]
                    &&& r.2 == b.2 + offset[2]
                    &&& r.3@ == b.3@
                },
        decreases blocks@.len() - i,
    {
        let b = blocks[i];
        assert(b == blocks@[i as int]);
        out.push((b.0 + offset[0], b.1 + offset[1], b.2 + offset[2], b.3.to_owned()));
        i = i + 1;
    }
    out
}

/// What the end of a model run reports: like an art run, except that a failure is shown as
/// the stage of a finished run rather than as an error.
pub fn model_outcome_message(outcome: &Result<Option<String>, String>, elapsed_ms: u64) -> (res:
    Option<ProgressMessage>)
    ensures
        match outcome {
            Ok(Some(dir)) => res matches Some(m) && m.stage@ == "完成"@ && m.finished
                && opt_string_view(m.output_dir) == Some(dir@) && m.error is None,
            Ok(None) => res matches Some(m) && m.stage@ == "已通过 WebSocket 发送"@ && m.finished
                && m.output_dir is None && m.error is None,
            Err(e) => if e@ == cancelled_text() {
                res is None
            } else {
                res matches Some(m) && m.stage@ == e@ && m.finished && m.error is None
                    && m.output_dir is None
            },
        },
{
    match outcome {
        Ok(Some(dir)) => Some(ProgressMessage::finish("完成", elapsed_ms, Some(dir.clone()))),
        Ok(None) => Some(ProgressMessage::finish("已通过 WebSocket 发送", elapsed_ms, None)),
        Err(e) => {
            let cancelled = String::from_str("已取消");
            if *e == cancelled {
                None
            } else {
                Some(ProgressMessage::finish(e.as_str(), elapsed_ms, None))
            }
        },
    }
}

/// How a model file is read.
#[derive(Clone, Copy, PartialEq, Eq, Structural, Debug)]
pub enum ModelFormat {
    Obj,
    Gltf,
}

pub open spec fn unsupported_format(ext: Seq<char>) -> Seq<char> {
    "不支持的模型格式: "@ + ext + "（支持 obj / glb / gltf）"@
}

/// The reader for a model file by its extension (already in lower case): `obj`, or `glb`
/// and `gltf` for the glTF reader; anything else is refused.
pub fn model_format(ext: &str) -> (res: Result<ModelFormat, String>)
    ensures
        ext@ == "obj"@ ==> res == Ok::<ModelFormat, String>(ModelFormat::Obj),
        (ext@ == "glb"@ || ext@ == "gltf"@) ==> res == Ok::<ModelFormat, String>(ModelFormat::Gltf),
        !(ext@ == "obj"@ || ext@ == "glb"@ || ext@ == "gltf"@) ==> (res matches Err(e) && e@
            == unsupported_format(ext@)),
{
    proof {
        reveal_strlit("obj");
        reveal_strlit("glb");
        reveal_strlit("gltf");
        assert("obj"@ != "glb"@ && "obj"@ != "gltf"@) by {
            assert("obj"@[0] != "glb"@[0]);
            assert("obj"@[0] != "gltf"@[0]);
        }
    }
    if str_eq(ext, "obj") {
        Ok(ModelFormat::Obj)
    } else if str_eq(ext, "glb") || str_eq(ext, "gltf") {
        Ok(ModelFormat::Gltf)
    } else {
        let mut e = String::from_str("不支持的模型格式: ");
        e.append(ext);
        e.append("（支持 obj / glb / gltf）");
        Err(e)
    }
}

} // verus!

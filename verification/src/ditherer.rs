//! Palette inputs and the names of the colour-distance formulas.
use vstd::prelude::*;

use crate::common::str_eq;

verus! {

/// A palette colour as the front end sends it: a block id and its average colour.
pub struct PaletteColorInput {
    pub id: String,
    pub average: [u8; 3],
}

/// The average colours of a palette, in order.
pub fn palette_colors(palette: &[PaletteColorInput]) -> (res: Vec<[u8; 3]>)
    ensures
        res@.len() == palette@.len(),
        forall|i: int| 0 <= i < palette@.len() ==> #[trigger] res@[i] == palette@[i].average,
{
    let mut res: Vec<[u8; 3]> = Vec::new();
    let mut i: usize = 0;
    while i < palette.len()
        invariant
            i <= palette.len(),
            res@.len() == i,
            forall|j: int| 0 <= j < i ==> #[trigger] res@[j] == palette@[j].average,
        decreases palette.len() - i,
    {
        res.push(palette[i].average);
        i = i + 1;
    }
    res
}

/// The CIE Lab based formulas.
#[derive(Clone, Copy, PartialEq, Eq, Structural, Debug)]
pub enum LabMode {
    Cie76,
    Cie94,
    Ciede2000,
    Cmc,
}

/// How the distance between two colours is measured.
#[derive(Clone, Copy, PartialEq, Eq, Structural, Debug)]
pub enum DistMode {
    Rgb,
    RgbPlus,
    Redmean,
    Lab(LabMode),
}

/// The formula a name selects, where the name is known.
pub open spec fn spec_dist_mode(name: Seq<char>) -> Option<DistMode> {
    if name == "RGB"@ {
        Some(DistMode::Rgb)
    } else if name == "RGB+"@ {
        Some(DistMode::RgbPlus)
    } else if name == "Redmean"@ {
        Some(DistMode::Redmean)
    } else if name == "CIE76"@ {
        Some(DistMode::Lab(LabMode::Cie76))
    } else if name == "CIE94"@ {
        Some(DistMode::Lab(LabMode::Cie94))
    } else if name == "CIEDE2000"@ {
        Some(DistMode::Lab(LabMode::Ciede2000))
    } else if name == "CMC l:c"@ {
        Some(DistMode::Lab(LabMode::Cmc))
    } else {
        None
    }
}

/// The formula a name selects; `None` for an unknown name.
pub fn dist_mode(name: &str) -> (res: Option<DistMode>)
    ensures
        res == spec_dist_mode(name@),
{
    if str_eq(name, "RGB") {
        Some(DistMode::Rgb)
    } else if str_eq(name, "RGB+") {
        Some(DistMode::RgbPlus)
    } else if str_eq(name, "Redmean") {
        Some(DistMode::Redmean)
    } else if str_eq(name, "CIE76") {
        Some(DistMode::Lab(LabMode::Cie76))
    } else if str_eq(name, "CIE94") {
        Some(DistMode::Lab(LabMode::Cie94))
    } else if str_eq(name, "CIEDE2000") {
        Some(DistMode::Lab(LabMode::Ciede2000))
    } else if str_eq(name, "CMC l:c") {
        Some(DistMode::Lab(LabMode::Cmc))
    } else {
        None
    }
}

/// Whether a formula name is one of the Lab formulas.
pub fn is_lab_formula(formula: &str) -> (res: bool)
    ensures
        res == (formula@ == "CIE76"@ || formula@ == "CIE94"@ || formula@ == "CIEDE2000"@
            || formula@ == "CMC l:c"@),
{
    str_eq(formula, "CIE76") || str_eq(formula, "CIE94") || str_eq(formula, "CIEDE2000")
        || str_eq(formula, "CMC l:c")
}

/// A formula name is a Lab formula exactly when it selects a Lab mode.
pub proof fn lab_formula_iff_lab_mode(name: Seq<char>)
    ensures
        (name == "CIE76"@ || name == "CIE94"@ || name == "CIEDE2000"@ || name == "CMC l:c"@)
            <==> (spec_dist_mode(name) matches Some(DistMode::Lab(_))),
{
    reveal_strlit("RGB");
    reveal_strlit("RGB+");
    reveal_strlit("Redmean");
    reveal_strlit("CIE76");
    reveal_strlit("CIE94");
    reveal_strlit("CIEDE2000");
    reveal_strlit("CMC l:c");
    assert("CIE76"@[3] != "CIE94"@[3]);
    assert("CMC l:c"@[0] != "Redmean"@[0]);
    assert("CIE76"@.len() != "RGB"@.len() && "CIE76"@.len() != "RGB+"@.len());
}


/// The error-diffusion kernels.
#[derive(Clone, Copy, PartialEq, Eq, Structural, Debug)]
pub enum DitherAlgorithm {
    Atkinson,
    Burkes,
    FloydSteinberg,
    Stucki,
    JarvisJudiceNinke,
    Sierra3,
}

pub open spec fn spec_dither_algorithm(name: Seq<char>) -> Option<DitherAlgorithm> {
    if name == "Atkinson"@ {
        Some(DitherAlgorithm::Atkinson)
    } else if name == "Burkes"@ {
        Some(DitherAlgorithm::Burkes)
    } else if name == "FloydSteinberg"@ {
        Some(DitherAlgorithm::FloydSteinberg)
    } else if name == "Stucki"@ {
        Some(DitherAlgorithm::Stucki)
    } else if name == "JarvisJudiceNinke"@ {
        Some(DitherAlgorithm::JarvisJudiceNinke)
    } else if name == "Sierra3"@ {
        Some(DitherAlgorithm::Sierra3)
    } else {
        None
    }
}

/// The kernel a name selects; `None` for an unknown name.
pub fn dither_algorithm(name: &str) -> (res: Option<DitherAlgorithm>)
    ensures
        res == spec_dither_algorithm(name@),
{
    if str_eq(name, "Atkinson") {
        Some(DitherAlgorithm::Atkinson)
    } else if str_eq(name, "Burkes") {
        Some(DitherAlgorithm::Burkes)
    } else if str_eq(name, "FloydSteinberg") {
        Some(DitherAlgorithm::FloydSteinberg)
    } else if str_eq(name, "Stucki") {
        Some(DitherAlgorithm::Stucki)
    } else if str_eq(name, "JarvisJudiceNinke") {
        Some(DitherAlgorithm::JarvisJudiceNinke)
    } else if str_eq(name, "Sierra3") {
        Some(DitherAlgorithm::Sierra3)
    } else {
        None
    }
}

/// The resampling filters an image can be resized with.
#[derive(Clone, Copy, PartialEq, Eq, Structural, Debug)]
pub enum ResizeKind {
    Nearest,
    Box,
    Bilinear,
    Hamming,
    CatmullRom,
    Mitchell,
    Gaussian,
    Lanczos3,
}

pub open spec fn spec_resize_kind(name: Seq<char>) -> Option<ResizeKind> {
    if name == "Nearest"@ {
        Some(ResizeKind::Nearest)
    } else if name == "Box"@ {
        Some(ResizeKind::Box)
    } else if name == "Bilinear"@ {
        Some(ResizeKind::Bilinear)
    } else if name == "Hamming"@ {
        Some(ResizeKind::Hamming)
    } else if name == "CatmullRom"@ {
        Some(ResizeKind::CatmullRom)
    } else if name == "Mitchell"@ {
        Some(ResizeKind::Mitchell)
    } else if name == "Gaussian"@ {
        Some(ResizeKind::Gaussian)
    } else if name == "Lanczos3"@ {
        Some(ResizeKind::Lanczos3)
    } else {
        None
    }
}

/// The filter an interpolation name selects; `None` for an unknown name.
pub fn resize_kind(name: &str) -> (res: Option<ResizeKind>)
    ensures
        res == spec_resize_kind(name@),
{
    if str_eq(name, "Nearest") {
        Some(ResizeKind::Nearest)
    } else if str_eq(name, "Box") {
        Some(ResizeKind::Box)
    } else if str_eq(name, "Bilinear") {
        Some(ResizeKind::Bilinear)
    } else if str_eq(name, "Hamming") {
        Some(ResizeKind::Hamming)
    } else if str_eq(name, "CatmullRom") {
        Some(ResizeKind::CatmullRom)
    } else if str_eq(name, "Mitchell") {
        Some(ResizeKind::Mitchell)
    } else if str_eq(name, "Gaussian") {
        Some(ResizeKind::Gaussian)
    } else if str_eq(name, "Lanczos3") {
        Some(ResizeKind::Lanczos3)
    } else {
        None
    }
}

/// What resizing decides before any pixel moves: a zero target size or an empty image is
/// refused (`None`), and an image already at the target size is kept as it is.
#[derive(Clone, Copy, PartialEq, Eq, Structural, Debug)]
pub enum ResizeStep {
    Keep,
    Resize(u32, u32),
}

/// What resizing does with an image of a given size (see `ResizeStep`).
pub fn resize_step(
    src_w: u32,
    src_h: u32,
    width: Option<u32>,
    height: Option<u32>,
    target: (u32, u32),
) -> (res: Option<ResizeStep>)
    ensures
        (width == Some(0u32) || height == Some(0u32) || src_w == 0 || src_h == 0) ==> res is None,
        !(width == Some(0u32) || height == Some(0u32) || src_w == 0 || src_h == 0) ==> res == Some(
            if target.0 == src_w && target.1 == src_h {
                ResizeStep::Keep
            } else {
                ResizeStep::Resize(target.0, target.1)
            },
        ),
{
    if width == Some(0u32) || height == Some(0u32) {
        return None;
    }
    if src_w == 0 || src_h == 0 {
        return None;
    }
    if target.0 == src_w && target.1 == src_h {
        Some(ResizeStep::Keep)
    } else {
        Some(ResizeStep::Resize(target.0, target.1))
    }
}

/// How a target size is found from the image's size and what was asked for.
#[derive(Clone, Copy, PartialEq, Eq, Structural, Debug)]
pub enum SizeRule {
    /// The size is known.
    Exact(u32, u32),
    /// The width is given; the height keeps the aspect ratio.
    FromWidth(u32),
    /// The height is given; the width keeps the aspect ratio.
    FromHeight(u32),
    /// Nothing is given and the image has more pixels than allowed: both sides shrink by
    /// the square root of the allowance over the area.
    ShrinkTo(u64),
}

pub open spec fn spec_size_rule(
    w: u32,
    h: u32,
    width: Option<u32>,
    height: Option<u32>,
    max_pixels: Option<u64>,
) -> SizeRule {
    match (width, height) {
        (None, None) => match max_pixels {
            Some(m) => if w * h > m {
                SizeRule::ShrinkTo(m)
            } else {
                SizeRule::Exact(w, h)
            },
            None => SizeRule::Exact(w, h),
        },
        (Some(a), None) => SizeRule::FromWidth(a),
        (None, Some(b)) => SizeRule::FromHeight(b),
        (Some(a), Some(b)) => SizeRule::Exact(a, b),
    }
}

/// Which rule gives the target size: both sides given are taken as they are, one side
/// given scales the other, and with neither the image keeps its size unless it has more
/// pixels than allowed.
pub fn size_rule(
    w: u32,
    h: u32,
    width: Option<u32>,
    height: Option<u32>,
    max_pixels: Option<u64>,
) -> (res: SizeRule)
    ensures
        res == spec_size_rule(w, h, width, height, max_pixels),
{
    match (width, height) {
        (None, None) => match max_pixels {
            Some(m) => {
                assert(w * h <= u32::MAX * u32::MAX) by (nonlinear_arith)
                    requires
                        w <= u32::MAX,
                        h <= u32::MAX,
                ;
                let area = w as u64 * h as u64;
                if area > m {
                    SizeRule::ShrinkTo(m)
                } else {
                    SizeRule::Exact(w, h)
                }
            },
            None => SizeRule::Exact(w, h),
        },
        (Some(a), None) => SizeRule::FromWidth(a),
        (None, Some(b)) => SizeRule::FromHeight(b),
        (Some(a), Some(b)) => SizeRule::Exact(a, b),
    }
}

} // verus!

//! The pixel-art request and the plan drawn from it: whether a pack is built and with
//! which labels, whether the image is dithered, and the generator's parameters.
use vstd::prelude::*;
use vstd::string::*;

use crate::common::{plane_index, spec_plane_index};
use crate::generator::GenParams;
use crate::pack::{labels_given, opt_str, pack_label, spec_labels_given, spec_pack_label};

verus! {

/// A pixel-art request as the front end sends it.
pub struct PixelParams {
    pub resize_x: Option<u32>,
    pub resize_y: Option<u32>,
    pub resize_interpolation: String,
    pub generation_plane: String,
    pub color_distance_formula: String,
    pub use_staircase: bool,
    pub use_struct: bool,
    pub use_dithering: bool,
    pub use_socket: bool,
    pub dithering_algorithm: String,
    pub carpet_only: bool,
    pub wool_only: bool,
    pub no_glass: bool,
    pub no_sands_and_powders: bool,
    pub offset_x: Option<i32>,
    pub offset_y: Option<i32>,
    pub offset_z: Option<i32>,
    pub staircase_gap: i32,
    pub ws_command_delay: i32,
    pub auto_slice_mcfunction: bool,
    pub preview_image: bool,
    pub websocket_port: Option<u16>,
    pub pk_name: Option<String>,
    pub pk_auth: Option<String>,
    pub pk_desc: Option<String>,
    pub use_ldb: bool,
    pub world_path: Option<String>,
    pub origin_x: Option<i32>,
    pub origin_y: Option<i32>,
    pub origin_z: Option<i32>,
}

/// Where the generated content goes inside a pack.
#[derive(Clone, Copy, PartialEq, Eq, Structural, Debug)]
pub enum PackContent {
    /// No pack: straight into the output folder.
    Loose,
    /// `colorified/structures`.
    Structures,
    /// `colorified/functions`.
    Functions,
}

/// What a pixel-art run does.
pub struct PixelPlan {
    pub need_pack: bool,
    pub content: PackContent,
    pub pack_name: String,
    pub pack_author: String,
    pub pack_desc: String,
    /// Dither before matching (never together with the staircase).
    pub dither: bool,
    pub gen: GenParams,
    /// Where a world write puts the image's origin.
    pub origin: [i32; 3],
}

pub open spec fn opt_string(s: Option<String>) -> Option<Seq<char>> {
    match s {
        Some(v) => Some(v@),
        None => None,
    }
}

fn as_opt_str(s: &Option<String>) -> (res: Option<&str>)
    ensures
        opt_str(res) == opt_string(*s),
{
    match s {
        Some(v) => Some(v.as_str()),
        None => None,
    }
}

pub open spec fn or_zero(v: Option<i32>) -> i32 {
    match v {
        Some(x) => x,
        None => 0,
    }
}

fn unwrap_or_zero(v: Option<i32>) -> (res: i32)
    ensures
        res == or_zero(v),
{
    match v {
        Some(x) => x,
        None => 0,
    }
}

/// A pack is built for files (not for the game link) where any of its labels is given.
pub open spec fn pixel_needs_pack(p: PixelParams) -> bool {
    !p.use_socket && spec_labels_given(opt_string(p.pk_name), opt_string(p.pk_auth), opt_string(p.pk_desc))
}

/// The plan for a request.
pub fn pixel_plan(params: &PixelParams) -> (res: PixelPlan)
    ensures
        res.need_pack == pixel_needs_pack(*params),
        res.content == if !res.need_pack {
            PackContent::Loose
        } else if params.use_struct {
            PackContent::Structures
        } else {
            PackContent::Functions
        },
        res.pack_name@ == spec_pack_label(opt_string(params.pk_name), "Colorified"@),
        res.pack_author@ == spec_pack_label(opt_string(params.pk_auth), "Comeix Alpha"@),
        res.pack_desc@ == spec_pack_label(opt_string(params.pk_desc), "Colorify 像素画"@),
        res.dither == (params.use_dithering && !params.use_staircase),
        res.gen.plane == spec_plane_index(params.generation_plane@),
        res.gen.color_distance@ == params.color_distance_formula@,
        res.gen.use_staircase == params.use_staircase,
        res.gen.use_struct == (!params.use_socket && params.use_struct),
        res.gen.staircase_gap == if params.staircase_gap < 1 {
            1
        } else {
            params.staircase_gap
        },
        !res.gen.staircase_compress,
        res.gen.offset == [or_zero(params.offset_x), or_zero(params.offset_y), or_zero(params.offset_z)],
        res.gen.auto_slice_mcfunction == params.auto_slice_mcfunction,
        res.gen.use_dithering == params.use_dithering,
        res.gen.socket_output == params.use_socket,
        res.gen.ldb_output == params.use_ldb,
        res.origin == [or_zero(params.origin_x), or_zero(params.origin_y), or_zero(params.origin_z)],
{
    let name = as_opt_str(&params.pk_name);
    let auth = as_opt_str(&params.pk_auth);
    let desc = as_opt_str(&params.pk_desc);
    let need_pack = !params.use_socket && labels_given(name, auth, desc);
    let content = if !need_pack {
        PackContent::Loose
    } else if params.use_struct {
        PackContent::Structures
    } else {
        PackContent::Functions
    };
    let gen = GenParams {
        plane: plane_index(params.generation_plane.as_str()),
        color_distance: params.color_distance_formula.clone(),
        use_staircase: params.use_staircase,
        use_struct: if params.use_socket {
            false
        } else {
            params.use_struct
        },
        staircase_gap: if params.staircase_gap < 1 {
            1
        } else {
            params.staircase_gap
        },
        staircase_compress: false,
        offset: [
            unwrap_or_zero(params.offset_x),
            unwrap_or_zero(params.offset_y),
            unwrap_or_zero(params.offset_z),
        ],
        auto_slice_mcfunction: params.auto_slice_mcfunction,
        use_dithering: params.use_dithering,
        socket_output: params.use_socket,
        ldb_output: params.use_ldb,
    };
    PixelPlan {
        need_pack,
        content,
        pack_name: pack_label(name, "Colorified").to_owned(),
        pack_author: pack_label(auth, "Comeix Alpha").to_owned(),
        pack_desc: pack_label(desc, "Colorify 像素画").to_owned(),
        dither: params.use_dithering && !params.use_staircase,
        gen,
        origin: [
            unwrap_or_zero(params.origin_x),
            unwrap_or_zero(params.origin_y),
            unwrap_or_zero(params.origin_z),
        ],
    }
}

/// The delay between commands sent to the game: at least 1 ms.
pub fn command_delay(delay_ms: i32) -> (res: u64)
    ensures
        res == if delay_ms < 1 {
            1
        } else {
            delay_ms as int
        },
{
    if delay_ms < 1 {
        1
    } else {
        delay_ms as u64
    }
}

/// The particle runs' delay: 10 ms where none is given, and at least 1 ms.
pub fn particle_command_delay(delay_ms: Option<i32>) -> (res: u64)
    ensures
        res == match delay_ms {
            Some(d) => if d < 1 {
                1
            } else {
                d as int
            },
            None => 10,
        },
{
    match delay_ms {
        Some(d) => command_delay(d),
        None => 10,
    }
}

/// The PNG file that the `image` crate writes for RGBA pixels of the given size, or
/// nothing where its encoder refuses them.
pub uninterp spec fn png_rgba_encoding(width: u32, height: u32, rgba: Seq<u8>) -> Option<Seq<u8>>;

/// `image::RgbaImage::from_raw` on exactly `width * height * 4` bytes, then
/// `DynamicImage::write_to` with `ImageFormat::Png`: the contract names the file and says
/// only that it depends on the size and the pixels alone.
#[verifier::external_body]
fn png_of(width: u32, height: u32, rgba: &[u8]) -> (res: Option<Vec<u8>>)
    requires
        rgba@.len() == width * height * 4,
    ensures
        match res {
            Some(v) => png_rgba_encoding(width, height, rgba@) == Some(v@),
            None => png_rgba_encoding(width, height, rgba@) is None,
        },
{
    let buf = image::RgbaImage::from_raw(width, height, rgba.to_vec())?;
    let mut out = Vec::new();
    match image::DynamicImage::ImageRgba8(buf).write_to(
        &mut std::io::Cursor::new(&mut out),
        image::ImageFormat::Png,
    ) {
        Ok(()) => Some(out),
        Err(_) => None,
    }
}

/// Encodes RGBA pixels as a PNG file: nothing where there are fewer bytes than
/// `width * height * 4`, else the file the `image` crate writes (a longer buffer is left
/// out, as the encoder would stop on it).
pub fn encode_rgba_png(width: u32, height: u32, rgba: &[u8]) -> (res: Option<Vec<u8>>)
    requires
        rgba@.len() <= width * height * 4,
    ensures
        rgba@.len() < width * height * 4 ==> res is None,
        rgba@.len() == width * height * 4 ==> match res {
            Some(v) => png_rgba_encoding(width, height, rgba@) == Some(v@),
            None => png_rgba_encoding(width, height, rgba@) is None,
        },
{
    assert(width * height * 4 <= u32::MAX * u32::MAX * 4) by (nonlinear_arith)
        requires
            width <= u32::MAX,
            height <= u32::MAX,
    ;
    let need: u128 = width as u128 * height as u128 * 4;
    if (rgba.len() as u128) < need {
        return None;
    }
    png_of(width, height, rgba)
}


/// A decoded picture: its size and its pixels as RGBA bytes, row after row.
pub struct DecodedImage {
    pub width: u32,
    pub height: u32,
    pub rgba: Vec<u8>,
}

/// The size and RGBA pixels that the `image` crate decodes from a file (its format guessed
/// from the bytes), or nothing where it cannot read them.
pub uninterp spec fn image_rgba_decoding(bytes: Seq<u8>) -> Option<(u32, u32, Seq<u8>)>;

/// `image::ImageReader::with_guessed_format` and `decode` on the bytes, then
/// `DynamicImage::to_rgba8`, `dimensions` and `into_raw`: the contract names the result, says
/// it depends on the bytes alone, and that the pixels are four bytes for each of the
/// `width * height` pixels, as the converted buffer is allocated.
#[verifier::external_body]
fn decode_rgba(bytes: &[u8]) -> (res: Option<DecodedImage>)
    ensures
        match res {
            Some(d) => image_rgba_decoding(bytes@) == Some((d.width, d.height, d.rgba@))
                && d.rgba@.len() == d.width * d.height * 4,
            None => image_rgba_decoding(bytes@) is None,
        },
{
    let reader = image::ImageReader::new(std::io::Cursor::new(bytes)).with_guessed_format().ok()?;
    let rgba = reader.decode().ok()?.to_rgba8();
    let (width, height) = rgba.dimensions();
    Some(DecodedImage { width, height, rgba: rgba.into_raw() })
}

/// Decodes a PNG, JPEG, WebP or GIF file into its size and RGBA pixels; nothing where the
/// file cannot be read.
pub fn decode_image(bytes: &[u8]) -> (res: Option<DecodedImage>)
    ensures
        match res {
            Some(d) => image_rgba_decoding(bytes@) == Some((d.width, d.height, d.rgba@))
                && d.rgba@.len() == d.width * d.height * 4,
            None => image_rgba_decoding(bytes@) is None,
        },
{
    decode_rgba(bytes)
}

} // verus!

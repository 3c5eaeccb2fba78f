//! The integer side of the glTF reader: how a primitive's index list becomes triangles,
//! which material a primitive uses, and how decoded texture pixels become RGBA bytes.
use vstd::prelude::*;
use vstd::string::*;
use crate::obj::Tri;

verus! {

/// How a glTF primitive joins its indices into faces.
#[derive(Clone, Copy, PartialEq, Eq, Structural, Debug)]
pub enum PrimitiveMode {
    Points,
    Lines,
    LineLoop,
    LineStrip,
    Triangles,
    TriangleStrip,
    TriangleFan,
}

pub open spec fn mode_name(m: PrimitiveMode) -> Seq<char> {
    match m {
        PrimitiveMode::Points => "Points"@,
        PrimitiveMode::Lines => "Lines"@,
        PrimitiveMode::LineLoop => "LineLoop"@,
        PrimitiveMode::LineStrip => "LineStrip"@,
        PrimitiveMode::Triangles => "Triangles"@,
        PrimitiveMode::TriangleStrip => "TriangleStrip"@,
        PrimitiveMode::TriangleFan => "TriangleFan"@,
    }
}

impl PrimitiveMode {
    /// The mode's name, as glTF spells it.
    pub fn name(&self) -> (res: String)
        ensures
            res@ == mode_name(*self),
    {
        match self {
            PrimitiveMode::Points => String::from_str("Points"),
            PrimitiveMode::Lines => String::from_str("Lines"),
            PrimitiveMode::LineLoop => String::from_str("LineLoop"),
            PrimitiveMode::LineStrip => String::from_str("LineStrip"),
            PrimitiveMode::Triangles => String::from_str("Triangles"),
            PrimitiveMode::TriangleStrip => String::from_str("TriangleStrip"),
            PrimitiveMode::TriangleFan => String::from_str("TriangleFan"),
        }
    }
}

/// Where a primitive's vertices, texture coordinates, colours and normals start in the
/// mesh's tables.
#[derive(Clone, Copy, Debug)]
pub struct TableBases {
    pub vertex: usize,
    pub uv: usize,
    pub colour: usize,
    pub normal: usize,
}

/// Which per-vertex tables a primitive fills besides positions.
#[derive(Clone, Copy, Debug)]
pub struct Channels {
    pub uv: bool,
    pub colour: bool,
    pub normal: bool,
}

pub open spec fn is_triangle_mode(m: PrimitiveMode) -> bool {
    m == PrimitiveMode::Triangles || m == PrimitiveMode::TriangleStrip || m
        == PrimitiveMode::TriangleFan
}

/// How many triangles `n` indices give in a triangle mode.
pub open spec fn triangle_count(m: PrimitiveMode, n: int) -> int {
    match m {
        PrimitiveMode::Triangles => n / 3,
        _ => n - 2,
    }
}

/// The primitive-local corners of triangle `k`: consecutive triples; in a strip every
/// other triangle has its first two corners swapped to keep the winding; a fan shares
/// the first index.
pub open spec fn corner_indices(idx: Seq<u32>, m: PrimitiveMode, k: int) -> (u32, u32, u32) {
    match m {
        PrimitiveMode::Triangles => (idx[3 * k], idx[3 * k + 1], idx[3 * k + 2]),
        PrimitiveMode::TriangleStrip => if k % 2 == 0 {
            (idx[k], idx[k + 1], idx[k + 2])
        } else {
            (idx[k + 1], idx[k], idx[k + 2])
        },
        _ => (idx[0], idx[k + 1], idx[k + 2]),
    }
}

pub open spec fn shifted(base: usize, c: (u32, u32, u32)) -> [usize; 3] {
    [(base + c.0) as usize, (base + c.1) as usize, (base + c.2) as usize]
}

/// A triangle with its local corners moved past the tables' earlier entries.
pub open spec fn offset_tri(b: TableBases, ch: Channels, c: (u32, u32, u32), material: usize) -> Tri {
    Tri {
        position: shifted(b.vertex, c),
        texcoord: if ch.uv {
            Some(shifted(b.uv, c))
        } else {
            None
        },
        colour: if ch.colour {
            Some(shifted(b.colour, c))
        } else {
            None
        },
        normal: if ch.normal {
            Some(shifted(b.normal, c))
        } else {
            None
        },
        material,
    }
}

/// Every index, moved past each table's earlier entries, still fits a `usize`.
pub open spec fn indices_fit(idx: Seq<u32>, b: TableBases) -> bool {
    forall|i: int|
        0 <= i < idx.len() ==> b.vertex + #[trigger] idx[i] <= usize::MAX && b.uv + idx[i]
            <= usize::MAX && b.colour + idx[i] <= usize::MAX && b.normal + idx[i] <= usize::MAX
}

pub open spec fn unsupported_mode(m: PrimitiveMode) -> Seq<char> {
    "不支持的图元模式: "@ + mode_name(m)
}

fn shift3(base: usize, a: u32, b: u32, c: u32) -> (res: [usize; 3])
    requires
        base + a <= usize::MAX,
        base + b <= usize::MAX,
        base + c <= usize::MAX,
    ensures
        res == shifted(base, (a, b, c)),
{
    [base + a as usize, base + b as usize, base + c as usize]
}

fn make_tri(b: TableBases, ch: Channels, x: u32, y: u32, z: u32, material: usize) -> (res: Tri)
    requires
        b.vertex + x <= usize::MAX && b.uv + x <= usize::MAX && b.colour + x <= usize::MAX
            && b.normal + x <= usize::MAX,
        b.vertex + y <= usize::MAX && b.uv + y <= usize::MAX && b.colour + y <= usize::MAX
            && b.normal + y <= usize::MAX,
        b.vertex + z <= usize::MAX && b.uv + z <= usize::MAX && b.colour + z <= usize::MAX
            && b.normal + z <= usize::MAX,
    ensures
        res == offset_tri(b, ch, (x, y, z), material),
{
    Tri {
        position: shift3(b.vertex, x, y, z),
        texcoord: if ch.uv {
            Some(shift3(b.uv, x, y, z))
        } else {
            None
        },
        colour: if ch.colour {
            Some(shift3(b.colour, x, y, z))
        } else {
            None
        },
        normal: if ch.normal {
            Some(shift3(b.normal, x, y, z))
        } else {
            None
        },
        material,
    }
}

/// The triangles of one primitive. Fewer than three indices give none, whatever the mode;
/// points and lines are refused.
pub fn primitive_tris(
    indices: &Vec<u32>,
    mode: PrimitiveMode,
    bases: TableBases,
    channels: Channels,
    material: usize,
) -> (res: Result<Vec<Tri>, String>)
    requires
        indices_fit(indices@, bases),
    ensures
        indices@.len() < 3 ==> (res matches Ok(v) && v@.len() == 0),
        indices@.len() >= 3 && !is_triangle_mode(mode) ==> (res matches Err(e) && e@
            == unsupported_mode(mode)),
        indices@.len() >= 3 && is_triangle_mode(mode) ==> (res matches Ok(v) && v@ == Seq::new(
            triangle_count(mode, indices@.len() as int) as nat,
            |k: int| offset_tri(bases, channels, corner_indices(indices@, mode, k), material),
        )),
{
    let n = indices.len();
    let mut out: Vec<Tri> = Vec::new();
    if n < 3 {
        return Ok(out);
    }
    let count: usize = match mode {
        PrimitiveMode::Triangles => n / 3,
        PrimitiveMode::TriangleStrip => n - 2,
        PrimitiveMode::TriangleFan => n - 2,
        _ => {
            let mut e = String::from_str("不支持的图元模式: ");
            let name = mode.name();
            e.append(name.as_str());
            return Err(e);
        },
    };
    let mut k: usize = 0;
    while k < count
        invariant
            n == indices@.len(),
            n >= 3,
            is_triangle_mode(mode),
            count == triangle_count(mode, n as int),
            indices_fit(indices@, bases),
            k <= count,
            out@.len() == k,
            forall|j: int|
                0 <= j < k ==> out@[j] == offset_tri(
                    bases,
                    channels,
                    corner_indices(indices@, mode, j),
                    material,
                ),
        decreases count - k,
    {
        let (x, y, z): (u32, u32, u32) = match mode {
            PrimitiveMode::Triangles => (indices[3 * k], indices[3 * k + 1], indices[3 * k + 2]),
            PrimitiveMode::TriangleStrip => if k % 2 == 0 {
                (indices[k], indices[k + 1], indices[k + 2])
            } else {
                (indices[k + 1], indices[k], indices[k + 2])
            },
            _ => (indices[0], indices[k + 1], indices[k + 2]),
        };
        assert((x, y, z) == corner_indices(indices@, mode, k as int));
        let t = make_tri(bases, channels, x, y, z, material);
        out.push(t);
        k = k + 1;
    }
    assert(out@ =~= Seq::new(
        triangle_count(mode, n as int) as nat,
        |j: int| offset_tri(bases, channels, corner_indices(indices@, mode, j), material),
    ));
    Ok(out)
}

/// The material a primitive uses: its own index, or the first material where it names
/// none, and never past the last one (zero where there are no materials).
pub fn material_slot(index: Option<usize>, count: usize) -> (res: usize)
    ensures
        ({
            let want = match index {
                Some(i) => i as int,
                None => 0,
            };
            let last = if count == 0 {
                0
            } else {
                count - 1
            };
            res == if want < last {
                want
            } else {
                last
            }
        }),
{
    let want = match index {
        Some(i) => i,
        None => 0,
    };
    let last = if count == 0 {
        0
    } else {
        count - 1
    };
    if want < last {
        want
    } else {
        last
    }
}

/// How a decoded texture stores its pixels.
#[derive(Clone, Copy, PartialEq, Eq, Structural, Debug)]
pub enum PixelFormat {
    R8,
    R8G8,
    R8G8B8,
    R8G8B8A8,
    R16,
    R16G16,
    R16G16B16,
    R16G16B16A16,
    R32G32B32FLOAT,
    R32G32B32A32FLOAT,
}

/// The formats that become RGBA bytes; the others give a blank image.
pub open spec fn is_expandable(f: PixelFormat) -> bool {
    f == PixelFormat::R8G8B8A8 || f == PixelFormat::R8G8B8 || f == PixelFormat::R8 || f
        == PixelFormat::R16G16B16 || f == PixelFormat::R16G16B16A16
}

/// Source bytes per pixel of an expandable format.
pub open spec fn bytes_per_pixel(f: PixelFormat) -> int {
    match f {
        PixelFormat::R8 => 1,
        PixelFormat::R8G8B8 => 3,
        PixelFormat::R8G8B8A8 => 4,
        PixelFormat::R16G16B16 => 6,
        _ => 8,
    }
}

/// The length of the RGBA bytes made from `n` source bytes: every whole pixel gives four
/// bytes, and RGBA input is kept as it is.
pub open spec fn rgba_len(f: PixelFormat, n: int) -> int {
    if f == PixelFormat::R8G8B8A8 {
        n
    } else {
        n / bytes_per_pixel(f) * 4
    }
}

/// Byte `i` of the RGBA output: channel `i % 4` of pixel `i / 4`. Grey is copied into red,
/// green and blue; a missing alpha is opaque; a 16-bit channel keeps its high byte (the
/// second, little-endian).
pub open spec fn rgba_byte(f: PixelFormat, p: Seq<u8>, i: int) -> u8 {
    let k = i / 4;
    let c = i % 4;
    match f {
        PixelFormat::R8G8B8A8 => p[i],
        PixelFormat::R8G8B8 => if c < 3 {
            p[3 * k + c]
        } else {
            255u8
        },
        PixelFormat::R8 => if c < 3 {
            p[k]
        } else {
            255u8
        },
        PixelFormat::R16G16B16 => if c < 3 {
            p[6 * k + 2 * c + 1]
        } else {
            255u8
        },
        _ => p[8 * k + 2 * c + 1],
    }
}

proof fn lemma_quarter(k: int, c: int)
    requires
        0 <= k,
        0 <= c < 4,
    ensures
        (4 * k + c) / 4 == k,
        (4 * k + c) % 4 == c,
{
}

/// A decoded texture's pixels as RGBA bytes, or `None` for a format that is not read.
pub fn rgba_pixels(format: PixelFormat, pixels: &[u8]) -> (res: Option<Vec<u8>>)
    requires
        is_expandable(format) ==> rgba_len(format, pixels@.len() as int) <= usize::MAX,
    ensures
        !is_expandable(format) ==> res is None,
        is_expandable(format) ==> (res matches Some(v) && v@.len() == rgba_len(
            format,
            pixels@.len() as int,
        ) && forall|i: int| 0 <= i < v@.len() ==> v@[i] == rgba_byte(format, pixels@, i)),
{
    let n = pixels.len();
    let mut out: Vec<u8> = Vec::new();
    if format == PixelFormat::R8G8B8A8 {
        let mut i: usize = 0;
        while i < n
            invariant
                n == pixels@.len(),
                format == PixelFormat::R8G8B8A8,
                i <= n,
                out@.len() == i,
                forall|j: int| 0 <= j < i ==> out@[j] == rgba_byte(format, pixels@, j),
            decreases n - i,
        {
            out.push(pixels[i]);
            i = i + 1;
        }
        return Some(out);
    }
    let bpp: usize = match format {
        PixelFormat::R8 => 1,
        PixelFormat::R8G8B8 => 3,
        PixelFormat::R16G16B16 => 6,
        PixelFormat::R16G16B16A16 => 8,
        _ => {
            return None;
        },
    };
    let count = n / bpp;
    assert(count * 4 <= usize::MAX);
    let mut k: usize = 0;
    while k < count
        invariant
            n == pixels@.len(),
            is_expandable(format),
            format != PixelFormat::R8G8B8A8,
            bpp == bytes_per_pixel(format),
            count == n / bpp,
            count * 4 <= usize::MAX,
            k <= count,
            out@.len() == 4 * k,
            forall|j: int| 0 <= j < 4 * k ==> out@[j] == rgba_byte(format, pixels@, j),
        decreases count - k,
    {
        assert(bpp * k + bpp <= n) by (nonlinear_arith)
            requires
                k < count,
                count == n / bpp,
                bpp >= 1,
        ;
        let b = bpp * k;
        let (r, g, bl, a): (u8, u8, u8, u8) = match format {
            PixelFormat::R8 => (pixels[b], pixels[b], pixels[b], 255u8),
            PixelFormat::R8G8B8 => (pixels[b], pixels[b + 1], pixels[b + 2], 255u8),
            PixelFormat::R16G16B16 => (pixels[b + 1], pixels[b + 3], pixels[b + 5], 255u8),
            _ => (pixels[b + 1], pixels[b + 3], pixels[b + 5], pixels[b + 7]),
        };
        let ghost before = out@;
        out.push(r);
        out.push(g);
        out.push(bl);
        out.push(a);
        proof {
            lemma_quarter(k as int, 0);
            lemma_quarter(k as int, 1);
            lemma_quarter(k as int, 2);
            lemma_quarter(k as int, 3);
            assert forall|j: int| 0 <= j < 4 * (k + 1) implies out@[j] == rgba_byte(
                format,
                pixels@,
                j,
            ) by {
                if j >= 4 * k {
                    assert(j == 4 * k || j == 4 * k + 1 || j == 4 * k + 2 || j == 4 * k + 3);
                } else {
                    assert(out@[j] == before[j]);
                }
            }
        }
        k = k + 1;
    }
    Some(out)
}

/// What the `base64` crate's standard engine decodes a text to, or the message of its
/// error.
pub uninterp spec fn base64_standard_decode(text: Seq<char>) -> Result<Seq<u8>, Seq<char>>;

/// Decodes standard, padded base64 with `base64::Engine::decode` on
/// `base64::engine::general_purpose::STANDARD`, giving a failure as its error's message.
/// The contract claims only that the outcome depends on the text alone.
#[verifier::external_body]
fn base64_decode(text: &str) -> (res: Result<Vec<u8>, String>)
    ensures
        match res {
            Ok(v) => base64_standard_decode(text@) == Ok::<Seq<u8>, Seq<char>>(v@),
            Err(e) => base64_standard_decode(text@) == Err::<Seq<u8>, Seq<char>>(e@),
        },
{
    match base64::Engine::decode(&base64::engine::general_purpose::STANDARD, text) {
        Ok(v) => Ok(v),
        Err(e) => Err(e.to_string()),
    }
}

pub open spec fn is_first_comma(u: Seq<char>, i: int) -> bool {
    0 <= i < u.len() && u[i] == ',' && forall|j: int| 0 <= j < i ==> u[j] != ','
}

/// The payload of a data URI (its `data:` prefix already taken off): what follows the
/// first comma, or the whole text where there is none.
pub open spec fn uri_payload(u: Seq<char>) -> Seq<char> {
    if exists|i: int| is_first_comma(u, i) {
        u.skip((choose|i: int| is_first_comma(u, i)) + 1)
    } else {
        u
    }
}

/// Takes the payload out of a data URI.
pub fn data_uri_payload(uri: &str) -> (res: &str)
    ensures
        res@ == uri_payload(uri@),
{
    let n = uri.unicode_len();
    let mut i: usize = 0;
    while i < n
        invariant
            n == uri@.len(),
            i <= n,
            forall|j: int| 0 <= j < i ==> uri@[j] != ',',
        decreases n - i,
    {
        if uri.get_char(i) == ',' {
            let rest = uri.substring_char(i + 1, n);
            proof {
                assert(is_first_comma(uri@, i as int));
                let c = choose|k: int| is_first_comma(uri@, k);
                assert(c == i) by {
                    if c < i {
                        assert(uri@[c] != ',');
                    } else if c > i {
                        assert(uri@[i as int] != ',');
                    }
                }
                assert(rest@ =~= uri@.skip(i + 1));
            }
            return rest;
        }
        i = i + 1;
    }
    let whole = uri.substring_char(0, n);
    proof {
        assert(whole@ =~= uri@);
        assert(!exists|k: int| is_first_comma(uri@, k));
    }
    whole
}

pub open spec fn decode_failure(e: Seq<char>) -> Seq<char> {
    "data URI 解码失败: "@ + e
}

/// What a data URI gives, once its payload has been through the base64 decoder: the
/// bytes, or the decoder's message under a heading of its own.
pub fn data_uri_result(decoded: Result<Vec<u8>, String>) -> (res: Result<Vec<u8>, String>)
    ensures
        match decoded {
            Ok(b) => res matches Ok(v) && v@ == b@,
            Err(e) => res matches Err(m) && m@ == decode_failure(e@),
        },
{
    match decoded {
        Ok(b) => Ok(b),
        Err(e) => {
            let mut m = String::from_str("data URI 解码失败: ");
            m.append(e.as_str());
            Err(m)
        },
    }
}

/// Decodes the payload of a data URI (its `data:` prefix already taken off) as base64.
pub fn decode_data_uri(uri: &str) -> (res: Result<Vec<u8>, String>)
    ensures
        match base64_standard_decode(uri_payload(uri@)) {
            Ok(b) => res matches Ok(v) && v@ == b,
            Err(e) => res matches Err(m) && m@ == decode_failure(e),
        },
{
    let payload = data_uri_payload(uri);
    data_uri_result(base64_decode(payload))
}

} // verus!

//! The integer side of the OBJ reader: face corners (`v`, `v/vt`, `v//vn`, `v/vt/vn`), their
//! 1-based and negative indices, and the fan triangulation of a face; plus the mesh's plain
//! types.
use vstd::prelude::*;
use vstd::string::*;

use crate::block::str_equal;

verus! {

/// A triangle: indices into the vertex, texture-coordinate, colour and normal tables, and
/// the index of its material.
#[derive(Clone, Copy, Debug)]
pub struct Tri {
    pub position: [usize; 3],
    /// `None` where the face gives no texture coordinates.
    pub texcoord: Option<[usize; 3]>,
    /// `None` where the face gives no vertex colours.
    pub colour: Option<[usize; 3]>,
    pub normal: Option<[usize; 3]>,
    pub material: usize,
}

/// How a material is coloured.
#[derive(Clone, Copy, PartialEq, Eq, Structural, Debug)]
pub enum MaterialKind {
    Solid,
    Textured,
}

/// How a texture is sampled between texels.
#[derive(Clone, Copy, PartialEq, Eq, Structural, Debug)]
pub enum TextureFiltering {
    Nearest,
    Linear,
}

/// How texture coordinates outside `0..1` are brought back in.
#[derive(Clone, Copy, PartialEq, Eq, Structural, Debug)]
pub enum TextureWrap {
    Repeat,
    Clamp,
}

impl TextureFiltering {
    /// The default: nearest-texel sampling.
    pub fn default() -> (res: Self)
        ensures
            res == TextureFiltering::Nearest,
    {
        TextureFiltering::Nearest
    }
}

impl TextureWrap {
    /// The default: repeating textures.
    pub fn default() -> (res: Self)
        ensures
            res == TextureWrap::Repeat,
    {
        TextureWrap::Repeat
    }
}

/// An ASCII decimal digit.
pub open spec fn is_digit(c: char) -> bool {
    '0' <= c <= '9'
}

/// A non-empty run of ASCII digits.
pub open spec fn all_digits(s: Seq<char>) -> bool {
    s.len() > 0 && forall|i: int| 0 <= i < s.len() ==> is_digit(#[trigger] s[i])
}

/// The value of a run of decimal digits.
pub open spec fn digits_value(s: Seq<char>) -> int
    decreases s.len(),
{
    if s.len() == 0 {
        0
    } else {
        digits_value(s.drop_last()) * 10 + (s.last() as int - '0' as int)
    }
}

/// The integer that a text writes in decimal: an optional `+` or `-` and one or more
/// digits.
pub open spec fn decimal_value(s: Seq<char>) -> Option<int> {
    if s.len() > 0 && s[0] == '-' && all_digits(s.skip(1)) {
        Some(-digits_value(s.skip(1)))
    } else if s.len() > 0 && s[0] == '+' && all_digits(s.skip(1)) {
        Some(digits_value(s.skip(1)))
    } else if all_digits(s) {
        Some(digits_value(s))
    } else {
        None
    }
}

/// What `str::parse::<i64>` gives: the decimal value where it fits in an `i64`.
pub open spec fn i64_parse(s: Seq<char>) -> Option<i64> {
    match decimal_value(s) {
        Some(v) => if i64::MIN <= v <= i64::MAX {
            Some(v as i64)
        } else {
            None
        },
        None => None,
    }
}

/// `str::parse::<i64>` (`i64::from_str`): an optional sign followed by ASCII digits whose
/// value fits in an `i64`, as the standard library documents it; anything else is an error.
#[verifier::external_body]
pub(crate) fn parse_i64(s: &str) -> (res: Option<i64>)
    ensures
        res == i64_parse(s@),
{
    s.parse::<i64>().ok()
}

/// The 0-based index that an OBJ index `n` names in a table of `len` entries: positive
/// indices count from 1, the others back from the end.
pub open spec fn obj_index(n: int, len: int) -> int {
    if n > 0 {
        n - 1
    } else {
        len + n
    }
}

/// What reading an OBJ index gives: the 0-based index, or the error for text that is no
/// integer, or for an index outside the table.
pub open spec fn index_result(s: Seq<char>, len: int) -> Result<usize, Seq<char>> {
    match i64_parse(s) {
        None => Err("非法索引 "@ + s),
        Some(n) => {
            let idx = obj_index(n as int, len);
            if idx < 0 || idx >= len {
                Err("索引 "@ + s + " 越界"@)
            } else {
                Ok(idx as usize)
            }
        },
    }
}

pub open spec fn result_view(r: Result<usize, String>) -> Result<usize, Seq<char>> {
    match r {
        Ok(v) => Ok(v),
        Err(e) => Err(e@),
    }
}

/// Reads an OBJ index into a table of `len` entries.
pub fn parse_index(s: &str, len: i64) -> (res: Result<usize, String>)
    requires
        0 <= len,
    ensures
        result_view(res) == index_result(s@, len as int),
{
    let n = match parse_i64(s) {
        Some(n) => n,
        None => {
            let mut e = String::new();
            proof {
                reveal_strlit("非法索引 ");
            }
            e.append("非法索引 ");
            e.append(s);
            return Err(e);
        },
    };
    let idx: i64 = if n > 0 {
        n - 1
    } else {
        len + n
    };
    if idx < 0 || idx >= len {
        let mut e = String::new();
        proof {
            reveal_strlit("索引 ");
            reveal_strlit(" 越界");
        }
        e.append("索引 ");
        e.append(s);
        e.append(" 越界");
        return Err(e);
    }
    Ok(idx as usize)
}

/// The pieces of a text between `sep` characters, as `str::split` gives them (an empty
/// text is one empty piece).
pub open spec fn split_parts(s: Seq<char>, sep: char) -> Seq<Seq<char>>
    decreases s.len(),
{
    if s.len() == 0 {
        seq![Seq::<char>::empty()]
    } else {
        let parts = split_parts(s.drop_last(), sep);
        if s.last() == sep {
            parts.push(Seq::<char>::empty())
        } else {
            parts.update(parts.len() - 1, parts.last().push(s.last()))
        }
    }
}

proof fn lemma_split_nonempty(s: Seq<char>, sep: char)
    ensures
        split_parts(s, sep).len() >= 1,
    decreases s.len(),
{
    if s.len() > 0 {
        lemma_split_nonempty(s.drop_last(), sep);
    }
}

pub open spec fn strs_view(v: Seq<&str>) -> Seq<Seq<char>> {
    v.map_values(|p: &str| p@)
}

/// Splits a text at each `/`.
pub fn split_slash(s: &str) -> (parts: Vec<&str>)
    ensures
        strs_view(parts@) == split_parts(s@, '/'),
{
    let n = s.unicode_len();
    let mut parts: Vec<&str> = Vec::new();
    let mut start: usize = 0;
    let mut i: usize = 0;
    assert(s@.take(0) =~= Seq::<char>::empty());
    assert(strs_view(parts@).push(s@.subrange(0, 0)) =~= seq![Seq::<char>::empty()]);
    while i < n
        invariant
            n == s@.len(),
            start <= i <= n,
            split_parts(s@.take(i as int), '/') == strs_view(parts@).push(
                s@.subrange(start as int, i as int),
            ),
        decreases n - i,
    {
        let c = s.get_char(i);
        proof {
            let t = s@.take(i + 1);
            assert(t.drop_last() =~= s@.take(i as int));
            assert(t.last() == c);
            lemma_split_nonempty(s@.take(i as int), '/');
        }
        if c == '/' {
            let piece = s.substring_char(start, i);
            let ghost before = parts@;
            parts.push(piece);
            assert(strs_view(parts@) =~= strs_view(before).push(piece@));
            start = i + 1;
            assert(s@.subrange(start as int, i + 1) =~= Seq::<char>::empty());
        } else {
            assert(s@.subrange(start as int, i + 1) =~= s@.subrange(start as int, i as int).push(c));
        }
        i = i + 1;
    }
    let last = s.substring_char(start, n);
    let ghost before = parts@;
    parts.push(last);
    assert(strs_view(parts@) =~= strs_view(before).push(last@));
    assert(s@.take(n as int) =~= s@);
    assert(strs_view(parts@) =~= split_parts(s@, '/'));
    parts
}


/// A face corner: the vertex index, and the texture and normal indices where given.
pub type Corner = (usize, Option<usize>, Option<usize>);

/// The optional index in piece `k` of a corner: absent where the piece is missing or empty.
pub open spec fn optional_index(parts: Seq<Seq<char>>, k: int, len: int) -> Result<
    Option<usize>,
    Seq<char>,
> {
    if k < parts.len() && parts[k].len() > 0 {
        match index_result(parts[k], len) {
            Ok(v) => Ok(Some(v)),
            Err(e) => Err(e),
        }
    } else {
        Ok(None)
    }
}

/// Reading one corner `v[/vt[/vn]]` against tables of `nv`, `nvt` and `nvn` entries.
pub open spec fn corner_result(token: Seq<char>, nv: int, nvt: int, nvn: int) -> Result<
    Corner,
    Seq<char>,
> {
    let parts = split_parts(token, '/');
    match index_result(parts[0], nv) {
        Err(e) => Err(e),
        Ok(p) => match optional_index(parts, 1, nvt) {
            Err(e) => Err(e),
            Ok(t) => match optional_index(parts, 2, nvn) {
                Err(e) => Err(e),
                Ok(n) => Ok((p, t, n)),
            },
        },
    }
}

/// Reading the corners in order; the first error stops it.
pub open spec fn corners_result(tokens: Seq<Seq<char>>, nv: int, nvt: int, nvn: int) -> Result<
    Seq<Corner>,
    Seq<char>,
>
    decreases tokens.len(),
{
    if tokens.len() == 0 {
        Ok(seq![])
    } else {
        match corners_result(tokens.drop_last(), nv, nvt, nvn) {
            Err(e) => Err(e),
            Ok(cs) => match corner_result(tokens.last(), nv, nvt, nvn) {
                Err(e) => Err(e),
                Ok(c) => Ok(cs.push(c)),
            },
        }
    }
}

/// Three indices where all three corners give one.
pub open spec fn all_three(a: Option<usize>, b: Option<usize>, c: Option<usize>) -> Option<
    [usize; 3],
> {
    match (a, b, c) {
        (Some(x), Some(y), Some(z)) => Some([x, y, z]),
        _ => None,
    }
}

/// Triangle `k` of a face's fan: the first corner with corners `k + 1` and `k + 2`.
pub open spec fn fan_tri(cs: Seq<Corner>, k: int, material: usize) -> Tri {
    let a = cs[0];
    let b = cs[k + 1];
    let c = cs[k + 2];
    Tri {
        position: [a.0, b.0, c.0],
        texcoord: all_three(a.1, b.1, c.1),
        colour: None,
        normal: all_three(a.2, b.2, c.2),
        material,
    }
}

pub open spec fn too_few_corners() -> Seq<char> {
    "面至少需要 3 个顶点"@
}

/// What reading a face gives: its fan of triangles, or the first error.
pub open spec fn face_result(
    tokens: Seq<Seq<char>>,
    nv: int,
    nvt: int,
    nvn: int,
    material: usize,
) -> Result<Seq<Tri>, Seq<char>> {
    match corners_result(tokens, nv, nvt, nvn) {
        Err(e) => Err(e),
        Ok(cs) => if cs.len() < 3 {
            Err(too_few_corners())
        } else {
            Ok(Seq::new((cs.len() - 2) as nat, |k: int| fan_tri(cs, k, material)))
        },
    }
}

fn optional_piece(parts: &Vec<&str>, k: usize, len: i64) -> (res: Result<Option<usize>, String>)
    requires
        0 <= len,
    ensures
        match res {
            Ok(v) => optional_index(strs_view(parts@), k as int, len as int) == Ok::<
                Option<usize>,
                Seq<char>,
            >(v),
            Err(e) => optional_index(strs_view(parts@), k as int, len as int) == Err::<
                Option<usize>,
                Seq<char>,
            >(e@),
        },
{
    if k < parts.len() && parts[k].unicode_len() > 0 {
        match parse_index(parts[k], len) {
            Ok(v) => Ok(Some(v)),
            Err(e) => Err(e),
        }
    } else {
        Ok(None)
    }
}

/// Reads one corner.
pub fn parse_corner(token: &str, nv: i64, nvt: i64, nvn: i64) -> (res: Result<Corner, String>)
    requires
        0 <= nv,
        0 <= nvt,
        0 <= nvn,
    ensures
        match res {
            Ok(c) => corner_result(token@, nv as int, nvt as int, nvn as int) == Ok::<
                Corner,
                Seq<char>,
            >(c),
            Err(e) => corner_result(token@, nv as int, nvt as int, nvn as int) == Err::<
                Corner,
                Seq<char>,
            >(e@),
        },
{
    let parts = split_slash(token);
    proof {
        lemma_split_nonempty(token@, '/');
    }
    let p = parse_index(parts[0], nv)?;
    let t = optional_piece(&parts, 1, nvt)?;
    let n = optional_piece(&parts, 2, nvn)?;
    Ok((p, t, n))
}

/// Reads a face line's corners and splits the face into a fan of triangles
/// (0-1-2, 0-2-3, ...), each with the current material.
pub fn parse_face(tokens: &Vec<&str>, nv: i64, nvt: i64, nvn: i64, material: usize) -> (res:
    Result<Vec<Tri>, String>)
    requires
        0 <= nv,
        0 <= nvt,
        0 <= nvn,
    ensures
        match res {
            Ok(t) => face_result(strs_view(tokens@), nv as int, nvt as int, nvn as int, material)
                == Ok::<Seq<Tri>, Seq<char>>(t@),
            Err(e) => face_result(strs_view(tokens@), nv as int, nvt as int, nvn as int, material)
                == Err::<Seq<Tri>, Seq<char>>(e@),
        },
{
    let ghost tv = strs_view(tokens@);
    let mut corners: Vec<Corner> = Vec::new();
    let mut i: usize = 0;
    while i < tokens.len()
        invariant
            i <= tokens@.len(),
            0 <= nv,
            0 <= nvt,
            0 <= nvn,
            tv == strs_view(tokens@),
            corners_result(tv.take(i as int), nv as int, nvt as int, nvn as int) == Ok::<
                Seq<Corner>,
                Seq<char>,
            >(corners@),
        decreases tokens@.len() - i,
    {
        proof {
            let t = tv.take(i + 1);
            assert(t.drop_last() =~= tv.take(i as int));
            assert(t.last() == tokens@[i as int]@);
        }
        match parse_corner(tokens[i], nv, nvt, nvn) {
            Ok(c) => {
                corners.push(c);
            },
            Err(e) => {
                proof {
                    lemma_corners_error_stays(tv, i as int + 1, nv as int, nvt as int, nvn as int);
                }
                return Err(e);
            },
        }
        i = i + 1;
    }
    assert(tv.take(tokens@.len() as int) =~= tv);
    if corners.len() < 3 {
        proof {
            reveal_strlit("面至少需要 3 个顶点");
        }
        return Err(String::from_str("面至少需要 3 个顶点"));
    }
    let ghost cs = corners@;
    let mut tris: Vec<Tri> = Vec::new();
    let mut k: usize = 1;
    let a = corners[0];
    while k < corners.len() - 1
        invariant
            corners@ == cs,
            cs.len() >= 3,
            a == cs[0],
            1 <= k <= cs.len() - 1,
            tris@.len() == k - 1,
            forall|j: int| 0 <= j < k - 1 ==> #[trigger] tris@[j] == fan_tri(cs, j, material),
        decreases cs.len() - 1 - k,
    {
        let b = corners[k];
        let c = corners[k + 1];
        let texcoord = match (a.1, b.1, c.1) {
            (Some(x), Some(y), Some(z)) => Some([x, y, z]),
            _ => None,
        };
        let normal = match (a.2, b.2, c.2) {
            (Some(x), Some(y), Some(z)) => Some([x, y, z]),
            _ => None,
        };
        let t = Tri { position: [a.0, b.0, c.0], texcoord, colour: None, normal, material };
        assert(t == fan_tri(cs, k - 1, material));
        tris.push(t);
        k = k + 1;
    }
    assert(tris@ =~= Seq::new((cs.len() - 2) as nat, |j: int| fan_tri(cs, j, material)));
    Ok(tris)
}

/// Once a prefix of the corners fails, every longer prefix fails with the same error.
proof fn lemma_corners_error_stays(tokens: Seq<Seq<char>>, n: int, nv: int, nvt: int, nvn: int)
    requires
        0 <= n <= tokens.len(),
        corners_result(tokens.take(n), nv, nvt, nvn) is Err,
    ensures
        corners_result(tokens, nv, nvt, nvn) == corners_result(tokens.take(n), nv, nvt, nvn),
    decreases tokens.len() - n,
{
    if n == tokens.len() {
        assert(tokens.take(n) =~= tokens);
    } else {
        let t = tokens.take(n + 1);
        assert(t.drop_last() =~= tokens.take(n));
        lemma_corners_error_stays(tokens, n + 1, nv, nvt, nvn);
    }
}

/// The step of the preview thinning: the whole part of `len / max`, at least one.
pub open spec fn thin_stride(len: int, max: int) -> int {
    if len / max > 1 {
        len / max
    } else {
        1
    }
}

/// A preview keeps every `stride`-th triangle, from the first, once there are more than
/// `max` of them (a `max` of zero keeps all).
pub open spec fn thinned(s: Seq<Tri>, max: int) -> Seq<Tri> {
    if max > 0 && s.len() > max {
        let st = thin_stride(s.len() as int, max);
        Seq::new(((s.len() + st - 1) / st) as nat, |k: int| s[k * st])
    } else {
        s
    }
}

/// Thins a mesh's triangles for a preview; its vertices stay as they are.
pub fn thin_tris(tris: Vec<Tri>, max_tris: usize) -> (res: Vec<Tri>)
    ensures
        res@ == thinned(tris@, max_tris as int),
{
    let n = tris.len();
    if max_tris == 0 || n <= max_tris {
        return tris;
    }
    let q = n / max_tris;
    let stride: usize = if q > 1 {
        q
    } else {
        1
    };
    let mut out: Vec<Tri> = Vec::new();
    let mut i: usize = 0;
    let mut done = false;
    let ghost mut k: int = 0;
    while !done
        invariant
            n == tris@.len(),
            n > 0,
            stride >= 1,
            0 <= k,
            i <= n,
            (k - 1) * stride < n,
            out@.len() == k,
            forall|j: int| 0 <= j < k ==> out@[j] == tris@[j * stride],
            !done ==> i == k * stride && i < n,
            done ==> k * stride >= n,
        decreases n - i + if done {
            0int
        } else {
            1int
        },
    {
        out.push(tris[i]);
        proof {
            assert((k + 1) * stride == k * stride + stride) by (nonlinear_arith);
            assert(k * stride == (k + 1 - 1) * stride);
            k = k + 1;
        }
        if n - i <= stride {
            done = true;
        } else {
            i = i + stride;
        }
    }
    proof {
        assert(k == (n + stride - 1) / (stride as int)) by (nonlinear_arith)
            requires
                (k - 1) * stride < n,
                n <= k * stride,
                stride >= 1,
        ;
    }
    assert(out@ =~= thinned(tris@, max_tris as int));
    out
}

/// What an OBJ line holds, by its first word.
#[derive(Clone, Copy, PartialEq, Eq, Structural, Debug)]
pub enum ObjLineKind {
    /// `v`: a vertex position.
    Vertex,
    /// `vn`: a normal.
    Normal,
    /// `vt`: a texture coordinate.
    TexCoord,
    /// `f`: a face.
    Face,
    /// `usemtl`: the material of the faces that follow.
    UseMaterial,
    /// `mtllib`: material library files.
    MaterialLibrary,
    /// Anything else (`o`, `g`, `s`, `l`, unknown words), which is skipped.
    Other,
}

pub open spec fn spec_line_kind(tag: Seq<char>) -> ObjLineKind {
    if tag == "v"@ {
        ObjLineKind::Vertex
    } else if tag == "vn"@ {
        ObjLineKind::Normal
    } else if tag == "vt"@ {
        ObjLineKind::TexCoord
    } else if tag == "f"@ {
        ObjLineKind::Face
    } else if tag == "usemtl"@ {
        ObjLineKind::UseMaterial
    } else if tag == "mtllib"@ {
        ObjLineKind::MaterialLibrary
    } else {
        ObjLineKind::Other
    }
}

/// The kind of an OBJ line from its first word.
pub fn line_kind(tag: &str) -> (res: ObjLineKind)
    ensures
        res == spec_line_kind(tag@),
{
    if str_equal(tag, "v") {
        ObjLineKind::Vertex
    } else if str_equal(tag, "vn") {
        ObjLineKind::Normal
    } else if str_equal(tag, "vt") {
        ObjLineKind::TexCoord
    } else if str_equal(tag, "f") {
        ObjLineKind::Face
    } else if str_equal(tag, "usemtl") {
        ObjLineKind::UseMaterial
    } else if str_equal(tag, "mtllib") {
        ObjLineKind::MaterialLibrary
    } else {
        ObjLineKind::Other
    }
}

/// `name` is at `i`, and nowhere before.
pub open spec fn first_at(names: Seq<Seq<char>>, name: Seq<char>, i: int) -> bool {
    0 <= i < names.len() && names[i] == name && forall|j: int| 0 <= j < i ==> names[j] != name
}

/// What `usemtl name` does to the names of a mesh's materials: a known name selects its
/// material; a new one is added at the end and selected.
pub open spec fn used_material(names: Seq<Seq<char>>, name: Seq<char>) -> (Seq<Seq<char>>, int) {
    if exists|i: int| first_at(names, name, i) {
        (names, choose|i: int| first_at(names, name, i))
    } else {
        (names.push(name), names.len() as int)
    }
}

proof fn lemma_first_unique(names: Seq<Seq<char>>, name: Seq<char>, i: int, k: int)
    requires
        first_at(names, name, i),
        first_at(names, name, k),
    ensures
        i == k,
{
    if i < k {
        assert(names[i] != name);
    } else if k < i {
        assert(names[k] != name);
    }
}

/// Naming a material again selects the same one and adds nothing.
pub proof fn material_use_is_stable(names: Seq<Seq<char>>, name: Seq<char>)
    ensures
        ({
            let (n1, i1) = used_material(names, name);
            &&& 0 <= i1 < n1.len()
            &&& n1[i1] == name
            &&& used_material(n1, name) == (n1, i1)
        }),
{
    let (n1, i1) = used_material(names, name);
    if exists|i: int| first_at(names, name, i) {
        assert(first_at(n1, name, i1));
        let k2 = choose|i: int| first_at(n1, name, i);
        lemma_first_unique(n1, name, i1, k2);
    } else {
        assert(first_at(n1, name, i1)) by {
            assert forall|j: int| 0 <= j < i1 implies n1[j] != name by {
                if n1[j] == name {
                    assert(names[j] == name);
                    lemma_has_first(names, name, j);
                }
            }
        }
        let k2 = choose|i: int| first_at(n1, name, i);
        lemma_first_unique(n1, name, i1, k2);
    }
}

proof fn lemma_has_first(names: Seq<Seq<char>>, name: Seq<char>, j: int)
    requires
        0 <= j < names.len(),
        names[j] == name,
    ensures
        exists|i: int| first_at(names, name, i),
    decreases j,
{
    if exists|p: int| 0 <= p < j && names[p] == name {
        let p = choose|p: int| 0 <= p < j && names[p] == name;
        lemma_has_first(names, name, p);
    } else {
        assert(first_at(names, name, j));
    }
}

/// The names of a mesh's materials, in the order `usemtl` first named them.
pub struct MaterialNames {
    names: Vec<String>,
}

impl MaterialNames {
    pub closed spec fn view(&self) -> Seq<Seq<char>> {
        self.names@.map_values(|n: String| n@)
    }

    /// No materials yet.
    pub fn new() -> (res: Self)
        ensures
            res.view() == Seq::<Seq<char>>::empty(),
    {
        let r = MaterialNames { names: Vec::new() };
        assert(r.view() =~= Seq::<Seq<char>>::empty());
        r
    }

    /// How many materials have been named.
    pub fn len(&self) -> (res: usize)
        ensures
            res == self.view().len(),
    {
        self.names.len()
    }

    /// The material `usemtl name` selects, and whether it was added for it.
    pub fn use_material(&mut self, name: &str) -> (res: (usize, bool))
        ensures
            (final(self).view(), res.0 as int) == used_material(old(self).view(), name@),
            res.1 == (final(self).view().len() > old(self).view().len()),
    {
        let n = self.names.len();
        let mut i: usize = 0;
        while i < n
            invariant
                n == self.names@.len(),
                i <= n,
                forall|j: int| 0 <= j < i ==> self.view()[j] != name@,
            decreases n - i,
        {
            if str_equal(self.names[i].as_str(), name) {
                proof {
                    let v = self.view();
                    assert(first_at(v, name@, i as int));
                    let k = choose|k: int| first_at(v, name@, k);
                    lemma_first_unique(v, name@, i as int, k);
                }
                return (i, false);
            }
            i = i + 1;
        }
        let ghost before = self.view();
        proof {
            assert(!exists|k: int| first_at(before, name@, k));
        }
        self.names.push(name.to_owned());
        assert(self.view() =~= before.push(name@));
        (n, true)
    }
}

/// What an MTL line holds, by its first word.
#[derive(Clone, Copy, PartialEq, Eq, Structural, Debug)]
pub enum MtlLineKind {
    /// `newmtl`: the material the lines that follow describe.
    NewMaterial,
    /// `Kd`: the diffuse colour.
    Diffuse,
    /// `d`: the opacity.
    Dissolve,
    /// `map_Kd`: the diffuse texture file.
    DiffuseMap,
    /// Anything else, which is skipped.
    Other,
}

pub open spec fn spec_mtl_line_kind(tag: Seq<char>) -> MtlLineKind {
    if tag == "newmtl"@ {
        MtlLineKind::NewMaterial
    } else if tag == "Kd"@ {
        MtlLineKind::Diffuse
    } else if tag == "d"@ {
        MtlLineKind::Dissolve
    } else if tag == "map_Kd"@ {
        MtlLineKind::DiffuseMap
    } else {
        MtlLineKind::Other
    }
}

/// The kind of an MTL line from its first word.
pub fn mtl_line_kind(tag: &str) -> (res: MtlLineKind)
    ensures
        res == spec_mtl_line_kind(tag@),
{
    if str_equal(tag, "newmtl") {
        MtlLineKind::NewMaterial
    } else if str_equal(tag, "Kd") {
        MtlLineKind::Diffuse
    } else if str_equal(tag, "d") {
        MtlLineKind::Dissolve
    } else if str_equal(tag, "map_Kd") {
        MtlLineKind::DiffuseMap
    } else {
        MtlLineKind::Other
    }
}

} // verus!

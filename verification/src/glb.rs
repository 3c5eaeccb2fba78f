//! The integer side of glTF import: the GLB container's chunks, the triangles of a
//! primitive, texture pixel formats, and data URIs.
use vstd::prelude::*;
use vstd::string::*;

use crate::json::{
    convert_gltf_json, gltf_can_convert, gltf_converted, gltf_convertible, json_to_bytes,
    parse_json_text, serde_json_bytes, serde_json_value, Json,
};
use crate::nbt::{push_bytes, u32_le};
use crate::obj::Tri;

verus! {

/// The type word of a GLB JSON chunk (`JSON` in ASCII).
pub const CHUNK_JSON: u32 = 0x4E4F_534A;

/// The type word of a GLB binary chunk (`BIN\0` in ASCII).
pub const CHUNK_BIN: u32 = 0x004E_4942;

/// The `u32` stored little-endian at `p`.
pub open spec fn u32_at(b: Seq<u8>, p: int) -> int {
    b[p] as int + b[p + 1] as int * 256 + b[p + 2] as int * 65536 + b[p + 3] as int * 16777216
}

/// Padding that brings a length up to a multiple of 4.
pub open spec fn pad4(n: int) -> int {
    (4 - n % 4) % 4
}

/// The JSON and binary chunks found walking the chunk headers from `pos`: each chunk is
/// an 8-byte header (length, type) and its data padded to 4 bytes; a later chunk of a type
/// replaces an earlier one.
pub open spec fn scan_chunks(
    b: Seq<u8>,
    pos: int,
    json: Option<(int, int)>,
    bin: Option<(int, int)>,
) -> (Option<(int, int)>, Option<(int, int)>)
    decreases if pos <= b.len() {
        b.len() - pos
    } else {
        0
    },
{
    if pos < 0 || pos + 8 > b.len() {
        (json, bin)
    } else {
        let len = u32_at(b, pos);
        let ty = u32_at(b, pos + 4);
        let data = pos + 8;
        proof {
            assert(len >= 0);
            assert(pad4(len) >= 0);
        }
        let json2 = if ty == CHUNK_JSON {
            Some((data, len))
        } else {
            json
        };
        let bin2 = if ty == CHUNK_BIN && ty != CHUNK_JSON {
            Some((data, len))
        } else {
            bin
        };
        scan_chunks(b, data + len + pad4(len), json2, bin2)
    }
}

/// Whether bytes begin with the GLB magic `glTF`.
pub open spec fn spec_is_glb(b: Seq<u8>) -> bool {
    b.len() >= 4 && b[0] == 0x67 && b[1] == 0x6C && b[2] == 0x54 && b[3] == 0x46
}

/// Whether bytes are a GLB file (they begin with `glTF`).
pub fn is_glb(bytes: &[u8]) -> (res: bool)
    ensures
        res == spec_is_glb(bytes@),
{
    bytes.len() >= 4 && bytes[0] == 0x67 && bytes[1] == 0x6C && bytes[2] == 0x54 && bytes[3]
        == 0x46
}

/// Where a GLB file's JSON chunk (and binary chunk, if any) lie: start and length.
#[derive(Clone, Copy, Debug)]
pub struct GlbChunks {
    pub json: (usize, usize),
    pub bin: Option<(usize, usize)>,
}

pub open spec fn range_view(r: Option<(usize, usize)>) -> Option<(int, int)> {
    match r {
        Some(p) => Some((p.0 as int, p.1 as int)),
        None => None,
    }
}

fn read_u32(bytes: &[u8], p: usize) -> (res: u32)
    requires
        p + 4 <= bytes@.len(),
    ensures
        res == u32_at(bytes@, p as int),
{
    let v: u64 = bytes[p] as u64 + bytes[p + 1] as u64 * 256 + bytes[p + 2] as u64 * 65536
        + bytes[p + 3] as u64 * 16777216;
    v as u32
}

/// Finds a GLB file's chunks. A file shorter than its 12-byte header, or without a JSON
/// chunk, is refused.
pub fn glb_chunks(bytes: &[u8]) -> (res: Result<GlbChunks, String>)
    ensures
        bytes@.len() < 12 ==> (res matches Err(e) && e@ == "GLB 文件过短"@),
        bytes@.len() >= 12 ==> ({
            let s = scan_chunks(bytes@, 12, None, None);
            match res {
                Ok(c) => s.0 == Some((c.json.0 as int, c.json.1 as int)) && s.1 == range_view(
                    c.bin,
                ),
                Err(e) => s.0 is None && e@ == "GLB 缺少 JSON chunk"@,
            }
        }),
{
    if bytes.len() < 12 {
        return Err(String::from_str("GLB 文件过短"));
    }
    let n: u128 = bytes.len() as u128;
    let mut pos: u128 = 12;
    let mut json: Option<(usize, usize)> = None;
    let mut bin: Option<(usize, usize)> = None;
    while pos <= n - 8
        invariant
            n == bytes@.len(),
            n <= usize::MAX,
            n >= 12,
            12 <= pos,
            pos <= n + 8 + 0x1_0000_0003,
            json matches Some(j) ==> j.0 + 0 <= n,
            bin matches Some(j) ==> j.0 + 0 <= n,
            scan_chunks(bytes@, pos as int, range_view(json), range_view(bin)) == scan_chunks(
                bytes@,
                12,
                None,
                None,
            ),
        decreases n + 8 + 0x1_0000_0003 - pos,
    {
        let p = pos as usize;
        let len = read_u32(bytes, p);
        let ty = read_u32(bytes, p + 4);
        let data = p + 8;
        if ty == CHUNK_JSON {
            json = Some((data, len as usize));
        } else if ty == CHUNK_BIN {
            bin = Some((data, len as usize));
        }
        pos = data as u128 + len as u128 + ((4 - len % 4) % 4) as u128;
    }
    match json {
        Some(j) => Ok(GlbChunks { json: j, bin }),
        None => Err(String::from_str("GLB 缺少 JSON chunk")),
    }
}

/// `count` copies of a byte.
pub open spec fn filler(b: u8, count: int) -> Seq<u8> {
    Seq::new(count as nat, |i: int| b)
}

/// A GLB file rebuilt around new JSON: the input's magic and version, the total length,
/// the JSON chunk padded with spaces, and the input's binary chunk padded with zeros.
pub open spec fn glb_rebuilt(b: Seq<u8>, json: Seq<u8>, bin: Option<(int, int)>) -> Seq<u8> {
    let jp = json.len() + pad4(json.len() as int);
    let bin_total = match bin {
        Some(r) => r.1 + pad4(r.1),
        None => 0,
    };
    let total = 12 + 8 + jp + match bin {
        Some(r) => 8 + bin_total,
        None => 0,
    };
    b.subrange(0, 8) + u32_le(total as u32) + u32_le(jp as u32) + u32_le(CHUNK_JSON) + json
        + filler(0x20, jp - json.len()) + match bin {
        Some(r) => u32_le(bin_total as u32) + u32_le(CHUNK_BIN) + b.subrange(r.0, r.0 + r.1)
            + filler(0, bin_total - r.1),
        None => Seq::empty(),
    }
}

/// The size of a rebuilt file; its chunks read back as written where it fits the
/// container's `u32` length field.
pub open spec fn rebuilt_len(json_len: int, bin: Option<(int, int)>) -> int {
    12 + 8 + json_len + pad4(json_len) + match bin {
        Some(r) => 8 + r.1 + pad4(r.1),
        None => 0,
    }
}

fn push_u32_le(w: &mut Vec<u8>, u: u32)
    ensures
        final(w)@ == old(w)@ + u32_le(u),
{
    w.push((u % 256) as u8);
    w.push(((u / 256) % 256) as u8);
    w.push(((u / 65536) % 256) as u8);
    w.push((u / 16777216) as u8);
}

fn push_filler(w: &mut Vec<u8>, b: u8, count: usize)
    ensures
        final(w)@ == old(w)@ + filler(b, count as int),
{
    let ghost start = w@;
    let mut i: usize = 0;
    while i < count
        invariant
            i <= count,
            w@ == start + filler(b, i as int),
        decreases count - i,
    {
        w.push(b);
        i = i + 1;
        assert(w@ =~= start + filler(b, i as int));
    }
}

/// The file's first part: header and JSON chunk.
pub open spec fn glb_front(b: Seq<u8>, json: Seq<u8>, total: int, jp: int) -> Seq<u8> {
    b.subrange(0, 8) + u32_le(total as u32) + u32_le(jp as u32) + u32_le(CHUNK_JSON) + json
        + filler(0x20, jp - json.len())
}

/// The binary chunk, rebuilt.
pub open spec fn glb_bin_part(b: Seq<u8>, r: (int, int), bin_total: int) -> Seq<u8> {
    u32_le(bin_total as u32) + u32_le(CHUNK_BIN) + b.subrange(r.0, r.0 + r.1) + filler(
        0,
        bin_total - r.1,
    )
}

fn write_front(out: &mut Vec<u8>, bytes: &[u8], json: &[u8], total: u128, jp: u128)
    requires
        bytes@.len() >= 8,
        json@.len() <= jp <= json@.len() + 3,
    ensures
        final(out)@ == old(out)@ + glb_front(bytes@, json@, total as int, jp as int),
{
    let head = &bytes[0..8];
    push_bytes(out, head);
    push_u32_le(out, total as u32);
    push_u32_le(out, jp as u32);
    push_u32_le(out, CHUNK_JSON);
    push_bytes(out, json);
    let pad = (jp - json.len() as u128) as usize;
    push_filler(out, 0x20, pad);
    assert(final(out)@ =~= old(out)@ + glb_front(bytes@, json@, total as int, jp as int));
}

fn write_bin(out: &mut Vec<u8>, bytes: &[u8], r: (usize, usize), bin_total: u128)
    requires
        r.0 + r.1 <= bytes@.len(),
        r.1 <= bin_total <= r.1 + 3,
    ensures
        final(out)@ == old(out)@ + glb_bin_part(bytes@, (r.0 as int, r.1 as int), bin_total as int),
{
    push_u32_le(out, bin_total as u32);
    push_u32_le(out, CHUNK_BIN);
    let blen = bytes.len();
    assert(r.0 + r.1 <= blen);
    let data = &bytes[r.0..r.0 + r.1];
    push_bytes(out, data);
    let pad = (bin_total - r.1 as u128) as usize;
    push_filler(out, 0, pad);
    assert(final(out)@ =~= old(out)@ + glb_bin_part(bytes@, (r.0 as int, r.1 as int), bin_total as int));
}

/// Rebuilds a GLB file with new JSON, keeping its header's magic and version and its
/// binary chunk. The length fields keep the low 32 bits of the sizes, as an `as u32` cast
/// does.
pub fn rebuild_glb(bytes: &[u8], json: &[u8], bin: Option<(usize, usize)>) -> (res: Vec<u8>)
    requires
        bytes@.len() >= 8,
        bin matches Some(r) ==> r.0 + r.1 <= bytes@.len(),
    ensures
        res@ == glb_rebuilt(bytes@, json@, range_view(bin)),
{
    let jl = json.len() as u128;
    let jp: u128 = jl + (4 - jl % 4) % 4;
    let bin_total: u128 = match bin {
        Some(r) => r.1 as u128 + (4 - r.1 as u128 % 4) % 4,
        None => 0,
    };
    let total: u128 = 12 + 8 + jp + match bin {
        Some(_) => 8 + bin_total,
        None => 0,
    };
    let mut out: Vec<u8> = Vec::new();
    write_front(&mut out, bytes, json, total, jp);
    match bin {
        Some(r) => {
            write_bin(&mut out, bytes, r, bin_total);
        },
        None => {},
    }
    proof {
        let b = bytes@;
        let j = json@;
        let front = glb_front(b, j, total as int, jp as int);
        match bin {
            Some(r) => {
                assert(out@ =~= front + glb_bin_part(b, (r.0 as int, r.1 as int), bin_total as int));
            },
            None => {
                assert(out@ =~= front + Seq::<u8>::empty());
            },
        }
    }
    out
}

proof fn lemma_read_le(s: Seq<u8>, p: int, u: u32)
    requires
        0 <= p,
        p + 4 <= s.len(),
        s.subrange(p, p + 4) == u32_le(u),
    ensures
        u32_at(s, p) == u,
{
    assert(s[p] == s.subrange(p, p + 4)[0]);
    assert(s[p + 1] == s.subrange(p, p + 4)[1]);
    assert(s[p + 2] == s.subrange(p, p + 4)[2]);
    assert(s[p + 3] == s.subrange(p, p + 4)[3]);
    assert((u % 256) + ((u / 256) % 256) * 256 + ((u / 65536) % 256) * 65536 + (u / 16777216)
        * 16777216 == u) by (nonlinear_arith);
}

proof fn lemma_pad4(n: int)
    requires
        n >= 0,
    ensures
        pad4(n) >= 0,
        (n + pad4(n)) % 4 == 0,
        pad4(n + pad4(n)) == 0,
{
}

proof fn lemma_words_at(pre: Seq<u8>, x: Seq<u8>, y: Seq<u8>, rest: Seq<u8>)
    requires
        x.len() == 4,
        y.len() == 4,
    ensures
        (pre + x + y + rest).subrange(pre.len() as int, pre.len() + 4int) == x,
        (pre + x + y + rest).subrange(pre.len() + 4int, pre.len() + 8int) == y,
        (pre + x + y + rest).len() == pre.len() + 8 + rest.len(),
{
    assert((pre + x + y + rest).subrange(pre.len() as int, pre.len() + 4int) =~= x);
    assert((pre + x + y + rest).subrange(pre.len() + 4int, pre.len() + 8int) =~= y);
}

/// One step of the chunk walk, from a chunk header whose words are known.
proof fn lemma_scan_step(
    s: Seq<u8>,
    p: int,
    len: u32,
    ty: u32,
    json: Option<(int, int)>,
    bin: Option<(int, int)>,
)
    requires
        0 <= p,
        p + 8 <= s.len(),
        u32_at(s, p) == len,
        u32_at(s, p + 4) == ty,
    ensures
        scan_chunks(s, p, json, bin) == scan_chunks(
            s,
            p + 8 + len + pad4(len as int),
            if ty == CHUNK_JSON {
                Some((p + 8, len as int))
            } else {
                json
            },
            if ty == CHUNK_BIN {
                Some((p + 8, len as int))
            } else {
                bin
            },
        ),
{
}

/// Where the JSON chunk ends in a rebuilt file.
pub open spec fn json_end(json_len: int) -> int {
    20 + json_len + pad4(json_len)
}

/// The rebuilt file, cut where the chunk walk reads it: the 12-byte header, the JSON chunk's
/// length and type words, and the rest.
proof fn lemma_rebuilt_head(b: Seq<u8>, json: Seq<u8>, bin: Option<(int, int)>)
    requires
        b.len() >= 8,
        bin matches Some(r) ==> 0 <= r.0 && 0 <= r.1 && r.0 + r.1 <= b.len(),
        rebuilt_len(json.len() as int, bin) <= u32::MAX,
    ensures
        u32_at(glb_rebuilt(b, json, bin), 12) == json.len() + pad4(json.len() as int),
        u32_at(glb_rebuilt(b, json, bin), 16) == CHUNK_JSON,
        glb_rebuilt(b, json, bin).len() >= json_end(json.len() as int),
{
    let jl = json.len() as int;
    let jp = jl + pad4(jl);
    lemma_pad4(jl);
    let out = glb_rebuilt(b, json, bin);
    let head = b.subrange(0, 8) + u32_le(
        (12 + 8 + jp + match bin {
            Some(r) => 8 + r.1 + pad4(r.1),
            None => 0,
        }) as u32,
    );
    let rest = out.subrange(20, out.len() as int);
    assert(out =~= head + u32_le(jp as u32) + u32_le(CHUNK_JSON) + rest);
    lemma_words_at(head, u32_le(jp as u32), u32_le(CHUNK_JSON), rest);
    lemma_read_le(out, 12, jp as u32);
    lemma_read_le(out, 16, CHUNK_JSON);
}

/// After the JSON chunk of a rebuilt file: the binary chunk's words, or the end.
proof fn lemma_rebuilt_tail(b: Seq<u8>, json: Seq<u8>, bin: Option<(int, int)>)
    requires
        b.len() >= 8,
        bin matches Some(r) ==> 0 <= r.0 && 0 <= r.1 && r.0 + r.1 <= b.len(),
        rebuilt_len(json.len() as int, bin) <= u32::MAX,
    ensures
        bin is None ==> glb_rebuilt(b, json, bin).len() == json_end(json.len() as int),
        bin matches Some(r) ==> {
            let e = json_end(json.len() as int);
            &&& glb_rebuilt(b, json, bin).len() == e + 8 + r.1 + pad4(r.1)
            &&& u32_at(glb_rebuilt(b, json, bin), e) == r.1 + pad4(r.1)
            &&& u32_at(glb_rebuilt(b, json, bin), e + 4) == CHUNK_BIN
        },
{
    let jl = json.len() as int;
    let jp = jl + pad4(jl);
    lemma_pad4(jl);
    let out = glb_rebuilt(b, json, bin);
    let e = json_end(jl);
    match bin {
        Some(r) => {
            lemma_pad4(r.1);
            let bt = r.1 + pad4(r.1);
            let front = out.subrange(0, e);
            let data = b.subrange(r.0, r.0 + r.1) + filler(0, bt - r.1);
            assert(out =~= front + u32_le(bt as u32) + u32_le(CHUNK_BIN) + data);
            lemma_words_at(front, u32_le(bt as u32), u32_le(CHUNK_BIN), data);
            lemma_read_le(out, e, bt as u32);
            lemma_read_le(out, e + 4, CHUNK_BIN);
        },
        None => {
        },
    }
}

/// A rebuilt file's chunks are found again: the new JSON, padded to four bytes, right after
/// the 12-byte header and its own chunk header, and the binary chunk, padded, right after
/// that.
pub proof fn rebuilt_glb_chunks(b: Seq<u8>, json: Seq<u8>, bin: Option<(int, int)>)
    requires
        b.len() >= 8,
        bin matches Some(r) ==> 0 <= r.0 && 0 <= r.1 && r.0 + r.1 <= b.len(),
        rebuilt_len(json.len() as int, bin) <= u32::MAX,
    ensures
        ({
            let jp = json.len() + pad4(json.len() as int);
            scan_chunks(glb_rebuilt(b, json, bin), 12, None, None) == (
                Some((20int, jp)),
                match bin {
                    Some(r) => Some((28 + jp, r.1 + pad4(r.1))),
                    None => None,
                },
            )
        }),
{
    let jl = json.len() as int;
    let jp = jl + pad4(jl);
    lemma_pad4(jl);
    let out = glb_rebuilt(b, json, bin);
    lemma_rebuilt_head(b, json, bin);
    lemma_rebuilt_tail(b, json, bin);
    lemma_scan_step(out, 12, jp as u32, CHUNK_JSON, None, None);
    assert(20 + jp + pad4(jp) == json_end(jl));
    match bin {
        Some(r) => {
            lemma_pad4(r.1);
            let bt = r.1 + pad4(r.1);
            lemma_scan_step(out, json_end(jl), bt as u32, CHUNK_BIN, Some((20int, jp)), None);
            assert(json_end(jl) + 8 + bt + pad4(bt) == out.len());
        },
        None => {
        },
    }
}


// ---------------------------------------------------------------------------
// Converting the JSON of a glTF document before it is read
// ---------------------------------------------------------------------------
/// The text that `String::from_utf8_lossy` makes of bytes (invalid sequences replaced).
pub uninterp spec fn utf8_lossy_text(bytes: Seq<u8>) -> Seq<char>;

/// `String::from_utf8_lossy`, taken as an owned `String`: the contract names the text and
/// says it depends on the bytes alone.
#[verifier::external_body]
fn utf8_lossy(bytes: &[u8]) -> (res: String)
    ensures
        res@ == utf8_lossy_text(bytes@),
{
    String::from_utf8_lossy(bytes).into_owned()
}

/// A text without its trailing NUL characters.
pub open spec fn strip_nuls(s: Seq<char>) -> Seq<char>
    decreases s.len(),
{
    if s.len() > 0 && s.last() == '\0' {
        strip_nuls(s.drop_last())
    } else {
        s
    }
}

/// `str::trim_end_matches('\0')`: the text with every trailing NUL removed.
#[verifier::external_body]
fn trim_nuls(s: &str) -> (res: String)
    ensures
        res@ == strip_nuls(s@),
{
    s.trim_end_matches('\0').to_string()
}

/// The text that `str::trim` leaves (leading and trailing Unicode white space removed).
pub uninterp spec fn trimmed(s: Seq<char>) -> Seq<char>;

/// `str::trim`: the contract names the text and says it depends on the input alone.
#[verifier::external_body]
fn trim_text(s: &str) -> (res: String)
    ensures
        res@ == trimmed(s@),
{
    s.trim().to_string()
}

/// The JSON text of a GLB file's JSON chunk at `r`: its bytes read as UTF-8, trailing NULs
/// and surrounding white space dropped.
pub open spec fn glb_json_text(b: Seq<u8>, r: (int, int)) -> Seq<char> {
    trimmed(strip_nuls(utf8_lossy_text(b.subrange(r.0, r.0 + r.1))))
}

/// Where converting a GLB file cannot go on: its JSON chunk runs past the end of the file,
/// or its JSON reads but a material cannot be converted, or its binary chunk runs past the
/// end of the file.
pub open spec fn glb_stops(b: Seq<u8>) -> bool {
    &&& b.len() >= 12
    &&& match scan_chunks(b, 12, None, None) {
        (Some(j), bin) => j.0 + j.1 > b.len() || (serde_json_value(glb_json_text(b, j)) matches Ok(
            v,
        ) && (!gltf_convertible(v) || (bin matches Some(r) && r.0 + r.1 > b.len()))),
        _ => false,
    }
}

/// The outcome of converting a GLB file: the container's own refusals, a JSON parse error
/// with serde_json's message, or the file rebuilt around the converted JSON as serde_json
/// writes it.
pub open spec fn glb_outcome(b: Seq<u8>, res: Result<Vec<u8>, String>) -> bool {
    if b.len() < 12 {
        res matches Err(e) && e@ == "GLB 文件过短"@
    } else {
        match scan_chunks(b, 12, None, None) {
            (Some(j), bin) => match serde_json_value(glb_json_text(b, j)) {
                Err(e) => res matches Err(m) && m@ == "GLB JSON 解析失败: "@ + e,
                Ok(v) => res matches Ok(out) && exists|w: Json|
                    gltf_converted(v, w) && out@ == glb_rebuilt(b, serde_json_bytes(w), bin),
            },
            _ => res matches Err(e) && e@ == "GLB 缺少 JSON chunk"@,
        }
    }
}

/// A parse error's message: `prefix` and serde_json's text.
fn error_text(prefix: &str, e: String) -> (res: String)
    ensures
        res@ == prefix@ + e@,
{
    let mut m = String::from_str(prefix);
    m.append(e.as_str());
    m
}

/// Converts the JSON of a GLB file so that the glTF reader accepts its materials, and
/// rebuilds the file around it.
pub fn preprocess_glb(bytes: &[u8]) -> (res: Result<Vec<u8>, String>)
    requires
        !glb_stops(bytes@),
    ensures
        glb_outcome(bytes@, res),
{
    let chunks = match glb_chunks(bytes) {
        Ok(c) => c,
        Err(e) => return Err(e),
    };
    let (js, jl) = chunks.json;
    let blen = bytes.len();
    assert(js + jl <= blen);
    let raw = &bytes[js..js + jl];
    let lossy = utf8_lossy(raw);
    let stripped = trim_nuls(lossy.as_str());
    let text = trim_text(stripped.as_str());
    assert(text@ == glb_json_text(bytes@, (js as int, jl as int)));
    let v = match parse_json_text(text.as_str()) {
        Ok(v) => v,
        Err(e) => return Err(error_text("GLB JSON 解析失败: ", e)),
    };
    let w = convert_gltf_json(v);
    let out = json_to_bytes(&w);
    Ok(rebuild_glb(bytes, out.as_slice(), chunks.bin))
}

/// Whether converting a GLB file cannot go on (see `glb_stops`).
fn glb_cannot_convert(bytes: &[u8]) -> (res: bool)
    ensures
        res == glb_stops(bytes@),
{
    let chunks = match glb_chunks(bytes) {
        Ok(c) => c,
        Err(_) => return false,
    };
    let (js, jl) = chunks.json;
    if js as u128 + jl as u128 > bytes.len() as u128 {
        return true;
    }
    let raw = &bytes[js..js + jl];
    let lossy = utf8_lossy(raw);
    let stripped = trim_nuls(lossy.as_str());
    let text = trim_text(stripped.as_str());
    assert(text@ == glb_json_text(bytes@, (js as int, jl as int)));
    match parse_json_text(text.as_str()) {
        Ok(v) => {
            if !gltf_can_convert(&v) {
                return true;
            }
            match chunks.bin {
                Some(r) => r.0 as u128 + r.1 as u128 > bytes.len() as u128,
                None => false,
            }
        },
        Err(_) => false,
    }
}

/// Converts a GLB file as `preprocess_glb` does, or nothing where that cannot go on.
pub fn checked_preprocess_glb(bytes: &[u8]) -> (res: Option<Result<Vec<u8>, String>>)
    ensures
        res is None <==> glb_stops(bytes@),
        res matches Some(r) ==> glb_outcome(bytes@, r),
{
    if glb_cannot_convert(bytes) {
        None
    } else {
        Some(preprocess_glb(bytes))
    }
}

/// Where converting a glTF text cannot go on: it reads, but a material cannot be converted.
pub open spec fn gltf_text_stops(text: Seq<char>) -> bool {
    serde_json_value(text) matches Ok(v) && !gltf_convertible(v)
}

/// The outcome of converting a glTF text: a parse error with serde_json's message, or the
/// converted document as serde_json writes it.
pub open spec fn gltf_text_outcome(text: Seq<char>, res: Result<Vec<u8>, String>) -> bool {
    match serde_json_value(text) {
        Err(e) => res matches Err(m) && m@ == "glTF JSON 解析失败: "@ + e,
        Ok(v) => res matches Ok(out) && exists|w: Json|
            gltf_converted(v, w) && out@ == serde_json_bytes(w),
    }
}

/// Converts a glTF document's JSON text so that the glTF reader accepts its materials.
pub fn preprocess_gltf_text(text: &str) -> (res: Result<Vec<u8>, String>)
    requires
        !gltf_text_stops(text@),
    ensures
        gltf_text_outcome(text@, res),
{
    let v = match parse_json_text(text) {
        Ok(v) => v,
        Err(e) => return Err(error_text("glTF JSON 解析失败: ", e)),
    };
    let w = convert_gltf_json(v);
    Ok(json_to_bytes(&w))
}

/// Converts a glTF text as `preprocess_gltf_text` does, or nothing where that cannot go on.
pub fn checked_preprocess_gltf_text(text: &str) -> (res: Option<Result<Vec<u8>, String>>)
    ensures
        res is None <==> gltf_text_stops(text@),
        res matches Some(r) ==> gltf_text_outcome(text@, r),
{
    let stops = match parse_json_text(text) {
        Ok(v) => !gltf_can_convert(&v),
        Err(_) => false,
    };
    if stops {
        None
    } else {
        Some(preprocess_gltf_text(text))
    }
}

} // verus!

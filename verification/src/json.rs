//! A JSON value as plain data, objects read as maps from keys to members, and the glTF
//! material conversion done on it before a model is handed to the glTF reader.
use vstd::prelude::*;
use vstd::string::*;

use serde_json::Value;

use crate::block::str_equal;
use crate::obj::{i64_parse, parse_i64};

verus! {

/// A JSON value. A number keeps its text; an object keeps its members in a list, the first
/// member with a key being the one that counts.
#[derive(Debug)]
pub enum Json {
    Null,
    Bool(bool),
    Number(String),
    Str(String),
    Array(Vec<Json>),
    Object(Vec<(String, Json)>),
}

/// Member `i` is the first with key `k`.
pub open spec fn key_at(es: Seq<(String, Json)>, k: Seq<char>, i: int) -> bool {
    0 <= i < es.len() && es[i].0@ == k && forall|j: int| 0 <= j < i ==> es[j].0@ != k
}

/// The member with key `k`.
pub open spec fn field(es: Seq<(String, Json)>, k: Seq<char>) -> Option<Json> {
    if exists|i: int| key_at(es, k, i) {
        Some(es[choose|i: int| key_at(es, k, i)].1)
    } else {
        None
    }
}

/// An object's members as a map.
pub open spec fn entries_map(es: Seq<(String, Json)>) -> Map<Seq<char>, Json> {
    Map::new(|k: Seq<char>| field(es, k) is Some, |k: Seq<char>| field(es, k)->0)
}

/// The members of a value: none unless it is an object.
pub open spec fn members(j: Json) -> Map<Seq<char>, Json> {
    match j {
        Json::Object(es) => entries_map(es@),
        _ => Map::empty(),
    }
}

/// `get` on a value: the member with key `k` of an object, nothing for anything else.
pub open spec fn get(j: Json, k: Seq<char>) -> Option<Json> {
    match j {
        Json::Object(es) => field(es@, k),
        _ => None,
    }
}

proof fn lemma_key_unique(es: Seq<(String, Json)>, k: Seq<char>, i: int, j: int)
    requires
        key_at(es, k, i),
        key_at(es, k, j),
    ensures
        i == j,
{
    if i < j {
        assert(es[i].0@ != k);
    } else if j < i {
        assert(es[j].0@ != k);
    }
}

proof fn lemma_key_first(es: Seq<(String, Json)>, k: Seq<char>, j: int)
    requires
        0 <= j < es.len(),
        es[j].0@ == k,
    ensures
        exists|i: int| key_at(es, k, i),
    decreases j,
{
    if exists|p: int| 0 <= p < j && es[p].0@ == k {
        let p = choose|p: int| 0 <= p < j && es[p].0@ == k;
        lemma_key_first(es, k, p);
    } else {
        assert(key_at(es, k, j));
    }
}

/// Where the first member with key `k` is.
fn find_key(es: &Vec<(String, Json)>, k: &str) -> (res: Option<usize>)
    ensures
        match res {
            Some(i) => key_at(es@, k@, i as int) && field(es@, k@) == Some(es@[i as int].1),
            None => field(es@, k@) is None && forall|j: int| 0 <= j < es@.len() ==> es@[j].0@ != k@,
        },
{
    let mut i: usize = 0;
    while i < es.len()
        invariant
            i <= es@.len(),
            forall|j: int| 0 <= j < i ==> es@[j].0@ != k@,
        decreases es@.len() - i,
    {
        if str_equal(es[i].0.as_str(), k) {
            proof {
                assert(key_at(es@, k@, i as int));
                let c = choose|c: int| key_at(es@, k@, c);
                lemma_key_unique(es@, k@, i as int, c);
            }
            return Some(i);
        }
        i = i + 1;
    }
    proof {
        if exists|c: int| key_at(es@, k@, c) {
            let c = choose|c: int| key_at(es@, k@, c);
            assert(es@[c].0@ != k@);
        }
    }
    None
}

proof fn lemma_map_of_removed(es: Seq<(String, Json)>, kept: Seq<(String, Json)>, k: Seq<char>)
    requires
        forall|j: int| 0 <= j < kept.len() ==> kept[j].0@ != k,
        forall|q: Seq<char>| q != k ==> field(kept, q) == field(es, q),
    ensures
        entries_map(kept) =~= entries_map(es).remove(k),
{
    assert(field(kept, k) is None) by {
        if exists|c: int| key_at(kept, k, c) {
            let c = choose|c: int| key_at(kept, k, c);
            assert(kept[c].0@ != k);
        }
    }
}

/// Takes out every member with key `k`, giving the one that counted.
pub fn take_field(es: &mut Vec<(String, Json)>, k: &str) -> (res: Option<Json>)
    ensures
        res == field(old(es)@, k@),
        entries_map(final(es)@) == entries_map(old(es)@).remove(k@),
{
    let ghost orig = es@;
    let mut rest: Vec<(String, Json)> = Vec::new();
    std::mem::swap(es, &mut rest);
    let mut found: Option<Json> = None;
    let ghost mut taken: int = 0;
    let n = rest.len();
    let mut i: usize = 0;
    while i < n
        invariant
            rest@ == orig.subrange(i as int, n as int),
            n == orig.len(),
            i <= n,
            forall|j: int| 0 <= j < es@.len() ==> es@[j].0@ != k@,
            forall|q: Seq<char>| q != k@ ==> field(es@, q) == field(orig.subrange(0, i as int), q),
            found == field(orig.subrange(0, i as int), k@),
        decreases n - i,
    {
        let e = rest.remove(0);
        proof {
            assert(e == orig[i as int]);
        }
        let ghost pre = es@;
        let ghost sub = orig.subrange(0, i as int);
        let ghost sub1 = orig.subrange(0, i + 1);
        proof {
            assert forall|j: int| 0 <= j < i implies sub1[j] == sub[j] by {}
            assert(sub1[i as int] == e);
            assert(sub1.len() == i + 1);
        }
        if str_equal(e.0.as_str(), k) {
            proof {
                assert forall|q: Seq<char>| q != k@ implies field(pre, q) == field(sub1, q) by {
                    lemma_field_extend_other(sub, e, q);
                    assert(sub1 =~= sub.push(e));
                }
                lemma_field_extend_same(sub, e, k@);
                assert(sub1 =~= sub.push(e));
            }
            if found.is_none() {
                found = Some(e.1);
            }
        } else {
            es.push(e);
            proof {
                assert(sub1 =~= sub.push(e));
                assert forall|q: Seq<char>| q != k@ implies field(es@, q) == field(sub1, q) by {
                    lemma_field_push_both(pre, sub, e, q);
                }
                lemma_field_extend_other(sub, e, k@);
            }
        }
        i = i + 1;
        proof {
            assert(rest@ =~= orig.subrange(i as int, n as int));
        }
    }
    proof {
        assert(orig.subrange(0, n as int) =~= orig);
        lemma_map_of_removed(orig, es@, k@);
    }
    found
}

proof fn lemma_field_extend_other(s: Seq<(String, Json)>, e: (String, Json), q: Seq<char>)
    requires
        e.0@ != q,
    ensures
        field(s.push(e), q) == field(s, q),
{
    let t = s.push(e);
    if exists|c: int| key_at(s, q, c) {
        let c = choose|c: int| key_at(s, q, c);
        assert(key_at(t, q, c));
        let d = choose|d: int| key_at(t, q, d);
        lemma_key_unique(t, q, c, d);
    }
    if exists|d: int| key_at(t, q, d) {
        let d = choose|d: int| key_at(t, q, d);
        assert(d < s.len());
        assert forall|j: int| 0 <= j < d implies s[j].0@ != q by {
            assert(t[j] == s[j]);
        }
        assert(t[d] == s[d]);
        assert(key_at(s, q, d));
    }
}

proof fn lemma_field_extend_same(s: Seq<(String, Json)>, e: (String, Json), k: Seq<char>)
    requires
        e.0@ == k,
    ensures
        field(s.push(e), k) == (if field(s, k) is Some {
            field(s, k)
        } else {
            Some(e.1)
        }),
{
    let t = s.push(e);
    if exists|c: int| key_at(s, k, c) {
        let c = choose|c: int| key_at(s, k, c);
        assert(key_at(t, k, c));
        let d = choose|d: int| key_at(t, k, d);
        lemma_key_unique(t, k, c, d);
    } else {
        assert forall|j: int| 0 <= j < s.len() implies s[j].0@ != k by {
            if s[j].0@ == k {
                lemma_key_first(s, k, j);
            }
        }
        assert(key_at(t, k, s.len() as int));
        let d = choose|d: int| key_at(t, k, d);
        lemma_key_unique(t, k, s.len() as int, d);
    }
}

proof fn lemma_field_push_both(
    a: Seq<(String, Json)>,
    b: Seq<(String, Json)>,
    e: (String, Json),
    q: Seq<char>,
)
    requires
        field(a, q) == field(b, q),
    ensures
        field(a.push(e), q) == field(b.push(e), q),
{
    if e.0@ == q {
        lemma_field_extend_same(a, e, q);
        lemma_field_extend_same(b, e, q);
    } else {
        lemma_field_extend_other(a, e, q);
        lemma_field_extend_other(b, e, q);
    }
}

/// Sets the member with key `k`.
pub fn set_field(es: &mut Vec<(String, Json)>, k: &str, v: Json)
    ensures
        entries_map(final(es)@) == entries_map(old(es)@).insert(k@, v),
{
    let ghost orig = es@;
    let _ = take_field(es, k);
    let ghost mid = es@;
    let key = k.to_owned();
    es.push((key, v));
    proof {
        assert(es@ == mid.push((key, v)));
        assert(!entries_map(mid).dom().contains(k@));
        assert(field(mid, k@) is None);
        lemma_field_extend_same(mid, (key, v), k@);
        assert forall|q: Seq<char>| q != k@ implies field(es@, q) == field(mid, q) by {
            lemma_field_extend_other(mid, (key, v), q);
        }
        assert forall|q: Seq<char>| #[trigger] entries_map(es@).dom().contains(q) == entries_map(
            orig,
        ).insert(k@, v).dom().contains(q) by {
            if q != k@ {
                assert(entries_map(mid).dom().contains(q) == entries_map(orig).dom().contains(q));
            }
        }
        assert forall|q: Seq<char>| #[trigger] entries_map(es@).dom().contains(q) implies entries_map(
            es@,
        )[q] == entries_map(orig).insert(k@, v)[q] by {
            if q != k@ {
                assert(entries_map(mid)[q] == entries_map(orig)[q]);
            }
        }
        assert(entries_map(es@) =~= entries_map(orig).insert(k@, v));
    }
}

// ---------------------------------------------------------------------------
// glTF materials
// ---------------------------------------------------------------------------
/// The extension that describes a material by specular and glossiness.
pub open spec fn sg_key() -> Seq<char> {
    "KHR_materials_pbrSpecularGlossiness"@
}

/// A material's specular-glossiness extension, where it has one.
pub open spec fn sg_extension(m: Json) -> Option<Json> {
    match get(m, "extensions"@) {
        Some(e) => get(e, sg_key()),
        None => None,
    }
}

/// The extension gives a diffuse colour or a diffuse texture.
pub open spec fn has_diffuse(x: Json) -> bool {
    get(x, "diffuseFactor"@) is Some || get(x, "diffuseTexture"@) is Some
}

/// A material can be converted: where its extension gives a diffuse colour or texture,
/// its PBR block is absent, null or an object (anything else cannot take a member).
pub open spec fn material_convertible(m: Json) -> bool {
    match sg_extension(m) {
        Some(x) => has_diffuse(x) ==> match get(m, "pbrMetallicRoughness"@) {
            Some(p) => p is Object || p is Null,
            None => true,
        },
        None => true,
    }
}

/// The members a PBR block starts from: its own where it is an object, none otherwise.
pub open spec fn pbr_base(p: Option<Json>) -> Map<Seq<char>, Json> {
    match p {
        Some(Json::Object(es)) => entries_map(es@),
        _ => Map::empty(),
    }
}

/// The PBR block after conversion: the diffuse colour becomes the base colour and the
/// diffuse texture the base colour texture; a material without a block gets an empty one.
pub open spec fn pbr_converted(old: Option<Json>, x: Json, new: Json) -> bool {
    if !has_diffuse(x) {
        match old {
            Some(p) => new == p,
            None => new is Object && members(new) == Map::<Seq<char>, Json>::empty(),
        }
    } else {
        let m1 = match get(x, "diffuseFactor"@) {
            Some(f) => pbr_base(old).insert("baseColorFactor"@, f),
            None => pbr_base(old),
        };
        let m2 = match get(x, "diffuseTexture"@) {
            Some(t) => m1.insert("baseColorTexture"@, t),
            None => m1,
        };
        new is Object && members(new) == m2
    }
}

/// A material after conversion: one with the extension has its PBR block converted and the
/// extension taken out of its extensions; the others stay as they are.
pub open spec fn material_converted(old: Json, new: Json) -> bool {
    match sg_extension(old) {
        None => new == old,
        Some(x) => {
            let pbr = members(new)["pbrMetallicRoughness"@];
            let exts = members(new)["extensions"@];
            &&& new is Object
            &&& members(new).dom().contains("pbrMetallicRoughness"@)
            &&& members(new).dom().contains("extensions"@)
            &&& members(new) == members(old).insert("pbrMetallicRoughness"@, pbr).insert(
                "extensions"@,
                exts,
            )
            &&& pbr_converted(get(old, "pbrMetallicRoughness"@), x, pbr)
            &&& exts is Object
            &&& members(exts) == members(members(old)["extensions"@]).remove(sg_key())
        },
    }
}

proof fn lemma_field_map(es: Seq<(String, Json)>, k: Seq<char>)
    ensures
        field(es, k) == (if entries_map(es).dom().contains(k) {
            Some(entries_map(es)[k])
        } else {
            None
        }),
{
}

/// Whether a material has the extension (read without changing it).
fn has_sg(es: &Vec<(String, Json)>) -> (res: bool)
    ensures
        res == (field(es@, "extensions"@) matches Some(e) && get(e, sg_key()) is Some),
{
    match find_key(es, "extensions") {
        Some(i) => match &es[i].1 {
            Json::Object(xs) => find_key(xs, "KHR_materials_pbrSpecularGlossiness").is_some(),
            _ => false,
        },
        None => false,
    }
}

/// Converts one material.
pub fn convert_material(m: Json) -> (res: Json)
    requires
        material_convertible(m),
    ensures
        material_converted(m, res),
{
    let ghost m0 = m;
    match m {
        Json::Object(mut es) => {
            if !has_sg(&es) {
                return Json::Object(es);
            }
            let ghost es0 = es@;
            let exts = take_field(&mut es, "extensions");
            let mut xs = match exts {
                Some(Json::Object(xs)) => xs,
                _ => Vec::new(),
            };
            let ghost xs0 = xs@;
            let ext = take_field(&mut xs, "KHR_materials_pbrSpecularGlossiness");
            let x = match ext {
                Some(x) => x,
                None => Json::Null,
            };
            let ghost gx = x;
            let ghost es1 = es@;
            let pbr_old = take_field(&mut es, "pbrMetallicRoughness");
            let ghost gp = pbr_old;
            proof {
                reveal_strlit("pbrMetallicRoughness");
                reveal_strlit("extensions");
                assert("pbrMetallicRoughness"@ != "extensions"@) by {
                    assert("pbrMetallicRoughness"@[0] != "extensions"@[0]);
                }
                lemma_field_map(es0, "pbrMetallicRoughness"@);
                lemma_field_map(es1, "pbrMetallicRoughness"@);
            }
            let (f, t) = match x {
                Json::Object(mut ys) => {
                    let ghost ys0 = ys@;
                    let f = take_field(&mut ys, "diffuseFactor");
                    let ghost ys1 = ys@;
                    let t = take_field(&mut ys, "diffuseTexture");
                    proof {
                        reveal_strlit("diffuseFactor");
                        reveal_strlit("diffuseTexture");
                        lemma_field_map(ys0, "diffuseTexture"@);
                        lemma_field_map(ys1, "diffuseTexture"@);
                        assert("diffuseFactor"@ != "diffuseTexture"@) by {
                            assert("diffuseFactor"@[7] != "diffuseTexture"@[7]);
                        }
                    }
                    (f, t)
                },
                _ => (None, None),
            };
            assert(f == get(gx, "diffuseFactor"@) && t == get(gx, "diffuseTexture"@));
            let pbr_new = if f.is_none() && t.is_none() {
                match pbr_old {
                    Some(p) => p,
                    None => {
                        let e: Vec<(String, Json)> = Vec::new();
                        assert(entries_map(e@) =~= Map::<Seq<char>, Json>::empty());
                        Json::Object(e)
                    },
                }
            } else {
                let mut ps = match pbr_old {
                    Some(Json::Object(ps)) => ps,
                    _ => Vec::new(),
                };
                let ghost ps0 = ps@;
                assert(entries_map(ps0) =~= pbr_base(gp));
                match f {
                    Some(fv) => set_field(&mut ps, "baseColorFactor", fv),
                    None => {},
                }
                match t {
                    Some(tv) => set_field(&mut ps, "baseColorTexture", tv),
                    None => {},
                }
                Json::Object(ps)
            };
            let ghost gpn = pbr_new;
            set_field(&mut es, "pbrMetallicRoughness", pbr_new);
            let new_exts = Json::Object(xs);
            let ghost gxn = new_exts;
            set_field(&mut es, "extensions", new_exts);
            let res = Json::Object(es);
            proof {
                assert(sg_extension(m0) == Some(gx));
                assert(members(res) =~= entries_map(es0).insert("pbrMetallicRoughness"@, gpn).insert(
                    "extensions"@,
                    gxn,
                ));
                assert(members(res)["pbrMetallicRoughness"@] == gpn);
                assert(members(res)["extensions"@] == gxn);
                assert(members(gxn) =~= members(members(m0)["extensions"@]).remove(sg_key()));
            }
            res
        },
        other => other,
    }
}

/// Whether the extension gives a diffuse colour or texture (read without changing it).
fn diffuse_given(x: &Json) -> (res: bool)
    ensures
        res == has_diffuse(*x),
{
    match x {
        Json::Object(ys) => find_key(ys, "diffuseFactor").is_some() || find_key(
            ys,
            "diffuseTexture",
        ).is_some(),
        _ => false,
    }
}

/// Whether a material can be converted (see `material_convertible`).
pub fn material_can_convert(m: &Json) -> (res: bool)
    ensures
        res == material_convertible(*m),
{
    match m {
        Json::Object(es) => {
            let ext: Option<&Json> = match find_key(es, "extensions") {
                Some(i) => match &es[i].1 {
                    Json::Object(xs) => match find_key(xs, "KHR_materials_pbrSpecularGlossiness") {
                        Some(j) => Some(&xs[j].1),
                        None => None,
                    },
                    _ => None,
                },
                None => None,
            };
            match ext {
                Some(x) => {
                    if !diffuse_given(x) {
                        return true;
                    }
                    match find_key(es, "pbrMetallicRoughness") {
                        Some(k) => match &es[k].1 {
                            Json::Object(_) => true,
                            Json::Null => true,
                            _ => false,
                        },
                        None => true,
                    }
                },
                None => true,
            }
        },
        _ => true,
    }
}

/// A glTF document can be converted: so can each of its materials.
pub open spec fn gltf_convertible(v: Json) -> bool {
    match get(v, "materials"@) {
        Some(Json::Array(ms)) => forall|i: int|
            0 <= i < ms@.len() ==> material_convertible(#[trigger] ms@[i]),
        _ => true,
    }
}

/// A glTF document after conversion: each material converted, and `extensionsRequired`
/// dropped, so that the reader accepts a model that asks for the extension.
pub open spec fn gltf_converted(old: Json, new: Json) -> bool {
    match old {
        Json::Object(_) => {
            &&& new is Object
            &&& match get(old, "materials"@) {
                Some(Json::Array(ms)) => {
                    &&& members(new).dom().contains("materials"@)
                    &&& members(new) == members(old).insert(
                        "materials"@,
                        members(new)["materials"@],
                    ).remove("extensionsRequired"@)
                    &&& members(new)["materials"@] matches Json::Array(ns) && ns@.len()
                        == ms@.len() && forall|i: int|
                        0 <= i < ms@.len() ==> material_converted(
                            #[trigger] ms@[i],
                            ns@[i],
                        )
                },
                _ => members(new) == members(old).remove("extensionsRequired"@),
            }
        },
        _ => new == old,
    }
}

/// Whether a glTF document can be converted (see `gltf_convertible`).
pub fn gltf_can_convert(v: &Json) -> (res: bool)
    ensures
        res == gltf_convertible(*v),
{
    match v {
        Json::Object(es) => match find_key(es, "materials") {
            Some(i) => match &es[i].1 {
                Json::Array(ms) => {
                    let ghost whole = *v;
                    assert(get(whole, "materials"@) == Some(Json::Array(*ms)));
                    let mut j: usize = 0;
                    while j < ms.len()
                        invariant
                            whole == *v,
                            get(whole, "materials"@) == Some(Json::Array(*ms)),
                            j <= ms@.len(),
                            forall|q: int| 0 <= q < j ==> material_convertible(#[trigger] ms@[q]),
                        decreases ms@.len() - j,
                    {
                        if !material_can_convert(&ms[j]) {
                            proof {
                                let q = j as int;
                                assert(!material_convertible(ms@[q]));
                                match get(whole, "materials"@) {
                                    Some(Json::Array(ms2)) => {
                                        assert(ms2@[q] == ms@[q]);
                                    },
                                    _ => {},
                                }
                            }
                            return false;
                        }
                        j = j + 1;
                    }
                    true
                },
                _ => true,
            },
            None => true,
        },
        _ => true,
    }
}

/// Converts a glTF document's specular-glossiness materials to the metallic-roughness
/// model the reader knows.
pub fn convert_gltf_json(v: Json) -> (res: Json)
    requires
        gltf_convertible(v),
    ensures
        gltf_converted(v, res),
{
    let ghost v0 = v;
    match v {
        Json::Object(mut es) => {
            let ghost es0 = es@;
            proof {
                reveal_strlit("materials");
                reveal_strlit("extensionsRequired");
                assert("materials"@ != "extensionsRequired"@) by {
                    assert("materials"@[0] != "extensionsRequired"@[0]);
                }
            }
            let mats = take_field(&mut es, "materials");
            let ghost gm = mats;
            match mats {
                Some(Json::Array(mut ms)) => {
                    let ghost ms0 = ms@;
                    let mut ns: Vec<Json> = Vec::new();
                    let n = ms.len();
                    let mut i: usize = 0;
                    while i < n
                        invariant
                            n == ms0.len(),
                            i <= n,
                            ms@ == ms0.subrange(i as int, n as int),
                            ns@.len() == i,
                            forall|q: int| 0 <= q < n ==> material_convertible(#[trigger] ms0[q]),
                            forall|q: int|
                                0 <= q < i ==> material_converted(#[trigger] ms0[q], ns@[q]),
                        decreases n - i,
                    {
                        let m = ms.remove(0);
                        assert(m == ms0[i as int]);
                        let c = convert_material(m);
                        ns.push(c);
                        i = i + 1;
                        assert(ms@ =~= ms0.subrange(i as int, n as int));
                    }
                    let arr = Json::Array(ns);
                    let ghost ga = arr;
                    set_field(&mut es, "materials", arr);
                    let _ = take_field(&mut es, "extensionsRequired");
                    let res = Json::Object(es);
                    proof {
                        assert(members(res) =~= entries_map(es0).remove("materials"@).insert(
                            "materials"@,
                            ga,
                        ).remove("extensionsRequired"@));
                        assert(members(res)["materials"@] == ga);
                        assert(members(res) =~= members(v0).insert("materials"@, ga).remove(
                            "extensionsRequired"@,
                        ));
                    }
                    res
                },
                Some(other) => {
                    let ghost go = other;
                    set_field(&mut es, "materials", other);
                    let _ = take_field(&mut es, "extensionsRequired");
                    let res = Json::Object(es);
                    proof {
                        lemma_field_map(es0, "materials"@);
                        assert(members(res) =~= members(v0).remove("extensionsRequired"@));
                    }
                    res
                },
                None => {
                    let _ = take_field(&mut es, "extensionsRequired");
                    let res = Json::Object(es);
                    proof {
                        lemma_field_map(es0, "materials"@);
                        assert(members(res) =~= members(v0).remove("extensionsRequired"@));
                    }
                    res
                },
            }
        },
        other => other,
    }
}

// ---------------------------------------------------------------------------
// Reading members
// ---------------------------------------------------------------------------
/// `get` without taking the member out.
pub fn get_member<'a>(j: &'a Json, k: &str) -> (res: Option<&'a Json>)
    ensures
        match res {
            Some(r) => get(*j, k@) == Some(*r),
            None => get(*j, k@) is None,
        },
{
    match j {
        Json::Object(es) => match find_key(es, k) {
            Some(i) => Some(&es[i].1),
            None => None,
        },
        _ => None,
    }
}

/// `as_i64` on a value: a number whose text is a decimal integer that fits in an `i64`
/// (a number read from JSON text keeps `.` or an exponent exactly when it is not an
/// integer), nothing for anything else.
pub open spec fn json_i64(j: Json) -> Option<i64> {
    match j {
        Json::Number(t) => i64_parse(t@),
        _ => None,
    }
}

pub fn as_i64(j: &Json) -> (res: Option<i64>)
    ensures
        res == json_i64(*j),
{
    match j {
        Json::Number(t) => parse_i64(t.as_str()),
        _ => None,
    }
}

/// The integers at `body.position.x`, `.y` and `.z` of a game message, where all three
/// are there and are integers that fit in an `i64`.
pub open spec fn spec_body_position(v: Json) -> Option<[i64; 3]> {
    match get(v, "body"@) {
        Some(b) => match get(b, "position"@) {
            Some(p) => match (get(p, "x"@), get(p, "y"@), get(p, "z"@)) {
                (Some(x), Some(y), Some(z)) => match (json_i64(x), json_i64(y), json_i64(z)) {
                    (Some(a), Some(bb), Some(c)) => Some([a, bb, c]),
                    _ => None,
                },
                _ => None,
            },
            None => None,
        },
        None => None,
    }
}

/// The position a game message reports.
pub fn body_position(v: &Json) -> (res: Option<[i64; 3]>)
    ensures
        res == spec_body_position(*v),
{
    let b = match get_member(v, "body") {
        Some(b) => b,
        None => {
            return None;
        },
    };
    let p = match get_member(b, "position") {
        Some(p) => p,
        None => {
            return None;
        },
    };
    let x = match get_member(p, "x") {
        Some(x) => x,
        None => {
            return None;
        },
    };
    let y = match get_member(p, "y") {
        Some(y) => y,
        None => {
            return None;
        },
    };
    let z = match get_member(p, "z") {
        Some(z) => z,
        None => {
            return None;
        },
    };
    match (as_i64(x), as_i64(y), as_i64(z)) {
        (Some(a), Some(bb), Some(c)) => Some([a, bb, c]),
        _ => None,
    }
}


// ---------------------------------------------------------------------------
// JSON text, read and written by serde_json
// ---------------------------------------------------------------------------
#[verifier::external_type_specification]
#[verifier::external_body]
pub struct ExJsonValue(Value);

/// A `serde_json::Value` as the library's value, variant for variant (a number by its
/// `Display` text). Used by the two wrappers below to carry values across.
#[verifier::external_body]
fn json_of_value(v: Value) -> Json {
    match v {
        Value::Null => Json::Null,
        Value::Bool(b) => Json::Bool(b),
        Value::Number(n) => Json::Number(n.to_string()),
        Value::String(s) => Json::Str(s),
        Value::Array(a) => Json::Array(a.into_iter().map(json_of_value).collect()),
        Value::Object(m) => Json::Object(m.into_iter().map(|(k, x)| (k, json_of_value(x))).collect()),
    }
}

/// The library's value as a `serde_json::Value`, variant for variant: a number through
/// `Number::from_str` (null where serde_json refuses the text), an object through
/// `Map::entry(..).or_insert_with(..)`, so the first member with a key is the one kept.
#[verifier::external_body]
fn value_of_json(j: &Json) -> Value {
    match j {
        Json::Null => Value::Null,
        Json::Bool(b) => Value::Bool(*b),
        Json::Number(t) => t.parse().map_or(Value::Null, Value::Number),
        Json::Str(s) => Value::String(s.clone()),
        Json::Array(a) => Value::Array(a.iter().map(value_of_json).collect()),
        Json::Object(es) => Value::Object(es.iter().fold(serde_json::Map::new(), |mut m, (k, x)| {
            m.entry(k.clone()).or_insert_with(|| value_of_json(x));
            m
        })),
    }
}

/// What `serde_json::from_str` reads from a text as a `serde_json::Value`: the value, or the
/// text of the error it reports.
pub uninterp spec fn serde_json_value(text: Seq<char>) -> Result<Json, Seq<char>>;

/// `serde_json::from_str::<serde_json::Value>`, the value carried across as a `Json` and an
/// error by its `Display` text: the contract names the outcome and says it depends on the
/// text alone.
#[verifier::external_body]
pub(crate) fn parse_json_text(text: &str) -> (res: Result<Json, String>)
    ensures
        match res {
            Ok(v) => serde_json_value(text@) == Ok::<Json, Seq<char>>(v),
            Err(e) => serde_json_value(text@) == Err::<Json, Seq<char>>(e@),
        },
{
    match serde_json::from_str::<Value>(text) {
        Ok(v) => Ok(json_of_value(v)),
        Err(e) => Err(e.to_string()),
    }
}

/// The compact JSON text, as UTF-8 bytes, that `serde_json::to_vec` writes for a value.
pub uninterp spec fn serde_json_bytes(v: Json) -> Seq<u8>;

/// `serde_json::to_vec` on the value carried across as a `serde_json::Value`: the contract
/// names the bytes and says they depend on the value alone. Writing a `Value` into a `Vec`
/// does not fail (its keys are strings, its numbers finite, and a `Vec` takes every write),
/// so the fallback to no bytes is never taken.
#[verifier::external_body]
pub(crate) fn json_to_bytes(v: &Json) -> (res: Vec<u8>)
    ensures
        res@ == serde_json_bytes(*v),
{
    serde_json::to_vec(&value_of_json(v)).unwrap_or_default()
}


/// The compact JSON text that `serde_json::Value`'s `Display` writes for a value.
pub uninterp spec fn serde_json_text(v: Json) -> Seq<char>;

/// `Display` (`to_string`) of the value carried across as a `serde_json::Value`: the
/// contract names the text and says it depends on the value alone.
#[verifier::external_body]
pub(crate) fn json_text(v: &Json) -> (res: String)
    ensures
        res@ == serde_json_text(*v),
{
    value_of_json(v).to_string()
}

/// The text that `serde_json::to_string_pretty` writes for a value (two-space indents).
pub uninterp spec fn serde_json_pretty_text(v: Json) -> Seq<char>;

/// `serde_json::to_string_pretty` on the value carried across as a `serde_json::Value`: the
/// contract names the text and says it depends on the value alone. Writing a `Value` does
/// not fail, so the fallback to no text is never taken.
#[verifier::external_body]
pub(crate) fn json_pretty_text(v: &Json) -> (res: String)
    ensures
        res@ == serde_json_pretty_text(*v),
{
    serde_json::to_string_pretty(&value_of_json(v)).unwrap_or_default()
}

/// A string value with text `t`.
pub open spec fn is_str(j: Json, t: Seq<char>) -> bool {
    j matches Json::Str(s) && s@ == t
}

/// A number value written `t`.
pub open spec fn is_num(j: Json, t: Seq<char>) -> bool {
    j matches Json::Number(s) && s@ == t
}

/// A member with key `k`.
pub open spec fn has_key(e: (String, Json), k: Seq<char>) -> bool {
    e.0@ == k
}

/// The string value `t`.
pub fn str_value(t: &str) -> (res: Json)
    ensures
        is_str(res, t@),
{
    Json::Str(String::from_str(t))
}

/// The number written `t`.
pub fn num_value(t: &str) -> (res: Json)
    ensures
        is_num(res, t@),
{
    Json::Number(String::from_str(t))
}

/// An object member: key `k`, value `v`.
pub fn member(k: &str, v: Json) -> (res: (String, Json))
    ensures
        has_key(res, k@),
        res.1 == v,
{
    (String::from_str(k), v)
}

} // verus!

use colorify::glb::{
    checked_preprocess_glb, checked_preprocess_gltf_text, glb_chunks, is_glb, preprocess_glb,
    preprocess_gltf_text, rebuild_glb,
};

fn le(v: u32) -> [u8; 4] {
    v.to_le_bytes()
}

/// A GLB file with a 5-byte JSON chunk (padded to 8) and a 3-byte binary chunk (padded to 4).
fn sample_glb() -> Vec<u8> {
    let mut b = Vec::new();
    b.extend_from_slice(b"glTF");
    b.extend_from_slice(&le(2));
    b.extend_from_slice(&le(0)); // total, not read
    b.extend_from_slice(&le(5));
    b.extend_from_slice(&le(0x4E4F_534A));
    b.extend_from_slice(b"{\"a\":");
    b.extend_from_slice(b"   ");
    b.extend_from_slice(&le(3));
    b.extend_from_slice(&le(0x004E_4942));
    b.extend_from_slice(&[1, 2, 3, 0]);
    b
}

#[test]
fn glb_magic_is_recognised() {
    assert!(is_glb(b"glTF\x02\x00\x00\x00"));
    assert!(!is_glb(b"glT"));
    assert!(!is_glb(b"{\"asset\":{}}"));
}

#[test]
fn glb_chunks_finds_json_and_bin() {
    let b = sample_glb();
    let c = glb_chunks(&b).unwrap();
    assert_eq!(c.json, (20, 5));
    assert_eq!(c.bin, Some((36, 3)));
}

#[test]
fn glb_chunks_refuses_short_file() {
    assert_eq!(glb_chunks(b"glTF\x02\x00").unwrap_err(), "GLB 文件过短");
}

#[test]
fn glb_chunks_refuses_missing_json() {
    let mut b = Vec::new();
    b.extend_from_slice(b"glTF");
    b.extend_from_slice(&le(2));
    b.extend_from_slice(&le(0));
    b.extend_from_slice(&le(4));
    b.extend_from_slice(&le(0x004E_4942));
    b.extend_from_slice(&[9, 9, 9, 9]);
    assert_eq!(glb_chunks(&b).unwrap_err(), "GLB 缺少 JSON chunk");
}

#[test]
fn rebuild_glb_pads_and_keeps_bin() {
    let b = sample_glb();
    let c = glb_chunks(&b).unwrap();
    let out = rebuild_glb(&b, b"{}", c.bin);
    let mut want = Vec::new();
    want.extend_from_slice(b"glTF");
    want.extend_from_slice(&le(2));
    want.extend_from_slice(&le(12 + 8 + 4 + 8 + 4));
    want.extend_from_slice(&le(4));
    want.extend_from_slice(&le(0x4E4F_534A));
    want.extend_from_slice(b"{}  ");
    want.extend_from_slice(&le(4));
    want.extend_from_slice(&le(0x004E_4942));
    want.extend_from_slice(&[1, 2, 3, 0]);
    assert_eq!(out, want);
    let again = glb_chunks(&out).unwrap();
    assert_eq!(again.json, (20, 4));
    assert_eq!(again.bin, Some((32, 4)));
}

#[test]
fn rebuild_glb_without_bin() {
    let b = sample_glb();
    let out = rebuild_glb(&b, b"{\"x\":1}", None);
    assert_eq!(out.len(), 12 + 8 + 8);
    assert_eq!(&out[8..12], &le(28));
    assert_eq!(&out[20..28], b"{\"x\":1} ");
}

fn glb_with_json(text: &[u8], bin: Option<&[u8]>) -> Vec<u8> {
    let mut json = text.to_vec();
    while json.len() % 4 != 0 {
        json.push(0);
    }
    let mut b = Vec::new();
    b.extend_from_slice(b"glTF");
    b.extend_from_slice(&le(2));
    b.extend_from_slice(&le(0));
    b.extend_from_slice(&le(json.len() as u32));
    b.extend_from_slice(&le(0x4E4F_534A));
    b.extend_from_slice(&json);
    if let Some(d) = bin {
        b.extend_from_slice(&le(d.len() as u32));
        b.extend_from_slice(&le(0x004E_4942));
        b.extend_from_slice(d);
    }
    b
}

const SPEC_GLOSS: &str = "{\"materials\":[{\"extensions\":{\"KHR_materials_pbrSpecularGlossiness\":{\"diffuseFactor\":[1,0,0,1]}}}],\"extensionsRequired\":[\"KHR_materials_pbrSpecularGlossiness\"]}";
const CONVERTED: &str = "{\"materials\":[{\"extensions\":{},\"pbrMetallicRoughness\":{\"baseColorFactor\":[1,0,0,1]}}]}";

#[test]
fn gltf_text_materials_are_converted() {
    let out = preprocess_gltf_text(SPEC_GLOSS).unwrap();
    assert_eq!(String::from_utf8(out).unwrap(), CONVERTED);
    let out = preprocess_gltf_text("  {\"b\": 2.50, \"a\" : [1, 2e3]}").unwrap();
    assert_eq!(String::from_utf8(out).unwrap(), "{\"a\":[1,2000.0],\"b\":2.5}");
}

#[test]
fn gltf_text_parse_error_is_reported() {
    let e = preprocess_gltf_text("{\"a\":").unwrap_err();
    assert!(e.starts_with("glTF JSON 解析失败: "));
    assert!(e.len() > "glTF JSON 解析失败: ".len());
}

#[test]
fn gltf_text_with_unconvertible_material_stops() {
    let text = "{\"materials\":[{\"pbrMetallicRoughness\":3,\"extensions\":{\"KHR_materials_pbrSpecularGlossiness\":{\"diffuseFactor\":[1,1,1,1]}}}]}";
    assert!(checked_preprocess_gltf_text(text).is_none());
    assert_eq!(
        checked_preprocess_gltf_text(SPEC_GLOSS).unwrap().unwrap(),
        CONVERTED.as_bytes().to_vec()
    );
}

#[test]
fn glb_json_is_converted_and_bin_kept() {
    let mut json = SPEC_GLOSS.as_bytes().to_vec();
    json.extend_from_slice(b" \n");
    let b = glb_with_json(&json, Some(&[7, 8, 9]));
    let out = preprocess_glb(&b).unwrap();
    let mut want = Vec::new();
    want.extend_from_slice(b"glTF");
    want.extend_from_slice(&le(2));
    let jp = (CONVERTED.len() + 3) / 4 * 4;
    want.extend_from_slice(&le((12 + 8 + jp + 8 + 4) as u32));
    want.extend_from_slice(&le(jp as u32));
    want.extend_from_slice(&le(0x4E4F_534A));
    want.extend_from_slice(CONVERTED.as_bytes());
    want.extend(std::iter::repeat(b' ').take(jp - CONVERTED.len()));
    want.extend_from_slice(&le(4));
    want.extend_from_slice(&le(0x004E_4942));
    want.extend_from_slice(&[7, 8, 9, 0]);
    assert_eq!(out, want);
}

#[test]
fn glb_errors_come_through() {
    assert_eq!(preprocess_glb(b"glTF").unwrap_err(), "GLB 文件过短");
    let e = preprocess_glb(&glb_with_json(b"{oops}", None)).unwrap_err();
    assert!(e.starts_with("GLB JSON 解析失败: "));
}

#[test]
fn glb_chunk_past_the_end_stops() {
    let mut b = glb_with_json(b"{}", None);
    b[12] = 200;
    assert!(checked_preprocess_glb(&b).is_none());
    let b = glb_with_json(b"{}", None);
    assert_eq!(checked_preprocess_glb(&b).unwrap().unwrap().len(), 12 + 8 + 4);
}

use colorify::pack::{
    identicon_layout, labels_given, pack_label, ticking_script_text, time_based_code, time_code,
    IdenticonCell,
};

#[test]
fn time_code_mixes_high_and_low_words() {
    assert_eq!(time_code(5), 5);
    assert_eq!(time_code(1u128 << 32), 1 << 13);
    assert_eq!(time_code((1u128 << 51) | 3), 3 ^ 1);
    let n: u128 = 0x1234_5678_9abc_def0;
    assert_eq!(time_code(n), (n as u32) ^ ((n >> 32) as u32).rotate_left(13));
}

#[test]
fn time_based_code_runs() {
    let _ = time_based_code();
}

#[test]
fn identicon_of_zero() {
    let l = identicon_layout(0);
    assert_eq!(l.fore, [0, 0, 0]);
    assert_eq!(l.cells[4], IdenticonCell { patch: 0, turn: 0, invert: false });
    // sides turn (0 + 1 + i) % 4 clockwise from the top; corners likewise from the top left
    assert_eq!(l.cells[1].turn, 1);
    assert_eq!(l.cells[5].turn, 2);
    assert_eq!(l.cells[7].turn, 3);
    assert_eq!(l.cells[3].turn, 0);
    assert_eq!(l.cells[0].turn, 1);
    assert_eq!(l.cells[2].turn, 2);
    assert_eq!(l.cells[8].turn, 3);
    assert_eq!(l.cells[6].turn, 0);
}

#[test]
fn identicon_bits() {
    // middle shape 3 -> 15, middle inverted, corner 9 inverted with turn 2,
    // side 5 inverted with turn 3 (bit 16 is shared with blue), colour bits all set
    let code: u32 = 3 | (1 << 2) | (9 << 3) | (1 << 7) | (2 << 8) | (5 << 10) | (1 << 14) | (1 << 15)
        | (0x1F << 16) | (0x1F << 21) | (0x1F << 27);
    let l = identicon_layout(code);
    assert_eq!(l.cells.len(), 9);
    assert_eq!(l.cells[4], IdenticonCell { patch: 15, turn: 0, invert: true });
    assert_eq!(l.cells[0], IdenticonCell { patch: 9, turn: 3, invert: true });
    assert_eq!(l.cells[1], IdenticonCell { patch: 5, turn: 0, invert: true });
    assert_eq!(l.fore, [248, 248, 248]);
}

#[test]
fn labels_fall_back_to_defaults() {
    assert_eq!(pack_label(Some("Mine"), "Colorified"), "Mine");
    assert_eq!(pack_label(Some(""), "Colorified"), "Colorified");
    assert_eq!(pack_label(None, "Colorified"), "Colorified");
    assert!(labels_given(None, Some("x"), None));
    assert!(!labels_given(Some(""), None, Some("")));
}

#[test]
fn ticking_script_for_two_functions() {
    let s = ticking_script_text(2, [3, 1, 4]);
    assert!(s.contains("tickingarea add ~ ~ ~ ~2 ~0 ~3 colorify"));
    assert!(s.contains(
        "entity.runCommand('function output_0');\nServer.system.run(() => {\nentity.runCommand('function output_1');\nServer.system.run(() => {\n  entity.runCommand(`tickingarea remove colorify`);\n});\n});\n      }, 10);"
    ));
    assert!(s.starts_with("import * as Server from \"@minecraft/server\";\n\nServer.system.runInterval(() => {\n"));
}

#[test]
fn ticking_script_without_functions() {
    let s = ticking_script_text(0, [1, 1, 1]);
    assert!(s.contains("Server.system.runTimeout(() => {\n\n      }, 10);"));
}

fn sample_ids() -> colorify::pack::PackIds {
    colorify::pack::PackIds {
        behaviour: "11111111-1111-4111-8111-111111111111".to_string(),
        resources: "22222222-2222-4222-8222-222222222222".to_string(),
        data_module: "33333333-3333-4333-8333-333333333333".to_string(),
        script_module: "44444444-4444-4444-8444-444444444444".to_string(),
        resources_module: "55555555-5555-4555-8555-555555555555".to_string(),
    }
}

#[test]
fn pack_info_text_is_pretty_json_with_sorted_keys() {
    let t = colorify::pack::pack_info_texts_with("Art \"1\"", "me", "desc", true, true, sample_ids());
    let v: serde_json::Value = serde_json::from_str(&t.behaviour).unwrap();
    assert_eq!(serde_json::to_string_pretty(&v).unwrap(), t.behaviour);
    assert_eq!(v["header"]["name"], "Art \"1\"");
    assert_eq!(v["header"]["description"], "[§bColorify§f] desc");
    assert_eq!(v["header"]["uuid"], "11111111-1111-4111-8111-111111111111");
    assert_eq!(v["dependencies"][1]["uuid"], "22222222-2222-4222-8222-222222222222");
    assert_eq!(v["modules"][1]["entry"], "scripts/index.js");
    assert_eq!(v["metadata"]["authors"][0], "me");
    let r = t.resources.unwrap();
    let rv: serde_json::Value = serde_json::from_str(&r).unwrap();
    assert_eq!(serde_json::to_string_pretty(&rv).unwrap(), r);
    assert_eq!(rv["dependencies"][0]["uuid"], "11111111-1111-4111-8111-111111111111");
    assert_eq!(rv["modules"][0]["type"], "resources");
    assert_eq!(rv["modules"][0]["uuid"], "55555555-5555-4555-8555-555555555555");
}

#[test]
fn pack_info_without_resources_or_script() {
    let t = colorify::pack::pack_info_texts_with("n", "a", "d", false, false, sample_ids());
    assert!(t.resources.is_none());
    let v: serde_json::Value = serde_json::from_str(&t.behaviour).unwrap();
    assert_eq!(v["dependencies"].as_array().unwrap().len(), 1);
    assert_eq!(v["modules"].as_array().unwrap().len(), 1);
    assert_eq!(v["format_version"], 2);
    assert!(t.behaviour.starts_with("{\n  \"dependencies\": [\n    {\n      \"module_name\""));
}

#[test]
fn fresh_pack_ids_are_v4_uuids() {
    let t = colorify::pack::pack_info_texts("n", "a", "d", true, false);
    for id in [&t.ids.behaviour, &t.ids.resources, &t.ids.data_module, &t.ids.resources_module] {
        let b = id.as_bytes();
        assert_eq!(b.len(), 36);
        assert_eq!(b[14], b'4');
        assert!(matches!(b[19], b'8' | b'9' | b'a' | b'b'));
        assert_eq!(b[8], b'-');
    }
    assert_ne!(t.ids.behaviour, t.ids.resources);
}

#[test]
fn png_encoding_of_rgba_pixels() {
    let png = colorify::pixel::encode_rgba_png(1, 1, &[1, 2, 3, 255]).unwrap();
    assert_eq!(&png[0..8], &[0x89, b'P', b'N', b'G', 0x0d, 0x0a, 0x1a, 0x0a]);
    assert_eq!(colorify::pixel::encode_rgba_png(2, 1, &[1, 2, 3, 255]), None);
}

#[test]
fn decoding_gives_back_encoded_pixels() {
    let px = [1, 2, 3, 255, 200, 100, 50, 128];
    let png = colorify::pixel::encode_rgba_png(2, 1, &px).unwrap();
    let d = colorify::pixel::decode_image(&png).unwrap();
    assert_eq!((d.width, d.height), (2, 1));
    assert_eq!(d.rgba, px.to_vec());
    assert!(colorify::pixel::decode_image(b"not an image").is_none());
}

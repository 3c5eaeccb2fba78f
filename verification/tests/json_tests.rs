use colorify::json::{
    convert_gltf_json, gltf_can_convert, material_can_convert, set_field, take_field, Json,
};

fn obj(members: Vec<(&str, Json)>) -> Json {
    Json::Object(members.into_iter().map(|(k, v)| (k.to_string(), v)).collect())
}

fn num(t: &str) -> Json {
    Json::Number(t.to_string())
}

fn member<'a>(j: &'a Json, k: &str) -> Option<&'a Json> {
    match j {
        Json::Object(es) => es.iter().find(|(key, _)| key == k).map(|(_, v)| v),
        _ => None,
    }
}

fn keys(j: &Json) -> Vec<String> {
    match j {
        Json::Object(es) => {
            let mut ks: Vec<String> = es.iter().map(|(k, _)| k.clone()).collect();
            ks.sort();
            ks
        }
        _ => Vec::new(),
    }
}

fn sg_material() -> Json {
    obj(vec![
        ("name", Json::Str("skin".to_string())),
        (
            "extensions",
            obj(vec![
                (
                    "KHR_materials_pbrSpecularGlossiness",
                    obj(vec![
                        ("diffuseFactor", Json::Array(vec![num("1"), num("0.5"), num("0"), num("1")])),
                        ("diffuseTexture", obj(vec![("index", num("3"))])),
                        ("glossinessFactor", num("0.2")),
                    ]),
                ),
                ("KHR_other", Json::Bool(true)),
            ]),
        ),
    ])
}

#[test]
fn specular_glossiness_becomes_base_colour() {
    let doc = obj(vec![
        ("materials", Json::Array(vec![sg_material(), obj(vec![("name", Json::Str("plain".to_string()))])])),
        ("extensionsRequired", Json::Array(vec![Json::Str("KHR_materials_pbrSpecularGlossiness".to_string())])),
        ("asset", obj(vec![("version", Json::Str("2.0".to_string()))])),
    ]);
    assert!(gltf_can_convert(&doc));
    let out = convert_gltf_json(doc);
    assert_eq!(keys(&out), vec!["asset".to_string(), "materials".to_string()]);
    let mats = match member(&out, "materials") {
        Some(Json::Array(ms)) => ms,
        _ => panic!("materials missing"),
    };
    assert_eq!(mats.len(), 2);
    let m = &mats[0];
    assert_eq!(keys(m), vec!["extensions".to_string(), "name".to_string(), "pbrMetallicRoughness".to_string()]);
    let pbr = member(m, "pbrMetallicRoughness").unwrap();
    assert_eq!(keys(pbr), vec!["baseColorFactor".to_string(), "baseColorTexture".to_string()]);
    match member(pbr, "baseColorFactor") {
        Some(Json::Array(a)) => assert_eq!(a.len(), 4),
        _ => panic!("factor missing"),
    }
    match member(member(pbr, "baseColorTexture").unwrap(), "index") {
        Some(Json::Number(t)) => assert_eq!(t, "3"),
        _ => panic!("texture missing"),
    }
    assert_eq!(keys(member(m, "extensions").unwrap()), vec!["KHR_other".to_string()]);
    assert_eq!(keys(&mats[1]), vec!["name".to_string()]);
}

#[test]
fn existing_pbr_block_keeps_its_other_members() {
    let mut m = sg_material();
    if let Json::Object(es) = &mut m {
        es.push(("pbrMetallicRoughness".to_string(), obj(vec![("metallicFactor", num("0"))])));
    }
    let doc = obj(vec![("materials", Json::Array(vec![m]))]);
    let out = convert_gltf_json(doc);
    let mats = match member(&out, "materials") {
        Some(Json::Array(ms)) => ms,
        _ => panic!("materials missing"),
    };
    let pbr = member(&mats[0], "pbrMetallicRoughness").unwrap();
    assert_eq!(
        keys(pbr),
        vec!["baseColorFactor".to_string(), "baseColorTexture".to_string(), "metallicFactor".to_string()]
    );
}

#[test]
fn extension_without_diffuse_gets_empty_pbr_block() {
    let m = obj(vec![(
        "extensions",
        obj(vec![("KHR_materials_pbrSpecularGlossiness", obj(vec![("glossinessFactor", num("1"))]))]),
    )]);
    let doc = obj(vec![("materials", Json::Array(vec![m]))]);
    let out = convert_gltf_json(doc);
    let mats = match member(&out, "materials") {
        Some(Json::Array(ms)) => ms,
        _ => panic!("materials missing"),
    };
    assert!(keys(member(&mats[0], "pbrMetallicRoughness").unwrap()).is_empty());
    assert!(keys(member(&mats[0], "extensions").unwrap()).is_empty());
}

#[test]
fn pbr_block_that_is_not_an_object_cannot_take_the_colour() {
    let mut m = sg_material();
    if let Json::Object(es) = &mut m {
        es.push(("pbrMetallicRoughness".to_string(), num("7")));
    }
    assert!(!material_can_convert(&m));
    let doc = obj(vec![("materials", Json::Array(vec![m]))]);
    assert!(!gltf_can_convert(&doc));
}

#[test]
fn document_that_is_not_an_object_is_left_alone() {
    let out = convert_gltf_json(Json::Bool(true));
    assert!(matches!(out, Json::Bool(true)));
}

#[test]
fn take_and_set_members() {
    let mut es = vec![
        ("a".to_string(), num("1")),
        ("b".to_string(), num("2")),
        ("a".to_string(), num("3")),
    ];
    match take_field(&mut es, "a") {
        Some(Json::Number(t)) => assert_eq!(t, "1"),
        _ => panic!("first member expected"),
    }
    assert_eq!(es.len(), 1);
    assert!(take_field(&mut es, "a").is_none());
    set_field(&mut es, "b", num("9"));
    set_field(&mut es, "c", Json::Null);
    assert_eq!(es.len(), 2);
    match take_field(&mut es, "b") {
        Some(Json::Number(t)) => assert_eq!(t, "9"),
        _ => panic!("b expected"),
    }
}

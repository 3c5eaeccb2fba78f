use colorify::obj::{
    line_kind, mtl_line_kind, parse_corner, parse_face, parse_index, split_slash, MtlLineKind,
    ObjLineKind,
};

#[test]
fn positive_indices_count_from_one() {
    assert_eq!(parse_index("1", 3), Ok(0));
    assert_eq!(parse_index("+3", 3), Ok(2));
}

#[test]
fn negative_indices_count_from_the_end() {
    assert_eq!(parse_index("-1", 3), Ok(2));
    assert_eq!(parse_index("-3", 3), Ok(0));
}

#[test]
fn bad_indices() {
    assert_eq!(parse_index("x", 3), Err("非法索引 x".to_string()));
    assert_eq!(parse_index("", 3), Err("非法索引 ".to_string()));
    assert_eq!(parse_index("4", 3), Err("索引 4 越界".to_string()));
    assert_eq!(parse_index("0", 3), Err("索引 0 越界".to_string()));
    assert_eq!(parse_index("-4", 3), Err("索引 -4 越界".to_string()));
    assert_eq!(parse_index("99999999999999999999", 3), Err("非法索引 99999999999999999999".to_string()));
}

#[test]
fn split_on_slashes() {
    assert_eq!(split_slash("1/2/3"), vec!["1", "2", "3"]);
    assert_eq!(split_slash("1//3"), vec!["1", "", "3"]);
    assert_eq!(split_slash("7"), vec!["7"]);
    assert_eq!(split_slash(""), vec![""]);
}

#[test]
fn corners_in_all_forms() {
    assert_eq!(parse_corner("2", 3, 0, 0), Ok((1, None, None)));
    assert_eq!(parse_corner("2/1", 3, 2, 0), Ok((1, Some(0), None)));
    assert_eq!(parse_corner("2//1", 3, 0, 2), Ok((1, None, Some(0))));
    assert_eq!(parse_corner("2/1/-1", 3, 2, 2), Ok((1, Some(0), Some(1))));
    assert_eq!(parse_corner("2/5", 3, 2, 0), Err("索引 5 越界".to_string()));
}

#[test]
fn quad_is_a_fan_of_two_triangles() {
    let tris = parse_face(&vec!["1/1", "2/2", "3/3", "4/4"], 4, 4, 0, 7).unwrap();
    assert_eq!(tris.len(), 2);
    assert_eq!(tris[0].position, [0, 1, 2]);
    assert_eq!(tris[1].position, [0, 2, 3]);
    assert_eq!(tris[1].texcoord, Some([0, 2, 3]));
    assert_eq!(tris[0].normal, None);
    assert_eq!(tris[0].colour, None);
    assert_eq!(tris[0].material, 7);
}

#[test]
fn texture_coordinates_only_where_every_corner_has_one() {
    let tris = parse_face(&vec!["1/1", "2", "3/3"], 3, 3, 0, 0).unwrap();
    assert_eq!(tris[0].texcoord, None);
}

#[test]
fn face_errors() {
    assert_eq!(parse_face(&vec!["1", "2"], 3, 0, 0, 0).err(), Some("面至少需要 3 个顶点".to_string()));
    assert_eq!(parse_face(&vec!["1", "9", "x"], 3, 0, 0, 0).err(), Some("索引 9 越界".to_string()));
}

#[test]
fn thinning_keeps_every_stride_th_triangle() {
    let mk = |k: usize| colorify::obj::Tri {
        position: [k, k, k],
        texcoord: None,
        colour: None,
        normal: None,
        material: 0,
    };
    let tris: Vec<_> = (0..7).map(mk).collect();
    let kept = colorify::obj::thin_tris(tris.clone(), 3);
    let firsts: Vec<usize> = kept.iter().map(|t| t.position[0]).collect();
    assert_eq!(firsts, vec![0, 2, 4, 6]);
    assert_eq!(colorify::obj::thin_tris(tris.clone(), 0).len(), 7);
    assert_eq!(colorify::obj::thin_tris(tris, 7).len(), 7);
}

#[test]
fn line_kinds_by_first_word() {
    assert_eq!(line_kind("v"), ObjLineKind::Vertex);
    assert_eq!(line_kind("vn"), ObjLineKind::Normal);
    assert_eq!(line_kind("vt"), ObjLineKind::TexCoord);
    assert_eq!(line_kind("f"), ObjLineKind::Face);
    assert_eq!(line_kind("usemtl"), ObjLineKind::UseMaterial);
    assert_eq!(line_kind("mtllib"), ObjLineKind::MaterialLibrary);
    assert_eq!(line_kind("o"), ObjLineKind::Other);
    assert_eq!(line_kind("V"), ObjLineKind::Other);
}

#[test]
fn material_names_select_or_add() {
    let mut names = colorify::obj::MaterialNames::new();
    assert_eq!(names.use_material("DEFAULT_UNASSIGNED"), (0, true));
    assert_eq!(names.use_material("wood"), (1, true));
    assert_eq!(names.use_material("stone"), (2, true));
    assert_eq!(names.use_material("wood"), (1, false));
    assert_eq!(names.use_material("wood"), (1, false));
    assert_eq!(names.len(), 3);
}

#[test]
fn mtl_line_kinds_by_first_word() {
    assert_eq!(mtl_line_kind("newmtl"), MtlLineKind::NewMaterial);
    assert_eq!(mtl_line_kind("Kd"), MtlLineKind::Diffuse);
    assert_eq!(mtl_line_kind("d"), MtlLineKind::Dissolve);
    assert_eq!(mtl_line_kind("map_Kd"), MtlLineKind::DiffuseMap);
    assert_eq!(mtl_line_kind("Ka"), MtlLineKind::Other);
}

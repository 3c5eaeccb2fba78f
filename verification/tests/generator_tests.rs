use colorify::ditherer::PaletteColorInput;
use colorify::generator::{export_blocks_3d, function_texts, generate, generate_coords_fit, GenParams};

fn palette() -> Vec<PaletteColorInput> {
    vec![
        PaletteColorInput { id: "stone".to_string(), average: [1, 2, 3] },
        PaletteColorInput { id: "dirt".to_string(), average: [100, 200, 50] },
    ]
}

fn params(plane: i32, socket: bool, use_struct: bool, staircase: bool) -> GenParams {
    GenParams {
        plane,
        color_distance: "RGB".to_string(),
        use_staircase: staircase,
        use_struct,
        staircase_gap: 1,
        staircase_compress: false,
        offset: [0, 0, 0],
        auto_slice_mcfunction: false,
        use_dithering: false,
        socket_output: socket,
        ldb_output: false,
    }
}

#[test]
fn empty_image_is_refused() {
    let r = generate(0, 3, None, &vec![], &palette(), &params(0, true, false, false));
    assert_eq!(r.err(), Some("图片尺寸为空".to_string()));
}

#[test]
fn flat_socket_commands_and_preview() {
    let out = generate(2, 1, None, &vec![0, u16::MAX], &palette(), &params(1, true, false, false))
        .unwrap();
    assert_eq!(out.commands, Some(vec!["setblock ~0 ~0 ~0 stone".to_string()]));
    assert_eq!(out.preview, vec![1, 2, 3, 255, 0, 0, 0, 0]);
    assert_eq!(out.size, [1, 1, 1]);
    assert!(out.functions.is_empty());
    assert!(out.structure.is_none());
}

#[test]
fn flat_plane_zero_lifts_rows_and_adds_offset() {
    let mut p = params(0, true, false, false);
    p.offset = [10, 20, 30];
    let out = generate(1, 2, None, &vec![0, 1], &palette(), &p).unwrap();
    assert_eq!(
        out.commands,
        Some(vec!["setblock ~10 ~20 ~30 stone".to_string(), "setblock ~10 ~21 ~30 dirt".to_string()])
    );
    assert_eq!(out.size, [1, 1, 2]);
}

#[test]
fn alpha_drops_cells_that_are_not_opaque() {
    // cell (x 0, z 0) is source pixel (1, 0); cell (x 1, z 0) is source pixel (0, 0)
    let alpha = vec![255u8, 0];
    let out = generate(2, 1, Some(&alpha), &vec![0, 1], &palette(), &params(1, true, false, false))
        .unwrap();
    assert_eq!(out.commands, Some(vec!["setblock ~1 ~0 ~0 dirt".to_string()]));
}

#[test]
fn flat_function_files() {
    let out = generate(2, 1, None, &vec![0, 1], &palette(), &params(1, false, false, false)).unwrap();
    assert_eq!(out.commands, None);
    assert_eq!(
        out.functions,
        vec!["setblock ~0 ~0 ~0 stone\nsetblock ~1 ~0 ~0 dirt\n".to_string()]
    );
    assert_eq!(out.function_files, 1);
}

#[test]
fn staircase_heights_and_shades() {
    // column 0: row 1 (walked first) is shade 0, row 0 is shade 1 and sits one step lower
    let out = generate(1, 2, None, &vec![4, 3], &palette(), &params(0, true, false, true)).unwrap();
    assert_eq!(
        out.commands,
        Some(vec!["setblock ~0 ~0 ~1 dirt".to_string(), "setblock ~0 ~-1 ~0 dirt".to_string()])
    );
    assert_eq!(out.preview, vec![86, 172, 43, 255, 100, 200, 50, 255]);
    assert_eq!(out.size, [1, 2, 2]);
}

#[test]
fn structure_output_is_a_structure_file() {
    let out = generate(1, 1, None, &vec![0], &palette(), &params(1, false, true, false)).unwrap();
    let bytes = out.structure.unwrap();
    assert_eq!(&bytes[0..3], &[10, 0, 0]);
    assert!(bytes.windows(5).any(|w| w == b"stone"));
}

#[test]
fn function_texts_slices_every_ten_thousand_lines() {
    let lines: Vec<String> = (0..10001).map(|i| format!("l{i}\n")).collect();
    let files = function_texts(&lines, true);
    assert_eq!(files.len(), 2);
    assert_eq!(files[1], "l10000\n");
    let one = function_texts(&lines, false);
    assert_eq!(one.len(), 1);
    assert_eq!(one[0].len(), files[0].len() + files[1].len());
}

#[test]
fn function_texts_of_no_lines_is_one_empty_file() {
    assert_eq!(function_texts(&vec![], true), vec![String::new()]);
}

#[test]
fn export_socket_commands_add_offset() {
    let blocks = vec![(0, 0, 0, "a".to_string()), (1, 2, 3, "b".to_string())];
    let e = export_blocks_3d(&blocks, false, false, [1, 1, 1], true).unwrap();
    assert_eq!(
        e.commands,
        Some(vec!["setblock ~1 ~1 ~1 a".to_string(), "setblock ~2 ~3 ~4 b".to_string()])
    );
    assert!(e.functions.is_empty());
    assert!(e.structure.is_none());
}

#[test]
fn export_function_file() {
    let blocks = vec![(0, 0, 0, "a".to_string()), (1, 2, 3, "b".to_string())];
    let e = export_blocks_3d(&blocks, false, false, [1, 1, 1], false).unwrap();
    assert_eq!(e.functions, vec!["setblock ~1 ~1 ~1 a\nsetblock ~2 ~3 ~4 b\n".to_string()]);
    assert!(e.commands.is_none());
}

#[test]
fn export_structure_is_written() {
    let blocks = vec![(5, 5, 5, "a".to_string())];
    let e = export_blocks_3d(&blocks, true, false, [0, 0, 0], false).unwrap();
    assert!(e.structure.is_some());
    assert!(e.functions.is_empty());
}

#[test]
fn large_offsets_are_accepted_until_they_overflow() {
    let mut p = params(1, true, false, false);
    p.offset = [2_000_000_000, 0, 0];
    let m = vec![0u16, 1];
    assert!(generate_coords_fit(2, 1, None, &m, &palette(), &p));
    let out = generate(2, 1, None, &m, &palette(), &p).unwrap();
    assert_eq!(out.commands.unwrap()[1], "setblock ~2000000001 ~0 ~0 dirt");
    p.offset = [i32::MAX, 0, 0];
    assert!(!generate_coords_fit(2, 1, None, &m, &palette(), &p));
    p.use_struct = true;
    p.socket_output = false;
    assert!(generate_coords_fit(2, 1, None, &m, &palette(), &p));
}

#[test]
fn export_with_large_offset() {
    let blocks = vec![(5, 6, 7, "stone".to_string())];
    let e = export_blocks_3d(&blocks, false, false, [2_000_000_000, -2_000_000_000, 0], true).unwrap();
    assert_eq!(e.commands.unwrap(), vec!["setblock ~2000000005 ~-1999999994 ~7 stone".to_string()]);
}

#[test]
fn unknown_formula_or_empty_palette_is_refused() {
    let mut p = params(1, true, false, false);
    p.color_distance = "HSV".to_string();
    let r = generate(2, 1, None, &vec![0, 1], &palette(), &p);
    assert_eq!(r.err(), Some("色差公式无效".to_string()));
    let r = generate(2, 1, None, &vec![u16::MAX, u16::MAX], &[], &params(1, true, false, false));
    assert_eq!(r.err(), Some("色差公式无效".to_string()));
    let r = generate(0, 1, None, &vec![], &[], &params(1, true, false, false));
    assert_eq!(r.err(), Some("图片尺寸为空".to_string()));
}

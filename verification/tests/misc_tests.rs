use colorify::common::{plane_index, switch_xyz};
use colorify::ditherer::{
    dist_mode, dither_algorithm, is_lab_formula, palette_colors, resize_kind, resize_step,
    DistMode, DitherAlgorithm, LabMode, PaletteColorInput, ResizeKind, ResizeStep,
};
use colorify::staircase::{compress_staircase_column, staircase_column, staircase_step, stair_palette, StairCell};
use colorify::text::i64_text;
use colorify::window::{is_on_some_monitor, restore_plan, MonitorRect, WindowState};

#[test]
fn planes_and_switching() {
    assert_eq!(plane_index("xOz"), 1);
    assert_eq!(plane_index("yOz"), 2);
    assert_eq!(plane_index("xOy"), 0);
    assert_eq!(plane_index("whatever"), 0);
    assert_eq!(switch_xyz(0, [1, 2, 3]), [1, 3, 2]);
    assert_eq!(switch_xyz(1, [1, 2, 3]), [1, 2, 3]);
    assert_eq!(switch_xyz(2, [1, 2, 3]), [2, 1, 3]);
    assert_eq!(switch_xyz(0, switch_xyz(0, [1.5, 2.5, 3.5])), [1.5, 2.5, 3.5]);
}

#[test]
fn distance_names() {
    assert_eq!(dist_mode("RGB+"), Some(DistMode::RgbPlus));
    assert_eq!(dist_mode("CMC l:c"), Some(DistMode::Lab(LabMode::Cmc)));
    assert_eq!(dist_mode("rgb"), None);
    assert!(is_lab_formula("CIEDE2000"));
    assert!(!is_lab_formula("Redmean"));
}

#[test]
fn dither_and_resize_names() {
    assert_eq!(dither_algorithm("FloydSteinberg"), Some(DitherAlgorithm::FloydSteinberg));
    assert_eq!(dither_algorithm("Floyd"), None);
    assert_eq!(resize_kind("Lanczos3"), Some(ResizeKind::Lanczos3));
    assert_eq!(resize_kind("lanczos3"), None);
    assert_eq!(resize_step(10, 10, Some(0), None, (1, 1)), None);
    assert_eq!(resize_step(0, 10, None, None, (1, 1)), None);
    assert_eq!(resize_step(10, 10, None, None, (10, 10)), Some(ResizeStep::Keep));
    assert_eq!(resize_step(10, 10, Some(5), None, (5, 5)), Some(ResizeStep::Resize(5, 5)));
}

#[test]
fn palette_colours_in_order() {
    let p = vec![
        PaletteColorInput { id: "a".to_string(), average: [1, 2, 3] },
        PaletteColorInput { id: "b".to_string(), average: [4, 5, 6] },
    ];
    assert_eq!(palette_colors(&p), vec![[1, 2, 3], [4, 5, 6]]);
}

#[test]
fn staircase_steps() {
    assert_eq!(staircase_step(5, true), 2);
    assert_eq!(staircase_step(1, true), 1);
    assert_eq!(staircase_step(5, false), 5);
}

#[test]
fn stair_palette_shades() {
    assert_eq!(stair_palette(&[[255, 100, 0]]), vec![[255, 100, 0], [220, 86, 0], [180, 70, 0]]);
}

#[test]
fn staircase_column_walks_from_the_south() {
    // shades from south (last) to north (first): 1, 2, 0
    let col = staircase_column(&[0, 2, 1], &[true, true, true], 2);
    assert_eq!(col.iter().map(|c| c.y).collect::<Vec<_>>(), vec![2, 0, 0]);
    assert_eq!(col[0].shade, 0);
    let gap = staircase_column(&[1, 1], &[true, false], 1);
    assert_eq!(gap[1].y, i32::MIN);
    assert_eq!(gap[0].y, 0);
}

#[test]
fn compression_sinks_each_run_to_zero() {
    let mut col = vec![
        StairCell { y: 10, idx: 0, shade: 1 },
        StairCell { y: 10, idx: 0, shade: 1 },
        StairCell { y: i32::MIN, idx: 0, shade: 0 },
        StairCell { y: 7, idx: 0, shade: 0 },
        StairCell { y: 5, idx: 0, shade: 0 },
    ];
    compress_staircase_column(&mut col, 2);
    assert_eq!(col.iter().map(|c| c.y).collect::<Vec<_>>(), vec![0, 0, i32::MIN, 0, 2]);
}

#[test]
fn decimal_text() {
    assert_eq!(i64_text(0), "0");
    assert_eq!(i64_text(-120), "-120");
    assert_eq!(i64_text(i64::MIN), "-9223372036854775808");
}

#[test]
fn monitor_check() {
    let ms = vec![MonitorRect { x: 0, y: 0, width: 1920, height: 1080 }, MonitorRect { x: 1920, y: 0, width: 1280, height: 1024 }];
    assert!(is_on_some_monitor(Some(&ms), 100, 100));
    assert!(is_on_some_monitor(Some(&ms), 1920, 0));
    assert!(!is_on_some_monitor(Some(&ms), 3200, 0));
    assert!(!is_on_some_monitor(Some(&ms), 0, 1080));
    assert!(is_on_some_monitor(None, -5000, -5000));
    let plan = restore_plan(None, true);
    assert!(plan.maximize && plan.position.is_none());
    let s = WindowState { x: 5, y: 6, width: 800, height: 600, maximized: false };
    let plan = restore_plan(Some(s), false);
    assert_eq!(plan.position, None);
    assert_eq!(plan.size, Some((800, 600)));
    assert!(!plan.maximize);
}

#[test]
fn size_rules() {
    let r = colorify::ditherer::size_rule;
    assert_eq!(r(10, 20, None, None, None), colorify::ditherer::SizeRule::Exact(10, 20));
    assert_eq!(r(10, 20, None, None, Some(200)), colorify::ditherer::SizeRule::Exact(10, 20));
    assert_eq!(r(10, 20, None, None, Some(199)), colorify::ditherer::SizeRule::ShrinkTo(199));
    assert_eq!(r(10, 20, Some(5), None, Some(1)), colorify::ditherer::SizeRule::FromWidth(5));
    assert_eq!(r(10, 20, None, Some(7), None), colorify::ditherer::SizeRule::FromHeight(7));
    assert_eq!(r(10, 20, Some(3), Some(4), Some(1)), colorify::ditherer::SizeRule::Exact(3, 4));
}

#[test]
fn model_formats_by_extension() {
    let f = colorify::model::model_format;
    assert_eq!(f("obj"), Ok(colorify::model::ModelFormat::Obj));
    assert_eq!(f("glb"), Ok(colorify::model::ModelFormat::Gltf));
    assert_eq!(f("gltf"), Ok(colorify::model::ModelFormat::Gltf));
    assert_eq!(f("stl"), Err("不支持的模型格式: stl（支持 obj / glb / gltf）".to_string()));
    assert_eq!(f(""), Err("不支持的模型格式: （支持 obj / glb / gltf）".to_string()));
}

#[test]
fn compression_reaches_the_i32_limit() {
    let mut col = vec![
        StairCell { y: 7, idx: 0, shade: 1 },
        StairCell { y: 9, idx: 1, shade: 0 },
    ];
    compress_staircase_column(&mut col, 1_000_000_000);
    assert_eq!(col.iter().map(|c| c.y).collect::<Vec<_>>(), vec![0, 1_000_000_000]);
    let mut col = vec![
        StairCell { y: 7, idx: 0, shade: 1 },
        StairCell { y: 9, idx: 1, shade: 2 },
    ];
    compress_staircase_column(&mut col, 1_000_000_000);
    assert_eq!(col.iter().map(|c| c.y).collect::<Vec<_>>(), vec![1_000_000_000, 0]);
}

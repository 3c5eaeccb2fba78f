use colorify::model::{
    axis_of, dither_mode_of, export_stage, fallable_of, model_outcome_message, offset_blocks,
    overlap_rule_of, voxeliser_kind_of, Axis, VoxelOverlapRule, VoxeliserKind,
};
use colorify::block::{DitherMode, FallableBehaviour};
use colorify::pixel::{command_delay, particle_command_delay, pixel_plan, PackContent, PixelParams};
use colorify::process::{
    commands_to_send, internal_error_message, needs_output_dir, outcome_message, send_failure,
    PixelProcessState, ProgressMessage,
};

fn pixel_params() -> PixelParams {
    PixelParams {
        resize_x: None,
        resize_y: None,
        resize_interpolation: "Nearest".to_string(),
        generation_plane: "xOz".to_string(),
        color_distance_formula: "RGB".to_string(),
        use_staircase: false,
        use_struct: true,
        use_dithering: true,
        use_socket: false,
        dithering_algorithm: "FloydSteinberg".to_string(),
        carpet_only: false,
        wool_only: false,
        no_glass: false,
        no_sands_and_powders: false,
        offset_x: Some(3),
        offset_y: None,
        offset_z: Some(-2),
        staircase_gap: 0,
        ws_command_delay: 0,
        auto_slice_mcfunction: true,
        preview_image: false,
        websocket_port: None,
        pk_name: Some("".to_string()),
        pk_auth: Some("Me".to_string()),
        pk_desc: None,
        use_ldb: false,
        world_path: None,
        origin_x: None,
        origin_y: Some(64),
        origin_z: None,
    }
}

#[test]
fn pixel_plan_with_a_pack() {
    let p = pixel_plan(&pixel_params());
    assert!(p.need_pack);
    assert_eq!(p.content, PackContent::Structures);
    assert_eq!(p.pack_name, "Colorified");
    assert_eq!(p.pack_author, "Me");
    assert_eq!(p.pack_desc, "Colorify 像素画");
    assert!(p.dither);
    assert_eq!(p.gen.plane, 1);
    assert_eq!(p.gen.staircase_gap, 1);
    assert!(p.gen.use_struct);
    assert_eq!(p.gen.offset, [3, 0, -2]);
    assert_eq!(p.origin, [0, 64, 0]);
}

#[test]
fn pixel_plan_for_the_game_link() {
    let mut params = pixel_params();
    params.use_socket = true;
    params.use_staircase = true;
    let p = pixel_plan(&params);
    assert!(!p.need_pack);
    assert_eq!(p.content, PackContent::Loose);
    assert!(!p.gen.use_struct);
    assert!(p.gen.socket_output);
    assert!(!p.dither);
}

#[test]
fn delays() {
    assert_eq!(command_delay(0), 1);
    assert_eq!(command_delay(-5), 1);
    assert_eq!(command_delay(20), 20);
    assert_eq!(particle_command_delay(None), 10);
    assert_eq!(particle_command_delay(Some(0)), 1);
}

#[test]
fn progress_messages() {
    let s = ProgressMessage::stage("读取图片");
    assert_eq!(s.stage, "读取图片");
    assert!(!s.finished);
    let f = ProgressMessage::fail("坏了", 12);
    assert_eq!(f.error, Some("坏了".to_string()));
    assert_eq!(f.elapsed_ms, Some(12));
}

#[test]
fn outcomes() {
    let done = outcome_message(&Ok(Some("/out".to_string())), 5).unwrap();
    assert_eq!(done.stage, "完成");
    assert_eq!(done.output_dir, Some("/out".to_string()));
    let sent = outcome_message(&Ok(None), 5).unwrap();
    assert_eq!(sent.stage, "已通过 WebSocket 发送");
    assert!(outcome_message(&Err("已取消".to_string()), 5).is_none());
    let failed = outcome_message(&Err("图片解码失败".to_string()), 5).unwrap();
    assert_eq!(failed.error, Some("图片解码失败".to_string()));
    let model_failed = model_outcome_message(&Err("图片解码失败".to_string()), 5).unwrap();
    assert_eq!(model_failed.stage, "图片解码失败");
    assert_eq!(model_failed.error, None);
    let internal = internal_error_message("boom", 1);
    assert_eq!(internal.stage, "内部错误: boom");
}

#[test]
fn pipeline_steps() {
    assert!(needs_output_dir(false, false));
    assert!(!needs_output_dir(true, false));
    assert!(!needs_output_dir(false, true));
    assert_eq!(commands_to_send(Some(vec![])).err(), Some("没有生成任何命令".to_string()));
    assert_eq!(commands_to_send(None), Ok(None));
    assert_eq!(commands_to_send(Some(vec!["a".to_string()])), Ok(Some(vec!["a".to_string()])));
    assert_eq!(send_failure("x"), "WebSocket 发送失败: x");
}

#[test]
fn cancel_flag() {
    let state = PixelProcessState::default();
    let flag = state.begin();
    assert!(!flag.load(std::sync::atomic::Ordering::SeqCst));
    state.cancel();
    assert!(flag.load(std::sync::atomic::Ordering::SeqCst));
    let again = state.begin();
    assert!(!again.load(std::sync::atomic::Ordering::SeqCst));
}

#[test]
fn model_choices() {
    assert_eq!(voxeliser_kind_of("bvh-ray"), VoxeliserKind::BvhRay);
    assert_eq!(voxeliser_kind_of("x"), VoxeliserKind::Triplane);
    assert_eq!(axis_of("x"), Axis::X);
    assert_eq!(axis_of("z"), Axis::Z);
    assert_eq!(axis_of("q"), Axis::Y);
    assert_eq!(overlap_rule_of("first"), VoxelOverlapRule::First);
    assert_eq!(overlap_rule_of("avg"), VoxelOverlapRule::Average);
    assert_eq!(dither_mode_of("random"), DitherMode::Random);
    assert_eq!(dither_mode_of("ordered"), DitherMode::Ordered);
    assert_eq!(dither_mode_of("none"), DitherMode::Off);
    assert_eq!(fallable_of("replace-fallable"), FallableBehaviour::ReplaceFallable);
    assert_eq!(fallable_of("do-nothing"), FallableBehaviour::DoNothing);
    assert_eq!(fallable_of(""), FallableBehaviour::ReplaceFalling);
    assert_eq!(export_stage(true, true), "生成命令");
    assert_eq!(export_stage(false, true), "输出结构文件");
    assert_eq!(export_stage(false, false), "输出函数");
}

#[test]
fn blocks_for_a_world_write_are_offset() {
    let blocks = vec![(1, 2, 3, "a"), (-1, 0, 0, "b")];
    assert_eq!(
        offset_blocks(&blocks, [10, 0, -1]),
        vec![(11, 2, 2, "a".to_string()), (9, 0, -1, "b".to_string())]
    );
}

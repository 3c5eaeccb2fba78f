use colorify::json::Json;
use colorify::ws::{
    broadcast_check, json_position, launch_check, next_action, parse_position, positioned_command, progress_title,
    task_control, task_start, task_status, ws_status, Datapack, SendAction, TaskState, WsTask,
};

#[test]
fn command_request_message() {
    assert_eq!(
        Datapack::command_request("say \"hi\"", None),
        "{\"body\":{\"commandLine\":\"say \\\"hi\\\"\"},\"header\":{\"messagePurpose\":\"commandRequest\",\"messageType\":\"commandRequest\",\"requestId\":\"00000000-0000-0000-0000-000000000000\",\"version\":1}}"
    );
}

#[test]
fn subscribe_message_with_uuid() {
    assert_eq!(
        Datapack::subscribe("PlayerMessage", Some("u-1")),
        "{\"body\":{\"eventName\":\"PlayerMessage\"},\"header\":{\"messagePurpose\":\"subscribe\",\"messageType\":\"commandRequest\",\"requestId\":\"u-1\",\"version\":1}}"
    );
}

#[test]
fn unsubscribe_message() {
    let m = Datapack::unsubscribe("PlayerMessage", None);
    assert!(m.contains("\"messagePurpose\":\"unsubscribe\""));
    assert!(m.starts_with("{\"body\":{\"eventName\":\"PlayerMessage\"}"));
}

#[test]
fn task_start_needs_server_and_commands() {
    assert_eq!(task_start(false, vec!["a".to_string()], 5).err(), Some("WebSocket 服务器未启动".to_string()));
    assert_eq!(task_start(true, vec![], 5).err(), Some("命令列表为空".to_string()));
    let (t, d) = task_start(true, vec!["a".to_string(), "b".to_string()], 0).unwrap();
    assert_eq!(d, 1);
    assert_eq!(t.total(), 2);
    assert_eq!(t.sent(), 0);
    assert!(t.state() == TaskState::Running);
}

#[test]
fn task_control_pauses_and_reports() {
    let mut none: Option<WsTask> = None;
    assert_eq!(task_control(&mut none, TaskState::Paused).err(), Some("没有进行中的任务".to_string()));
    let mut task = Some(WsTask::new(vec!["a".to_string(), "b".to_string(), "c".to_string()]));
    task.as_mut().unwrap().set_sent(2);
    let s = task_control(&mut task, TaskState::Paused).unwrap();
    assert!(s.state == TaskState::Paused);
    assert_eq!(s.sent, 2);
    assert_eq!(s.total, 3);
    assert!(task.as_ref().unwrap().state() == TaskState::Paused);
}

#[test]
fn task_status_defaults_to_idle() {
    let s = task_status(&None);
    assert!(s.state == TaskState::Idle);
    assert_eq!((s.sent, s.total), (0, 0));
}

#[test]
fn next_action_follows_state() {
    assert!(next_action(TaskState::Paused) == SendAction::Wait);
    assert!(next_action(TaskState::Idle) == SendAction::Quit);
    assert!(next_action(TaskState::Running) == SendAction::Send);
}

#[test]
fn positioned_commands() {
    assert_eq!(positioned_command("say a", Some([1, -2, 3])), "execute positioned 1 -2 3 run say a");
    assert_eq!(positioned_command("say a", None), "say a");
}

#[test]
fn progress_titles_every_25_and_at_the_end() {
    assert_eq!(
        progress_title(25, 40, true),
        Some("title @s actionbar §bColorify v7 - ComeixAlpha§f: §f25 / 40".to_string())
    );
    assert_eq!(progress_title(26, 40, true), None);
    assert!(progress_title(40, 40, true).is_some());
    assert_eq!(progress_title(25, 40, false), None);
}

fn position(msg: &str) -> Option<[i32; 3]> {
    parse_position(msg)
}

#[test]
fn parse_position_reads_body_position() {
    assert_eq!(
        position("{\"body\":{\"position\":{\"x\":1,\"y\":-64,\"z\":300}}}"),
        Some([1, -64, 300])
    );
    assert_eq!(position("{\"body\":{}}"), None);
    assert_eq!(position("not json"), None);
    assert_eq!(position("{\"body\":{\"position\":{\"x\":1.5,\"y\":0,\"z\":0}}}"), None);
    assert_eq!(position("{\"body\":{\"position\":{\"x\":\"1\",\"y\":0,\"z\":0}}}"), None);
    assert_eq!(
        position("{\"body\":{\"position\":{\"x\":4294967297,\"y\":0,\"z\":0}}}"),
        Some([1, 0, 0])
    );
}

#[test]
fn server_checks() {
    assert_eq!(launch_check(true).err(), Some("WebSocket 服务器已在运行".to_string()));
    assert!(launch_check(false).is_ok());
    assert_eq!(broadcast_check(false, 3).err(), Some("WebSocket 服务器未启动".to_string()));
    assert_eq!(broadcast_check(true, 3), Ok(3));
    let s = ws_status(false, 8080, 4);
    assert_eq!((s.running, s.port, s.connections), (false, 8080, 0));
}

#[test]
fn command_text_is_escaped_as_json() {
    let m = Datapack::command_request("a\"b\\c\nd\te\u{1}f\u{7f}é", None);
    assert!(m.starts_with("{\"body\":{\"commandLine\":\"a\\\"b\\\\c\\nd\\te\\u0001f\u{7f}é\"}"));
}

#[test]
fn paused_task_holds_the_sender_until_resumed() {
    let mut task = Some(WsTask::new(vec!["a".to_string(), "b".to_string()]));
    task.as_mut().unwrap().set_sent(1);
    task_control(&mut task, TaskState::Paused).unwrap();
    assert!(next_action(task.as_ref().unwrap().state()) == SendAction::Wait);
    let s = task_control(&mut task, TaskState::Running).unwrap();
    assert_eq!((s.sent, s.total), (1, 2));
    assert!(next_action(task.as_ref().unwrap().state()) == SendAction::Send);
}

#[test]
fn json_position_reads_a_value() {
    let v = Json::Object(vec![(
        "body".to_string(),
        Json::Object(vec![(
            "position".to_string(),
            Json::Object(vec![
                ("x".to_string(), Json::Number("7".to_string())),
                ("y".to_string(), Json::Number("-1".to_string())),
                ("z".to_string(), Json::Number("2".to_string())),
            ]),
        )]),
    )]);
    assert_eq!(json_position(&v), Some([7, -1, 2]));
    assert_eq!(json_position(&Json::Null), None);
}

//! WebSocket side of the game link: the messages sent to the game, and the command-sending
//! task's state machine.
use vstd::prelude::*;
use vstd::string::*;

use crate::json::{
    body_position, has_key, is_num, is_str, json_text, member, num_value, parse_json_text,
    serde_json_text, serde_json_value, spec_body_position, str_value, Json,
};
use crate::text::{int_text, nat_text, push_i64, push_u64};

verus! {

/// The request id used where none is given.
pub open spec fn default_uuid() -> Seq<char> {
    "00000000-0000-0000-0000-000000000000"@
}

/// A message to the game as a JSON value: `{"body": {<key>: <value>}, "header":
/// {"requestId", "messagePurpose", "version": 1, "messageType": "commandRequest"}}`.
pub open spec fn message_json(j: Json, body_key: Seq<char>, body_value: Seq<char>, purpose: Seq<char>, uuid: Option<Seq<char>>) -> bool {
    &&& j matches Json::Object(es)
    &&& es@.len() == 2
    &&& has_key(es@[0], "body"@)
    &&& es@[0].1 matches Json::Object(bs)
    &&& bs@.len() == 1
    &&& has_key(bs@[0], body_key)
    &&& is_str(bs@[0].1, body_value)
    &&& has_key(es@[1], "header"@)
    &&& es@[1].1 matches Json::Object(hs)
    &&& hs@.len() == 4
    &&& has_key(hs@[0], "requestId"@)
    &&& is_str(hs@[0].1, match uuid {
        Some(u) => u,
        None => default_uuid(),
    })
    &&& has_key(hs@[1], "messagePurpose"@)
    &&& is_str(hs@[1].1, purpose)
    &&& has_key(hs@[2], "version"@)
    &&& is_num(hs@[2].1, "1"@)
    &&& has_key(hs@[3], "messageType"@)
    &&& is_str(hs@[3].1, "commandRequest"@)
}

/// `text` is a message to the game: the text `serde_json` writes for such a value.
pub open spec fn message_text(body_key: Seq<char>, body_value: Seq<char>, purpose: Seq<char>, uuid: Option<Seq<char>>, text: Seq<char>) -> bool {
    exists|j: Json| message_json(j, body_key, body_value, purpose, uuid) && text == serde_json_text(j)
}

pub open spec fn opt_str_view(u: Option<&str>) -> Option<Seq<char>> {
    match u {
        Some(s) => Some(s@),
        None => None,
    }
}

fn message(body_key: &str, body_value: &str, purpose: &str, uuid: Option<&str>) -> (res: String)
    ensures
        message_text(body_key@, body_value@, purpose@, opt_str_view(uuid), res@),
{
    let id = match uuid {
        Some(u) => str_value(u),
        None => str_value("00000000-0000-0000-0000-000000000000"),
    };
    let body = Json::Object(vec![member(body_key, str_value(body_value))]);
    let header = Json::Object(vec![
        member("requestId", id),
        member("messagePurpose", str_value(purpose)),
        member("version", num_value("1")),
        member("messageType", str_value("commandRequest")),
    ]);
    let j = Json::Object(vec![member("body", body), member("header", header)]);
    let res = json_text(&j);
    assert(message_json(j, body_key@, body_value@, purpose@, opt_str_view(uuid)));
    res
}

/// The game-message builders.
pub struct Datapack;

impl Datapack {
    /// Subscribes to a game event.
    pub fn subscribe(event_name: &str, uuid: Option<&str>) -> (res: String)
        ensures
            message_text("eventName"@, event_name@, "subscribe"@, opt_str_view(uuid), res@),
    {
        message("eventName", event_name, "subscribe", uuid)
    }

    /// Unsubscribes from a game event.
    pub fn unsubscribe(event_name: &str, uuid: Option<&str>) -> (res: String)
        ensures
            message_text("eventName"@, event_name@, "unsubscribe"@, opt_str_view(uuid), res@),
    {
        message("eventName", event_name, "unsubscribe", uuid)
    }

    /// Asks the game to run a command.
    pub fn command_request(command: &str, uuid: Option<&str>) -> (res: String)
        ensures
            message_text("commandLine"@, command@, "commandRequest"@, opt_str_view(uuid), res@),
    {
        message("commandLine", command, "commandRequest", uuid)
    }
}

// ---------------------------------------------------------------------------
// The command-sending task
// ---------------------------------------------------------------------------
#[derive(Clone, Copy, PartialEq, Eq, Structural, Debug)]
pub enum TaskState {
    Idle,
    Running,
    Paused,
}

/// A snapshot of the task's progress.
#[derive(Clone, Copy, PartialEq, Eq, Structural, Debug)]
pub struct TaskStatus {
    pub state: TaskState,
    pub sent: usize,
    pub total: usize,
}

impl TaskStatus {
    /// No task: idle, nothing sent of nothing.
    pub fn default() -> (res: Self)
        ensures
            res == (TaskStatus { state: TaskState::Idle, sent: 0, total: 0 }),
    {
        TaskStatus { state: TaskState::Idle, sent: 0, total: 0 }
    }
}

/// A task that sends a list of commands to the game, one after another.
pub struct WsTask {
    commands: Vec<String>,
    sent: usize,
    state: TaskState,
}

impl WsTask {
    pub closed spec fn spec_commands(&self) -> Seq<Seq<char>> {
        self.commands@.map_values(|c: String| c@)
    }

    pub closed spec fn spec_sent(&self) -> usize {
        self.sent
    }

    pub closed spec fn spec_state(&self) -> TaskState {
        self.state
    }

    /// The task's state, count sent and count in all.
    pub open spec fn spec_snapshot(&self) -> TaskStatus {
        TaskStatus { state: self.spec_state(), sent: self.spec_sent(), total: self.spec_commands().len() as usize }
    }

    /// No more commands are counted as sent than there are.
    pub open spec fn wf(&self) -> bool {
        self.spec_sent() <= self.spec_commands().len()
    }

    /// A running task with nothing sent.
    pub fn new(commands: Vec<String>) -> (res: Self)
        ensures
            res.spec_commands() == commands@.map_values(|c: String| c@),
            res.spec_sent() == 0,
            res.spec_state() == TaskState::Running,
            res.wf(),
    {
        WsTask { commands, sent: 0, state: TaskState::Running }
    }

    /// How many commands have been sent.
    pub fn sent(&self) -> (res: usize)
        ensures
            res == self.spec_sent(),
    {
        self.sent
    }

    /// How many commands the task has.
    pub fn total(&self) -> (res: usize)
        ensures
            res == self.spec_commands().len(),
    {
        self.commands.len()
    }

    /// The task's state.
    pub fn state(&self) -> (res: TaskState)
        ensures
            res == self.spec_state(),
    {
        self.state
    }

    /// The task's progress as a status report.
    pub fn snapshot(&self) -> (res: TaskStatus)
        ensures
            res == self.spec_snapshot(),
    {
        TaskStatus { state: self.state(), sent: self.sent(), total: self.total() }
    }

    /// The `i`-th command.
    pub fn command(&self, i: usize) -> (res: &String)
        requires
            i < self.spec_commands().len(),
        ensures
            res@ == self.spec_commands()[i as int],
    {
        &self.commands[i]
    }

    /// Sets the state (pause, resume, stop, finish).
    pub fn set_state(&mut self, state: TaskState)
        ensures
            final(self).spec_state() == state,
            final(self).spec_sent() == old(self).spec_sent(),
            final(self).spec_commands() == old(self).spec_commands(),
    {
        self.state = state;
    }

    /// Records that the first `n` commands have been sent.
    pub fn set_sent(&mut self, n: usize)
        requires
            n <= old(self).spec_commands().len(),
        ensures
            final(self).spec_sent() == n,
            final(self).spec_state() == old(self).spec_state(),
            final(self).spec_commands() == old(self).spec_commands(),
            final(self).wf(),
    {
        self.sent = n;
    }
}

/// Why a task request was refused.
pub open spec fn no_server_error() -> Seq<char> {
    "WebSocket 服务器未启动"@
}

pub open spec fn empty_commands_error() -> Seq<char> {
    "命令列表为空"@
}

pub open spec fn no_task_error() -> Seq<char> {
    "没有进行中的任务"@
}

/// Starting a task: refused without a server or without commands; otherwise a new running
/// task with the delay raised to at least 1 ms.
pub fn task_start(server_running: bool, commands: Vec<String>, delay_ms: u64) -> (res: Result<
    (WsTask, u64),
    String,
>)
    ensures
        !server_running ==> (res matches Err(e) && e@ == no_server_error()),
        server_running && commands@.len() == 0 ==> (res matches Err(e) && e@
            == empty_commands_error()),
        server_running && commands@.len() > 0 ==> (res matches Ok((t, d)) && t.spec_commands()
            == commands@.map_values(|c: String| c@) && t.spec_sent() == 0 && t.spec_state()
            == TaskState::Running && t.wf() && d == (if delay_ms < 1 {
            1
        } else {
            delay_ms
        })),
{
    if !server_running {
        return Err(String::from_str("WebSocket 服务器未启动"));
    }
    if commands.len() == 0 {
        return Err(String::from_str("命令列表为空"));
    }
    let delay = if delay_ms < 1 {
        1
    } else {
        delay_ms
    };
    Ok((WsTask::new(commands), delay))
}

/// Pausing, resuming or stopping the current task: refused when there is none; otherwise
/// the task takes the new state and its snapshot is returned.
pub fn task_control(task: &mut Option<WsTask>, state: TaskState) -> (res: Result<TaskStatus, String>)
    ensures
        *old(task) is None ==> (res matches Err(e) && e@ == no_task_error()) && *final(task) is None,
        *old(task) matches Some(t) ==> (*final(task) matches Some(t2) && t2.spec_state() == state
            && t2.spec_sent() == t.spec_sent() && t2.spec_commands() == t.spec_commands() && res
            == Ok::<TaskStatus, String>(t2.spec_snapshot())),
{
    match task {
        None => Err(String::from_str("没有进行中的任务")),
        Some(t) => {
            t.set_state(state);
            Ok(t.snapshot())
        },
    }
}

/// The current task's snapshot, or the idle default when there is none.
pub fn task_status(task: &Option<WsTask>) -> (res: TaskStatus)
    ensures
        res == match task {
            Some(t) => t.spec_snapshot(),
            None => TaskStatus { state: TaskState::Idle, sent: 0, total: 0 },
        },
{
    match task {
        Some(t) => t.snapshot(),
        None => TaskStatus::default(),
    }
}

/// The server's state as shown to the front end.
pub struct WsStatus {
    pub running: bool,
    pub port: u16,
    pub connections: u64,
}

// ---------------------------------------------------------------------------
// What the sending loop does
// ---------------------------------------------------------------------------
/// What the sending loop does next, given the task's state.
#[derive(Clone, Copy, PartialEq, Eq, Structural, Debug)]
pub enum SendAction {
    /// Sleep a little and look again.
    Wait,
    /// The task was stopped: leave.
    Quit,
    /// Send the next command.
    Send,
}

/// Only a running task sends; a paused one waits and a stopped one ends the loop.
pub open spec fn action_for(state: TaskState) -> SendAction {
    match state {
        TaskState::Paused => SendAction::Wait,
        TaskState::Idle => SendAction::Quit,
        TaskState::Running => SendAction::Send,
    }
}

/// What the sending loop does next in a state.
pub fn next_action(state: TaskState) -> (res: SendAction)
    ensures
        res == action_for(state),
{
    match state {
        TaskState::Paused => SendAction::Wait,
        TaskState::Idle => SendAction::Quit,
        TaskState::Running => SendAction::Send,
    }
}

/// Pausing: with no task the request is refused with its message; otherwise the answer is
/// the task's progress, paused, with the count sent and the count in all unchanged, and from
/// then on the sending loop sends nothing but waits.
pub proof fn pause_holds_the_sender(
    before: Option<WsTask>,
    after: Option<WsTask>,
    res: Result<TaskStatus, String>,
)
    requires
        before is None ==> (res matches Err(e) && e@ == no_task_error()) && after is None,
        before matches Some(t) ==> (after matches Some(t2) && t2.spec_state() == TaskState::Paused
            && t2.spec_sent() == t.spec_sent() && t2.spec_commands() == t.spec_commands() && res
            == Ok::<TaskStatus, String>(t2.spec_snapshot())),
    ensures
        res is Err <==> before is None,
        res matches Err(e) ==> e@ == no_task_error(),
        before matches Some(t) ==> (res matches Ok(s) && s.state == TaskState::Paused && s.sent
            == t.spec_sent() && s.total == t.spec_commands().len() as usize),
        after matches Some(t2) ==> action_for(t2.spec_state()) == SendAction::Wait,
{
}

/// The command as sent: relative to the player's position where it is known.
pub open spec fn positioned_text(cmd: Seq<char>, base: Option<[i32; 3]>) -> Seq<char> {
    match base {
        Some(p) => "execute positioned "@ + int_text(p[0] as int) + " "@ + int_text(p[1] as int)
            + " "@ + int_text(p[2] as int) + " run "@ + cmd,
        None => cmd,
    }
}

/// A command run from the player's position, where it is known.
pub fn positioned_command(cmd: &str, base: Option<[i32; 3]>) -> (res: String)
    ensures
        res@ == positioned_text(cmd@, base),
{
    match base {
        Some(p) => {
            let mut s = String::new();
            s.append("execute positioned ");
            push_i64(&mut s, p[0] as i64);
            s.append(" ");
            push_i64(&mut s, p[1] as i64);
            s.append(" ");
            push_i64(&mut s, p[2] as i64);
            s.append(" run ");
            s.append(cmd);
            assert(s@ =~= positioned_text(cmd@, base));
            s
        },
        None => cmd.to_owned(),
    }
}

/// The progress line shown after `sent` of `total` commands: only where the player's
/// position is known, after every 25th command and after the last.
pub open spec fn progress_text(sent: nat, total: nat, located: bool) -> Option<Seq<char>> {
    if located && (sent % 25 == 0 || sent == total) {
        Some(
            "title @s actionbar §bColorify v7 - ComeixAlpha§f: §f"@ + nat_text(sent) + " / "@
                + nat_text(total),
        )
    } else {
        None
    }
}

/// The progress line shown in the game while commands are sent, where one is due.
pub fn progress_title(sent: usize, total: usize, located: bool) -> (res: Option<String>)
    ensures
        match res {
            Some(s) => progress_text(sent as nat, total as nat, located) == Some(s@),
            None => progress_text(sent as nat, total as nat, located) is None,
        },
{
    if located && (sent % 25 == 0 || sent == total) {
        let mut s = String::new();
        s.append("title @s actionbar §bColorify v7 - ComeixAlpha§f: §f");
        push_u64(&mut s, sent as u64);
        s.append(" / ");
        push_u64(&mut s, total as u64);
        assert(s@ =~= "title @s actionbar §bColorify v7 - ComeixAlpha§f: §f"@ + nat_text(sent as nat)
            + " / "@ + nat_text(total as nat));
        Some(s)
    } else {
        None
    }
}


/// A player position from the three integers read: each cut to its low 32 bits, as an
/// `as i32` cast does.
pub open spec fn spec_position_of(p: Option<[i64; 3]>) -> Option<[i32; 3]> {
    match p {
        Some(a) => Some([a[0] as i32, a[1] as i32, a[2] as i32]),
        None => None,
    }
}

/// A player position from the integers read.
pub fn position_of(p: Option<[i64; 3]>) -> (res: Option<[i32; 3]>)
    ensures
        res == spec_position_of(p),
{
    match p {
        Some(a) => Some([a[0] as i32, a[1] as i32, a[2] as i32]),
        None => None,
    }
}

/// The player's position reported by a game message read as a JSON value, if it reports
/// one.
pub fn json_position(msg: &Json) -> (res: Option<[i32; 3]>)
    ensures
        res == spec_position_of(spec_body_position(*msg)),
{
    let p = body_position(msg);
    position_of(p)
}

/// The player's position reported by a game message, if it is JSON that reports one.
pub fn parse_position(msg: &str) -> (res: Option<[i32; 3]>)
    ensures
        res == match serde_json_value(msg@) {
            Ok(v) => spec_position_of(spec_body_position(v)),
            Err(_) => None,
        },
{
    match parse_json_text(msg) {
        Ok(v) => json_position(&v),
        Err(_) => None,
    }
}

/// Why a server launch was refused.
pub open spec fn already_running_error() -> Seq<char> {
    "WebSocket 服务器已在运行"@
}

/// A launch is refused while a server runs.
pub fn launch_check(running: bool) -> (res: Result<(), String>)
    ensures
        running ==> (res matches Err(e) && e@ == already_running_error()),
        !running ==> res is Ok,
{
    if running {
        Err(String::from_str("WebSocket 服务器已在运行"))
    } else {
        Ok(())
    }
}

/// A broadcast needs a running server; it reports how many connections it reached.
pub fn broadcast_check(running: bool, connections: usize) -> (res: Result<u64, String>)
    ensures
        !running ==> (res matches Err(e) && e@ == no_server_error()),
        running ==> res == Ok::<u64, String>(connections as u64),
{
    if running {
        Ok(connections as u64)
    } else {
        Err(String::from_str("WebSocket 服务器未启动"))
    }
}

/// The server's state for the front end: not running servers have no connections.
pub fn ws_status(running: bool, port: u16, connections: usize) -> (res: WsStatus)
    ensures
        res.running == running,
        res.port == port,
        res.connections == if running {
            connections as u64
        } else {
            0
        },
{
    WsStatus {
        running,
        port,
        connections: if running {
            connections as u64
        } else {
            0
        },
    }
}

} // verus!

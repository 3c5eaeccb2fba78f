//! What an art run reports, the decisions between its steps, and the name of its output
//! folder.
use std::sync::atomic::{AtomicBool, Ordering};
use std::sync::Arc;
use vstd::prelude::*;
use vstd::string::*;

use crate::calendar::{timestamp_name, timestamp_text};
use crate::pack::unix_nanos;

verus! {

/// A progress report sent to the front end.
pub struct ProgressMessage {
    pub stage: String,
    pub finished: bool,
    pub elapsed_ms: Option<u64>,
    pub output_dir: Option<String>,
    /// The failure's message; `None` unless the run failed.
    pub error: Option<String>,
}

pub open spec fn opt_string_view(s: Option<String>) -> Option<Seq<char>> {
    match s {
        Some(v) => Some(v@),
        None => None,
    }
}

impl ProgressMessage {
    /// A stage has begun.
    pub fn stage(name: &str) -> (res: Self)
        ensures
            res.stage@ == name@,
            !res.finished,
            res.elapsed_ms is None,
            res.output_dir is None,
            res.error is None,
    {
        ProgressMessage {
            stage: name.to_owned(),
            finished: false,
            elapsed_ms: None,
            output_dir: None,
            error: None,
        }
    }

    /// The run has finished, with its time and, where files were written, their folder.
    pub fn finish(name: &str, elapsed_ms: u64, output_dir: Option<String>) -> (res: Self)
        ensures
            res.stage@ == name@,
            res.finished,
            res.elapsed_ms == Some(elapsed_ms),
            res.output_dir == output_dir,
            res.error is None,
    {
        ProgressMessage {
            stage: name.to_owned(),
            finished: true,
            elapsed_ms: Some(elapsed_ms),
            output_dir,
            error: None,
        }
    }

    /// The run has failed with message `name`.
    pub fn fail(name: &str, elapsed_ms: u64) -> (res: Self)
        ensures
            res.stage@ == name@,
            res.finished,
            res.elapsed_ms == Some(elapsed_ms),
            res.output_dir is None,
            opt_string_view(res.error) == Some(name@),
    {
        ProgressMessage {
            stage: name.to_owned(),
            finished: true,
            elapsed_ms: Some(elapsed_ms),
            output_dir: None,
            error: Some(name.to_owned()),
        }
    }
}

/// The message of a cancelled run.
pub open spec fn cancelled_text() -> Seq<char> {
    "已取消"@
}

/// What the end of a run reports: `完成` with the output folder, `已通过 WebSocket 发送`
/// where the commands went to the game, the failure's message, or nothing for a run that
/// was cancelled (its cancellation was reported when it was noticed).
pub fn outcome_message(outcome: &Result<Option<String>, String>, elapsed_ms: u64) -> (res: Option<
    ProgressMessage,
>)
    ensures
        match outcome {
            Ok(Some(dir)) => res matches Some(m) && m.stage@ == "完成"@ && m.finished
                && opt_string_view(m.output_dir) == Some(dir@) && m.error is None && m.elapsed_ms
                == Some(elapsed_ms),
            Ok(None) => res matches Some(m) && m.stage@ == "已通过 WebSocket 发送"@ && m.finished
                && m.output_dir is None && m.error is None && m.elapsed_ms == Some(elapsed_ms),
            Err(e) => if e@ == cancelled_text() {
                res is None
            } else {
                res matches Some(m) && m.stage@ == e@ && m.finished && opt_string_view(m.error)
                    == Some(e@) && m.output_dir is None && m.elapsed_ms == Some(elapsed_ms)
            },
        },
{
    match outcome {
        Ok(Some(dir)) => Some(ProgressMessage::finish("完成", elapsed_ms, Some(dir.clone()))),
        Ok(None) => Some(ProgressMessage::finish("已通过 WebSocket 发送", elapsed_ms, None)),
        Err(e) => {
            let cancelled = String::from_str("已取消");
            if *e == cancelled {
                None
            } else {
                Some(ProgressMessage::fail(e.as_str(), elapsed_ms))
            }
        },
    }
}

/// The failure reported for a run that stopped on an internal error.
pub fn internal_error_message(detail: &str, elapsed_ms: u64) -> (res: ProgressMessage)
    ensures
        res.stage@ == "内部错误: "@ + detail@,
        opt_string_view(res.error) == Some("内部错误: "@ + detail@),
        res.finished,
        res.elapsed_ms == Some(elapsed_ms),
{
    let mut s = String::new();
    s.append("内部错误: ");
    s.append(detail);
    ProgressMessage::fail(s.as_str(), elapsed_ms)
}

/// A run writes files (and needs an output folder) unless it sends commands to the game or
/// writes into a world.
pub fn needs_output_dir(use_socket: bool, use_ldb: bool) -> (res: bool)
    ensures
        res == !(use_socket || use_ldb),
{
    !(use_socket || use_ldb)
}

pub open spec fn no_commands_error() -> Seq<char> {
    "没有生成任何命令"@
}

/// The commands a run hands to the sender: an empty list is refused.
pub fn commands_to_send(commands: Option<Vec<String>>) -> (res: Result<Option<Vec<String>>, String>)
    ensures
        match commands {
            Some(c) => if c@.len() == 0 {
                res matches Err(e) && e@ == no_commands_error()
            } else {
                res == Ok::<Option<Vec<String>>, String>(Some(c))
            },
            None => res == Ok::<Option<Vec<String>>, String>(None),
        },
{
    match commands {
        Some(c) => if c.len() == 0 {
            Err(String::from_str("没有生成任何命令"))
        } else {
            Ok(Some(c))
        },
        None => Ok(None),
    }
}

/// The error reported when the commands could not be handed to the sender.
pub fn send_failure(e: &str) -> (res: String)
    ensures
        res@ == "WebSocket 发送失败: "@ + e@,
{
    let mut s = String::new();
    s.append("WebSocket 发送失败: ");
    s.append(e);
    s
}

/// A `u64` taken as an `i64`, as an `as` cast does.
pub open spec fn as_signed(v: u64) -> i64 {
    v as i64
}

/// Whole seconds since the Unix epoch, by the system clock (0 where it reads earlier): the
/// `u64` count of seconds, taken as an `i64`.
pub fn unix_seconds() -> (res: i64)
    ensures
        exists|secs: u64| res == #[trigger] as_signed(secs),
{
    let n = unix_nanos();
    assert(n / 1_000_000_000 <= u64::MAX);
    let secs: u64 = (n / 1_000_000_000u128) as u64;
    assert(as_signed(secs) == secs as i64);
    secs as i64
}

/// The name of a new output folder: the current UTC time as `YYYY-MM-DD_hh-mm-ss`.
pub fn timestamp_folder() -> (res: String)
    ensures
        exists|secs: u64| res@ == timestamp_name(#[trigger] as_signed(secs) as int),
{
    let secs = unix_seconds();
    timestamp_text(secs)
}

/// `Arc::clone`: another pointer to the same allocation, so (as Verus reads an `Arc` by
/// what it points to) the same value.
#[verifier::external_body]
fn share_flag(flag: &Arc<AtomicBool>) -> (res: Arc<AtomicBool>)
    ensures
        res == *flag,
{
    Arc::clone(flag)
}

/// The cancel flag of the pixel-art runs.
pub struct PixelProcessState {
    cancel: Arc<AtomicBool>,
}

/// The cancel flag of the particle-art runs.
pub struct ParticleProcessState {
    cancel: Arc<AtomicBool>,
}

impl PixelProcessState {
    /// The shared cancel flag.
    pub closed spec fn flag(&self) -> Arc<AtomicBool> {
        self.cancel
    }

    /// A flag that is not set.
    pub fn default() -> Self {
        PixelProcessState { cancel: Arc::new(AtomicBool::new(false)) }
    }

    /// Clears the flag for a new run and hands the run its own handle to it.
    pub fn begin(&self) -> (res: Arc<AtomicBool>)
        ensures
            res == self.flag(),
    {
        self.cancel.store(false, Ordering::SeqCst);
        share_flag(&self.cancel)
    }

    /// Asks the current run to stop.
    pub fn cancel(&self) {
        self.cancel.store(true, Ordering::SeqCst);
    }
}

impl ParticleProcessState {
    /// The shared cancel flag.
    pub closed spec fn flag(&self) -> Arc<AtomicBool> {
        self.cancel
    }

    /// A flag that is not set.
    pub fn default() -> Self {
        ParticleProcessState { cancel: Arc::new(AtomicBool::new(false)) }
    }

    /// Clears the flag for a new run and hands the run its own handle to it.
    pub fn begin(&self) -> (res: Arc<AtomicBool>)
        ensures
            res == self.flag(),
    {
        self.cancel.store(false, Ordering::SeqCst);
        share_flag(&self.cancel)
    }

    /// Asks the current run to stop.
    pub fn cancel(&self) {
        self.cancel.store(true, Ordering::SeqCst);
    }
}

} // verus!

//! The daemon's state machine, and what a client invocation decides from the
//! PID file and from the daemon's answers.
use vstd::prelude::*;
use vstd::string::*;

use crate::numeral::{parse_i32, signed_value, trim, trimmed};
use crate::ipc::{
    Command, Response, ResponseView, DAEMON_ALREADY_RUNNING, DAEMON_NOT_RUNNING, DAEMON_STOPPING,
    FAILED_TO_COMMUNICATE, INVALID_RESPONSE, UI_ALREADY_VISIBLE, UI_LAUNCHED, UNKNOWN_COMMAND,
};

verus! {

/// An event of the daemon's state machine.
#[derive(Debug, Clone, Copy, PartialEq, Eq, Structural)]
pub enum Message {
    ShowUI,
    CheckStatus,
    Shutdown,
}

/// What the daemon does after an event.
pub enum Step<H> {
    /// Send this response.
    Reply(Response),
    /// Spawn the window process, then report through `ui_launched` or `ui_launch_failed`.
    LaunchUi,
    /// Kill this window process, if any, send the response, and exit.
    Stop(Option<H>, Response),
}

/// A step, without the process handle.
pub enum StepView {
    Reply(ResponseView),
    LaunchUi,
    Stop(ResponseView),
}

impl<H> View for Step<H> {
    type V = StepView;

    open spec fn view(&self) -> StepView {
        match self {
            Step::Reply(r) => StepView::Reply(r@),
            Step::LaunchUi => StepView::LaunchUi,
            Step::Stop(_, r) => StepView::Stop(r@),
        }
    }
}

/// What a check of the window process found.
#[derive(Debug, Clone, Copy, PartialEq, Eq, Structural)]
pub enum UiPoll {
    /// Still running.
    Running,
    /// It has exited.
    Exited,
    /// Its status could not be read.
    Failed,
}

/// The daemon's mutable state: the window process, if one is running, and
/// whether the window is visible.
pub struct DaemonState<H> {
    pub ui_process: Option<H>,
    pub ui_visible: bool,
}

impl<H> DaemonState<H> {
    /// The window is visible exactly when a window process is held.
    pub open spec fn wf(&self) -> bool {
        self.ui_visible == self.ui_process.is_some()
    }

    /// The state after `msg`, before any spawn is reported.
    pub open spec fn next_state(self, msg: Message) -> Self {
        match msg {
            Message::Shutdown => DaemonState { ui_process: None, ui_visible: false },
            _ => self,
        }
    }

    /// The step taken on `msg`.
    pub open spec fn step_of(self, msg: Message) -> StepView {
        match msg {
            Message::ShowUI => if self.ui_visible {
                StepView::Reply(ResponseView::Success(UI_ALREADY_VISIBLE@))
            } else {
                StepView::LaunchUi
            },
            Message::CheckStatus => StepView::Reply(
                ResponseView::Status { daemon_running: true, ui_visible: self.ui_visible },
            ),
            Message::Shutdown => StepView::Stop(ResponseView::Success(DAEMON_STOPPING@)),
        }
    }

    pub fn new() -> (r: Self)
        ensures
            r.wf(),
            r.ui_process is None,
            !r.ui_visible,
    {
        DaemonState { ui_process: None, ui_visible: false }
    }

    /// Takes one event.
    pub fn update(&mut self, msg: Message) -> (r: Step<H>)
        requires
            old(self).wf(),
        ensures
            final(self).wf(),
            *final(self) == old(self).next_state(msg),
            r@ == old(self).step_of(msg),
            r matches Step::Stop(h, _) ==> h == old(self).ui_process,
    {
        match msg {
            Message::ShowUI => {
                if self.ui_visible {
                    Step::Reply(Response::Success(UI_ALREADY_VISIBLE.to_owned()))
                } else {
                    Step::LaunchUi
                }
            },
            Message::CheckStatus => Step::Reply(
                Response::Status { daemon_running: true, ui_visible: self.ui_visible },
            ),
            Message::Shutdown => {
                let child = self.ui_process.take();
                self.ui_visible = false;
                Step::Stop(child, Response::Success(DAEMON_STOPPING.to_owned()))
            },
        }
    }

    /// Records the window process that a `LaunchUi` step spawned.
    pub fn ui_launched(&mut self, child: H) -> (r: Response)
        requires
            old(self).wf(),
        ensures
            final(self).wf(),
            final(self).ui_process == Some(child),
            final(self).ui_visible,
            r@ == ResponseView::Success(UI_LAUNCHED@),
    {
        self.ui_process = Some(child);
        self.ui_visible = true;
        Response::Success(UI_LAUNCHED.to_owned())
    }

    /// Reports a spawn that failed; the state is unchanged.
    pub fn ui_launch_failed(&self, reason: &str) -> (r: Response)
        ensures
            r@ == ResponseView::Error("Failed to launch UI: "@ + reason@),
    {
        Response::Error(String::from_str("Failed to launch UI: ").concat(reason))
    }

    /// Takes the result of a check of the window process: an exit, or a check
    /// that failed, clears the process and hides the window.
    pub fn poll_ui_status(&mut self, poll: UiPoll)
        requires
            old(self).wf(),
        ensures
            final(self).wf(),
            poll == UiPoll::Running ==> *final(self) == *old(self),
            poll != UiPoll::Running ==> final(self).ui_process is None && !final(self).ui_visible,
    {
        if poll != UiPoll::Running {
            self.ui_process = None;
            self.ui_visible = false;
        }
    }

    /// Handles one request byte: the step to take, and whether the daemon exits.
    pub fn handle_request(&mut self, byte: u8) -> (r: (Step<H>, bool))
        requires
            old(self).wf(),
        ensures
            final(self).wf(),
            match Command::from_byte_spec(byte) {
                None => *final(self) == *old(self) && r.0@ == StepView::Reply(
                    ResponseView::Error(UNKNOWN_COMMAND@),
                ) && !r.1,
                Some(cmd) => {
                    let msg = message_of(cmd);
                    &&& *final(self) == old(self).next_state(msg)
                    &&& r.0@ == old(self).step_of(msg)
                    &&& r.1 == (cmd == Command::Stop)
                    &&& r.0 matches Step::Stop(h, _) ==> h == old(self).ui_process
                },
            },
    {
        match Command::from_byte(byte) {
            None => (Step::Reply(Response::Error(UNKNOWN_COMMAND.to_owned())), false),
            Some(Command::Stop) => (self.update(Message::Shutdown), true),
            Some(Command::Show) => (self.update(Message::ShowUI), false),
            Some(Command::Status) => (self.update(Message::CheckStatus), false),
        }
    }
}

/// The event that a request stands for.
pub open spec fn message_of(cmd: Command) -> Message {
    match cmd {
        Command::Stop => Message::Shutdown,
        Command::Show => Message::ShowUI,
        Command::Status => Message::CheckStatus,
    }
}

/// Showing the window while it is visible answers `Ok` and changes nothing, so
/// a second `Show` answers `Ok` again and spawns no second window process.
pub proof fn lemma_show_idempotent<H>(s: DaemonState<H>)
    requires
        s.wf(),
        s.ui_visible,
    ensures
        s.next_state(Message::ShowUI) == s,
        s.step_of(Message::ShowUI) == StepView::Reply(ResponseView::Success(UI_ALREADY_VISIBLE@)),
        s.next_state(Message::ShowUI).next_state(Message::ShowUI) == s,
        s.next_state(Message::ShowUI).step_of(Message::ShowUI) == StepView::Reply(
            ResponseView::Success(UI_ALREADY_VISIBLE@),
        ),
{
}

/// The process id that a PID file holding `contents` names: its trimmed text
/// read as an `i32`.
pub open spec fn pid_of(contents: Seq<char>) -> Option<i32> {
    match signed_value(trimmed(contents)) {
        Some(v) => if i32::MIN <= v <= i32::MAX {
            Some(v as i32)
        } else {
            None
        },
        None => None,
    }
}

/// The process id in a PID file's contents, or `None` when they hold none.
pub fn parse_pid(contents: &str) -> (r: Option<i32>)
    ensures
        r == pid_of(contents@),
{
    parse_i32(trim(contents))
}

/// Whether a daemon runs: a PID file was read (`pid` is what it named) and the
/// process it names is alive.
pub open spec fn daemon_detected(pid: Option<i32>, pid_alive: bool) -> bool {
    pid is Some && pid_alive
}

/// Decides a start request. `pid` is the id that the PID file names (`None`
/// when there is no readable file or no id in it), `pid_alive` whether that
/// process exists. A live daemon refuses the start; a missing or stale PID file
/// lets it go ahead.
pub fn start_decision(pid: Option<i32>, pid_alive: bool) -> (r: Result<(), String>)
    ensures
        r is Ok <==> !daemon_detected(pid, pid_alive),
        r matches Err(e) ==> e@ == DAEMON_ALREADY_RUNNING@,
{
    if pid.is_some() && pid_alive {
        Err(DAEMON_ALREADY_RUNNING.to_owned())
    } else {
        Ok(())
    }
}

/// A PID file that names a dead process does not count as a running daemon,
/// and a start then goes ahead.
pub proof fn lemma_stale_pid_file(contents: Seq<char>)
    ensures
        !daemon_detected(pid_of(contents), false),
{
}

/// The two lines that `status` prints.
pub open spec fn status_text(daemon_running: bool, ui_visible: bool) -> Seq<char> {
    "Daemon: "@ + (if daemon_running {
        "running"@
    } else {
        "not running"@
    }) + "\nUI: "@ + (if ui_visible {
        "visible"@
    } else {
        "not visible"@
    })
}

fn status_lines(daemon_running: bool, ui_visible: bool) -> (r: String)
    ensures
        r@ == status_text(daemon_running, ui_visible),
{
    let daemon = if daemon_running {
        "running"
    } else {
        "not running"
    };
    let ui = if ui_visible {
        "visible"
    } else {
        "not visible"
    };
    String::from_str("Daemon: ").concat(daemon).concat("\nUI: ").concat(ui)
}

/// What a client reports for `cmd` when no daemon runs: the text to print, or the error.
pub fn not_running_outcome(cmd: Command) -> (r: Result<String, String>)
    ensures
        cmd == Command::Status ==> (r matches Ok(t) && t@ == status_text(false, false)),
        cmd != Command::Status ==> (r matches Err(e) && e@ == DAEMON_NOT_RUNNING@),
{
    match cmd {
        Command::Status => Ok(status_lines(false, false)),
        _ => Err(DAEMON_NOT_RUNNING.to_owned()),
    }
}

/// What a client reports for `cmd` from the daemon's answer, or from the
/// transport error (`Err`) that stood in its place: the text to print, or the error.
pub fn reply_outcome(cmd: Command, reply: Result<Response, String>) -> (r: Result<String, String>)
    ensures
        match reply {
            Err(e) => r matches Err(m) && m@ == FAILED_TO_COMMUNICATE@ + ": "@ + e@,
            Ok(resp) => match (cmd, resp@) {
                (Command::Status, ResponseView::Status { daemon_running, ui_visible }) => r matches Ok(
                    t,
                ) && t@ == status_text(daemon_running, ui_visible),
                (Command::Status, _) => r matches Err(m) && m@ == INVALID_RESPONSE@,
                (_, ResponseView::Success(text)) => r matches Ok(t) && t@ == text,
                (_, ResponseView::Error(text)) => r matches Err(m) && m@ == text,
                (_, _) => r matches Err(m) && m@ == INVALID_RESPONSE@,
            },
        },
{
    match reply {
        Err(e) => Err(String::from_str(FAILED_TO_COMMUNICATE).concat(": ").concat(e.as_str())),
        Ok(resp) => match cmd {
            Command::Status => match resp {
                Response::Status { daemon_running, ui_visible } => Ok(
                    status_lines(daemon_running, ui_visible),
                ),
                _ => Err(INVALID_RESPONSE.to_owned()),
            },
            _ => match resp {
                Response::Success(text) => Ok(text),
                Response::Error(text) => Err(text),
                _ => Err(INVALID_RESPONSE.to_owned()),
            },
        },
    }
}

} // verus!

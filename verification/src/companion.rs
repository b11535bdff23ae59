//! Companion-agent state and the decisions of its build, deploy and cancel
//! operations.
//!
//! The agent's process layer asks the state what to run: a task is refused
//! while another one is active; otherwise the state moves to its new phase
//! and hands back the real command line to spawn or the simulated output to
//! replay. Spawning, waiting and streaming stay with the caller, which
//! reports the outcome back.

use vstd::prelude::*;

use crate::frames::{ack, AckFrame, LogLine, LogRing, LOG_RING_CAP};
use crate::text::{chars_of, owned, push_chars, push_str_chars, string_of};

verus! {

broadcast use vstd::string::group_string_axioms;

/// Lifecycle phase of the companion agent.
#[derive(Clone, Copy, PartialEq, Eq, Debug, Structural)]
pub enum Phase {
    Idle,
    Building,
    Deploying,
    Error,
}

/// Wire name of a phase.
pub open spec fn phase_name(p: Phase) -> Seq<char> {
    match p {
        Phase::Idle => "idle"@,
        Phase::Building => "building"@,
        Phase::Deploying => "deploying"@,
        Phase::Error => "error"@,
    }
}

impl Phase {
    /// Wire name of the phase.
    pub fn as_str(self) -> (s: &'static str)
        ensures
            s@ == phase_name(self),
    {
        match self {
            Phase::Idle => "idle",
            Phase::Building => "building",
            Phase::Deploying => "deploying",
            Phase::Error => "error",
        }
    }
}

/// Status snapshot sent to the panel.
pub struct StatusFrame {
    pub ros_available: bool,
    pub colcon_available: bool,
    /// `idle` | `building` | `deploying` | `error`.
    pub phase: &'static str,
    /// Label of the current/last task.
    pub task: String,
    /// MAVLink-to-ROS bridge status.
    pub bridge: String,
    pub workspace: String,
    pub deploy_target: String,
    pub message: String,
}

/// One sampled topic message.
pub struct EchoFrame {
    pub topic: String,
    pub sample: String,
}

/// Shared companion-agent state (lifecycle and recent logs).
pub struct CompanionState {
    pub ros_available: bool,
    pub colcon_available: bool,
    pub phase: Phase,
    pub task: String,
    pub bridge: String,
    pub workspace: String,
    pub deploy_target: String,
    pub message: String,
    pub logs: LogRing,
}

/// Whether a build or deploy is running.
pub open spec fn is_busy(p: Phase) -> bool {
    p == Phase::Building || p == Phase::Deploying
}

impl CompanionState {
    /// The recent log lines, oldest first.
    pub closed spec fn logs(&self) -> Seq<(Seq<char>, Seq<char>)> {
        self.logs@
    }

    /// The log ring holds at most [`LOG_RING_CAP`] lines.
    pub closed spec fn wf(&self) -> bool {
        self.logs@.len() <= LOG_RING_CAP
    }

    /// A fresh, idle state.
    pub fn new(ros_available: bool, colcon_available: bool, workspace: String, deploy_target: String) -> (s: Self)
        ensures
            s.wf(),
            s.ros_available == ros_available,
            s.colcon_available == colcon_available,
            s.phase == Phase::Idle,
            s.task@ == "idle"@,
            s.bridge@ == (if ros_available {
                "unknown"@
            } else {
                "synthetic"@
            }),
            s.workspace == workspace,
            s.deploy_target == deploy_target,
            s.message@ == "ready"@,
            s.logs().len() == 0,
    {
        CompanionState {
            ros_available,
            colcon_available,
            phase: Phase::Idle,
            task: owned("idle"),
            bridge: if ros_available {
                owned("unknown")
            } else {
                owned("synthetic")
            },
            workspace,
            deploy_target,
            message: owned("ready"),
            logs: LogRing::new(),
        }
    }

    /// Buffer a log line (the oldest is dropped when the ring is full).
    pub fn push_log(&mut self, stream: &'static str, line: String)
        requires
            old(self).wf(),
        ensures
            final(self).wf(),
            final(self).logs() == (if old(self).logs().len() >= LOG_RING_CAP {
                old(self).logs().drop_first()
            } else {
                old(self).logs()
            }).push((stream@, line@)),
            final(self).ros_available == old(self).ros_available,
            final(self).colcon_available == old(self).colcon_available,
            final(self).phase == old(self).phase,
            final(self).task == old(self).task,
            final(self).bridge == old(self).bridge,
            final(self).workspace == old(self).workspace,
            final(self).deploy_target == old(self).deploy_target,
            final(self).message == old(self).message,
    {
        self.logs.push(stream, line);
    }

    /// The recent log lines, oldest first.
    pub fn recent_logs(&self) -> (s: &[LogLine])
        ensures
            crate::frames::lines_view(s@) == self.logs(),
    {
        self.logs.lines()
    }

    /// Status snapshot for the panel.
    pub fn status_frame(&self) -> (f: StatusFrame)
        ensures
            f.ros_available == self.ros_available,
            f.colcon_available == self.colcon_available,
            f.phase@ == phase_name(self.phase),
            f.task@ == self.task@,
            f.bridge@ == self.bridge@,
            f.workspace@ == self.workspace@,
            f.deploy_target@ == self.deploy_target@,
            f.message@ == self.message@,
    {
        StatusFrame {
            ros_available: self.ros_available,
            colcon_available: self.colcon_available,
            phase: self.phase.as_str(),
            task: self.task.clone(),
            bridge: self.bridge.clone(),
            workspace: self.workspace.clone(),
            deploy_target: self.deploy_target.clone(),
            message: self.message.clone(),
        }
    }

    /// Enter `phase` with a status message; finishing (idle) or failing
    /// (error) also resets the task label to `idle`.
    pub fn set_phase(&mut self, phase: Phase, message: &str)
        ensures
            final(self).phase == phase,
            final(self).message@ == message@,
            final(self).task@ == (if phase == Phase::Idle || phase == Phase::Error {
                "idle"@
            } else {
                old(self).task@
            }),
            final(self).logs() == old(self).logs(),
            final(self).ros_available == old(self).ros_available,
            final(self).colcon_available == old(self).colcon_available,
            final(self).workspace == old(self).workspace,
            final(self).deploy_target == old(self).deploy_target,
            final(self).bridge == old(self).bridge,
            old(self).wf() ==> final(self).wf(),
    {
        self.phase = phase;
        self.message = owned(message);
        let finished = match phase {
            Phase::Idle | Phase::Error => true,
            _ => false,
        };
        if finished {
            self.task = owned("idle");
        }
    }

    /// Whether a build or deploy is running.
    pub fn busy(&self) -> (b: bool)
        ensures
            b == is_busy(self.phase),
    {
        match self.phase {
            Phase::Building | Phase::Deploying => true,
            _ => false,
        }
    }
}


/// What an accepted or refused build/deploy request asks the process layer
/// to do.
pub enum TaskPlan {
    /// Refused: another task is running.
    Refused(AckFrame),
    /// Spawn `program` with `args` (in `cwd`, if set). `log` is announced
    /// first, `started` acknowledges the request, and `done` is the message
    /// of a clean exit.
    Spawn {
        program: String,
        args: Vec<String>,
        cwd: Option<String>,
        log: String,
        started: AckFrame,
        done: &'static str,
    },
    /// Replay `lines` as simulated output.
    Simulate { lines: Vec<String>, log: String, started: AckFrame, done: &'static str },
}

/// View of a list of strings.
pub open spec fn strings_view(v: Seq<String>) -> Seq<Seq<char>> {
    v.map_values(|s: String| s@)
}

/// Arguments of `colcon`: `build`, then `--packages-select` and the
/// packages when a non-empty package list is given.
pub open spec fn build_args(packages: Option<Seq<Seq<char>>>) -> Seq<Seq<char>> {
    match packages {
        Some(p) => if p.len() > 0 {
            seq!["build"@, "--packages-select"@] + p
        } else {
            seq!["build"@]
        },
        None => seq!["build"@],
    }
}

/// Law: `colcon` always runs `build`; with a non-empty package list it
/// selects exactly those packages, every one of them, in the order given;
/// otherwise it builds the whole workspace.
pub proof fn lemma_build_selects_every_package(p: Seq<Seq<char>>)
    ensures
        build_args(None) == seq!["build"@],
        p.len() == 0 ==> build_args(Some(p)) == seq!["build"@],
        p.len() > 0 ==> build_args(Some(p)).len() == 2 + p.len() && build_args(Some(p))[0] == "build"@
            && build_args(Some(p))[1] == "--packages-select"@ && forall|i: int|
            0 <= i < p.len() ==> #[trigger] build_args(Some(p))[2 + i] == p[i],
{
}

/// Simulated `colcon build` output.
pub open spec fn simulated_build_lines() -> Seq<Seq<char>> {
    seq![
        "Starting >>> px4_msgs"@,
        "Finished <<< px4_msgs [3.2s]"@,
        "Starting >>> drone_mission"@,
        "Finished <<< drone_mission [1.8s]"@,
        "Summary: 2 packages finished [5.1s]"@,
    ]
}

/// Simulated `rsync` output.
pub open spec fn simulated_deploy_lines() -> Seq<Seq<char>> {
    seq![
        "sending incremental file list"@,
        "install/ 1,204 files"@,
        "src/ 86 files"@,
        "sent 4.2M bytes  received 1.1K bytes"@,
        "total size is 41.8M  speedup is 9.95"@,
    ]
}

/// The deploy source as a directory path: with a trailing `/`.
pub open spec fn with_slash(src: Seq<char>) -> Seq<char> {
    if src.len() > 0 && src.last() == '/' {
        src
    } else {
        src.push('/')
    }
}

/// An acknowledgement, as its command, outcome and message.
pub open spec fn ack_is(a: AckFrame, cmd: Seq<char>, ok: bool, message: Seq<char>) -> bool {
    a.cmd@ == cmd && a.ok == ok && a.message@ == message
}

fn strings_of(lines: &[&'static str]) -> (v: Vec<String>)
    ensures
        strings_view(v@) == lines@.map_values(|s: &'static str| s@),
{
    let mut v: Vec<String> = Vec::new();
    let mut i: usize = 0;
    while i < lines.len()
        invariant
            i <= lines@.len(),
            strings_view(v@) == lines@.map_values(|s: &'static str| s@).take(i as int),
        decreases lines@.len() - i,
    {
        let ghost before = v@;
        let x = owned(lines[i]);
        v.push(x);
        assert(strings_view(v@) =~= strings_view(before).push(x@));
        assert(strings_view(v@) =~= lines@.map_values(|s: &'static str| s@).take(i + 1));
        i = i + 1;
    }
    assert(lines@.map_values(|s: &'static str| s@).take(i as int) =~= lines@.map_values(|s: &'static str| s@));
    v
}

impl CompanionState {
    /// Start a `colcon build` in `workspace`, for real when `real` (colcon is
    /// installed and the workspace is a directory), simulated otherwise.
    /// Refused while a task runs; otherwise the state enters `Building`.
    pub fn start_build(&mut self, colcon_bin: &str, workspace: String, packages: &Option<Vec<String>>, for_real: bool) -> (plan: TaskPlan)
        requires
            old(self).wf(),
        ensures
            final(self).wf(),
            final(self).logs() == old(self).logs(),
            is_busy(old(self).phase) ==> final(self).phase == old(self).phase && final(self).message
                == old(self).message && final(self).task == old(self).task && (plan matches TaskPlan::Refused(a)
                && ack_is(a, "build"@, false, "a task is already running"@)),
            !is_busy(old(self).phase) ==> final(self).phase == Phase::Building && final(self).message@
                == "colcon build"@ && final(self).task@ == old(self).task@,
            !is_busy(old(self).phase) && for_real ==> (plan matches TaskPlan::Spawn { program, args, cwd, log, started, done }
                && program@ == colcon_bin@ && strings_view(args@) == build_args(
                match packages {
                    Some(p) => Some(strings_view(p@)),
                    None => None,
                },
            ) && cwd == Some(workspace) && log@ == "▶ colcon build in "@ + workspace@ && ack_is(
                started,
                "build"@,
                true,
                "colcon build started"@,
            ) && done@ == "build complete"@),
            !is_busy(old(self).phase) && for_real ==> (plan matches TaskPlan::Spawn { args, .. } && args@.len() >= 1
                && args@[0]@ == "build"@ && match packages {
                Some(p) => if p@.len() > 0 {
                    args@.len() == 2 + p@.len() && args@[1]@ == "--packages-select"@ && forall|i: int|
                        0 <= i < p@.len() ==> (#[trigger] args@[2 + i])@ == p@[i]@
                } else {
                    args@.len() == 1
                },
                None => args@.len() == 1,
            }),
            !is_busy(old(self).phase) && !for_real ==> (plan matches TaskPlan::Simulate { lines, log, started, done }
                && strings_view(lines@) == simulated_build_lines() && log@
                == "▶ simulated colcon build (colcon unavailable) in "@ + workspace@ && ack_is(
                started,
                "build"@,
                true,
                "simulated build started"@,
            ) && done@ == "build complete (simulated)"@),
    {
        if self.busy() {
            return TaskPlan::Refused(ack("build", false, "a task is already running"));
        }
        self.set_phase(Phase::Building, "colcon build");
        if for_real {
            let mut args: Vec<String> = Vec::new();
            args.push(owned("build"));
            match packages {
                Some(pkgs) => {
                    if pkgs.len() > 0 {
                        args.push(owned("--packages-select"));
                        let mut i: usize = 0;
                        while i < pkgs.len()
                            invariant
                                i <= pkgs@.len(),
                                strings_view(args@) == seq!["build"@, "--packages-select"@] + strings_view(pkgs@).take(i as int),
                            decreases pkgs@.len() - i,
                        {
                            let ghost before = args@;
                            let x = pkgs[i].clone();
                            args.push(x);
                            assert(strings_view(args@) =~= strings_view(before).push(x@));
                            assert(strings_view(args@) =~= seq!["build"@, "--packages-select"@] + strings_view(pkgs@).take(i + 1));
                            i = i + 1;
                        }
                        assert(strings_view(pkgs@).take(i as int) =~= strings_view(pkgs@));
                        assert(strings_view(args@)[0] == args@[0]@);
                        assert(strings_view(args@)[1] == args@[1]@);
                        assert forall|k: int| 0 <= k < pkgs@.len() implies (#[trigger] args@[2 + k])@ == pkgs@[k]@ by {
                            assert(strings_view(args@)[2 + k] == args@[2 + k]@);
                            assert(strings_view(pkgs@)[k] == pkgs@[k]@);
                        }
                    } else {
                        assert(strings_view(args@) =~= seq!["build"@]);
                        assert(strings_view(args@)[0] == args@[0]@);
                    }
                },
                None => {
                    assert(strings_view(args@) =~= seq!["build"@]);
                    assert(strings_view(args@)[0] == args@[0]@);
                },
            }
            let mut log = chars_of("▶ colcon build in ");
            push_str_chars(&mut log, workspace.as_str());
            TaskPlan::Spawn {
                program: owned(colcon_bin),
                args,
                cwd: Some(workspace),
                log: string_of(log.as_slice()),
                started: ack("build", true, "colcon build started"),
                done: "build complete",
            }
        } else {
            let mut log = chars_of("▶ simulated colcon build (colcon unavailable) in ");
            push_str_chars(&mut log, workspace.as_str());
            let table = [
                "Starting >>> px4_msgs",
                "Finished <<< px4_msgs [3.2s]",
                "Starting >>> drone_mission",
                "Finished <<< drone_mission [1.8s]",
                "Summary: 2 packages finished [5.1s]",
            ];
            let lines = strings_of(&table);
            assert(table@.map_values(|s: &'static str| s@) =~= simulated_build_lines());
            TaskPlan::Simulate {
                lines,
                log: string_of(log.as_slice()),
                started: ack("build", true, "simulated build started"),
                done: "build complete (simulated)",
            }
        }
    }
}


/// Shown for the deploy target in the simulated-deploy announcement.
pub open spec fn target_label(tgt: Seq<char>) -> Seq<char> {
    if tgt.len() == 0 {
        "<unset>"@
    } else {
        tgt
    }
}

impl CompanionState {
    /// Start a deploy of `src` to `tgt`: a real `rsync` when it is installed,
    /// the target is set and the source exists, simulated otherwise.
    /// Refused while a task runs; otherwise the state enters `Deploying`.
    pub fn start_deploy(&mut self, rsync_bin: &str, src: String, tgt: String, rsync_available: bool, src_exists: bool) -> (plan: TaskPlan)
        requires
            old(self).wf(),
        ensures
            final(self).wf(),
            final(self).logs() == old(self).logs(),
            is_busy(old(self).phase) ==> final(self).phase == old(self).phase && final(self).message
                == old(self).message && final(self).task == old(self).task && (plan matches TaskPlan::Refused(a)
                && ack_is(a, "deploy"@, false, "a task is already running"@)),
            !is_busy(old(self).phase) ==> final(self).phase == Phase::Deploying && final(self).message@
                == "rsync deploy"@ && final(self).task@ == old(self).task@,
            !is_busy(old(self).phase) && rsync_available && tgt@.len() > 0 && src_exists ==> (plan matches TaskPlan::Spawn {
                program,
                args,
                cwd,
                log,
                started,
                done,
            } && program@ == rsync_bin@ && strings_view(args@) == seq![
                "-az"@,
                "--delete"@,
                "--info=progress2"@,
                with_slash(src@),
                tgt@,
            ] && cwd is None && log@ == "▶ rsync "@ + with_slash(src@) + " → "@ + tgt@ && ack_is(
                started,
                "deploy"@,
                true,
                "deploy started"@,
            ) && done@ == "deploy complete"@),
            !is_busy(old(self).phase) && !(rsync_available && tgt@.len() > 0 && src_exists) ==> (plan matches TaskPlan::Simulate {
                lines,
                log,
                started,
                done,
            } && strings_view(lines@) == simulated_deploy_lines() && log@
                == "▶ simulated deploy (rsync/target unavailable) "@ + src@ + " → "@ + target_label(tgt@) && ack_is(
                started,
                "deploy"@,
                true,
                "simulated deploy started"@,
            ) && done@ == "deploy complete (simulated)"@),
    {
        if self.busy() {
            return TaskPlan::Refused(ack("deploy", false, "a task is already running"));
        }
        self.set_phase(Phase::Deploying, "rsync deploy");
        let sc = chars_of(src.as_str());
        let tc = chars_of(tgt.as_str());
        if rsync_available && tc.len() > 0 && src_exists {
            let mut slashed = chars_of(src.as_str());
            let n = sc.len();
            if !(n > 0 && sc[n - 1] == '/') {
                slashed.push('/');
            }
            assert(slashed@ =~= with_slash(src@));
            let mut args: Vec<String> = Vec::new();
            args.push(owned("-az"));
            args.push(owned("--delete"));
            args.push(owned("--info=progress2"));
            args.push(string_of(slashed.as_slice()));
            args.push(tgt.clone());
            assert(strings_view(args@) =~= seq!["-az"@, "--delete"@, "--info=progress2"@, with_slash(src@), tgt@]);
            let mut log = chars_of("▶ rsync ");
            push_chars(&mut log, slashed.as_slice());
            push_str_chars(&mut log, " → ");
            push_chars(&mut log, tc.as_slice());
            assert(log@ =~= "▶ rsync "@ + with_slash(src@) + " → "@ + tgt@);
            TaskPlan::Spawn {
                program: owned(rsync_bin),
                args,
                cwd: None,
                log: string_of(log.as_slice()),
                started: ack("deploy", true, "deploy started"),
                done: "deploy complete",
            }
        } else {
            let mut log = chars_of("▶ simulated deploy (rsync/target unavailable) ");
            push_chars(&mut log, sc.as_slice());
            push_str_chars(&mut log, " → ");
            if tc.len() == 0 {
                push_str_chars(&mut log, "<unset>");
            } else {
                push_chars(&mut log, tc.as_slice());
            }
            assert(log@ =~= "▶ simulated deploy (rsync/target unavailable) "@ + src@ + " → "@ + target_label(tgt@));
            let table = [
                "sending incremental file list",
                "install/ 1,204 files",
                "src/ 86 files",
                "sent 4.2M bytes  received 1.1K bytes",
                "total size is 41.8M  speedup is 9.95",
            ];
            let lines = strings_of(&table);
            assert(table@.map_values(|s: &'static str| s@) =~= simulated_deploy_lines());
            TaskPlan::Simulate {
                lines,
                log: string_of(log.as_slice()),
                started: ack("deploy", true, "simulated deploy started"),
                done: "deploy complete (simulated)",
            }
        }
    }

    /// A cancel request: answered at once when nothing runs; otherwise
    /// `None`, and the caller stops the task and calls [`Self::finish_cancel`].
    pub fn begin_cancel(&self) -> (r: Option<AckFrame>)
        ensures
            is_busy(self.phase) <==> r is None,
            r matches Some(a) ==> ack_is(a, "cancel"@, true, "nothing running"@),
    {
        if self.busy() {
            None
        } else {
            Some(ack("cancel", true, "nothing running"))
        }
    }

    /// The running task was stopped: back to idle.
    pub fn finish_cancel(&mut self) -> (a: AckFrame)
        requires
            old(self).wf(),
        ensures
            final(self).wf(),
            final(self).phase == Phase::Idle,
            final(self).message@ == "cancelled"@,
            final(self).task@ == "idle"@,
            final(self).logs() == old(self).logs(),
            ack_is(a, "cancel"@, true, "cancelled"@),
    {
        self.set_phase(Phase::Idle, "cancelled");
        ack("cancel", true, "cancelled")
    }
}

} // verus!

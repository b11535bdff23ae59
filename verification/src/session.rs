//! Simulation session state and the decisions of the start, stop and
//! mission-command operations.
//!
//! The manager's process layer asks the session what to do: a start is
//! refused while a run is active, otherwise it resolves the world, vehicle
//! and backend, decides between the real simulator and the mock flight, and
//! hands back the launch to spawn. The mock flight dynamics, wind and clocks
//! stay with the caller.

use vstd::prelude::*;

use crate::backend::{backend, backend_kind, LaunchSpec, SimControl, SimEnv};
use crate::frames::{ack, AckFrame, LogLine, LogRing, LOG_RING_CAP};
use crate::text::{chars_of, owned, push_chars, push_decimal, push_str_chars, string_of};
use crate::worlds::{
    make_target, target_of, vehicle_label, vehicle_label_of, world_label, world_label_of, CatalogEntry,
    DEFAULT_SIMULATOR,
};

verus! {

broadcast use vstd::string::group_string_axioms;

/// Lifecycle phase of a simulation run.
#[derive(Clone, Copy, PartialEq, Eq, Debug, Structural)]
pub enum Phase {
    Idle,
    Starting,
    Running,
    Stopping,
    Error,
}

/// Wire name of a phase.
pub open spec fn phase_name(p: Phase) -> Seq<char> {
    match p {
        Phase::Idle => "idle"@,
        Phase::Starting => "starting"@,
        Phase::Running => "running"@,
        Phase::Stopping => "stopping"@,
        Phase::Error => "error"@,
    }
}

impl Phase {
    /// Wire name of the phase.
    pub fn as_str(self) -> (s: &'static str)
        ensures
            s@ == phase_name(self),
    {
        match self {
            Phase::Idle => "idle",
            Phase::Starting => "starting",
            Phase::Running => "running",
            Phase::Stopping => "stopping",
            Phase::Error => "error",
        }
    }
}

/// A run is active (starting, running or stopping).
pub open spec fn is_active(p: Phase) -> bool {
    p == Phase::Starting || p == Phase::Running || p == Phase::Stopping
}

/// The world/vehicle/simulator catalogue sent to a panel on connect.
pub struct CatalogFrame {
    pub worlds: Vec<CatalogEntry>,
    pub vehicles: Vec<CatalogEntry>,
    pub simulators: Vec<CatalogEntry>,
}

/// The catalogue for the panel pickers.
pub fn catalog_frame() -> (f: CatalogFrame)
    ensures
        f.simulators@.len() == 3,
{
    let (worlds, vehicles) = crate::worlds::catalog();
    CatalogFrame { worlds, vehicles, simulators: crate::backend::simulators() }
}

/// Session state of the simulation sidecar (without the mock flight and
/// clocks, which the caller keeps beside it).
pub struct SimSession {
    pub phase: Phase,
    /// The built-in mock flight drives the scene (no real simulator).
    pub mock: bool,
    /// A real PX4 + Gazebo toolchain was detected on this host.
    pub toolchain_ok: bool,
    pub world: String,
    pub vehicle: String,
    /// Selected simulator backend id.
    pub simulator: String,
    pub pid: Option<u32>,
    pub message: String,
    pub logs: LogRing,
}

/// A start request; every field falls back to a default when absent.
pub struct StartRequest {
    pub world: Option<String>,
    pub vehicle: Option<String>,
    pub simulator: Option<String>,
    pub headless: Option<bool>,
    pub mock: Option<bool>,
}

/// What a start request asks the process layer to do.
pub enum StartPlan {
    /// Refused: a run is already active.
    Refused(AckFrame),
    /// The mock flight runs (the session is already `Running`): log
    /// `fallback` (when the requested real simulator is unavailable), then
    /// `log`, and answer `ack`.
    Mock { fallback: Option<String>, log: String, ack: AckFrame },
    /// Spawn `spec` (shown as `invocation`) and report back with
    /// [`SimSession::launched`] or [`SimSession::fail`].
    Real { spec: LaunchSpec, invocation: String, label: &'static str },
}

/// Arguments joined by single spaces.
pub open spec fn joined(args: Seq<Seq<char>>) -> Seq<char>
    decreases args.len(),
{
    if args.len() == 0 {
        seq![]
    } else if args.len() == 1 {
        args[0]
    } else {
        joined(args.drop_last()) + seq![' '] + args.last()
    }
}

/// How a launch is shown: the program and its arguments, space-separated.
pub open spec fn invocation_of(program: Seq<char>, args: Seq<Seq<char>>) -> Seq<char> {
    program + seq![' '] + joined(args)
}

/// View of a list of strings.
pub open spec fn strings_view(v: Seq<String>) -> Seq<Seq<char>> {
    v.map_values(|s: String| s@)
}

/// An acknowledgement, as its command, outcome and message.
pub open spec fn ack_is(a: AckFrame, cmd: Seq<char>, ok: bool, message: Seq<char>) -> bool {
    a.cmd@ == cmd && a.ok == ok && a.message@ == message
}

/// Whether the mock flight runs: forced by the request, or chosen when the
/// real simulator is unavailable (a requested real run falls back to it),
/// or when forced by configuration.
pub open spec fn uses_mock(requested: Option<bool>, force_mock: bool, real_possible: bool) -> bool {
    match requested {
        Some(true) => true,
        Some(false) => !real_possible,
        None => force_mock || !real_possible,
    }
}

/// Law: an explicit mock request always runs the mock flight, whatever the
/// host offers; an explicit real request runs the mock only when the real
/// simulator cannot run; with no request, configuration can force the mock.
pub proof fn lemma_mock_choice(force_mock: bool, real_possible: bool)
    ensures
        uses_mock(Some(true), force_mock, real_possible),
        uses_mock(Some(false), force_mock, real_possible) == !real_possible,
        force_mock ==> uses_mock(None, force_mock, real_possible),
        !force_mock ==> uses_mock(None, force_mock, real_possible) == !real_possible,
{
}

/// The id of the backend selected for `id`.
pub open spec fn backend_id(id: Seq<char>) -> Seq<char> {
    if backend_kind(id) == 1 {
        "jmavsim"@
    } else if backend_kind(id) == 2 {
        "airsim"@
    } else {
        "gazebo"@
    }
}

/// The label of the backend selected for `id`.
pub open spec fn backend_label(id: Seq<char>) -> Seq<char> {
    if backend_kind(id) == 1 {
        "jMAVSim"@
    } else if backend_kind(id) == 2 {
        "AirSim"@
    } else {
        "Gazebo (gz sim)"@
    }
}

/// Whether the backend selected for `id` can run on this host (AirSim
/// cannot be detected and never counts as available).
pub open spec fn backend_available(id: Seq<char>, env: SimEnv) -> bool {
    if backend_kind(id) == 1 {
        env.px4_makefile && env.java_found
    } else if backend_kind(id) == 2 {
        false
    } else {
        env.px4_makefile && env.gz_found
    }
}

/// The value of an optional string, or a default.
pub open spec fn or_default(o: Option<String>, d: Seq<char>) -> Seq<char> {
    match o {
        Some(s) => s@,
        None => d,
    }
}

fn string_or(o: &Option<String>, d: &str) -> (s: String)
    ensures
        s@ == or_default(*o, d@),
{
    match o {
        Some(s) => s.clone(),
        None => owned(d),
    }
}

/// Join strings with single spaces.
fn join_spaced(args: &Vec<String>) -> (s: Vec<char>)
    ensures
        s@ == joined(strings_view(args@)),
{
    let mut out: Vec<char> = Vec::new();
    let mut i: usize = 0;
    while i < args.len()
        invariant
            i <= args@.len(),
            out@ == joined(strings_view(args@).take(i as int)),
        decreases args@.len() - i,
    {
        let ghost sv = strings_view(args@);
        assert(sv.take(i + 1).drop_last() =~= sv.take(i as int));
        assert(sv.take(i + 1).last() == args@[i as int]@);
        if i > 0 {
            out.push(' ');
        }
        let ghost before = out@;
        push_str_chars(&mut out, args[i].as_str());
        if i == 0 {
            assert(out@ =~= joined(sv.take(1)));
        } else {
            assert(out@ =~= joined(sv.take(i + 1)));
        }
        i = i + 1;
    }
    assert(strings_view(args@).take(i as int) =~= strings_view(args@));
    out
}

impl SimSession {
    /// The log ring holds at most [`LOG_RING_CAP`] lines.
    pub open spec fn wf(&self) -> bool {
        self.logs@.len() <= LOG_RING_CAP
    }

    /// A fresh, idle session; the mock flight is used when no toolchain was
    /// found.
    pub fn new(world: String, vehicle: String, toolchain_ok: bool) -> (s: SimSession)
        ensures
            s.wf(),
            s.phase == Phase::Idle,
            s.mock == !toolchain_ok,
            s.toolchain_ok == toolchain_ok,
            s.world == world,
            s.vehicle == vehicle,
            s.simulator@ == DEFAULT_SIMULATOR@,
            s.pid is None,
            s.message@ == "idle"@,
            s.logs@.len() == 0,
    {
        SimSession {
            phase: Phase::Idle,
            mock: !toolchain_ok,
            toolchain_ok,
            world,
            vehicle,
            simulator: owned(DEFAULT_SIMULATOR),
            pid: None,
            message: owned("idle"),
            logs: LogRing::new(),
        }
    }

    /// Buffer a log line (the oldest is dropped when the ring is full).
    pub fn push_log(&mut self, stream: &'static str, line: String)
        requires
            old(self).wf(),
        ensures
            final(self).wf(),
            final(self).logs@ == (if old(self).logs@.len() >= LOG_RING_CAP {
                old(self).logs@.drop_first()
            } else {
                old(self).logs@
            }).push((stream@, line@)),
            final(self).phase == old(self).phase,
            final(self).mock == old(self).mock,
            final(self).toolchain_ok == old(self).toolchain_ok,
            final(self).world == old(self).world,
            final(self).vehicle == old(self).vehicle,
            final(self).simulator == old(self).simulator,
            final(self).pid == old(self).pid,
            final(self).message == old(self).message,
    {
        self.logs.push(stream, line);
    }

    /// The recent log lines, oldest first.
    pub fn recent_logs(&self) -> (s: &[LogLine])
        ensures
            crate::frames::lines_view(s@) == self.logs@,
    {
        self.logs.lines()
    }

    /// The `make` target for the session's vehicle and world.
    pub fn make_target(&self) -> (t: String)
        ensures
            t@ == target_of(self.vehicle@, self.world@),
    {
        make_target(self.vehicle.as_str(), self.world.as_str())
    }

    /// Enter `phase` with a message and process id. Returns whether the run
    /// has ended (idle or error), so the caller clears its clock and halts
    /// the mock flight.
    pub fn set_phase(&mut self, phase: Phase, message: &str, pid: Option<u32>) -> (ended: bool)
        ensures
            final(self).phase == phase,
            final(self).message@ == message@,
            final(self).pid == pid,
            ended == (phase == Phase::Idle || phase == Phase::Error),
            final(self).world == old(self).world,
            final(self).vehicle == old(self).vehicle,
            final(self).simulator == old(self).simulator,
            final(self).mock == old(self).mock,
            final(self).logs@ == old(self).logs@,
            old(self).wf() ==> final(self).wf(),
    {
        self.phase = phase;
        self.message = owned(message);
        self.pid = pid;
        match phase {
            Phase::Idle | Phase::Error => true,
            _ => false,
        }
    }
}


/// The launch a backend produces (see [`crate::backend::Backend`]'s
/// `launch`): `make px4_sitl <target>` in the PX4 tree for Gazebo,
/// `make px4_sitl jmavsim` for jMAVSim, the AirSim environment binary
/// otherwise; `HEADLESS=1` for the `make` launches when headless.
pub open spec fn launch_ok(kind: int, vehicle: Seq<char>, world: Seq<char>, headless: bool, env: SimEnv, spec: LaunchSpec) -> bool {
    if kind == 1 {
        spec.program@ == "make"@ && crate::backend::sitl_args_ok(spec.args@, "jmavsim"@) && spec.cwd == env.px4_dir
            && crate::backend::headless_env_ok(spec.env@, headless)
    } else if kind == 2 {
        spec.program@ == (if env.airsim_nh_found {
            "AirSimNH"@
        } else {
            "Blocks"@
        }) && spec.args@.len() == 1 && spec.args@[0]@ == "-windowed"@ && spec.cwd is None && spec.env@.len() == 0
    } else {
        spec.program@ == "make"@ && crate::backend::sitl_args_ok(spec.args@, target_of(vehicle, world)) && spec.cwd
            == env.px4_dir && crate::backend::headless_env_ok(spec.env@, headless)
    }
}

/// Announcement of a mock run.
pub open spec fn mock_log(vehicle: Seq<char>, world: Seq<char>) -> Seq<char> {
    "▶ mock simulation started ("@ + vehicle_label_of(vehicle) + " · "@ + world_label_of(world) + ") — target `"@
        + target_of(vehicle, world) + "`"@
}

/// Status message of a mock run.
pub open spec fn mock_message(vehicle: Seq<char>, world: Seq<char>) -> Seq<char> {
    "mock flight — "@ + vehicle_label_of(vehicle) + " on "@ + world_label_of(world)
}

impl SimSession {
    /// Decide a start request. Refused while a run is active. Otherwise the
    /// world, vehicle and simulator are resolved (defaults filling in),
    /// the session is re-seated for the run, and either the mock flight is
    /// started (the session is then `Running`) or the backend's launch is
    /// returned to be spawned (the session is then `Starting`).
    pub fn plan_start(
        &mut self,
        req: StartRequest,
        default_world: &str,
        default_vehicle: &str,
        force_mock: bool,
        env: &SimEnv,
    ) -> (plan: StartPlan)
        requires
            old(self).wf(),
        ensures
            final(self).wf(),
            final(self).logs@ == old(self).logs@,
            final(self).toolchain_ok == old(self).toolchain_ok,
            is_active(old(self).phase) ==> *final(self) == *old(self) && (plan matches StartPlan::Refused(a) && ack_is(
                a,
                "start"@,
                false,
                "a simulation is already running"@,
            )),
            !is_active(old(self).phase) && req.mock == Some(true) ==> final(self).mock && final(self).phase
                == Phase::Running && plan is Mock,
            !is_active(old(self).phase) && req.mock is None && force_mock ==> final(self).mock && plan is Mock,
            !is_active(old(self).phase) && req.mock != Some(true) && !force_mock && backend_available(
                or_default(req.simulator, DEFAULT_SIMULATOR@),
                *env,
            ) ==> !final(self).mock && final(self).phase == Phase::Starting && plan is Real,
            !is_active(old(self).phase) ==> ({
                let world = or_default(req.world, default_world@);
                let vehicle = or_default(req.vehicle, default_vehicle@);
                let sim = or_default(req.simulator, DEFAULT_SIMULATOR@);
                let real_possible = !force_mock && backend_available(sim, *env);
                let mock = uses_mock(req.mock, force_mock, real_possible);
                &&& final(self).world@ == world
                &&& final(self).vehicle@ == vehicle
                &&& final(self).simulator@ == backend_id(sim)
                &&& final(self).mock == mock
                &&& final(self).pid is None
                &&& mock ==> final(self).phase == Phase::Running && final(self).message@ == mock_message(vehicle, world)
                    && (plan matches StartPlan::Mock { fallback, log, ack } && (fallback is Some <==> (req.mock
                    == Some(false) && !real_possible)) && (fallback matches Some(f) ==> f@ == backend_label(sim)
                    + " unavailable — falling back to mock"@) && log@ == mock_log(vehicle, world) && ack_is(
                    ack,
                    "start"@,
                    true,
                    "mock simulation started"@,
                ))
                &&& !mock ==> final(self).phase == Phase::Starting && final(self).message == old(self).message && (
                plan matches StartPlan::Real { spec, invocation, label } && label@ == backend_label(sim) && invocation@
                    == invocation_of(spec.program@, strings_view(spec.args@)) && launch_ok(
                    backend_kind(sim),
                    vehicle,
                    world,
                    match req.headless {
                        Some(h) => h,
                        None => true,
                    },
                    *env,
                    spec,
                ))
            }),
    {
        let active = match self.phase {
            Phase::Starting | Phase::Running | Phase::Stopping => true,
            _ => false,
        };
        if active {
            return StartPlan::Refused(ack("start", false, "a simulation is already running"));
        }
        let world = string_or(&req.world, default_world);
        let vehicle = string_or(&req.vehicle, default_vehicle);
        let sim_id = string_or(&req.simulator, DEFAULT_SIMULATOR);
        let headless = match req.headless {
            Some(h) => h,
            None => true,
        };
        let sim = backend(sim_id.as_str());
        let real_possible = !force_mock && sim.available(env);
        let mut fallback: Option<String> = None;
        let use_mock = match req.mock {
            Some(true) => true,
            Some(false) => {
                if real_possible {
                    false
                } else {
                    let mut f = chars_of(sim.label());
                    push_str_chars(&mut f, " unavailable — falling back to mock");
                    fallback = Some(string_of(f.as_slice()));
                    true
                }
            },
            None => force_mock || !real_possible,
        };
        self.world = world.clone();
        self.vehicle = vehicle.clone();
        self.simulator = owned(sim.id());
        self.mock = use_mock;
        self.phase = Phase::Starting;
        self.pid = None;
        let target = make_target(vehicle.as_str(), world.as_str());
        if use_mock {
            let vl = vehicle_label(vehicle.as_str());
            let wl = world_label(world.as_str());
            self.phase = Phase::Running;
            let mut m = chars_of("mock flight — ");
            push_str_chars(&mut m, vl);
            push_str_chars(&mut m, " on ");
            push_str_chars(&mut m, wl);
            self.message = string_of(m.as_slice());
            let mut l = chars_of("▶ mock simulation started (");
            push_str_chars(&mut l, vl);
            push_str_chars(&mut l, " · ");
            push_str_chars(&mut l, wl);
            push_str_chars(&mut l, ") — target `");
            push_str_chars(&mut l, target.as_str());
            push_str_chars(&mut l, "`");
            return StartPlan::Mock {
                fallback,
                log: string_of(l.as_slice()),
                ack: ack("start", true, "mock simulation started"),
            };
        }
        let spec = sim.launch(vehicle.as_str(), world.as_str(), headless, env);
        let mut inv = chars_of(spec.program.as_str());
        inv.push(' ');
        let joined_args = join_spaced(&spec.args);
        push_chars(&mut inv, joined_args.as_slice());
        StartPlan::Real { spec, invocation: string_of(inv.as_slice()), label: sim.label() }
    }
}


/// What a mission-REPL line asks for.
pub enum MissionRoute {
    /// Refused: no simulation is running.
    Refused(AckFrame),
    /// The mock autopilot interprets the line.
    ToPilot,
    /// A real simulator runs: the line is logged as `note` and not forwarded.
    Ignored { note: String, ack: AckFrame },
}

/// The note for a REPL line a real simulator run does not forward.
pub open spec fn ignored_note(text: Seq<char>) -> Seq<char> {
    "REPL forwarding to live MAVLink not yet wired — ignored `"@ + text + "`"@
}

/// The status message of a launched simulator.
pub open spec fn running_message(invocation: Seq<char>, pid: Option<u32>) -> Seq<char> {
    "running `"@ + invocation + "` (pid "@ + crate::text::decimal(
        match pid {
            Some(p) => p as nat,
            None => 0,
        },
    ) + ")"@
}

impl SimSession {
    /// The simulator process was spawned: the run is `Running` with its
    /// pid. Returns the log line and the acknowledgement.
    pub fn launched(&mut self, pid: Option<u32>, invocation: &str, label: &str) -> (r: (String, AckFrame))
        requires
            old(self).wf(),
        ensures
            final(self).wf(),
            final(self).phase == Phase::Running,
            final(self).pid == pid,
            final(self).message@ == running_message(invocation@, pid),
            final(self).world == old(self).world,
            final(self).vehicle == old(self).vehicle,
            final(self).mock == old(self).mock,
            final(self).logs@ == old(self).logs@,
            r.0@ == "▶ launched `"@ + invocation@ + "` ("@ + label@ + ")"@,
            ack_is(r.1, "start"@, true, "started `"@ + invocation@ + "`"@),
    {
        let mut m = chars_of("running `");
        push_str_chars(&mut m, invocation);
        push_str_chars(&mut m, "` (pid ");
        let p: u64 = match pid {
            Some(p) => p as u64,
            None => 0,
        };
        push_decimal(&mut m, p);
        push_str_chars(&mut m, ")");
        let msg = string_of(m.as_slice());
        self.phase = Phase::Running;
        self.pid = pid;
        self.message = msg;
        let mut l = chars_of("▶ launched `");
        push_str_chars(&mut l, invocation);
        push_str_chars(&mut l, "` (");
        push_str_chars(&mut l, label);
        push_str_chars(&mut l, ")");
        let mut a = chars_of("started `");
        push_str_chars(&mut a, invocation);
        push_str_chars(&mut a, "`");
        let am = string_of(a.as_slice());
        (string_of(l.as_slice()), ack("start", true, am.as_str()))
    }

    /// The run failed with `msg`: the session enters `Error`. Returns the
    /// log line.
    pub fn fail(&mut self, msg: &str) -> (line: String)
        requires
            old(self).wf(),
        ensures
            final(self).wf(),
            final(self).phase == Phase::Error,
            final(self).message@ == msg@,
            final(self).pid is None,
            final(self).logs@ == old(self).logs@,
            line@ == "✖ "@ + msg@,
    {
        self.set_phase(Phase::Error, msg, None);
        let mut l = chars_of("✖ ");
        push_str_chars(&mut l, msg);
        string_of(l.as_slice())
    }

    /// A stop request: answered at once when nothing runs; otherwise the
    /// session enters `Stopping` and the caller tears the run down and calls
    /// [`Self::finish_stop`].
    pub fn begin_stop(&mut self) -> (r: Option<AckFrame>)
        ensures
            (old(self).phase == Phase::Idle || old(self).phase == Phase::Error) ==> *final(self) == *old(self) && (r matches Some(
                a,
            ) && ack_is(a, "stop"@, true, "already stopped"@)),
            !(old(self).phase == Phase::Idle || old(self).phase == Phase::Error) ==> r is None && final(self).phase
                == Phase::Stopping && final(self).message@ == "stopping…"@ && final(self).pid == old(self).pid
                && final(self).logs@ == old(self).logs@,
            old(self).wf() ==> final(self).wf(),
    {
        let stopped = match self.phase {
            Phase::Idle | Phase::Error => true,
            _ => false,
        };
        if stopped {
            return Some(ack("stop", true, "already stopped"));
        }
        self.phase = Phase::Stopping;
        self.message = owned("stopping…");
        None
    }

    /// The run was torn down for `reason`: back to idle. Returns the log
    /// line and the acknowledgement.
    pub fn finish_stop(&mut self, reason: &str) -> (r: (String, AckFrame))
        requires
            old(self).wf(),
        ensures
            final(self).wf(),
            final(self).phase == Phase::Idle,
            final(self).pid is None,
            final(self).message@ == reason@,
            final(self).logs@ == old(self).logs@,
            r.0@ == "■ "@ + reason@,
            ack_is(r.1, "stop"@, true, reason@),
    {
        self.set_phase(Phase::Idle, reason, None);
        let mut l = chars_of("■ ");
        push_str_chars(&mut l, reason);
        (string_of(l.as_slice()), ack("stop", true, reason))
    }

    /// Route a mission-REPL line.
    pub fn mission(&self, text: &str) -> (r: MissionRoute)
        ensures
            self.phase != Phase::Running ==> (r matches MissionRoute::Refused(a) && ack_is(
                a,
                "send_mavlink"@,
                false,
                "no simulation running"@,
            )),
            self.phase == Phase::Running && self.mock ==> r is ToPilot,
            self.phase == Phase::Running && !self.mock ==> (r matches MissionRoute::Ignored { note, ack } && note@
                == ignored_note(text@) && ack_is(ack, "send_mavlink"@, true, ignored_note(text@))),
    {
        let running = match self.phase {
            Phase::Running => true,
            _ => false,
        };
        if !running {
            return MissionRoute::Refused(ack("send_mavlink", false, "no simulation running"));
        }
        if self.mock {
            MissionRoute::ToPilot
        } else {
            let mut n = chars_of("REPL forwarding to live MAVLink not yet wired — ignored `");
            push_str_chars(&mut n, text);
            push_str_chars(&mut n, "`");
            let note = string_of(n.as_slice());
            let a = ack("send_mavlink", true, note.as_str());
            MissionRoute::Ignored { note, ack: a }
        }
    }
}


/// Flight mode of the built-in mock autopilot.
#[derive(Clone, Copy, PartialEq, Eq, Debug, Structural)]
pub enum FlightMode {
    Idle,
    Takeoff,
    Hold,
    Goto,
    Land,
    Rtl,
    Orbit,
}

/// Wire name of a mock flight mode.
pub open spec fn flight_mode_name(m: FlightMode) -> Seq<char> {
    match m {
        FlightMode::Idle => "IDLE"@,
        FlightMode::Takeoff => "TAKEOFF"@,
        FlightMode::Hold => "HOLD"@,
        FlightMode::Goto => "GOTO"@,
        FlightMode::Land => "LAND"@,
        FlightMode::Rtl => "RTL"@,
        FlightMode::Orbit => "ORBIT"@,
    }
}

impl FlightMode {
    /// Wire name of the mode.
    pub fn as_str(self) -> (s: &'static str)
        ensures
            s@ == flight_mode_name(self),
    {
        match self {
            FlightMode::Idle => "IDLE",
            FlightMode::Takeoff => "TAKEOFF",
            FlightMode::Hold => "HOLD",
            FlightMode::Goto => "GOTO",
            FlightMode::Land => "LAND",
            FlightMode::Rtl => "RTL",
            FlightMode::Orbit => "ORBIT",
        }
    }
}

/// ASCII lowercase of a character (others unchanged).
pub open spec fn ascii_lower(c: char) -> char {
    if 'A' <= c && c <= 'Z' {
        ((c as u32) + 32) as char
    } else {
        c
    }
}

/// Whether a configuration value means "on": `1`, `true`, `yes` or `on`,
/// ignoring surrounding whitespace and ASCII case.
pub open spec fn truthy(v: Seq<char>) -> bool {
    let t = crate::text::trim(v).map_values(|c: char| ascii_lower(c));
    t == "1"@ || t == "true"@ || t == "yes"@ || t == "on"@
}

/// Whether a configuration value means "on" (see [`truthy`]).
pub fn is_truthy(v: &str) -> (b: bool)
    ensures
        b == truthy(v@),
{
    let t = crate::text::trim_chars(chars_of(v).as_slice());
    let mut low: Vec<char> = Vec::new();
    let mut i: usize = 0;
    while i < t.len()
        invariant
            i <= t@.len(),
            low@ == t@.take(i as int).map_values(|c: char| ascii_lower(c)),
        decreases t@.len() - i,
    {
        let c = t[i];
        let l = if 'A' <= c && c <= 'Z' {
            ((c as u32) + 32) as u8 as char
        } else {
            c
        };
        assert(l == ascii_lower(c)) by {
            if 'A' <= c && c <= 'Z' {
                assert(((c as u32) + 32) < 128);
            }
        }
        low.push(l);
        assert(low@ =~= t@.take(i + 1).map_values(|c: char| ascii_lower(c)));
        i = i + 1;
    }
    assert(t@.take(i as int) =~= t@);
    let s = low.as_slice();
    crate::text::chars_eq(s, chars_of("1").as_slice()) || crate::text::chars_eq(s, chars_of("true").as_slice())
        || crate::text::chars_eq(s, chars_of("yes").as_slice()) || crate::text::chars_eq(s, chars_of("on").as_slice())
}


/// A mission-REPL verb of the mock autopilot.
#[derive(Clone, Copy, PartialEq, Eq, Debug, Structural)]
pub enum MissionVerb {
    Arm,
    Disarm,
    Takeoff,
    Hold,
    Goto,
    Orbit,
    Land,
    Rtl,
    Unknown,
}

/// The verb a (lowercase) word names, with its aliases.
pub open spec fn verb_of(w: Seq<char>) -> MissionVerb {
    if w == "arm"@ {
        MissionVerb::Arm
    } else if w == "disarm"@ {
        MissionVerb::Disarm
    } else if w == "takeoff"@ || w == "to"@ {
        MissionVerb::Takeoff
    } else if w == "hold"@ || w == "loiter"@ || w == "pause"@ {
        MissionVerb::Hold
    } else if w == "goto"@ || w == "go"@ {
        MissionVerb::Goto
    } else if w == "orbit"@ || w == "auto"@ || w == "mission"@ {
        MissionVerb::Orbit
    } else if w == "land"@ {
        MissionVerb::Land
    } else if w == "rtl"@ || w == "home"@ {
        MissionVerb::Rtl
    } else {
        MissionVerb::Unknown
    }
}

/// Classify a mission-REPL verb.
pub fn mission_verb(w: &str) -> (v: MissionVerb)
    ensures
        v == verb_of(w@),
{
    let eq = |lit: &str| -> (b: bool)
        ensures
            b == (w@ == lit@),
        { crate::text::str_eq(w, lit) };
    if eq("arm") {
        MissionVerb::Arm
    } else if eq("disarm") {
        MissionVerb::Disarm
    } else if eq("takeoff") || eq("to") {
        MissionVerb::Takeoff
    } else if eq("hold") || eq("loiter") || eq("pause") {
        MissionVerb::Hold
    } else if eq("goto") || eq("go") {
        MissionVerb::Goto
    } else if eq("orbit") || eq("auto") || eq("mission") {
        MissionVerb::Orbit
    } else if eq("land") {
        MissionVerb::Land
    } else if eq("rtl") || eq("home") {
        MissionVerb::Rtl
    } else {
        MissionVerb::Unknown
    }
}

/// Length and first three characters of a word: enough to tell the verb
/// words apart.
spec fn word_sig(w: Seq<char>) -> (int, char, char, char) {
    (
        w.len() as int,
        if w.len() > 0 { w[0] } else { ' ' },
        if w.len() > 1 { w[1] } else { ' ' },
        if w.len() > 2 { w[2] } else { ' ' },
    )
}

/// Law: each verb is named by exactly its words: `arm`; `disarm`;
/// `takeoff` or `to`; `hold`, `loiter` or `pause`; `goto` or `go`; `orbit`,
/// `auto` or `mission`; `land`; `rtl` or `home`. Every other word is unknown.
pub proof fn lemma_verb_words(w: Seq<char>)
    ensures
        (verb_of(w) == MissionVerb::Arm) == (w == "arm"@),
        (verb_of(w) == MissionVerb::Disarm) == (w == "disarm"@),
        (verb_of(w) == MissionVerb::Takeoff) == (w == "takeoff"@ || w == "to"@),
        (verb_of(w) == MissionVerb::Hold) == (w == "hold"@ || w == "loiter"@ || w == "pause"@),
        (verb_of(w) == MissionVerb::Goto) == (w == "goto"@ || w == "go"@),
        (verb_of(w) == MissionVerb::Orbit) == (w == "orbit"@ || w == "auto"@ || w == "mission"@),
        (verb_of(w) == MissionVerb::Land) == (w == "land"@),
        (verb_of(w) == MissionVerb::Rtl) == (w == "rtl"@ || w == "home"@),
{
    reveal_strlit("arm");
    assert(word_sig("arm"@) == (3int, 'a', 'r', 'm'));
    reveal_strlit("disarm");
    assert(word_sig("disarm"@) == (6int, 'd', 'i', 's'));
    reveal_strlit("takeoff");
    assert(word_sig("takeoff"@) == (7int, 't', 'a', 'k'));
    reveal_strlit("to");
    assert(word_sig("to"@) == (2int, 't', 'o', ' '));
    reveal_strlit("hold");
    assert(word_sig("hold"@) == (4int, 'h', 'o', 'l'));
    reveal_strlit("loiter");
    assert(word_sig("loiter"@) == (6int, 'l', 'o', 'i'));
    reveal_strlit("pause");
    assert(word_sig("pause"@) == (5int, 'p', 'a', 'u'));
    reveal_strlit("goto");
    assert(word_sig("goto"@) == (4int, 'g', 'o', 't'));
    reveal_strlit("go");
    assert(word_sig("go"@) == (2int, 'g', 'o', ' '));
    reveal_strlit("orbit");
    assert(word_sig("orbit"@) == (5int, 'o', 'r', 'b'));
    reveal_strlit("auto");
    assert(word_sig("auto"@) == (4int, 'a', 'u', 't'));
    reveal_strlit("mission");
    assert(word_sig("mission"@) == (7int, 'm', 'i', 's'));
    reveal_strlit("land");
    assert(word_sig("land"@) == (4int, 'l', 'a', 'n'));
    reveal_strlit("rtl");
    assert(word_sig("rtl"@) == (3int, 'r', 't', 'l'));
    reveal_strlit("home");
    assert(word_sig("home"@) == (4int, 'h', 'o', 'm'));
}

/// Whitespace-separated words of `cs` (`str::split_whitespace`): the
/// non-empty pieces between runs of whitespace, in order.
pub open spec fn words(cs: Seq<char>) -> Seq<Seq<char>>
    decreases cs.len(),
{
    if cs.len() == 0 {
        seq![]
    } else {
        let prev = words(cs.drop_last());
        let c = cs.last();
        let starts_word = cs.len() == 1 || crate::text::is_ws(cs[cs.len() - 2]);
        if crate::text::is_ws(c) {
            prev
        } else if starts_word {
            prev.push(seq![c])
        } else {
            prev.update(prev.len() - 1, prev.last().push(c))
        }
    }
}

/// The whitespace-separated words of a line.
pub fn split_words(text: &str) -> (ws: Vec<Vec<char>>)
    ensures
        crate::text::views(ws@) == words(text@),
{
    let cs = chars_of(text);
    let mut out: Vec<Vec<char>> = Vec::new();
    let mut i: usize = 0;
    while i < cs.len()
        invariant
            i <= cs@.len(),
            cs@ == text@,
            crate::text::views(out@) == words(cs@.take(i as int)),
            i > 0 && !crate::text::is_ws(cs@[i - 1]) ==> out@.len() > 0,
        decreases cs@.len() - i,
    {
        let ghost t = cs@.take(i + 1);
        assert(t.drop_last() =~= cs@.take(i as int));
        assert(t.last() == cs@[i as int]);
        let c = cs[i];
        let ghost before = out@;
        if crate::text::char_is_ws(c) {
        } else if i == 0 || crate::text::char_is_ws(cs[i - 1]) {
            let mut w: Vec<char> = Vec::new();
            w.push(c);
            out.push(w);
            assert(crate::text::views(out@) =~= crate::text::views(before).push(seq![c]));
        } else {
            let n = out.len();
            let mut w: Vec<char> = Vec::new();
            std::mem::swap(&mut w, &mut out[n - 1]);
            let ghost wv = w@;
            w.push(c);
            out.set(n - 1, w);
            assert(crate::text::views(before)[n - 1] == wv);
            assert(crate::text::views(out@) =~= crate::text::views(before).update(n - 1, wv.push(c)));
        }
        i = i + 1;
    }
    assert(cs@.take(i as int) =~= cs@);
    out
}

} // verus!

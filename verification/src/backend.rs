//! Simulator-agnostic launch backends.
//!
//! A [`SimControl`] implementation knows whether its simulator can run on
//! this host and how to launch it (Gazebo, jMAVSim, AirSim). The manager picks
//! one by id; whichever is selected produces a [`LaunchSpec`] the process
//! layer runs, or — when unavailable — the built-in mock flight takes over.
//!
//! What the host offers (a PX4 source tree with a `Makefile`, binaries on
//! `PATH`) is probed by the caller and handed in through [`SimEnv`].

use vstd::prelude::*;

use crate::text::owned;
use crate::worlds::{make_target, target_of, CatalogEntry};

verus! {

broadcast use vstd::string::group_string_axioms;

/// Everything a backend needs to detect/launch a simulator.
pub struct SimEnv {
    /// PX4-Autopilot source tree, if configured.
    pub px4_dir: Option<String>,
    /// Gazebo binary name or path.
    pub gz_bin: String,
    /// `px4_dir` is set and holds a `Makefile`.
    pub px4_makefile: bool,
    /// `gz_bin` resolves to a file (on `PATH`, or as a path).
    pub gz_found: bool,
    /// `java` is on `PATH`.
    pub java_found: bool,
    /// `AirSimNH` is on `PATH`.
    pub airsim_nh_found: bool,
    /// `Blocks` is on `PATH`.
    pub blocks_found: bool,
}

/// A concrete process invocation.
pub struct LaunchSpec {
    pub program: String,
    pub args: Vec<String>,
    pub cwd: Option<String>,
    pub env: Vec<(String, String)>,
}

/// A simulator backend.
pub trait SimControl {
    fn id(&self) -> &'static str;

    fn label(&self) -> &'static str;

    /// Whether this simulator can actually run on this host.
    fn available(&self, env: &SimEnv) -> bool;

    /// Build the launch invocation for a vehicle/world.
    fn launch(&self, vehicle: &str, world: &str, headless: bool, env: &SimEnv) -> LaunchSpec;
}

/// The environment of a launch: `HEADLESS=1` when headless, nothing otherwise.
pub open spec fn headless_env_ok(env: Seq<(String, String)>, headless: bool) -> bool {
    if headless {
        env.len() == 1 && env[0].0@ == "HEADLESS"@ && env[0].1@ == "1"@
    } else {
        env.len() == 0
    }
}

/// Whether the arguments are exactly `make`'s `px4_sitl <target>`.
pub open spec fn sitl_args_ok(args: Seq<String>, target: Seq<char>) -> bool {
    args.len() == 2 && args[0]@ == "px4_sitl"@ && args[1]@ == target
}

fn headless_env(headless: bool) -> (e: Vec<(String, String)>)
    ensures
        headless_env_ok(e@, headless),
{
    let mut e: Vec<(String, String)> = Vec::new();
    if headless {
        e.push((owned("HEADLESS"), owned("1")));
    }
    e
}

fn clone_opt(s: &Option<String>) -> (r: Option<String>)
    ensures
        r == *s,
{
    match s {
        Some(x) => Some(x.clone()),
        None => None,
    }
}

/// PX4 SITL + Gazebo (`gz sim`), the primary target.
pub struct Gazebo;

impl SimControl for Gazebo {
    fn id(&self) -> (r: &'static str)
        ensures
            r@ == "gazebo"@,
    {
        "gazebo"
    }

    fn label(&self) -> (r: &'static str)
        ensures
            r@ == "Gazebo (gz sim)"@,
    {
        "Gazebo (gz sim)"
    }

    fn available(&self, env: &SimEnv) -> (b: bool)
        ensures
            b == (env.px4_makefile && env.gz_found),
    {
        env.px4_makefile && env.gz_found
    }

    fn launch(&self, vehicle: &str, world: &str, headless: bool, env: &SimEnv) -> (spec: LaunchSpec)
        ensures
            spec.program@ == "make"@,
            sitl_args_ok(spec.args@, target_of(vehicle@, world@)),
            spec.cwd == env.px4_dir,
            headless_env_ok(spec.env@, headless),
    {
        let mut args: Vec<String> = Vec::new();
        args.push(owned("px4_sitl"));
        args.push(make_target(vehicle, world));
        LaunchSpec {
            program: owned("make"),
            args,
            cwd: clone_opt(&env.px4_dir),
            env: headless_env(headless),
        }
    }
}

/// jMAVSim, a lightweight Java quadrotor simulator.
pub struct Jmavsim;

impl SimControl for Jmavsim {
    fn id(&self) -> (r: &'static str)
        ensures
            r@ == "jmavsim"@,
    {
        "jmavsim"
    }

    fn label(&self) -> (r: &'static str)
        ensures
            r@ == "jMAVSim"@,
    {
        "jMAVSim"
    }

    fn available(&self, env: &SimEnv) -> (b: bool)
        ensures
            b == (env.px4_makefile && env.java_found),
    {
        env.px4_makefile && env.java_found
    }

    /// jMAVSim is quadrotor-only (iris); world/vehicle are not parameterised.
    fn launch(&self, vehicle: &str, world: &str, headless: bool, env: &SimEnv) -> (spec: LaunchSpec)
        ensures
            spec.program@ == "make"@,
            sitl_args_ok(spec.args@, "jmavsim"@),
            spec.cwd == env.px4_dir,
            headless_env_ok(spec.env@, headless),
    {
        let mut args: Vec<String> = Vec::new();
        args.push(owned("px4_sitl"));
        args.push(owned("jmavsim"));
        LaunchSpec {
            program: owned("make"),
            args,
            cwd: clone_opt(&env.px4_dir),
            env: headless_env(headless),
        }
    }
}

/// AirSim, the Unreal-based photorealistic simulator.
pub struct Airsim;

impl SimControl for Airsim {
    fn id(&self) -> (r: &'static str)
        ensures
            r@ == "airsim"@,
    {
        "airsim"
    }

    fn label(&self) -> (r: &'static str)
        ensures
            r@ == "AirSim"@,
    {
        "AirSim"
    }

    /// AirSim ships as a prebuilt environment binary that varies per project,
    /// so it cannot be reliably detected: it always reports unavailable and
    /// the mock flight is used instead. The launch stays in place for hosts
    /// that have it.
    fn available(&self, env: &SimEnv) -> (b: bool)
        ensures
            b == false,
    {
        false
    }

    fn launch(&self, vehicle: &str, world: &str, headless: bool, env: &SimEnv) -> (spec: LaunchSpec)
        ensures
            spec.program@ == (if env.airsim_nh_found {
                "AirSimNH"@
            } else {
                "Blocks"@
            }),
            spec.args@.len() == 1 && spec.args@[0]@ == "-windowed"@,
            spec.cwd is None,
            spec.env@.len() == 0,
    {
        let program = if env.airsim_nh_found {
            owned("AirSimNH")
        } else {
            owned("Blocks")
        };
        let mut args: Vec<String> = Vec::new();
        args.push(owned("-windowed"));
        LaunchSpec { program, args, cwd: None, env: Vec::new() }
    }
}

/// The backend selected by an id.
pub enum Backend {
    Gazebo(Gazebo),
    Jmavsim(Jmavsim),
    Airsim(Airsim),
}

/// Backend kind chosen for an id: `jmavsim`, `airsim`, otherwise Gazebo.
pub open spec fn backend_kind(id: Seq<char>) -> int {
    if id == "jmavsim"@ {
        1
    } else if id == "airsim"@ {
        2
    } else {
        0
    }
}

impl Backend {
    /// Which backend this is: 0 Gazebo, 1 jMAVSim, 2 AirSim.
    pub open spec fn kind(&self) -> int {
        match self {
            Backend::Gazebo(_) => 0,
            Backend::Jmavsim(_) => 1,
            Backend::Airsim(_) => 2,
        }
    }
}

impl SimControl for Backend {
    fn id(&self) -> (r: &'static str)
        ensures
            r@ == (if self.kind() == 1 {
                "jmavsim"@
            } else if self.kind() == 2 {
                "airsim"@
            } else {
                "gazebo"@
            }),
    {
        match self {
            Backend::Gazebo(g) => g.id(),
            Backend::Jmavsim(j) => j.id(),
            Backend::Airsim(a) => a.id(),
        }
    }

    fn label(&self) -> (r: &'static str)
        ensures
            r@ == (if self.kind() == 1 {
                "jMAVSim"@
            } else if self.kind() == 2 {
                "AirSim"@
            } else {
                "Gazebo (gz sim)"@
            }),
    {
        match self {
            Backend::Gazebo(g) => g.label(),
            Backend::Jmavsim(j) => j.label(),
            Backend::Airsim(a) => a.label(),
        }
    }

    fn available(&self, env: &SimEnv) -> (b: bool)
        ensures
            b == (if self.kind() == 1 {
                env.px4_makefile && env.java_found
            } else if self.kind() == 2 {
                false
            } else {
                env.px4_makefile && env.gz_found
            }),
    {
        match self {
            Backend::Gazebo(g) => g.available(env),
            Backend::Jmavsim(j) => j.available(env),
            Backend::Airsim(a) => a.available(env),
        }
    }

    fn launch(&self, vehicle: &str, world: &str, headless: bool, env: &SimEnv) -> (spec: LaunchSpec)
        ensures
            self.kind() == 0 ==> spec.program@ == "make"@ && sitl_args_ok(
                spec.args@,
                target_of(vehicle@, world@),
            ) && spec.cwd == env.px4_dir && headless_env_ok(spec.env@, headless),
            self.kind() == 1 ==> spec.program@ == "make"@ && sitl_args_ok(spec.args@, "jmavsim"@)
                && spec.cwd == env.px4_dir && headless_env_ok(spec.env@, headless),
            self.kind() == 2 ==> spec.program@ == (if env.airsim_nh_found {
                "AirSimNH"@
            } else {
                "Blocks"@
            }) && spec.args@.len() == 1 && spec.args@[0]@ == "-windowed"@ && spec.cwd is None
                && spec.env@.len() == 0,
    {
        match self {
            Backend::Gazebo(g) => g.launch(vehicle, world, headless, env),
            Backend::Jmavsim(j) => j.launch(vehicle, world, headless, env),
            Backend::Airsim(a) => a.launch(vehicle, world, headless, env),
        }
    }
}

/// Resolve a backend by id (defaults to Gazebo).
pub fn backend(id: &str) -> (b: Backend)
    ensures
        b.kind() == backend_kind(id@),
{
    if crate::text::str_eq(id, "jmavsim") {
        Backend::Jmavsim(Jmavsim)
    } else if crate::text::str_eq(id, "airsim") {
        Backend::Airsim(Airsim)
    } else {
        Backend::Gazebo(Gazebo)
    }
}

/// The simulator catalogue for the panel picker.
pub fn simulators() -> (v: Vec<CatalogEntry>)
    ensures
        v@.len() == 3,
        v@[0].id@ == "gazebo"@ && v@[0].label@ == "Gazebo (gz sim)"@,
        v@[1].id@ == "jmavsim"@ && v@[1].label@ == "jMAVSim"@,
        v@[2].id@ == "airsim"@ && v@[2].label@ == "AirSim"@,
        forall|i: int| 0 <= i < 3 ==> (#[trigger] v@[i]).class@ == ""@,
        forall|i: int| 0 <= i < 3 ==> backend_kind((#[trigger] v@[i]).id@) == i,
{
    proof {
        reveal_strlit("gazebo");
        reveal_strlit("jmavsim");
        reveal_strlit("airsim");
        assert("gazebo"@.len() == 6);
        assert("jmavsim"@.len() == 7);
        assert("airsim"@.len() == 6);
        assert("gazebo"@[0] == 'g');
        assert("airsim"@[0] == 'a');
    }
    vec![
        CatalogEntry {
            id: "gazebo",
            label: "Gazebo (gz sim)",
            description: "PX4 SITL + Gazebo — the primary target.",
            class: "",
        },
        CatalogEntry {
            id: "jmavsim",
            label: "jMAVSim",
            description: "Lightweight Java quadrotor simulator.",
            class: "",
        },
        CatalogEntry {
            id: "airsim",
            label: "AirSim",
            description: "Unreal-based photorealistic simulator.",
            class: "",
        },
    ]
}

/// Law: every simulator in the catalogue resolves to the backend that reports
/// the same id, so picking an entry launches the simulator it names.
pub proof fn lemma_catalogue_ids_resolve(id: Seq<char>)
    requires
        id == "gazebo"@ || id == "jmavsim"@ || id == "airsim"@,
    ensures
        (backend_kind(id) == 1) == (id == "jmavsim"@),
        (backend_kind(id) == 2) == (id == "airsim"@),
        (backend_kind(id) == 0) == (id == "gazebo"@),
{
    reveal_strlit("gazebo");
    reveal_strlit("jmavsim");
    reveal_strlit("airsim");
    assert("gazebo"@.len() == 6);
    assert("jmavsim"@.len() == 7);
    assert("airsim"@.len() == 6);
    assert("gazebo"@[0] == 'g');
    assert("airsim"@[0] == 'a');
}

} // verus!

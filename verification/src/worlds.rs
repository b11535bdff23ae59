//! Catalogue of PX4-SITL/Gazebo worlds and vehicles offered in the pickers,
//! plus the `make` target each combination maps to.
//!
//! PX4's Gazebo SITL targets follow the shape `gz_<vehicle>[_<world>]`, e.g.
//! `make px4_sitl gz_x500` (default world) or `make px4_sitl gz_x500_baylands`.
//! The default empty world has no suffix.

use vstd::prelude::*;

use crate::text::{chars_of, push_str_chars, str_eq, string_of};

verus! {

broadcast use vstd::string::group_string_axioms;

/// A world offered in the picker.
pub struct World {
    pub id: &'static str,
    pub label: &'static str,
    /// Target suffix appended after the vehicle, or empty for the default world.
    pub target_suffix: &'static str,
    pub description: &'static str,
}

/// A vehicle offered in the picker.
pub struct Vehicle {
    pub id: &'static str,
    pub label: &'static str,
    /// PX4 Gazebo model name used in the make target (after the `gz_` prefix).
    pub model: &'static str,
    /// Vehicle class / profile: multirotor | vtol | fixedwing | rover.
    pub class: &'static str,
    pub description: &'static str,
}

/// One entry of a picker catalogue (world, vehicle or simulator).
pub struct CatalogEntry {
    pub id: &'static str,
    pub label: &'static str,
    pub description: &'static str,
    /// Vehicle class for per-vehicle profiles; empty for worlds/simulators.
    pub class: &'static str,
}

pub const DEFAULT_WORLD: &'static str = "default";

pub const DEFAULT_VEHICLE: &'static str = "x500";

pub const DEFAULT_SIMULATOR: &'static str = "gazebo";

/// Gazebo model of a vehicle id (unknown ids use the default vehicle).
pub open spec fn vehicle_model(id: Seq<char>) -> Seq<char> {
    if id == "standard_vtol"@ {
        "standard_vtol"@
    } else if id == "rc_cessna"@ {
        "rc_cessna"@
    } else if id == "r1_rover"@ {
        "r1_rover"@
    } else {
        "x500"@
    }
}

/// Make-target suffix of a world id; `None` for the default world and for
/// unknown ids (both have no suffix).
pub open spec fn world_suffix(id: Seq<char>) -> Option<Seq<char>> {
    if id == "baylands"@ {
        Some("baylands"@)
    } else if id == "windy"@ {
        Some("windy"@)
    } else if id == "lawn"@ {
        Some("lawn"@)
    } else {
        None
    }
}

/// The `make px4_sitl <target>` argument for a vehicle/world pair.
pub open spec fn target_of(vehicle: Seq<char>, world: Seq<char>) -> Seq<char> {
    match world_suffix(world) {
        None => "gz_"@ + vehicle_model(vehicle),
        Some(sfx) => "gz_"@ + vehicle_model(vehicle) + "_"@ + sfx,
    }
}

/// Display label of a world id (unknown ids use the default world's label).
pub open spec fn world_label_of(id: Seq<char>) -> Seq<char> {
    if id == "baylands"@ {
        "Baylands"@
    } else if id == "windy"@ {
        "Windy"@
    } else if id == "lawn"@ {
        "Lawn"@
    } else {
        "Default (empty)"@
    }
}

/// Display label of a vehicle id (unknown ids use the default vehicle's label).
pub open spec fn vehicle_label_of(id: Seq<char>) -> Seq<char> {
    if id == "standard_vtol"@ {
        "Standard VTOL"@
    } else if id == "rc_cessna"@ {
        "RC Cessna (plane)"@
    } else if id == "r1_rover"@ {
        "R1 Rover"@
    } else {
        "x500 Quadcopter"@
    }
}

/// Whether a vehicle id names a ground vehicle.
pub open spec fn is_ground(id: Seq<char>) -> bool {
    id == "r1_rover"@
}

fn vehicle_model_str(vehicle_id: &str) -> (m: &'static str)
    ensures
        m@ == vehicle_model(vehicle_id@),
{
    if str_eq(vehicle_id, "standard_vtol") {
        "standard_vtol"
    } else if str_eq(vehicle_id, "rc_cessna") {
        "rc_cessna"
    } else if str_eq(vehicle_id, "r1_rover") {
        "r1_rover"
    } else {
        "x500"
    }
}

fn world_suffix_str(world_id: &str) -> (s: Option<&'static str>)
    ensures
        match s {
            Some(x) => world_suffix(world_id@) == Some(x@),
            None => world_suffix(world_id@) is None,
        },
{
    if str_eq(world_id, "baylands") {
        Some("baylands")
    } else if str_eq(world_id, "windy") {
        Some("windy")
    } else if str_eq(world_id, "lawn") {
        Some("lawn")
    } else {
        None
    }
}

/// Resolve the `make px4_sitl <target>` argument for a world/vehicle pair,
/// falling back to defaults for unknown ids.
pub fn make_target(vehicle_id: &str, world_id: &str) -> (t: String)
    ensures
        t@ == target_of(vehicle_id@, world_id@),
{
    let model = vehicle_model_str(vehicle_id);
    let mut out: Vec<char> = chars_of("gz_");
    push_str_chars(&mut out, model);
    match world_suffix_str(world_id) {
        Some(sfx) => {
            push_str_chars(&mut out, "_");
            push_str_chars(&mut out, sfx);
        },
        None => {},
    }
    string_of(out.as_slice())
}

/// Look up a world's display label (for status/log messages).
pub fn world_label(world_id: &str) -> (l: &'static str)
    ensures
        l@ == world_label_of(world_id@),
{
    if str_eq(world_id, "baylands") {
        "Baylands"
    } else if str_eq(world_id, "windy") {
        "Windy"
    } else if str_eq(world_id, "lawn") {
        "Lawn"
    } else {
        "Default (empty)"
    }
}

/// Look up a vehicle's display label.
pub fn vehicle_label(vehicle_id: &str) -> (l: &'static str)
    ensures
        l@ == vehicle_label_of(vehicle_id@),
{
    if str_eq(vehicle_id, "standard_vtol") {
        "Standard VTOL"
    } else if str_eq(vehicle_id, "rc_cessna") {
        "RC Cessna (plane)"
    } else if str_eq(vehicle_id, "r1_rover") {
        "R1 Rover"
    } else {
        "x500 Quadcopter"
    }
}

/// True if `vehicle_id` names a vehicle that primarily drives on the ground.
pub fn is_ground_vehicle(vehicle_id: &str) -> (b: bool)
    ensures
        b == is_ground(vehicle_id@),
{
    str_eq(vehicle_id, "r1_rover")
}

/// The worlds offered in the picker, in display order.
pub fn worlds() -> (ws: Vec<World>)
    ensures
        ws@.len() == 4,
        ws@[0].id@ == "default"@ && ws@[0].label@ == world_label_of("default"@),
        ws@[1].id@ == "baylands"@ && ws@[1].label@ == world_label_of("baylands"@),
        ws@[2].id@ == "windy"@ && ws@[2].label@ == world_label_of("windy"@),
        ws@[3].id@ == "lawn"@ && ws@[3].label@ == world_label_of("lawn"@),
        ws@[0].target_suffix@ == ""@,
        forall|i: int| 1 <= i < 4 ==> world_suffix(ws@[i].id@) == Some(#[trigger] ws@[i].target_suffix@),
{
    proof {
        reveal_strlit("default");
        reveal_strlit("baylands");
        reveal_strlit("windy");
        reveal_strlit("lawn");
        assert("default"@.len() == 7);
        assert("baylands"@.len() == 8);
        assert("default"@ != "baylands"@);
    }
    vec![
        World {
            id: "default",
            label: "Default (empty)",
            target_suffix: "",
            description: "Flat ground plane — fastest to start.",
        },
        World {
            id: "baylands",
            label: "Baylands",
            target_suffix: "baylands",
            description: "Open park/wetland environment.",
        },
        World {
            id: "windy",
            label: "Windy",
            target_suffix: "windy",
            description: "Empty world preconfigured with a wind plugin.",
        },
        World {
            id: "lawn",
            label: "Lawn",
            target_suffix: "lawn",
            description: "Grass field for rover/ground testing.",
        },
    ]
}

/// The vehicles offered in the picker, in display order.
pub fn vehicles() -> (vs: Vec<Vehicle>)
    ensures
        vs@.len() == 4,
        vs@[0].id@ == "x500"@ && vs@[0].class@ == "multirotor"@,
        vs@[1].id@ == "standard_vtol"@ && vs@[1].class@ == "vtol"@,
        vs@[2].id@ == "rc_cessna"@ && vs@[2].class@ == "fixedwing"@,
        vs@[3].id@ == "r1_rover"@ && vs@[3].class@ == "rover"@,
        forall|i: int|
            0 <= i < 4 ==> {
                &&& vehicle_model(vs@[i].id@) == (#[trigger] vs@[i]).model@
                &&& vehicle_label_of(vs@[i].id@) == vs@[i].label@
                &&& is_ground(vs@[i].id@) == (vs@[i].class@ == "rover"@)
            },
{
    proof {
        reveal_strlit("x500");
        reveal_strlit("standard_vtol");
        reveal_strlit("rc_cessna");
        reveal_strlit("r1_rover");
        reveal_strlit("multirotor");
        reveal_strlit("vtol");
        reveal_strlit("fixedwing");
        reveal_strlit("rover");
        assert("x500"@.len() == 4);
        assert("standard_vtol"@.len() == 13);
        assert("rc_cessna"@.len() == 9);
        assert("r1_rover"@.len() == 8);
        assert("multirotor"@.len() == 10);
        assert("vtol"@.len() == 4);
        assert("fixedwing"@.len() == 9);
        assert("rover"@.len() == 5);
    }
    vec![
        Vehicle {
            id: "x500",
            label: "x500 Quadcopter",
            model: "x500",
            class: "multirotor",
            description: "Holybro X500 quad — the default PX4 multirotor.",
        },
        Vehicle {
            id: "standard_vtol",
            label: "Standard VTOL",
            model: "standard_vtol",
            class: "vtol",
            description: "Quadplane VTOL (hover + fixed-wing cruise).",
        },
        Vehicle {
            id: "rc_cessna",
            label: "RC Cessna (plane)",
            model: "rc_cessna",
            class: "fixedwing",
            description: "Fixed-wing aircraft.",
        },
        Vehicle {
            id: "r1_rover",
            label: "R1 Rover",
            model: "r1_rover",
            class: "rover",
            description: "Ground rover (Aion R1).",
        },
    ]
}

/// Build the catalogue frame payload for the pickers: worlds (no class) and
/// vehicles (with their class), in display order.
pub fn catalog() -> (r: (Vec<CatalogEntry>, Vec<CatalogEntry>))
    ensures
        r.0@.len() == 4,
        r.1@.len() == 4,
        forall|i: int|
            0 <= i < 4 ==> {
                &&& world_label_of((#[trigger] r.0@[i]).id@) == r.0@[i].label
                    @
                &&& r.0@[i].class@ == ""@
            },
        r.0@[0].id@ == "default"@,
        r.0@[1].id@ == "baylands"@,
        r.0@[2].id@ == "windy"@,
        r.0@[3].id@ == "lawn"@,
        forall|i: int|
            0 <= i < 4 ==> vehicle_label_of((#[trigger] r.1@[i]).id@) == r.1@[i].label@,
        r.1@[0].id@ == "x500"@ && r.1@[0].class@ == "multirotor"@,
        r.1@[1].id@ == "standard_vtol"@ && r.1@[1].class@ == "vtol"@,
        r.1@[2].id@ == "rc_cessna"@ && r.1@[2].class@ == "fixedwing"@,
        r.1@[3].id@ == "r1_rover"@ && r.1@[3].class@ == "rover"@,
{
    let ws = worlds();
    let vs = vehicles();
    let mut wo: Vec<CatalogEntry> = Vec::new();
    let mut i: usize = 0;
    while i < ws.len()
        invariant
            i <= ws@.len() == 4,
            wo@.len() == i,
            forall|j: int|
                0 <= j < i ==> (#[trigger] wo@[j]).id == ws@[j].id && wo@[j].label == ws@[j].label
                    && wo@[j].class@ == ""@,
        decreases ws@.len() - i,
    {
        wo.push(CatalogEntry {
            id: ws[i].id,
            label: ws[i].label,
            description: ws[i].description,
            class: "",
        });
        i = i + 1;
    }
    let mut vo: Vec<CatalogEntry> = Vec::new();
    let mut k: usize = 0;
    while k < vs.len()
        invariant
            k <= vs@.len() == 4,
            vo@.len() == k,
            forall|j: int|
                0 <= j < k ==> (#[trigger] vo@[j]).id == vs@[j].id && vo@[j].label == vs@[j].label
                    && vo@[j].class == vs@[j].class,
        decreases vs@.len() - k,
    {
        vo.push(CatalogEntry {
            id: vs[k].id,
            label: vs[k].label,
            description: vs[k].description,
            class: vs[k].class,
        });
        k = k + 1;
    }
    (wo, vo)
}

} // verus!

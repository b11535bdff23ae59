//! Pre-flight safety checklist, gating the Arm button, plus the small
//! telemetry-side types it reads beside: the telemetry source and the
//! recorder status.
//!
//! The checks that compare or format floating-point telemetry (battery
//! percentage, position, tilt) arrive already judged and described; the
//! checklist itself, its order, the remaining checks and the overall verdict
//! are decided here.

use vstd::prelude::*;

use crate::text::{chars_of, owned, push_decimal, push_str_chars, string_of};

verus! {

broadcast use vstd::string::group_string_axioms;

/// Where the telemetry comes from.
#[derive(Clone, Copy, PartialEq, Eq, Debug, Structural)]
pub enum Source {
    /// Decoded from a live MAVLink link.
    Mavlink,
    /// Generated locally (no link configured).
    Synthetic,
}

/// Wire name of a telemetry source.
pub open spec fn source_name(s: Source) -> Seq<char> {
    match s {
        Source::Mavlink => "mavlink"@,
        Source::Synthetic => "synthetic"@,
    }
}

impl Source {
    /// Wire name of the source.
    pub fn as_str(self) -> (s: &'static str)
        ensures
            s@ == source_name(self),
    {
        match self {
            Source::Mavlink => "mavlink",
            Source::Synthetic => "synthetic",
        }
    }
}

/// Flight recorder status.
pub struct RecStatus {
    pub recording: bool,
    /// File being written (empty when not recording).
    pub path: String,
}

/// One checklist item.
pub struct CheckItem {
    pub id: &'static str,
    pub label: &'static str,
    pub pass: bool,
    pub detail: String,
}

/// A judged check: whether it passes and how to describe it.
pub struct Judged {
    pub pass: bool,
    pub detail: String,
}

/// Specification-level view of a checklist item.
pub open spec fn item_view(i: CheckItem) -> (Seq<char>, Seq<char>, bool, Seq<char>) {
    (i.id@, i.label@, i.pass, i.detail@)
}

/// Whether every item of a checklist passes.
pub open spec fn all_pass(items: Seq<(Seq<char>, Seq<char>, bool, Seq<char>)>) -> bool {
    forall|k: int| 0 <= k < items.len() ==> (#[trigger] items[k]).2
}

/// The checklist for the given inputs, in display order.
pub open spec fn checklist(
    link_ok: bool,
    battery: Option<(bool, Seq<char>)>,
    position: Option<Seq<char>>,
    level: (bool, Seq<char>),
    params_received: nat,
    armed: bool,
) -> Seq<(Seq<char>, Seq<char>, bool, Seq<char>)> {
    seq![
        ("link"@, "Telemetry link"@, link_ok, if link_ok {
            "heartbeat healthy"@
        } else {
            "no recent heartbeat"@
        }),
        ("battery"@, "Battery"@, match battery {
            Some(b) => b.0,
            None => false,
        }, match battery {
            Some(b) => b.1,
            None => "no battery telemetry"@,
        }),
        ("gps"@, "GPS / position"@, position is Some, match position {
            Some(p) => p,
            None => "no position fix"@,
        }),
        ("attitude"@, "Attitude level"@, level.0, level.1),
        ("params"@, "Parameters synced"@, params_received > 0, crate::text::decimal(params_received) + " parameters"@),
        ("disarmed"@, "Currently disarmed"@, !armed, if !armed {
            "ready"@
        } else {
            "already armed"@
        }),
    ]
}

/// Run the pre-flight checklist: the link, the battery (judged against the
/// minimum charge), the position fix (described by its coordinates), the
/// attitude (judged level), whether parameters arrived, and that the vehicle
/// is not armed (a manual arm state, when set, overrides the reported one).
/// Returns whether every check passes, and the items.
pub fn evaluate(
    link_ok: bool,
    battery: Option<Judged>,
    position: Option<String>,
    level: Judged,
    params_received: usize,
    manual_arm: Option<bool>,
    armed: bool,
) -> (r: (bool, Vec<CheckItem>))
    ensures
        ({
            let is_armed = match manual_arm {
                Some(m) => m,
                None => armed,
            };
            let expected = checklist(
                link_ok,
                if battery is Some {
                    Some((battery->0.pass, battery->0.detail@))
                } else {
                    None
                },
                if position is Some {
                    Some(position->0@)
                } else {
                    None
                },
                (level.pass, level.detail@),
                params_received as nat,
                is_armed,
            );
            &&& r.1@.map_values(|i: CheckItem| item_view(i)) == expected
            &&& r.0 == all_pass(expected)
        }),
{
    let is_armed = match manual_arm {
        Some(m) => m,
        None => armed,
    };
    let ghost expected = checklist(
        link_ok,
        if battery is Some {
            Some((battery->0.pass, battery->0.detail@))
        } else {
            None
        },
        if position is Some {
            Some(position->0@)
        } else {
            None
        },
        (level.pass, level.detail@),
        params_received as nat,
        is_armed,
    );
    let mut items: Vec<CheckItem> = Vec::new();
    items.push(CheckItem {
        id: "link",
        label: "Telemetry link",
        pass: link_ok,
        detail: if link_ok {
            owned("heartbeat healthy")
        } else {
            owned("no recent heartbeat")
        },
    });
    let (bp, bd) = match battery {
        Some(j) => (j.pass, j.detail),
        None => (false, owned("no battery telemetry")),
    };
    items.push(CheckItem { id: "battery", label: "Battery", pass: bp, detail: bd });
    let gps_pass = position.is_some();
    let gd = match position {
        Some(p) => p,
        None => owned("no position fix"),
    };
    items.push(CheckItem { id: "gps", label: "GPS / position", pass: gps_pass, detail: gd });
    let lp = level.pass;
    items.push(CheckItem { id: "attitude", label: "Attitude level", pass: lp, detail: level.detail });
    let mut pd = Vec::new();
    push_decimal(&mut pd, params_received as u64);
    push_str_chars(&mut pd, " parameters");
    items.push(CheckItem {
        id: "params",
        label: "Parameters synced",
        pass: params_received > 0,
        detail: string_of(pd.as_slice()),
    });
    items.push(CheckItem {
        id: "disarmed",
        label: "Currently disarmed",
        pass: !is_armed,
        detail: if !is_armed {
            owned("ready")
        } else {
            owned("already armed")
        },
    });
    let ok = link_ok && bp && gps_pass && lp && params_received > 0 && !is_armed;
    proof {
        assert(items@.map_values(|i: CheckItem| item_view(i)) =~= expected);
        if ok {
            assert forall|k: int| 0 <= k < expected.len() implies (#[trigger] expected[k]).2 by {}
        } else {
            if !link_ok {
                assert(!expected[0].2);
            } else if !bp {
                assert(!expected[1].2);
            } else if !gps_pass {
                assert(!expected[2].2);
            } else if !lp {
                assert(!expected[3].2);
            } else if params_received == 0 {
                assert(!expected[4].2);
            } else {
                assert(!expected[5].2);
            }
        }
    }
    (ok, items)
}

/// The MAV_PARAM_TYPE a stored type discriminant stands for: the known
/// integer and `double` types keep their code, anything else is `float`
/// (REAL32, 9).
pub open spec fn param_type_code(n: u8) -> u8 {
    if (1 <= n && n <= 8) || n == 10 {
        n
    } else {
        9
    }
}

/// Normalise a stored MAV_PARAM_TYPE discriminant (default REAL32).
pub fn normalize_param_type(n: u8) -> (t: u8)
    ensures
        t == param_type_code(n),
{
    if (1 <= n && n <= 8) || n == 10 {
        n
    } else {
        9
    }
}

/// Why arming is refused: `label: detail` of the first failing item, or
/// nothing when no item fails.
pub open spec fn fail_reason(items: Seq<CheckItem>) -> Seq<char>
    decreases items.len(),
{
    if items.len() == 0 {
        Seq::empty()
    } else if !items[0].pass {
        items[0].label@ + ": "@ + items[0].detail@
    } else {
        fail_reason(items.drop_first())
    }
}

/// The refusal sent when the checklist does not pass.
pub open spec fn arm_refusal(items: Seq<CheckItem>) -> Seq<char> {
    "pre-flight failed — "@ + fail_reason(items)
}

/// What an arm request comes to, given the checklist just run.
pub enum ArmPlan {
    /// Refused, with the message for the operator.
    Refuse(String),
    /// Send the arm command.
    SendArm,
}

/// The arm gate: arming goes ahead only when the checklist, re-run for the
/// request, passes; otherwise it is refused, naming the first failing check.
pub fn arm_plan(ok: bool, items: &[CheckItem]) -> (p: ArmPlan)
    ensures
        ok ==> p is SendArm,
        !ok ==> (p matches ArmPlan::Refuse(m) && m@ == arm_refusal(items@)),
{
    if ok {
        return ArmPlan::SendArm;
    }
    let mut i: usize = 0;
    assert(items@.skip(0) =~= items@);
    while i < items.len() && items[i].pass
        invariant
            i <= items@.len(),
            fail_reason(items@) == fail_reason(items@.skip(i as int)),
        decreases items@.len() - i,
    {
        assert(items@.skip(i as int).drop_first() =~= items@.skip(i + 1));
        i = i + 1;
    }
    let mut m: Vec<char> = chars_of("pre-flight failed — ");
    if i < items.len() {
        assert(items@.skip(i as int)[0] == items@[i as int]);
        push_str_chars(&mut m, items[i].label);
        push_str_chars(&mut m, ": ");
        push_str_chars(&mut m, items[i].detail.as_str());
    } else {
        assert(items@.skip(i as int).len() == 0);
    }
    ArmPlan::Refuse(string_of(m.as_slice()))
}

/// After an arm command: when it could not be sent (no live link), the
/// operator's arm is recorded as a manual override and the vehicle counts as
/// armed; when it was sent, the vehicle's own heartbeat decides.
pub fn after_arm_send(sent: bool, manual_arm: &mut Option<bool>, armed: &mut bool)
    ensures
        !sent ==> *final(manual_arm) == Some(true) && *final(armed),
        sent ==> *final(manual_arm) == *old(manual_arm) && *final(armed) == *old(armed),
{
    if !sent {
        *manual_arm = Some(true);
        *armed = true;
    }
}

/// After a disarm command: when it could not be sent, the disarm is recorded
/// as a manual override and the vehicle counts as disarmed; when it was sent,
/// the vehicle's own heartbeat decides.
pub fn after_disarm_send(sent: bool, manual_arm: &mut Option<bool>, armed: &mut bool)
    ensures
        !sent ==> *final(manual_arm) == Some(false) && !*final(armed),
        sent ==> *final(manual_arm) == *old(manual_arm) && *final(armed) == *old(armed),
{
    if !sent {
        *manual_arm = Some(false);
        *armed = false;
    }
}

} // verus!

use vyuta::worlds::{catalog, is_ground_vehicle, make_target, vehicle_label, vehicles, world_label, worlds};

#[test]
fn default_target_has_no_world_suffix() {
    assert_eq!(make_target("x500", "default"), "gz_x500");
}

#[test]
fn world_suffix_is_appended() {
    assert_eq!(make_target("x500", "baylands"), "gz_x500_baylands");
    assert_eq!(make_target("standard_vtol", "windy"), "gz_standard_vtol_windy");
}

#[test]
fn unknown_ids_fall_back_to_defaults() {
    assert_eq!(make_target("nope", "nope"), "gz_x500");
}

#[test]
fn catalogue_is_non_empty_and_labelled() {
    let (worlds, vehicles) = catalog();
    assert!(!worlds.is_empty() && !vehicles.is_empty());
    assert_eq!(world_label("baylands"), "Baylands");
    assert_eq!(vehicle_label("x500"), "x500 Quadcopter");
}

#[test]
fn rover_is_ground_vehicle() {
    assert!(is_ground_vehicle("r1_rover"));
    assert!(!is_ground_vehicle("x500"));
}

#[test]
fn unknown_labels_fall_back() {
    assert_eq!(world_label("mars"), "Default (empty)");
    assert_eq!(vehicle_label("blimp"), "x500 Quadcopter");
    assert_eq!(make_target("rc_cessna", "lawn"), "gz_rc_cessna_lawn");
}

#[test]
fn catalogue_lists_every_world_and_vehicle_in_order() {
    let (w, v) = catalog();
    let wids: Vec<&str> = w.iter().map(|e| e.id).collect();
    let vids: Vec<&str> = v.iter().map(|e| e.id).collect();
    assert_eq!(wids, vec!["default", "baylands", "windy", "lawn"]);
    assert_eq!(vids, vec!["x500", "standard_vtol", "rc_cessna", "r1_rover"]);
    assert!(w.iter().all(|e| e.class.is_empty()));
    assert_eq!(v[3].class, "rover");
    assert_eq!(worlds().len(), 4);
    assert_eq!(vehicles()[1].model, "standard_vtol");
}

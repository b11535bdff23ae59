use vyuta::backend::{backend, simulators, Airsim, Gazebo, Jmavsim, SimControl, SimEnv};

fn env() -> SimEnv {
    SimEnv {
        px4_dir: None,
        gz_bin: "gz".to_string(),
        px4_makefile: false,
        gz_found: false,
        java_found: false,
        airsim_nh_found: false,
        blocks_found: false,
    }
}

#[test]
fn gazebo_launch_uses_make_target() {
    let g = Gazebo;
    let spec = g.launch("x500", "baylands", true, &env());
    assert_eq!(spec.program, "make");
    assert_eq!(spec.args, vec!["px4_sitl", "gz_x500_baylands"]);
    assert!(spec.env.iter().any(|(k, _)| k == "HEADLESS"));
}

#[test]
fn jmavsim_is_quad_only() {
    let j = Jmavsim;
    let spec = j.launch("x500", "default", false, &env());
    assert_eq!(spec.args, vec!["px4_sitl", "jmavsim"]);
    assert!(spec.env.is_empty());
}

#[test]
fn backend_defaults_to_gazebo() {
    assert_eq!(backend("nope").id(), "gazebo");
    assert_eq!(backend("jmavsim").id(), "jmavsim");
    assert_eq!(simulators().len(), 3);
}

#[test]
fn availability_follows_the_host() {
    let mut e = env();
    assert!(!Gazebo.available(&e));
    e.px4_makefile = true;
    e.gz_found = true;
    assert!(Gazebo.available(&e));
    assert!(!Jmavsim.available(&e));
    e.java_found = true;
    assert!(Jmavsim.available(&e));
    assert!(!Airsim.available(&e));
    e.blocks_found = true;
    e.airsim_nh_found = true;
    assert!(!Airsim.available(&e));
    assert!(!backend("airsim").available(&e));
    e.airsim_nh_found = false;
    let spec = Airsim.launch("x500", "default", true, &e);
    assert_eq!(spec.program, "Blocks");
    assert_eq!(spec.args, vec!["-windowed"]);
    e.px4_dir = Some("/opt/px4".to_string());
    let spec = backend("gazebo").launch("r1_rover", "lawn", false, &e);
    assert_eq!(spec.args, vec!["px4_sitl", "gz_r1_rover_lawn"]);
    assert_eq!(spec.cwd.as_deref(), Some("/opt/px4"));
    assert!(spec.env.is_empty());
}

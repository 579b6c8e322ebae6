use audio_tools::device::Interface;
use audio_tools::error::CoreError;
use audio_tools::volume_control::{get_active_interface, VolumeControl};

const THREE_SECOND_ACTIVE: &str = "    index: 3\n  * index: 5\n    index: 9\n";

fn args(c: &audio_tools::command::Command) -> Vec<&str> {
    c.args.iter().map(|a| a.as_str()).collect()
}

#[test]
fn cycle_moves_to_next_position() {
    let mut vc = VolumeControl::new("").unwrap();
    let plan = vc.cycle_through_interfaces(THREE_SECOND_ACTIVE).unwrap();
    assert_eq!(plan.position, 2);
    assert_eq!(plan.target, 9);
    assert_eq!(plan.set_default.program, "pactl");
    assert_eq!(args(&plan.set_default), vec!["set-default-sink", "9"]);
}

#[test]
fn cycle_with_one_device_is_insufficient() {
    let mut vc = VolumeControl::new("").unwrap();
    let r = vc.cycle_through_interfaces("  * index: 1\n");
    assert!(matches!(r, Err(CoreError::InsufficientDevices)));
    let r = vc.cycle_through_interfaces("");
    assert!(matches!(r, Err(CoreError::InsufficientDevices)));
}

#[test]
fn cycle_without_active_starts_at_first() {
    let mut vc = VolumeControl::new("").unwrap();
    let plan = vc.cycle_through_interfaces("    index: 3\n    index: 5\n    index: 9\n").unwrap();
    assert_eq!(plan.position, 1);
    assert_eq!(plan.target, 5);
}

#[test]
fn cycle_wraps_from_last() {
    let mut vc = VolumeControl::new("").unwrap();
    let plan = vc.cycle_through_interfaces("    index: 3\n  * index: 5\n").unwrap();
    assert_eq!(plan.position, 0);
    assert_eq!(plan.target, 3);
}

#[test]
fn cycle_parse_error_keeps_directory() {
    let mut vc = VolumeControl::new(THREE_SECOND_ACTIVE).unwrap();
    assert!(matches!(vc.cycle_through_interfaces("  index: z\n"), Err(CoreError::Parse)));
    assert_eq!(vc.interfaces().len(), 3);
}

#[test]
fn streams_move_to_target() {
    let vc = VolumeControl::new(THREE_SECOND_ACTIVE).unwrap();
    let cmds = vc.move_streams("    index: 21\n    index: 22\n", 9).unwrap();
    assert_eq!(cmds.len(), 2);
    assert_eq!(cmds[0].program, "pacmd");
    assert_eq!(args(&cmds[0]), vec!["move-sink-input", "21", "9"]);
    assert_eq!(args(&cmds[1]), vec!["move-sink-input", "22", "9"]);
    assert!(matches!(vc.move_streams("index\n", 9), Err(CoreError::Parse)));
}

#[test]
fn lower_volume_is_negative_step() {
    let vc = VolumeControl::new("").unwrap();
    let c = vc.change_volume(-5);
    assert_eq!(c.program, "amixer");
    assert_eq!(args(&c), vec!["-D", "pulse", "sset", "Master", "5%-"]);
}

#[test]
fn raise_volume_is_positive_step() {
    let vc = VolumeControl::new("").unwrap();
    assert_eq!(args(&vc.change_volume(5)), vec!["-D", "pulse", "sset", "Master", "5%+"]);
    assert_eq!(args(&vc.change_volume(0))[4], "0%+");
    assert_eq!(args(&vc.change_volume(i32::MIN))[4], "2147483648%-");
    assert_eq!(args(&vc.change_volume(120))[4], "120%+");
}

#[test]
fn toggle_mute_targets_active_device() {
    let mut vc = VolumeControl::new("").unwrap();
    let c = vc.toggle_mute(THREE_SECOND_ACTIVE).unwrap().unwrap();
    assert_eq!(c.program, "pactl");
    assert_eq!(args(&c), vec!["set-sink-mute", "5", "toggle"]);
    assert!(vc.toggle_mute("    index: 3\n").unwrap().is_none());
}

#[test]
fn refresh_twice_gives_same_devices() {
    let mut vc = VolumeControl::new("").unwrap();
    let text = "  * index: 2\n\tstate: RUNNING\n\t\tdevice.description = \"A\"\n    index: 6\n";
    vc.get_available_interfaces(text).unwrap();
    let first: Vec<(i32, bool, String, String)> = vc
        .interfaces()
        .iter()
        .map(|d| (d.index, d.active, d.state.clone(), d.name.clone()))
        .collect();
    vc.get_available_interfaces(text).unwrap();
    let second: Vec<(i32, bool, String, String)> = vc
        .interfaces()
        .iter()
        .map(|d| (d.index, d.active, d.state.clone(), d.name.clone()))
        .collect();
    assert_eq!(first, second);
    assert_eq!(vc.active_interface.as_ref().unwrap().index, 2);
}

#[test]
fn active_interface_is_first_marked() {
    let ds = vec![
        Interface { index: 1, active: false, state: String::new(), name: "a".to_string() },
        Interface { index: 2, active: true, state: String::new(), name: "b".to_string() },
        Interface { index: 3, active: true, state: String::new(), name: "c".to_string() },
    ];
    assert_eq!(get_active_interface(&ds).unwrap().index, 2);
    assert!(get_active_interface(&ds[..1].iter().map(|d| d.duplicate()).collect()).is_none());
}

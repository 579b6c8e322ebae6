use audio_tools::device::{parse_devices, parse_sink_inputs};
use audio_tools::error::CoreError;
use audio_tools::volume::VolumeInfo;

const SINKS: &str = "3 sink(s) available.\n    index: 0\n\tname: <alsa_output.pci>\n\tstate: SUSPENDED\n\tproperties:\n\t\tdevice.description = \"Built-in Audio\"\n  * index: 1\n\tstate: RUNNING\n\t\tdevice.description = \"USB Headset\"\n    index: 7\n\tstate: IDLE\n\t\tdevice.description = \"HDMI Output\"\n";

#[test]
fn devices_in_dump_order() {
    let ds = parse_devices(SINKS).unwrap();
    assert_eq!(ds.len(), 3);
    assert_eq!(ds[0].index, 0);
    assert_eq!(ds[1].index, 1);
    assert_eq!(ds[2].index, 7);
    assert!(!ds[0].active);
    assert!(ds[1].active);
    assert!(!ds[2].active);
    assert_eq!(ds[0].state, "SUSPENDED");
    assert_eq!(ds[1].state, "RUNNING");
    assert_eq!(ds[2].state, "IDLE");
    assert_eq!(ds[0].name, "Built-in Audio");
    assert_eq!(ds[1].name, "USB Headset");
    assert_eq!(ds[2].name, "HDMI Output");
    assert_eq!(ds.iter().filter(|d| d.active).count(), 1);
}

#[test]
fn missing_state_and_name_default_to_empty() {
    let ds = parse_devices("  * index: 4\n    index: 5\n\tstate: IDLE\n").unwrap();
    assert_eq!(ds.len(), 2);
    assert_eq!(ds[0].index, 4);
    assert_eq!(ds[0].state, "");
    assert_eq!(ds[0].name, "");
    assert_eq!(ds[1].state, "IDLE");
    assert_eq!(ds[1].name, "");
}

#[test]
fn empty_dump_has_no_devices() {
    assert_eq!(parse_devices("").unwrap().len(), 0);
    assert_eq!(parse_devices("0 sink(s) available.\n").unwrap().len(), 0);
}

#[test]
fn crlf_lines_are_read() {
    let ds = parse_devices("  * index: 2\r\n\tstate: RUNNING\r\n").unwrap();
    assert_eq!(ds.len(), 1);
    assert_eq!(ds[0].index, 2);
    assert_eq!(ds[0].state, "RUNNING");
}

#[test]
fn unreadable_index_is_a_parse_error() {
    assert!(matches!(parse_devices("    index: x\n"), Err(CoreError::Parse)));
    assert!(matches!(parse_devices("    index 3\n"), Err(CoreError::Parse)));
    assert!(matches!(parse_devices("    index: 99999999999\n"), Err(CoreError::Parse)));
}

#[test]
fn state_or_name_before_any_record_is_ignored() {
    let ds = parse_devices("\tstate: RUNNING\n\tdevice.description = \"X\"\n    index: 3\n").unwrap();
    assert_eq!(ds.len(), 1);
    assert_eq!(ds[0].state, "");
    assert_eq!(ds[0].name, "");
}

#[test]
fn unterminated_description_leaves_name() {
    let ds = parse_devices("    index: 3\n\tdevice.description = \"Half\n").unwrap();
    assert_eq!(ds[0].name, "");
}

#[test]
fn sink_inputs_listed_in_order() {
    let text = "2 sink input(s) available.\n    index: 12\n\tdriver: <x>\n    index: 40\n";
    assert_eq!(parse_sink_inputs(text).unwrap(), vec![12, 40]);
    assert_eq!(parse_sink_inputs("").unwrap(), Vec::<i32>::new());
    assert!(matches!(parse_sink_inputs("    index: \n"), Err(CoreError::Parse)));
}

#[test]
fn volume_off_is_muted() {
    let v = VolumeInfo::get_volume("[37%] [off]").unwrap();
    assert_eq!(v, VolumeInfo { volume: 37, muted: true });
}

#[test]
fn volume_on_is_not_muted() {
    let v = VolumeInfo::get_volume("[80%] [on]").unwrap();
    assert_eq!(v, VolumeInfo { volume: 80, muted: false });
}

#[test]
fn volume_without_pattern_is_a_parse_error() {
    assert!(matches!(VolumeInfo::get_volume("Master: no volume here"), Err(CoreError::Parse)));
    assert!(matches!(VolumeInfo::get_volume(""), Err(CoreError::Parse)));
    assert!(matches!(VolumeInfo::get_volume("[%] [on]"), Err(CoreError::Parse)));
}

#[test]
fn volume_with_unknown_switch_is_a_parse_error() {
    assert!(matches!(VolumeInfo::get_volume("[50%] [maybe]"), Err(CoreError::Parse)));
}

#[test]
fn volume_above_hundred_is_rejected() {
    assert!(matches!(VolumeInfo::get_volume("[150%] [on]"), Err(CoreError::Parse)));
}

#[test]
fn volume_first_report_is_used() {
    let text = "Simple mixer control 'Master',0\n  Front Left: Playback 39321 [60%] [on]\n  Front Right: Playback 39321 [20%] [off]\n";
    let v = VolumeInfo::get_volume(text).unwrap();
    assert_eq!(v, VolumeInfo { volume: 60, muted: false });
}

#[test]
fn star_after_any_leading_white_space_is_active() {
    let ds = parse_devices("\u{0B}* index: 1\n\u{0C}* index: 2\n\u{A0}\u{3000}* index: 3\n\r* index: 4\n  x* index: 5\n").unwrap();
    assert!(ds[0].active);
    assert!(ds[1].active);
    assert!(ds[2].active);
    assert!(ds[3].active);
    assert!(!ds[4].active);
}

#[test]
fn state_is_last_word() {
    let ds = parse_devices("    index: 1\n\tstate: IDLE \n    index: 2\n\tstate:\tRUNNING\n    index: 3\n\tstate:   \n").unwrap();
    assert_eq!(ds[0].state, "IDLE");
    assert_eq!(ds[1].state, "RUNNING");
    assert_eq!(ds[2].state, "state:");
}

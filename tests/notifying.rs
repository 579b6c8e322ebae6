use audio_tools::device::Interface;
use audio_tools::notification::{CuePoll, NotificationWrapper, SinkNotificaton, SoundPlayer, VolumeNotification};
use audio_tools::session::{load_notification_ids, notification_ids_text, parse_args, ArgsError, CommandType};
use audio_tools::volume::VolumeInfo;

fn device(index: i32, state: &str) -> Interface {
    Interface { index, active: true, state: state.to_string(), name: "x".to_string() }
}

#[test]
fn cue_guard_allows_one_process_at_a_time() {
    let mut p = SoundPlayer::new();
    let d = device(3, "IDLE");
    let first = p.play_sound(&d, false, CuePoll::Running).unwrap();
    assert_eq!(first.program, "paplay");
    let a: Vec<&str> = first.args.iter().map(|s| s.as_str()).collect();
    assert_eq!(a, vec!["-d", "3", "/usr/share/sounds/freedesktop/stereo/message.oga"]);
    assert!(p.play_sound(&d, false, CuePoll::Running).is_none());
    assert!(p.is_busy());
    assert!(p.play_sound(&d, false, CuePoll::Finished).is_some());
}

#[test]
fn cue_wanted_unless_streaming() {
    assert!(!SoundPlayer::should_play(&device(1, "RUNNING"), false));
    assert!(SoundPlayer::should_play(&device(1, "RUNNING"), true));
    assert!(SoundPlayer::should_play(&device(1, "IDLE"), false));
}

#[test]
fn cue_skipped_while_streaming_unless_forced() {
    let mut p = SoundPlayer::new();
    let d = device(1, "RUNNING");
    assert!(p.play_sound(&d, false, CuePoll::Finished).is_none());
    assert!(!p.is_busy());
    assert!(p.play_sound(&d, true, CuePoll::Finished).is_some());
}

#[test]
fn cue_poll_failure_skips() {
    let mut p = SoundPlayer::new();
    let d = device(1, "");
    assert!(p.play_sound(&d, false, CuePoll::Failed).is_some());
    assert!(p.play_sound(&d, false, CuePoll::Failed).is_none());
    p.spawn_failed();
    assert!(!p.is_busy());
    assert!(p.play_sound(&d, false, CuePoll::Running).is_some());
}

#[test]
fn volume_strings() {
    let (title, body) = VolumeNotification::build_volume_string(&VolumeInfo { volume: 37, muted: false });
    assert_eq!(title, "Volume (37%)");
    assert_eq!(body, format!("{}<span color=\"grey\">{}</span>", "█".repeat(7), "█".repeat(13)));
    let (title, body) = VolumeNotification::build_volume_string(&VolumeInfo { volume: 100, muted: true });
    assert_eq!(title, "Volume (100%, muted)");
    assert_eq!(body, format!("{}<span color=\"grey\"></span>", "░".repeat(20)));
    let (title, _) = VolumeNotification::build_volume_string(&VolumeInfo { volume: 0, muted: false });
    assert_eq!(title, "Volume (0%)");
}

#[test]
fn volume_notification_replaces_last() {
    let mut n = VolumeNotification::new(None);
    assert_eq!(n.get_id(), None);
    let r = n.notify(&VolumeInfo { volume: 5, muted: false });
    assert_eq!(r.id, None);
    assert_eq!(r.summary, "Volume (5%)");
    n.record_shown(42);
    assert_eq!(n.get_id(), Some(42));
    assert_eq!(n.notify(&VolumeInfo { volume: 5, muted: false }).id, Some(42));
}

#[test]
fn sink_notification_lists_devices() {
    let mut n = SinkNotificaton::new(Some(7));
    assert_eq!(n.get_id(), Some(7));
    let start = n.notify_start();
    assert_eq!(start.summary, "Audio Input");
    assert_eq!(start.body, "Changing input...");
    assert_eq!(start.id, Some(7));
    let ds = vec![
        Interface { index: 1, active: false, state: String::new(), name: "Speakers".to_string() },
        Interface { index: 2, active: true, state: String::new(), name: "Headset".to_string() },
    ];
    let r = n.notify(&ds);
    assert_eq!(r.body, "<span color=\"grey\">Speakers</span>\n→ Headset");
    assert_eq!(n.notify(&Vec::new()).body, "");
    n.record_shown(9);
    assert_eq!(n.get_id(), Some(9));
}

#[test]
fn wrapper_uses_default_summary() {
    let w = NotificationWrapper::new(Some(1), "Default".to_string());
    assert_eq!(w.get_id(), Some(1));
    assert_eq!(w.notify(None, "b").summary, "Default");
    assert_eq!(w.notify(Some("S"), "b").summary, "S");
}

#[test]
fn command_words() {
    let a = |w: &str| vec!["prog".to_string(), w.to_string()];
    assert_eq!(parse_args(&a("next_input")).unwrap(), CommandType::NextInput);
    assert_eq!(parse_args(&a("lower")).unwrap(), CommandType::VolumeLower);
    assert_eq!(parse_args(&a("raise")).unwrap(), CommandType::VolumeRaise);
    assert_eq!(parse_args(&a("mute")).unwrap(), CommandType::VolumeToggleMute);
    assert_eq!(parse_args(&a("volume_notification")).unwrap(), CommandType::VolumeNotification);
    assert!(matches!(parse_args(&a("louder")), Err(ArgsError::UnknownCommand(w)) if w == "louder"));
    assert!(matches!(parse_args(&vec!["prog".to_string()]), Err(ArgsError::NotEnoughArguments)));
}

#[test]
fn notification_ids_round_trip() {
    assert_eq!(notification_ids_text(Some(12), None), "12;");
    assert_eq!(notification_ids_text(None, Some(4000000000)), ";4000000000");
    assert_eq!(load_notification_ids("12;"), Some((Some(12), None)));
    assert_eq!(load_notification_ids(";4000000000"), Some((None, Some(4000000000))));
    assert_eq!(load_notification_ids("3;+4;9"), Some((Some(3), Some(4))));
    assert_eq!(load_notification_ids(""), None);
    assert_eq!(load_notification_ids("17"), None);
    assert_eq!(load_notification_ids("5000000000;x"), Some((None, None)));
    assert_eq!(load_notification_ids("+;7\n"), Some((None, None)));
}

//! Descriptions of the outside commands that the library decides to run.

use vstd::prelude::*;

use crate::text::{decimal, int_text, push_decimal, push_int};

verus! {

/// A program to run and its arguments.
#[derive(Debug)]
pub struct Command {
    pub program: String,
    pub args: Vec<String>,
}

pub struct CommandView {
    pub program: Seq<char>,
    pub args: Seq<Seq<char>>,
}

impl View for Command {
    type V = CommandView;

    open spec fn view(&self) -> CommandView {
        CommandView { program: self.program@, args: self.args@.map_values(|a: String| a@) }
    }
}

/// An owned copy of `s`.
pub fn owned(s: &str) -> (r: String)
    ensures
        r@ == s@,
{
    String::from_str(s)
}

/// The decimal text of the signed `n`.
pub fn int_string(n: i32) -> (r: String)
    ensures
        r@ == int_text(n as int),
{
    let mut out = String::new();
    push_int(&mut out, n);
    assert(out@ =~= int_text(n as int));
    out
}

/// The command with `program` and `args`.
pub fn command(program: &str, args: Vec<String>) -> (r: Command)
    ensures
        r@.program == program@,
        r@.args == args@.map_values(|a: String| a@),
{
    Command { program: owned(program), args }
}

/// The relative step that the mixer is asked for: the magnitude, `%`, and
/// `+` for a step that is not negative, `-` for one that is.
pub open spec fn step_text(amount: int) -> Seq<char> {
    if amount >= 0 {
        decimal(amount as nat) + "%+"@
    } else {
        decimal((-amount) as nat) + "%-"@
    }
}

pub open spec fn volume_step_view(amount: int) -> CommandView {
    CommandView {
        program: "amixer"@,
        args: seq!["-D"@, "pulse"@, "sset"@, "Master"@, step_text(amount)],
    }
}

pub open spec fn set_default_view(index: i32) -> CommandView {
    CommandView { program: "pactl"@, args: seq!["set-default-sink"@, int_text(index as int)] }
}

pub open spec fn move_stream_view(stream: i32, index: i32) -> CommandView {
    CommandView {
        program: "pacmd"@,
        args: seq!["move-sink-input"@, int_text(stream as int), int_text(index as int)],
    }
}

pub open spec fn toggle_mute_view(index: i32) -> CommandView {
    CommandView {
        program: "pactl"@,
        args: seq!["set-sink-mute"@, int_text(index as int), "toggle"@],
    }
}

/// The sound file that the cue plays.
pub open spec fn cue_sound_file() -> Seq<char> {
    "/usr/share/sounds/freedesktop/stereo/message.oga"@
}

pub open spec fn play_cue_view(index: i32) -> CommandView {
    CommandView { program: "paplay"@, args: seq!["-d"@, int_text(index as int), cue_sound_file()] }
}

/// The mixer command that changes the master volume by `amount` percent.
pub fn volume_step_command(amount: i32) -> (r: Command)
    ensures
        r@ == volume_step_view(amount as int),
{
    let mut step = String::new();
    if amount >= 0 {
        push_decimal(&mut step, amount as u32);
        step.append("%+");
    } else {
        push_decimal(&mut step, (-(amount as i64)) as u32);
        step.append("%-");
    }
    assert(step@ =~= step_text(amount as int));
    let mut args: Vec<String> = Vec::new();
    args.push(owned("-D"));
    args.push(owned("pulse"));
    args.push(owned("sset"));
    args.push(owned("Master"));
    args.push(step);
    let r = command("amixer", args);
    assert(r@.args =~= volume_step_view(amount as int).args);
    r
}

/// The command that makes the device `index` the default output.
pub fn set_default_command(index: i32) -> (r: Command)
    ensures
        r@ == set_default_view(index),
{
    let mut args: Vec<String> = Vec::new();
    args.push(owned("set-default-sink"));
    args.push(int_string(index));
    let r = command("pactl", args);
    assert(r@.args =~= set_default_view(index).args);
    r
}

/// The command that moves the stream `stream` onto the device `index`.
pub fn move_stream_command(stream: i32, index: i32) -> (r: Command)
    ensures
        r@ == move_stream_view(stream, index),
{
    let mut args: Vec<String> = Vec::new();
    args.push(owned("move-sink-input"));
    args.push(int_string(stream));
    args.push(int_string(index));
    let r = command("pacmd", args);
    assert(r@.args =~= move_stream_view(stream, index).args);
    r
}

/// The command that toggles the mute switch of the device `index`.
pub fn toggle_mute_command(index: i32) -> (r: Command)
    ensures
        r@ == toggle_mute_view(index),
{
    let mut args: Vec<String> = Vec::new();
    args.push(owned("set-sink-mute"));
    args.push(int_string(index));
    args.push(owned("toggle"));
    let r = command("pactl", args);
    assert(r@.args =~= toggle_mute_view(index).args);
    r
}

/// The command that plays the cue sound on the device `index`.
pub fn play_cue_command(index: i32) -> (r: Command)
    ensures
        r@ == play_cue_view(index),
{
    let mut args: Vec<String> = Vec::new();
    args.push(owned("-d"));
    args.push(int_string(index));
    args.push(owned("/usr/share/sounds/freedesktop/stereo/message.oga"));
    let r = command("paplay", args);
    assert(r@.args =~= play_cue_view(index).args);
    r
}

} // verus!

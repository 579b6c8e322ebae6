//! What persists and what is asked between invocations of the program: the
//! command word it is run with, and the identifiers of the notifications it
//! showed last, kept as text of the form `volume;sink`.

use vstd::prelude::*;

use crate::command::owned;
use crate::text::{
    all_digits, chars_of, decimal, digits_number, digits_value, find_char, has_char_from,
    is_digit, next_char, push_decimal,
};

verus! {

/// The action that one invocation performs.
#[derive(Debug, Clone, Copy, PartialEq, Eq, Structural)]
pub enum CommandType {
    NextInput,
    VolumeLower,
    VolumeRaise,
    VolumeToggleMute,
    VolumeNotification,
}

/// Why the command line names no action.
#[derive(Debug)]
pub enum ArgsError {
    /// No command word was given.
    NotEnoughArguments,
    /// The command word is none of the known ones.
    UnknownCommand(String),
}

/// The action that a command word names.
pub open spec fn command_of(word: Seq<char>) -> Option<CommandType> {
    if word == "next_input"@ {
        Some(CommandType::NextInput)
    } else if word == "lower"@ {
        Some(CommandType::VolumeLower)
    } else if word == "raise"@ {
        Some(CommandType::VolumeRaise)
    } else if word == "mute"@ {
        Some(CommandType::VolumeToggleMute)
    } else if word == "volume_notification"@ {
        Some(CommandType::VolumeNotification)
    } else {
        None
    }
}

fn is_word(a: &String, w: &str) -> (r: bool)
    ensures
        r == (a@ == w@),
{
    *a == owned(w)
}

/// The action named by the command line `args`, whose first entry is the
/// program's name and whose second is the command word.
pub fn parse_args(args: &Vec<String>) -> (r: Result<CommandType, ArgsError>)
    ensures
        args@.len() < 2 ==> r is Err && r->Err_0 is NotEnoughArguments,
        args@.len() >= 2 ==> match command_of(args@[1]@) {
            Some(c) => r == Ok::<CommandType, ArgsError>(c),
            None => r is Err && r->Err_0 is UnknownCommand && r->Err_0->UnknownCommand_0@
                == args@[1]@,
        },
{
    if args.len() < 2 {
        return Err(ArgsError::NotEnoughArguments);
    }
    let word = &args[1];
    if is_word(word, "next_input") {
        Ok(CommandType::NextInput)
    } else if is_word(word, "lower") {
        Ok(CommandType::VolumeLower)
    } else if is_word(word, "raise") {
        Ok(CommandType::VolumeRaise)
    } else if is_word(word, "mute") {
        Ok(CommandType::VolumeToggleMute)
    } else if is_word(word, "volume_notification") {
        Ok(CommandType::VolumeNotification)
    } else {
        Err(ArgsError::UnknownCommand(args[1].clone()))
    }
}

/// The unsigned number that `t` spells: an optional `+`, then one or more
/// digits, at most `u32::MAX`.
pub open spec fn u32_of(t: Seq<char>) -> Option<u32> {
    let d = if t.len() > 0 && t[0] == '+' {
        t.drop_first()
    } else {
        t
    };
    if d.len() > 0 && all_digits(d) && digits_value(d) <= u32::MAX {
        Some(digits_value(d) as u32)
    } else {
        None
    }
}

/// The identifiers that the saved text `s` holds: the field before the first
/// `;` and the one after it, each absent where it is no number; `None`, no
/// data, where `s` has no `;`.
pub open spec fn ids_of(s: Seq<char>) -> Option<(Option<u32>, Option<u32>)> {
    if has_char_from(s, ';', 0) {
        let i = next_char(s, ';', 0);
        let j = if has_char_from(s, ';', i + 1) {
            next_char(s, ';', i + 1)
        } else {
            s.len() as int
        };
        Some((u32_of(s.subrange(0, i)), u32_of(s.subrange(i + 1, j))))
    } else {
        None
    }
}

/// The number that `s[from..to]` spells, as `u32_of` reads it.
fn u32_in(s: &Vec<char>, from: usize, to: usize) -> (r: Option<u32>)
    requires
        from <= to <= s.len(),
    ensures
        r == u32_of(s@.subrange(from as int, to as int)),
{
    let ghost t = s@.subrange(from as int, to as int);
    let mut start = from;
    if from < to && s[from] == '+' {
        start = from + 1;
        assert(t[0] == '+');
        assert(t.drop_first() =~= s@.subrange(start as int, to as int));
    } else {
        assert(t.len() == 0 || t[0] != '+');
        assert(t =~= s@.subrange(start as int, to as int));
    }
    let ghost d = s@.subrange(start as int, to as int);
    assert(d == (if t.len() > 0 && t[0] == '+' {
        t.drop_first()
    } else {
        t
    }));
    if start == to {
        return None;
    }
    let mut k = start;
    while k < to
        invariant
            start <= k <= to <= s.len(),
            d == s@.subrange(start as int, to as int),
            t == s@.subrange(from as int, to as int),
            d == (if t.len() > 0 && t[0] == '+' {
                t.drop_first()
            } else {
                t
            }),
            forall|m: int| start <= m < k ==> is_digit(#[trigger] s@[m]),
        decreases to - k,
    {
        if !('0' <= s[k] && s[k] <= '9') {
            assert(d[k - start] == s@[k as int]);
            assert(!all_digits(d));
            return None;
        }
        k = k + 1;
    }
    assert(all_digits(d)) by {
        assert forall|m: int| 0 <= m < d.len() implies is_digit(#[trigger] d[m]) by {
            assert(d[m] == s@[start + m]);
        }
    }
    match digits_number(s, start, to, 4294967295) {
        Some(v) => Some(v as u32),
        None => None,
    }
}

/// Reads the identifiers of the notifications shown last from the saved
/// text; `None` where it holds no data.
pub fn load_notification_ids(contents: &str) -> (r: Option<(Option<u32>, Option<u32>)>)
    ensures
        r == ids_of(contents@),
{
    let s = chars_of(contents);
    match find_char(&s, ';', 0) {
        None => None,
        Some(i) => {
            let j = match find_char(&s, ';', i + 1) {
                Some(j) => j,
                None => s.len(),
            };
            Some((u32_in(&s, 0, i), u32_in(&s, i + 1, j)))
        },
    }
}

pub open spec fn id_text(id: Option<u32>) -> Seq<char> {
    match id {
        Some(n) => decimal(n as nat),
        None => seq![],
    }
}

/// The saved text of the two identifiers: each in decimal, or empty where
/// absent, joined by `;`.
pub open spec fn ids_text(volume_id: Option<u32>, sink_id: Option<u32>) -> Seq<char> {
    id_text(volume_id) + ";"@ + id_text(sink_id)
}

/// Writes the identifiers of the notifications shown last as saved text.
pub fn notification_ids_text(volume_id: Option<u32>, sink_id: Option<u32>) -> (r: String)
    ensures
        r@ == ids_text(volume_id, sink_id),
{
    let mut out = String::new();
    if let Some(n) = volume_id {
        push_decimal(&mut out, n);
    }
    out.append(";");
    if let Some(n) = sink_id {
        push_decimal(&mut out, n);
    }
    assert(out@ =~= ids_text(volume_id, sink_id));
    out
}

} // verus!

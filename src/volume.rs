//! The volume and mute state, and the parser of the mixer's volume report.

use vstd::prelude::*;

use crate::error::CoreError;
use crate::text::{
    all_digits, chars_of, digits_end, digits_number, digits_value, matches_at, occurs_at,
    scan_digits,
};

verus! {

/// The master volume in percent and whether it is muted.
#[derive(Debug, Clone, Copy, PartialEq, Eq)]
pub struct VolumeInfo {
    pub volume: i32,
    pub muted: bool,
}

impl VolumeInfo {
    /// A volume in percent lies between 0 and 100.
    pub open spec fn wf(&self) -> bool {
        0 <= self.volume <= 100
    }
}

pub open spec fn is_letter(c: char) -> bool {
    ('a' <= c && c <= 'z') || ('A' <= c && c <= 'Z')
}

/// `end` closes the longest run of ASCII letters of `s` that begins at `start`.
pub open spec fn letters_end_at(s: Seq<char>, start: int, end: int) -> bool {
    &&& 0 <= start <= end <= s.len()
    &&& forall|k: int| start <= k < end ==> is_letter(#[trigger] s[k])
    &&& end == s.len() || !is_letter(s[end])
}

pub open spec fn letters_end(s: Seq<char>, start: int) -> int {
    choose|end: int| letters_end_at(s, start, end)
}

/// Where the digits of a report that starts at `p` end.
pub open spec fn percent_end(s: Seq<char>, p: int) -> int {
    digits_end(s, p + 1)
}

/// Where the switch word of a report that starts at `p` begins.
pub open spec fn switch_start(s: Seq<char>, p: int) -> int {
    percent_end(s, p) + 4
}

pub open spec fn switch_end(s: Seq<char>, p: int) -> int {
    letters_end(s, switch_start(s, p))
}

/// The text at `p` has the form `[N%] [word]`: one or more digits, then
/// one or more ASCII letters.
pub open spec fn report_at(s: Seq<char>, p: int) -> bool {
    &&& 0 <= p < s.len()
    &&& s[p] == '['
    &&& percent_end(s, p) > p + 1
    &&& occurs_at(s, "%] ["@, percent_end(s, p))
    &&& switch_end(s, p) > switch_start(s, p)
    &&& switch_end(s, p) < s.len()
    &&& s[switch_end(s, p)] == ']'
}

pub open spec fn is_first_report(s: Seq<char>, p: int) -> bool {
    report_at(s, p) && forall|q: int| 0 <= q < p ==> !report_at(s, q)
}

/// The volume state that a mixer report gives: the first `[N%] [word]` in
/// it, where N is at most 100 and the word is `on` (not muted) or `off`
/// (muted); `None` otherwise.
pub open spec fn volume_of(s: Seq<char>) -> Option<VolumeInfo> {
    if exists|p: int| report_at(s, p) {
        let p = choose|p: int| is_first_report(s, p);
        let n = digits_value(s.subrange(p + 1, percent_end(s, p)));
        let word = s.subrange(switch_start(s, p), switch_end(s, p));
        if n > 100 {
            None
        } else if word == "on"@ {
            Some(VolumeInfo { volume: n as i32, muted: false })
        } else if word == "off"@ {
            Some(VolumeInfo { volume: n as i32, muted: true })
        } else {
            None
        }
    } else {
        None
    }
}

/// A report without any `[N%] [word]` in it gives no volume state.
pub proof fn lemma_no_report_no_volume(s: Seq<char>)
    requires
        forall|p: int| !report_at(s, p),
    ensures
        volume_of(s) is None,
{
}

fn scan_letters(s: &Vec<char>, start: usize) -> (end: usize)
    requires
        start <= s.len(),
    ensures
        letters_end_at(s@, start as int, end as int),
        end == letters_end(s@, start as int),
{
    let mut end = start;
    while end < s.len() && (('a' <= s[end] && s[end] <= 'z') || ('A' <= s[end] && s[end] <= 'Z'))
        invariant
            start <= end <= s.len(),
            forall|k: int| start <= k < end ==> is_letter(#[trigger] s@[k]),
        decreases s.len() - end,
    {
        end = end + 1;
    }
    proof {
        let c = letters_end(s@, start as int);
        assert(letters_end_at(s@, start as int, end as int));
        if c < end {
            assert(is_letter(s@[c]));
        } else if end < c {
            assert(is_letter(s@[end as int]));
        }
    }
    end
}

/// Whether a report `[N%] [word]` starts at `p`.
fn report_match(s: &Vec<char>, p: usize) -> (r: bool)
    ensures
        r == report_at(s@, p as int),
{
    if p >= s.len() || s[p] != '[' {
        return false;
    }
    let d_end = scan_digits(s, p + 1);
    if d_end == p + 1 {
        return false;
    }
    let sep = chars_of("%] [");
    proof {
        reveal_strlit("%] [");
    }
    if !matches_at(s, &sep, d_end) {
        return false;
    }
    let w_start = d_end + 4;
    let w_end = scan_letters(s, w_start);
    w_end > w_start && w_end < s.len() && s[w_end] == ']'
}

/// Whether `s[from..to]` spells `w`.
fn spells(s: &Vec<char>, from: usize, to: usize, w: &str) -> (r: bool)
    requires
        from <= to <= s.len(),
    ensures
        r == (s@.subrange(from as int, to as int) == w@),
{
    let wc = chars_of(w);
    if to - from != wc.len() {
        return false;
    }
    matches_at(s, &wc, from)
}

impl VolumeInfo {
    /// Reads the volume state from the mixer's report.
    pub fn get_volume(output: &str) -> (r: Result<VolumeInfo, CoreError>)
        ensures
            match r {
                Ok(v) => volume_of(output@) == Some(v) && v.wf(),
                Err(e) => volume_of(output@) is None && e is Parse,
            },
    {
        let s = chars_of(output);
        let mut p: usize = 0;
        while p < s.len()
            invariant
                s@ == output@,
                forall|q: int| 0 <= q < p ==> !report_at(s@, q),
            decreases s.len() - p,
        {
            if report_match(&s, p) {
                proof {
                    assert(is_first_report(s@, p as int));
                    let c = choose|c: int| is_first_report(s@, c);
                    if c < p {
                        assert(!report_at(s@, c));
                    } else if c > p {
                        assert(!report_at(s@, p as int));
                    }
                }
                let d_end = scan_digits(&s, p + 1);
                let w_start = d_end + 4;
                let w_end = scan_letters(&s, w_start);
                proof {
                    assert(all_digits(s@.subrange(p + 1, d_end as int)));
                }
                let n = match digits_number(&s, p + 1, d_end, 100) {
                    Some(n) => n as i32,
                    None => {
                        return Err(CoreError::Parse);
                    },
                };
                proof {
                    reveal_strlit("on");
                    reveal_strlit("off");
                }
                if spells(&s, w_start, w_end, "on") {
                    return Ok(VolumeInfo { volume: n, muted: false });
                } else if spells(&s, w_start, w_end, "off") {
                    return Ok(VolumeInfo { volume: n, muted: true });
                } else {
                    return Err(CoreError::Parse);
                }
            }
            p = p + 1;
        }
        assert forall|q: int| !report_at(s@, q) by {
            if 0 <= q < p {
            }
        }
        Err(CoreError::Parse)
    }
}

} // verus!

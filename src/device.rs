//! Output devices ("sinks") and the parser of the audio server's device dump.

use vstd::prelude::*;

use crate::error::CoreError;
use crate::text::{
    chars_of, contains, digits_end, digits_number, digits_value, find, find_char, first_at, has_char_from,
    lines_of, next_char, next_line, scan_digits,
};

verus! {

/// One audio output device.
#[derive(Debug, Clone)]
pub struct Interface {
    /// The identifier that the audio server gives the device.
    pub index: i32,
    /// Whether the device is the current default output.
    pub active: bool,
    /// The playback state token, such as `RUNNING`; empty where not reported.
    pub state: String,
    /// The device description; empty where not reported.
    pub name: String,
}

/// The mathematical value of an [`Interface`].
pub struct InterfaceView {
    pub index: i32,
    pub active: bool,
    pub state: Seq<char>,
    pub name: Seq<char>,
}

impl View for Interface {
    type V = InterfaceView;

    open spec fn view(&self) -> InterfaceView {
        InterfaceView { index: self.index, active: self.active, state: self.state@, name: self.name@ }
    }
}

impl Interface {
    /// A copy of the device.
    pub fn duplicate(&self) -> (r: Interface)
        ensures
            r@ == self@,
    {
        Interface {
            index: self.index,
            active: self.active,
            state: self.state.clone(),
            name: self.name.clone(),
        }
    }
}

pub open spec fn views(v: Seq<Interface>) -> Seq<InterfaceView> {
    v.map_values(|d: Interface| d@)
}

pub open spec fn is_blank(c: char) -> bool {
    ('\u{9}' <= c && c <= '\u{d}') || c == ' ' || c == '\u{85}' || c == '\u{a0}' || c
        == '\u{1680}' || ('\u{2000}' <= c && c <= '\u{200a}') || c == '\u{2028}' || c
        == '\u{2029}' || c == '\u{202f}' || c == '\u{205f}' || c == '\u{3000}'
}

/// Whether `c` is white space in Unicode's sense.
pub fn blank(c: char) -> (r: bool)
    ensures
        r == is_blank(c),
{
    ('\u{9}' <= c && c <= '\u{d}') || c == ' ' || c == '\u{85}' || c == '\u{a0}' || c
        == '\u{1680}' || ('\u{2000}' <= c && c <= '\u{200a}') || c == '\u{2028}' || c
        == '\u{2029}' || c == '\u{202f}' || c == '\u{205f}' || c == '\u{3000}'
}

/// The first character of `line` that is not blank is `'*'`.
pub open spec fn leading_star(line: Seq<char>) -> bool {
    exists|k: int|
        0 <= k < line.len() && line[k] == '*' && forall|j: int| 0 <= j < k ==> is_blank(line[j])
}

/// The server's identifier on a record line: the digits after the first
/// `"index: "`, where there are some and they fit an `i32`.
pub open spec fn index_token(line: Seq<char>) -> Option<i32> {
    if contains(line, "index: "@) {
        let start = first_at(line, "index: "@) + 7;
        let end = digits_end(line, start);
        let v = digits_value(line.subrange(start, end));
        if start < end && v <= i32::MAX {
            Some(v as i32)
        } else {
            None
        }
    } else {
        None
    }
}

/// `e` ends the last run of non-blank characters of `line` (0 where there
/// is none).
pub open spec fn is_token_end(line: Seq<char>, e: int) -> bool {
    &&& 0 <= e <= line.len()
    &&& e == 0 || !is_blank(line[e - 1])
    &&& forall|j: int| e <= j < line.len() ==> is_blank(#[trigger] line[j])
}

/// `b` begins the run of non-blank characters of `line` that ends at `e`.
pub open spec fn is_token_start(line: Seq<char>, e: int, b: int) -> bool {
    &&& 0 <= b <= e
    &&& forall|j: int| b <= j < e ==> !is_blank(#[trigger] line[j])
    &&& b == 0 || is_blank(line[b - 1])
}

pub open spec fn token_end(line: Seq<char>) -> int {
    choose|e: int| is_token_end(line, e)
}

pub open spec fn token_start(line: Seq<char>) -> int {
    choose|b: int| is_token_start(line, token_end(line), b)
}

/// The last white-space-delimited word of `line`; empty where it has none.
pub open spec fn state_token(line: Seq<char>) -> Seq<char> {
    line.subrange(token_start(line), token_end(line))
}

/// `line` holds a complete quoted segment.
pub open spec fn has_quoted(line: Seq<char>) -> bool {
    has_char_from(line, '"', 0) && has_char_from(line, '"', next_char(line, '"', 0) + 1)
}

/// The text inside the first quoted segment of `line`.
pub open spec fn quoted(line: Seq<char>) -> Seq<char> {
    let q1 = next_char(line, '"', 0);
    let q2 = next_char(line, '"', q1 + 1);
    line.subrange(q1 + 1, q2)
}

pub open spec fn is_record_line(line: Seq<char>) -> bool {
    contains(line, "index"@)
}

pub open spec fn is_state_line(line: Seq<char>) -> bool {
    contains(line, "state:"@)
}

pub open spec fn is_name_line(line: Seq<char>) -> bool {
    contains(line, "device.description"@)
}

pub open spec fn fresh_device(index: i32, active: bool) -> InterfaceView {
    InterfaceView { index, active, state: seq![], name: seq![] }
}

pub open spec fn with_state(d: InterfaceView, state: Seq<char>) -> InterfaceView {
    InterfaceView { index: d.index, active: d.active, state, name: d.name }
}

pub open spec fn with_name(d: InterfaceView, name: Seq<char>) -> InterfaceView {
    InterfaceView { index: d.index, active: d.active, state: d.state, name }
}

/// The devices after one more line of the dump, or `None` where the line
/// opens a record whose identifier cannot be read.
pub open spec fn device_step(ds: Seq<InterfaceView>, line: Seq<char>) -> Option<Seq<InterfaceView>> {
    if is_record_line(line) {
        match index_token(line) {
            Some(i) => Some(ds.push(fresh_device(i, leading_star(line)))),
            None => None,
        }
    } else if is_state_line(line) {
        if ds.len() > 0 {
            Some(ds.update(ds.len() - 1, with_state(ds.last(), state_token(line))))
        } else {
            Some(ds)
        }
    } else if is_name_line(line) {
        if ds.len() > 0 && has_quoted(line) {
            Some(ds.update(ds.len() - 1, with_name(ds.last(), quoted(line))))
        } else {
            Some(ds)
        }
    } else {
        Some(ds)
    }
}

/// The devices after the lines `lines`, starting from `ds`.
pub open spec fn scan_devices(ds: Seq<InterfaceView>, lines: Seq<Seq<char>>) -> Option<
    Seq<InterfaceView>,
>
    decreases lines.len(),
{
    if lines.len() == 0 {
        Some(ds)
    } else {
        match device_step(ds, lines[0]) {
            Some(next) => scan_devices(next, lines.drop_first()),
            None => None,
        }
    }
}

/// The devices that a dump describes, in the order it lists them, or `None`
/// where a record's identifier cannot be read.
pub open spec fn devices_of(text: Seq<char>) -> Option<Seq<InterfaceView>> {
    scan_devices(seq![], lines_of(text))
}


/// The text of `text` between the character positions `from` and `to`.
pub fn string_of(text: &str, from: usize, to: usize) -> (r: String)
    requires
        from <= to <= text@.len(),
    ensures
        r@ == text@.subrange(from as int, to as int),
{
    String::from_str(text.substring_char(from, to))
}

/// Whether `p` occurs in `line`.
fn has(line: &Vec<char>, p: &str) -> (r: bool)
    ensures
        r == contains(line@, p@),
{
    let pc = chars_of(p);
    match find(line, &pc) {
        Some(_) => true,
        None => false,
    }
}

/// The server's identifier on a record line.
pub fn index_of_line(line: &Vec<char>) -> (r: Option<i32>)
    ensures
        r == index_token(line@),
{
    let pat = chars_of("index: ");
    proof {
        reveal_strlit("index: ");
    }
    match find(line, &pat) {
        None => None,
        Some(at) => {
            assert(pat@.len() == 7);
            assert(at + pat@.len() <= line.len());
            let start = at + 7;
            let end = scan_digits(line, start);
            if start == end {
                return None;
            }
            match digits_number(line, start, end, 2147483647) {
                Some(v) => Some(v as i32),
                None => None,
            }
        },
    }
}

/// Whether the first character of `line` that is not blank is `'*'`.
pub fn starts_with_star(line: &Vec<char>) -> (r: bool)
    ensures
        r == leading_star(line@),
{
    let mut k: usize = 0;
    while k < line.len() && blank(line[k])
        invariant
            k <= line.len(),
            forall|j: int| 0 <= j < k ==> is_blank(line@[j]),
        decreases line.len() - k,
    {
        k = k + 1;
    }
    if k < line.len() && line[k] == '*' {
        true
    } else {
        proof {
            if leading_star(line@) {
                let w = choose|w: int|
                    0 <= w < line@.len() && line@[w] == '*' && forall|j: int|
                        0 <= j < w ==> is_blank(line@[j]);
                if w < k {
                    assert(is_blank(line@[w]));
                } else if w > k {
                    assert(is_blank(line@[k as int]));
                }
            }
        }
        false
    }
}

/// The last white-space-delimited word of the line at `pos` of `text`.
fn state_of(text: &str, s: &Vec<char>, pos: usize, line: &Vec<char>) -> (r: String)
    requires
        s@ == text@,
        pos + line.len() <= s.len(),
        line@ == s@.subrange(pos as int, pos + line@.len()),
    ensures
        r@ == state_token(line@),
{
    let n = line.len();
    let mut e = n;
    while e > 0 && blank(line[e - 1])
        invariant
            e <= n == line@.len(),
            forall|j: int| e <= j < n ==> is_blank(#[trigger] line@[j]),
        decreases e,
    {
        e = e - 1;
    }
    let mut b = e;
    while b > 0 && !blank(line[b - 1])
        invariant
            b <= e <= n == line@.len(),
            forall|j: int| b <= j < e ==> !is_blank(#[trigger] line@[j]),
        decreases b,
    {
        b = b - 1;
    }
    proof {
        let ce = token_end(line@);
        assert(is_token_end(line@, e as int));
        if ce < e {
            assert(is_blank(line@[e - 1]));
        } else if ce > e {
            assert(is_blank(line@[ce - 1]));
        }
        let cb = token_start(line@);
        assert(is_token_start(line@, e as int, b as int));
        if cb < b {
            assert(!is_blank(line@[b - 1]));
        } else if cb > b {
            assert(!is_blank(line@[cb - 1]));
        }
    }
    let r = string_of(text, pos + b, pos + e);
    assert(r@ =~= line@.subrange(b as int, e as int));
    r
}

proof fn lemma_views_push(v: Seq<Interface>, d: Interface)
    ensures
        views(v.push(d)) == views(v).push(d@),
{
    assert(views(v.push(d)) =~= views(v).push(d@));
}

/// Applies one line of the dump to `ds`; false where the line opens a record
/// whose identifier cannot be read.
fn device_line(text: &str, s: &Vec<char>, pos: usize, line: &Vec<char>, ds: &mut Vec<Interface>) -> (ok:
    bool)
    requires
        s@ == text@,
        pos + line.len() <= s.len(),
        line@ == s@.subrange(pos as int, pos + line@.len()),
    ensures
        match device_step(views(old(ds)@), line@) {
            Some(next) => ok && views(final(ds)@) == next,
            None => !ok,
        },
{
    if has(line, "index") {
        match index_of_line(line) {
            Some(i) => {
                let d = Interface {
                    index: i,
                    active: starts_with_star(line),
                    state: String::new(),
                    name: String::new(),
                };
                proof {
                    lemma_views_push(ds@, d);
                }
                ds.push(d);
                true
            },
            None => false,
        }
    } else if has(line, "state:") {
        if ds.len() > 0 {
            let st = state_of(text, s, pos, line);
            let ghost before = views(ds@);
            let mut d = ds.pop().unwrap();
            d.state = st;
            proof {
                lemma_views_push(ds@, d);
                assert(views(ds@).push(d@) =~= before.update(
                    before.len() - 1,
                    with_state(before.last(), state_token(line@)),
                ));
            }
            ds.push(d);
        }
        true
    } else if has(line, "device.description") {
        if ds.len() > 0 {
            if let Some(q1) = find_char(line, '"', 0) {
                if let Some(q2) = find_char(line, '"', q1 + 1) {
                    let nm = string_of(text, pos + q1 + 1, pos + q2);
                    let ghost before = views(ds@);
                    let mut d = ds.pop().unwrap();
                    d.name = nm;
                    proof {
                        lemma_views_push(ds@, d);
                        assert(nm@ =~= quoted(line@));
                        assert(views(ds@).push(d@) =~= before.update(
                            before.len() - 1,
                            with_name(before.last(), quoted(line@)),
                        ));
                    }
                    ds.push(d);
                }
            }
        }
        true
    } else {
        true
    }
}

/// Parses the device dump of the audio server: one device for each line
/// that mentions `index`, in the order of the dump.
pub fn parse_devices(text: &str) -> (r: Result<Vec<Interface>, CoreError>)
    ensures
        match r {
            Ok(v) => devices_of(text@) == Some(views(v@)),
            Err(e) => devices_of(text@) is None && e is Parse,
        },
{
    let s = chars_of(text);
    let mut ds: Vec<Interface> = Vec::new();
    let mut pos: usize = 0;
    assert(s@.subrange(0, s@.len() as int) =~= text@);
    assert(views(ds@) =~= Seq::<InterfaceView>::empty());
    while pos < s.len()
        invariant
            s@ == text@,
            pos <= s@.len(),
            scan_devices(views(ds@), lines_of(s@.subrange(pos as int, s@.len() as int)))
                == devices_of(text@),
        decreases s.len() - pos,
    {
        let (line, next) = next_line(&s, pos);
        let ghost rest = lines_of(s@.subrange(next as int, s@.len() as int));
        proof {
            assert((seq![line@] + rest)[0] == line@);
            assert((seq![line@] + rest).drop_first() =~= rest);
        }
        if !device_line(text, &s, pos, &line, &mut ds) {
            return Err(CoreError::Parse);
        }
        pos = next;
    }
    assert(s@.subrange(pos as int, s@.len() as int) =~= Seq::<char>::empty());
    Ok(ds)
}


/// The lines that open a record, in order.
pub open spec fn record_lines(lines: Seq<Seq<char>>) -> Seq<Seq<char>>
    decreases lines.len(),
{
    if lines.len() == 0 {
        seq![]
    } else if is_record_line(lines[0]) {
        seq![lines[0]] + record_lines(lines.drop_first())
    } else {
        record_lines(lines.drop_first())
    }
}

/// Every record line carries a readable identifier.
pub open spec fn records_readable(recs: Seq<Seq<char>>) -> bool {
    forall|k: int| 0 <= k < recs.len() ==> (#[trigger] index_token(recs[k])) is Some
}

proof fn lemma_scan_records(ds: Seq<InterfaceView>, lines: Seq<Seq<char>>)
    ensures
        scan_devices(ds, lines) is Some <==> records_readable(record_lines(lines)),
        scan_devices(ds, lines) is Some ==> {
            let r = scan_devices(ds, lines)->0;
            let recs = record_lines(lines);
            &&& r.len() == ds.len() + recs.len()
            &&& forall|k: int|
                0 <= k < ds.len() ==> (#[trigger] r[k]).index == ds[k].index && r[k].active
                    == ds[k].active
            &&& forall|k: int|
                0 <= k < recs.len() ==> index_token(#[trigger] recs[k]) == Some(
                    r[ds.len() + k].index,
                ) && r[ds.len() + k].active == leading_star(recs[k])
        },
    decreases lines.len(),
{
    if lines.len() > 0 {
        let line = lines[0];
        let rest = lines.drop_first();
        let recs = record_lines(lines);
        let rrest = record_lines(rest);
        if is_record_line(line) {
            assert(recs == seq![line] + rrest);
            assert(recs[0] == line);
            assert forall|k: int| 0 <= k < rrest.len() implies recs[k + 1] == rrest[k] by {}
            match index_token(line) {
                Some(i) => {
                    let next = ds.push(fresh_device(i, leading_star(line)));
                    lemma_scan_records(next, rest);
                    assert(records_readable(recs) <==> records_readable(rrest)) by {
                        if records_readable(rrest) {
                            assert forall|k: int| 0 <= k < recs.len() implies (#[trigger] index_token(
                                recs[k],
                            )) is Some by {
                                if k > 0 {
                                    assert(recs[k] == rrest[k - 1]);
                                }
                            }
                        }
                        if records_readable(recs) {
                            assert forall|k: int| 0 <= k < rrest.len() implies (#[trigger] index_token(
                                rrest[k],
                            )) is Some by {
                                assert(recs[k + 1] == rrest[k]);
                            }
                        }
                    }
                    if scan_devices(ds, lines) is Some {
                        let r = scan_devices(ds, lines)->0;
                        assert forall|k: int| 0 <= k < recs.len() implies index_token(
                            #[trigger] recs[k],
                        ) == Some(r[ds.len() + k].index) && r[ds.len() + k].active == leading_star(
                            recs[k],
                        ) by {
                            if k > 0 {
                                assert(recs[k] == rrest[k - 1]);
                                assert(next.len() + (k - 1) == ds.len() + k);
                            } else {
                                assert(next[ds.len() as int] == fresh_device(i, leading_star(line)));
                            }
                        }
                        assert forall|k: int| 0 <= k < ds.len() implies (#[trigger] r[k]).index
                            == ds[k].index && r[k].active == ds[k].active by {
                            assert(next[k] == ds[k]);
                        }
                    }
                },
                None => {
                    assert(!records_readable(recs)) by {
                        assert(index_token(recs[0]) is None);
                    }
                },
            }
        } else {
            assert(recs == rrest);
            let next = device_step(ds, line)->0;
            lemma_scan_records(next, rest);
            assert(next.len() == ds.len());
            assert forall|k: int| 0 <= k < ds.len() implies #[trigger] next[k].index == ds[k].index
                && next[k].active == ds[k].active by {}
        }
    }
}

/// A dump is read in full exactly when each line that opens a record carries
/// a readable identifier; the result then holds one device per such line, in
/// the order of the lines, with that line's identifier and active mark. So
/// where at most one record line is marked active, at most one device is.
pub proof fn lemma_devices_follow_records(text: Seq<char>)
    ensures
        devices_of(text) is Some <==> records_readable(record_lines(lines_of(text))),
        devices_of(text) is Some ==> {
            let r = devices_of(text)->0;
            let recs = record_lines(lines_of(text));
            &&& r.len() == recs.len()
            &&& forall|k: int|
                0 <= k < recs.len() ==> index_token(#[trigger] recs[k]) == Some(r[k].index)
                    && r[k].active == leading_star(recs[k])
            &&& (forall|i: int, j: int|
                0 <= i < recs.len() && 0 <= j < recs.len() && leading_star(#[trigger] recs[i])
                    && leading_star(#[trigger] recs[j]) ==> i == j) ==> forall|i: int, j: int|
                0 <= i < r.len() && 0 <= j < r.len() && (#[trigger] r[i]).active
                    && (#[trigger] r[j]).active ==> i == j
        },
{
    lemma_scan_records(seq![], lines_of(text));
    if devices_of(text) is Some {
        let r = devices_of(text)->0;
        let recs = record_lines(lines_of(text));
        assert forall|k: int| 0 <= k < recs.len() implies index_token(#[trigger] recs[k]) == Some(
            r[k].index,
        ) && r[k].active == leading_star(recs[k]) by {
            assert(0 + k == k);
        }
        if forall|i: int, j: int|
            0 <= i < recs.len() && 0 <= j < recs.len() && leading_star(#[trigger] recs[i])
                && leading_star(#[trigger] recs[j]) ==> i == j {
            assert forall|i: int, j: int|
                0 <= i < r.len() && 0 <= j < r.len() && (#[trigger] r[i]).active
                    && (#[trigger] r[j]).active implies i == j by {
                assert(index_token(recs[i]) == Some(r[i].index));
                assert(index_token(recs[j]) == Some(r[j].index));
                assert(leading_star(recs[i]) && leading_star(recs[j]));
            }
        }
    }
}

proof fn lemma_scan_defaults(ds: Seq<InterfaceView>, lines: Seq<Seq<char>>)
    requires
        scan_devices(ds, lines) is Some,
    ensures
        (forall|k: int| 0 <= k < ds.len() ==> (#[trigger] ds[k]).state == Seq::<char>::empty())
            && (forall|i: int| 0 <= i < lines.len() ==> !is_state_line(#[trigger] lines[i]))
            ==> forall|k: int|
            0 <= k < scan_devices(ds, lines)->0.len() ==> (#[trigger] scan_devices(
                ds,
                lines,
            )->0[k]).state == Seq::<char>::empty(),
        (forall|k: int| 0 <= k < ds.len() ==> (#[trigger] ds[k]).name == Seq::<char>::empty())
            && (forall|i: int| 0 <= i < lines.len() ==> !is_name_line(#[trigger] lines[i]))
            ==> forall|k: int|
            0 <= k < scan_devices(ds, lines)->0.len() ==> (#[trigger] scan_devices(
                ds,
                lines,
            )->0[k]).name == Seq::<char>::empty(),
    decreases lines.len(),
{
    if lines.len() > 0 {
        let next = device_step(ds, lines[0])->0;
        let rest = lines.drop_first();
        assert forall|i: int| 0 <= i < rest.len() implies rest[i] == lines[i + 1] by {}
        lemma_scan_defaults(next, rest);
        if (forall|k: int| 0 <= k < ds.len() ==> (#[trigger] ds[k]).state == Seq::<char>::empty())
            && (forall|i: int| 0 <= i < lines.len() ==> !is_state_line(#[trigger] lines[i])) {
            assert(!is_state_line(lines[0]));
            assert forall|i: int| 0 <= i < rest.len() implies !is_state_line(#[trigger] rest[i]) by {
                assert(!is_state_line(lines[i + 1]));
            }
            assert forall|k: int| 0 <= k < next.len() implies (#[trigger] next[k]).state
                == Seq::<char>::empty() by {
                if k < ds.len() {
                    assert(ds[k].state == Seq::<char>::empty());
                }
            }
        }
        if (forall|k: int| 0 <= k < ds.len() ==> (#[trigger] ds[k]).name == Seq::<char>::empty())
            && (forall|i: int| 0 <= i < lines.len() ==> !is_name_line(#[trigger] lines[i])) {
            assert(!is_name_line(lines[0]));
            assert forall|i: int| 0 <= i < rest.len() implies !is_name_line(#[trigger] rest[i]) by {
                assert(!is_name_line(lines[i + 1]));
            }
            assert forall|k: int| 0 <= k < next.len() implies (#[trigger] next[k]).name
                == Seq::<char>::empty() by {
                if k < ds.len() {
                    assert(ds[k].name == Seq::<char>::empty());
                }
            }
        }
    }
}

/// Fields that a dump leaves out keep their empty defaults: where no line
/// reports a state, every device's state is empty, and where no line
/// carries a description, every device's name is empty. Whether the dump is
/// read at all depends on its record lines alone.
pub proof fn lemma_missing_fields_default(text: Seq<char>)
    requires
        devices_of(text) is Some,
    ensures
        (forall|i: int| 0 <= i < lines_of(text).len() ==> !is_state_line(#[trigger] lines_of(text)[i]))
            ==> forall|k: int|
            0 <= k < devices_of(text)->0.len() ==> (#[trigger] devices_of(text)->0[k]).state
                == Seq::<char>::empty(),
        (forall|i: int| 0 <= i < lines_of(text).len() ==> !is_name_line(#[trigger] lines_of(text)[i]))
            ==> forall|k: int|
            0 <= k < devices_of(text)->0.len() ==> (#[trigger] devices_of(text)->0[k]).name
                == Seq::<char>::empty(),
{
    lemma_scan_defaults(seq![], lines_of(text));
}

proof fn lemma_scan_concat(ds: Seq<InterfaceView>, a: Seq<Seq<char>>, b: Seq<Seq<char>>)
    ensures
        scan_devices(ds, a + b) == match scan_devices(ds, a) {
            Some(m) => scan_devices(m, b),
            None => None,
        },
    decreases a.len(),
{
    if a.len() == 0 {
        assert(a + b =~= b);
    } else {
        assert((a + b)[0] == a[0]);
        assert((a + b).drop_first() =~= a.drop_first() + b);
        match device_step(ds, a[0]) {
            Some(n) => lemma_scan_concat(n, a.drop_first(), b),
            None => {},
        }
    }
}

/// Only the last device is ever changed in place: the ones before it stay.
proof fn lemma_scan_keeps_settled(ds: Seq<InterfaceView>, lines: Seq<Seq<char>>)
    requires
        scan_devices(ds, lines) is Some,
    ensures
        scan_devices(ds, lines)->0.len() >= ds.len(),
        forall|k: int|
            0 <= k < ds.len() - 1 ==> (#[trigger] scan_devices(ds, lines)->0[k]) == ds[k],
    decreases lines.len(),
{
    if lines.len() > 0 {
        let n = device_step(ds, lines[0])->0;
        lemma_scan_keeps_settled(n, lines.drop_first());
        assert(n.len() >= ds.len());
        assert forall|k: int| 0 <= k < ds.len() - 1 implies #[trigger] n[k] == ds[k] by {}
    }
}

/// Lines that open no record change only the last device, and of it only
/// the fields that they report.
proof fn lemma_scan_quiet_body(ds: Seq<InterfaceView>, body: Seq<Seq<char>>)
    requires
        scan_devices(ds, body) is Some,
        ds.len() > 0,
        forall|m: int| 0 <= m < body.len() ==> !is_record_line(#[trigger] body[m]),
    ensures
        scan_devices(ds, body)->0.len() == ds.len(),
        (forall|m: int| 0 <= m < body.len() ==> !is_state_line(#[trigger] body[m]))
            ==> scan_devices(ds, body)->0.last().state == ds.last().state,
        (forall|m: int| 0 <= m < body.len() ==> !is_name_line(#[trigger] body[m]))
            ==> scan_devices(ds, body)->0.last().name == ds.last().name,
    decreases body.len(),
{
    if body.len() > 0 {
        let rest = body.drop_first();
        assert(!is_record_line(body[0]));
        let n = device_step(ds, body[0])->0;
        assert forall|m: int| 0 <= m < rest.len() implies !is_record_line(#[trigger] rest[m]) by {
            assert(rest[m] == body[m + 1]);
        }
        lemma_scan_quiet_body(n, rest);
        if forall|m: int| 0 <= m < body.len() ==> !is_state_line(#[trigger] body[m]) {
            assert(!is_state_line(body[0]));
            assert forall|m: int| 0 <= m < rest.len() implies !is_state_line(#[trigger] rest[m]) by {
                assert(rest[m] == body[m + 1]);
            }
        }
        if forall|m: int| 0 <= m < body.len() ==> !is_name_line(#[trigger] body[m]) {
            assert(!is_name_line(body[0]));
            assert forall|m: int| 0 <= m < rest.len() implies !is_name_line(#[trigger] rest[m]) by {
                assert(rest[m] == body[m + 1]);
            }
        }
    }
}

/// A record whose lines, up to the next record line or the end of the dump,
/// report no state keeps the empty state, and one whose lines carry no
/// description keeps the empty name, whatever the other records hold. The
/// record opened by line `i` is device number `n`, where `n` counts the
/// record lines before line `i`.
pub proof fn lemma_record_fields_default(text: Seq<char>, i: int, j: int)
    requires
        devices_of(text) is Some,
        0 <= i < j <= lines_of(text).len(),
        is_record_line(lines_of(text)[i]),
        forall|m: int| i < m < j ==> !is_record_line(#[trigger] lines_of(text)[m]),
        j == lines_of(text).len() || is_record_line(lines_of(text)[j]),
    ensures
        ({
            let n = record_lines(lines_of(text).subrange(0, i)).len() as int;
            let r = devices_of(text)->0;
            &&& n < r.len()
            &&& (forall|m: int| i < m < j ==> !is_state_line(#[trigger] lines_of(text)[m]))
                ==> r[n].state == Seq::<char>::empty()
            &&& (forall|m: int| i < m < j ==> !is_name_line(#[trigger] lines_of(text)[m]))
                ==> r[n].name == Seq::<char>::empty()
        }),
{
    let lines = lines_of(text);
    let a = lines.subrange(0, i);
    let seg = lines.subrange(i, j);
    let post = lines.subrange(j, lines.len() as int);
    let body = lines.subrange(i + 1, j);
    let e = Seq::<InterfaceView>::empty();
    assert(lines =~= a + (seg + post));
    lemma_scan_concat(e, a, seg + post);
    let m1 = scan_devices(e, a)->0;
    lemma_scan_records(e, a);
    let n = m1.len();
    lemma_scan_concat(m1, seg, post);
    assert(seg[0] == lines[i]);
    assert(seg.drop_first() =~= body);
    let m2 = device_step(m1, lines[i])->0;
    assert(m2 == m1.push(fresh_device(index_token(lines[i])->0, leading_star(lines[i]))));
    assert forall|m: int| 0 <= m < body.len() implies !is_record_line(#[trigger] body[m]) by {
        assert(body[m] == lines[i + 1 + m]);
    }
    lemma_scan_quiet_body(m2, body);
    let m3 = scan_devices(m2, body)->0;
    let r = devices_of(text)->0;
    assert(r == scan_devices(m3, post)->0);
    if post.len() > 0 {
        assert(post[0] == lines[j]);
        let m4 = device_step(m3, post[0])->0;
        lemma_scan_keeps_settled(m4, post.drop_first());
        assert(r[n as int] == m4[n as int]);
    } else {
        assert(r == m3);
    }
    if forall|m: int| i < m < j ==> !is_state_line(#[trigger] lines[m]) {
        assert forall|m: int| 0 <= m < body.len() implies !is_state_line(#[trigger] body[m]) by {
            assert(body[m] == lines[i + 1 + m]);
        }
    }
    if forall|m: int| i < m < j ==> !is_name_line(#[trigger] lines[m]) {
        assert forall|m: int| 0 <= m < body.len() implies !is_name_line(#[trigger] body[m]) by {
            assert(body[m] == lines[i + 1 + m]);
        }
    }
}

/// The stream identifiers after the lines `lines`, starting from `ids`, or
/// `None` where a record's identifier cannot be read.
pub open spec fn scan_streams(ids: Seq<i32>, lines: Seq<Seq<char>>) -> Option<Seq<i32>>
    decreases lines.len(),
{
    if lines.len() == 0 {
        Some(ids)
    } else if is_record_line(lines[0]) {
        match index_token(lines[0]) {
            Some(i) => scan_streams(ids.push(i), lines.drop_first()),
            None => None,
        }
    } else {
        scan_streams(ids, lines.drop_first())
    }
}

/// The identifiers of the streams that a stream dump lists, in its order.
pub open spec fn streams_of(text: Seq<char>) -> Option<Seq<i32>> {
    scan_streams(seq![], lines_of(text))
}

/// Parses the audio server's dump of playing streams ("sink inputs") into
/// their identifiers.
pub fn parse_sink_inputs(text: &str) -> (r: Result<Vec<i32>, CoreError>)
    ensures
        match r {
            Ok(v) => streams_of(text@) == Some(v@),
            Err(e) => streams_of(text@) is None && e is Parse,
        },
{
    let s = chars_of(text);
    let mut ids: Vec<i32> = Vec::new();
    let mut pos: usize = 0;
    assert(s@.subrange(0, s@.len() as int) =~= text@);
    while pos < s.len()
        invariant
            s@ == text@,
            pos <= s@.len(),
            scan_streams(ids@, lines_of(s@.subrange(pos as int, s@.len() as int))) == streams_of(
                text@,
            ),
        decreases s.len() - pos,
    {
        let (line, next) = next_line(&s, pos);
        let ghost rest = lines_of(s@.subrange(next as int, s@.len() as int));
        proof {
            assert((seq![line@] + rest)[0] == line@);
            assert((seq![line@] + rest).drop_first() =~= rest);
        }
        if has(&line, "index") {
            match index_of_line(&line) {
                Some(i) => ids.push(i),
                None => {
                    return Err(CoreError::Parse);
                },
            }
        }
        pos = next;
    }
    assert(s@.subrange(pos as int, s@.len() as int) =~= Seq::<char>::empty());
    Ok(ids)
}

} // verus!

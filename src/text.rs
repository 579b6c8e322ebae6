//! Character-level helpers shared by the parsers: line splitting, substring
//! search and decimal numbers.

use vstd::prelude::*;
use vstd::std_specs::iter::IteratorSpec;

verus! {

/// The characters of `s`, in order.
pub fn chars_of(s: &str) -> (r: Vec<char>)
    ensures
        r@ == s@,
{
    broadcast use vstd::string::next_postcondition;

    let mut it = s.chars();
    let mut out: Vec<char> = Vec::new();
    loop
        invariant
            it.obeys_prophetic_iter_laws(),
            out@ + it.remaining() == s@,
            it.decrease() is Some,
        ensures
            out@ == s@,
        decreases it.decrease()->0,
    {
        match it.next() {
            Some(c) => {
                out.push(c);
            },
            None => {
                assert(out@ + it.remaining() =~= out@);
                break;
            },
        }
    }
    out
}


pub open spec fn is_digit(c: char) -> bool {
    '0' <= c && c <= '9'
}

pub open spec fn digit_value(c: char) -> int {
    c as int - '0' as int
}

/// The number that a sequence of decimal digits spells, most significant first.
pub open spec fn digits_value(d: Seq<char>) -> int
    decreases d.len(),
{
    if d.len() == 0 {
        0
    } else {
        digits_value(d.drop_last()) * 10 + digit_value(d.last())
    }
}

pub open spec fn all_digits(d: Seq<char>) -> bool {
    forall|k: int| 0 <= k < d.len() ==> is_digit(#[trigger] d[k])
}

/// `end` closes the longest run of digits of `s` that begins at `start`.
pub open spec fn run_end(s: Seq<char>, start: int, end: int) -> bool {
    &&& 0 <= start <= end <= s.len()
    &&& forall|k: int| start <= k < end ==> is_digit(#[trigger] s[k])
    &&& end == s.len() || !is_digit(s[end])
}

/// The end of the longest run of digits of `s` that begins at `start`.
pub open spec fn digits_end(s: Seq<char>, start: int) -> int {
    choose|end: int| run_end(s, start, end)
}

pub open spec fn occurs_at(s: Seq<char>, p: Seq<char>, i: int) -> bool {
    0 <= i && i + p.len() <= s.len() && s.subrange(i, i + p.len()) == p
}

pub open spec fn contains(s: Seq<char>, p: Seq<char>) -> bool {
    exists|i: int| occurs_at(s, p, i)
}

/// `i` is where `p` first occurs in `s`.
pub open spec fn is_first_at(s: Seq<char>, p: Seq<char>, i: int) -> bool {
    occurs_at(s, p, i) && forall|j: int| 0 <= j < i ==> !occurs_at(s, p, j)
}

/// Where `p` first occurs in `s`.
pub open spec fn first_at(s: Seq<char>, p: Seq<char>) -> int {
    choose|i: int| is_first_at(s, p, i)
}

pub open spec fn digit_char(d: nat) -> char {
    ('0' as nat + d) as char
}

/// The decimal notation of `n`, without leading zeros.
pub open spec fn decimal(n: nat) -> Seq<char>
    decreases n,
{
    if n < 10 {
        seq![digit_char(n)]
    } else {
        decimal(n / 10) + seq![digit_char(n % 10)]
    }
}

/// The decimal notation of a signed integer.
pub open spec fn int_text(n: int) -> Seq<char> {
    if n < 0 {
        seq!['-'] + decimal((-n) as nat)
    } else {
        decimal(n as nat)
    }
}

pub proof fn lemma_digits_value_nonneg(d: Seq<char>)
    requires
        all_digits(d),
    ensures
        digits_value(d) >= 0,
    decreases d.len(),
{
    if d.len() > 0 {
        assert(is_digit(d[d.len() - 1]));
        lemma_digits_value_nonneg(d.drop_last());
    }
}

/// A prefix of a run of digits spells no larger a number than the run.
pub proof fn lemma_digits_prefix_le(d: Seq<char>, k: int)
    requires
        all_digits(d),
        0 <= k <= d.len(),
    ensures
        digits_value(d.subrange(0, k)) <= digits_value(d),
    decreases d.len(),
{
    if k < d.len() {
        let t = d.drop_last();
        assert(t.subrange(0, k) =~= d.subrange(0, k));
        lemma_digits_prefix_le(t, k);
        lemma_digits_value_nonneg(t);
        assert(is_digit(d[d.len() - 1]));
    } else {
        assert(d.subrange(0, k) =~= d);
    }
}

proof fn lemma_run_end_unique(s: Seq<char>, start: int, e1: int, e2: int)
    requires
        run_end(s, start, e1),
        run_end(s, start, e2),
    ensures
        e1 == e2,
{
    if e1 < e2 {
        assert(is_digit(s[e1]));
    } else if e2 < e1 {
        assert(is_digit(s[e2]));
    }
}

/// Whether `p` occurs in `s` at `i`.
pub fn matches_at(s: &Vec<char>, p: &Vec<char>, i: usize) -> (r: bool)
    ensures
        r == occurs_at(s@, p@, i as int),
{
    if i > s.len() || p.len() > s.len() - i {
        return false;
    }
    let mut k: usize = 0;
    while k < p.len()
        invariant
            i + p.len() <= s.len(),
            k <= p.len(),
            forall|m: int| 0 <= m < k ==> s@[i + m] == p@[m],
        decreases p.len() - k,
    {
        if s[i + k] != p[k] {
            assert(s@.subrange(i as int, i + p.len())[k as int] != p@[k as int]);
            return false;
        }
        k = k + 1;
    }
    assert(s@.subrange(i as int, i + p.len()) =~= p@);
    true
}

/// Where `p` first occurs in `s`, if it does.
pub fn find(s: &Vec<char>, p: &Vec<char>) -> (r: Option<usize>)
    ensures
        match r {
            Some(i) => is_first_at(s@, p@, i as int) && first_at(s@, p@) == i,
            None => !contains(s@, p@),
        },
{
    let mut i: usize = 0;
    loop
        invariant
            i <= s.len(),
            forall|j: int| 0 <= j < i ==> !occurs_at(s@, p@, j),
        decreases s.len() - i,
    {
        if matches_at(s, p, i) {
            proof {
                let c = first_at(s@, p@);
                assert(is_first_at(s@, p@, i as int));
                if c < i {
                    assert(!occurs_at(s@, p@, c));
                } else if c > i {
                    assert(!occurs_at(s@, p@, i as int));
                }
            }
            return Some(i);
        }
        if i == s.len() {
            assert forall|j: int| !occurs_at(s@, p@, j) by {
                if 0 <= j && j < i {
                }
            }
            return None;
        }
        i = i + 1;
    }
}

/// The end of the run of digits of `s` that begins at `start`.
pub fn scan_digits(s: &Vec<char>, start: usize) -> (end: usize)
    requires
        start <= s.len(),
    ensures
        run_end(s@, start as int, end as int),
        end == digits_end(s@, start as int),
{
    let mut end = start;
    while end < s.len() && '0' <= s[end] && s[end] <= '9'
        invariant
            start <= end <= s.len(),
            forall|k: int| start <= k < end ==> is_digit(#[trigger] s@[k]),
        decreases s.len() - end,
    {
        end = end + 1;
    }
    proof {
        let c = digits_end(s@, start as int);
        assert(run_end(s@, start as int, end as int));
        lemma_run_end_unique(s@, start as int, c, end as int);
    }
    end
}

/// The number spelled by the digits `s[start..end]`, or `None` where it
/// exceeds `limit`.
pub fn digits_number(s: &Vec<char>, start: usize, end: usize, limit: u64) -> (r: Option<u64>)
    requires
        start <= end <= s.len(),
        limit <= u32::MAX,
        all_digits(s@.subrange(start as int, end as int)),
    ensures
        match r {
            Some(v) => v == digits_value(s@.subrange(start as int, end as int)) && v <= limit,
            None => digits_value(s@.subrange(start as int, end as int)) > limit,
        },
{
    let ghost d = s@.subrange(start as int, end as int);
    let mut v: u64 = 0;
    let mut k: usize = start;
    while k < end
        invariant
            start <= k <= end <= s.len(),
            limit <= u32::MAX,
            d == s@.subrange(start as int, end as int),
            all_digits(d),
            v == digits_value(d.subrange(0, k - start)),
            v <= limit,
        decreases end - k,
    {
        proof {
            assert(is_digit(d[k - start]));
            assert(d.subrange(0, k - start + 1).drop_last() =~= d.subrange(0, k - start));
        }
        let c = s[k];
        let dv = (c as u32 - '0' as u32) as u64;
        v = v * 10 + dv;
        k = k + 1;
        if v > limit {
            proof {
                lemma_digits_prefix_le(d, k - start);
            }
            return None;
        }
    }
    assert(d.subrange(0, k - start) =~= d);
    Some(v)
}

fn digit_str(d: u32) -> (r: &'static str)
    requires
        d < 10,
    ensures
        r@ == seq![digit_char(d as nat)],
{
    let all = "0123456789";
    proof {
        reveal_strlit("0123456789");
    }
    let r = all.substring_char(d as usize, d as usize + 1);
    assert(r@ =~= seq![digit_char(d as nat)]);
    r
}

/// Appends the decimal notation of `n` to `out`.
pub fn push_decimal(out: &mut String, n: u32)
    ensures
        final(out)@ == old(out)@ + decimal(n as nat),
    decreases n,
{
    if n >= 10 {
        push_decimal(out, n / 10);
    }
    out.append(digit_str(n % 10));
    assert(final(out)@ =~= old(out)@ + decimal(n as nat));
}

/// Appends the decimal notation of the signed `n` to `out`.
pub fn push_int(out: &mut String, n: i32)
    ensures
        final(out)@ == old(out)@ + int_text(n as int),
{
    if n < 0 {
        out.append("-");
        proof {
            reveal_strlit("-");
        }
        let m = (-(n as i64)) as u32;
        push_decimal(out, m);
        assert(final(out)@ =~= old(out)@ + int_text(n as int));
    } else {
        push_decimal(out, n as u32);
    }
}


/// `i` is the first position at or after `from` where `s` holds `c`.
pub open spec fn is_next_char(s: Seq<char>, c: char, from: int, i: int) -> bool {
    &&& from <= i < s.len()
    &&& s[i] == c
    &&& forall|j: int| from <= j < i ==> s[j] != c
}

pub open spec fn has_char_from(s: Seq<char>, c: char, from: int) -> bool {
    exists|i: int| from <= i < s.len() && s[i] == c
}

/// The first position at or after `from` where `s` holds `c`.
pub open spec fn next_char(s: Seq<char>, c: char, from: int) -> int {
    choose|i: int| is_next_char(s, c, from, i)
}

pub open spec fn strip_cr(l: Seq<char>) -> Seq<char> {
    if l.len() > 0 && l.last() == '\r' {
        l.drop_last()
    } else {
        l
    }
}

/// The lines of `s`: split at each `'\n'`, a `'\r'` before it dropped, and
/// no empty line after a final `'\n'`.
pub open spec fn lines_of(s: Seq<char>) -> Seq<Seq<char>>
    decreases s.len(),
{
    if s.len() == 0 {
        seq![]
    } else if has_char_from(s, '\n', 0) && 0 <= next_char(s, '\n', 0) < s.len() {
        let i = next_char(s, '\n', 0);
        seq![strip_cr(s.subrange(0, i))] + lines_of(s.subrange(i + 1, s.len() as int))
    } else {
        seq![s]
    }
}

proof fn lemma_next_char_is(s: Seq<char>, c: char, from: int, i: int)
    requires
        is_next_char(s, c, from, i),
    ensures
        has_char_from(s, c, from),
        next_char(s, c, from) == i,
{
    let n = next_char(s, c, from);
    assert(is_next_char(s, c, from, n));
    if n < i {
        assert(s[n] != c);
    } else if i < n {
        assert(s[i] != c);
    }
}

/// The first position at or after `from` where `s` holds `c`, if any.
pub fn find_char(s: &Vec<char>, c: char, from: usize) -> (r: Option<usize>)
    ensures
        match r {
            Some(i) => is_next_char(s@, c, from as int, i as int) && next_char(s@, c, from as int)
                == i,
            None => !has_char_from(s@, c, from as int),
        },
{
    let mut i = from;
    while i < s.len()
        invariant
            from <= i,
            forall|j: int| from <= j < i && j < s.len() ==> s@[j] != c,
        decreases s.len() - i,
    {
        if s[i] == c {
            proof {
                lemma_next_char_is(s@, c, from as int, i as int);
            }
            return Some(i);
        }
        i = i + 1;
    }
    None
}

/// The line of `s` that starts at `pos`, and where the next one starts.
pub fn next_line(s: &Vec<char>, pos: usize) -> (r: (Vec<char>, usize))
    requires
        pos < s.len(),
    ensures
        pos < r.1 <= s.len(),
        pos + r.0@.len() <= r.1,
        r.0@ == s@.subrange(pos as int, pos + r.0@.len()),
        lines_of(s@.subrange(pos as int, s.len() as int)) == seq![r.0@] + lines_of(
            s@.subrange(r.1 as int, s.len() as int),
        ),
{
    let ghost rest = s@.subrange(pos as int, s.len() as int);
    let mut line: Vec<char> = Vec::new();
    let mut j = pos;
    while j < s.len() && s[j] != '\n'
        invariant
            pos <= j <= s.len(),
            line@ == s@.subrange(pos as int, j as int),
            forall|k: int| pos <= k < j ==> s@[k] != '\n',
        decreases s.len() - j,
    {
        line.push(s[j]);
        j = j + 1;
    }
    if j < s.len() {
        proof {
            assert(is_next_char(rest, '\n', 0, j - pos));
            lemma_next_char_is(rest, '\n', 0, j - pos);
            assert(rest.subrange(0, j - pos) =~= line@);
            assert(rest.subrange(j - pos + 1, rest.len() as int) =~= s@.subrange(
                j + 1,
                s.len() as int,
            ));
        }
        if line.len() > 0 && line[line.len() - 1] == '\r' {
            line.pop();
            assert(line@ =~= s@.subrange(pos as int, pos + line@.len()));
        }
        (line, j + 1)
    } else {
        proof {
            assert(!has_char_from(rest, '\n', 0));
            assert(rest =~= line@);
            assert(s@.subrange(j as int, s.len() as int) =~= Seq::<char>::empty());
            assert(seq![line@] + Seq::<Seq<char>>::empty() =~= seq![line@]);
        }
        (line, j)
    }
}

} // verus!

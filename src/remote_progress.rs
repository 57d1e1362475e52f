//! Progress messages a server sends during fetch, clone and push, such as
//! `Counting objects: 50% (5/10)`.
use vstd::prelude::*;
use crate::bytes::{append, copy_range, next_sep, to_vec, lemma_next_sep_bounds};

verus! {

/// What a progress message says: the action, and the numbers it gives.
#[derive(Debug, PartialEq, Eq)]
pub struct RemoteProgress {
    /// The name of the action, like `clone`.
    pub action: Vec<u8>,
    /// The percentage done, between 0 and 100.
    pub percent: Option<u32>,
    /// The number of items done.
    pub step: Option<usize>,
    /// The number of items expected.
    pub max: Option<usize>,
}

/// A progress message as plain values.
pub type ProgressView = (Seq<u8>, Option<u32>, Option<usize>, Option<usize>);

impl View for RemoteProgress {
    type V = ProgressView;

    open spec fn view(&self) -> ProgressView {
        (self.action@, self.percent, self.step, self.max)
    }
}

/// `b` is a decimal digit.
pub open spec fn is_digit(b: u8) -> bool {
    48u8 <= b <= 57u8
}

/// The first position at or after `pos` that holds a digit, or the end.
pub open spec fn skip_to_digit(s: Seq<u8>, pos: int) -> int
    decreases s.len() - pos,
{
    if pos >= s.len() || pos < 0 {
        s.len() as int
    } else if is_digit(s[pos]) {
        pos
    } else {
        skip_to_digit(s, pos + 1)
    }
}

/// The first position at or after `pos` that holds no digit, or the end.
pub open spec fn digits_end(s: Seq<u8>, pos: int) -> int
    decreases s.len() - pos,
{
    if pos >= s.len() || pos < 0 {
        s.len() as int
    } else if !is_digit(s[pos]) {
        pos
    } else {
        digits_end(s, pos + 1)
    }
}

/// The number the digits `s[a..b]` write in decimal.
pub open spec fn digits_value(s: Seq<u8>, a: int, b: int) -> nat
    decreases b - a,
{
    if b <= a {
        0
    } else {
        digits_value(s, a, b - 1) * 10 + (s[b - 1] - 48) as nat
    }
}

/// The number that follows position `pos` after any non-digits, if it has at least one digit
/// and is at most `bound`, with the position after it.
pub open spec fn number_at(s: Seq<u8>, pos: int, bound: nat) -> Option<(nat, int)> {
    let a = skip_to_digit(s, pos);
    let b = digits_end(s, a);
    if b > a && digits_value(s, a, b) <= bound {
        Some((digits_value(s, a, b), b))
    } else {
        None
    }
}

/// A percentage at `pos`: a number that fits in `u32`, directly followed by `%`, with the
/// position after the `%`.
pub open spec fn percent_at(s: Seq<u8>, pos: int) -> Option<(nat, int)> {
    match number_at(s, pos, u32::MAX as nat) {
        Some((v, e)) => if e < s.len() && s[e] == 37u8 {
            Some((v, e + 1))
        } else {
            None
        },
        None => None,
    }
}

/// What `line` reads as: an action up to the first `:` (at least one byte), then optionally a
/// percentage, then optionally a step and a maximum, each a number after any non-digits. A
/// part that is missing leaves the position where it was.
pub open spec fn parse_spec(line: Seq<u8>) -> Option<ProgressView> {
    let a = next_sep(line, 58u8, 0);
    if a == 0 {
        None
    } else {
        let p = percent_at(line, a);
        let p1 = match p { Some((_, e)) => e, None => a };
        let st = number_at(line, p1, usize::MAX as nat);
        let p2 = match st { Some((_, e)) => e, None => p1 };
        let mx = number_at(line, p2, usize::MAX as nat);
        Some((
            line.subrange(0, a),
            match p { Some((v, _)) => Some(v as u32), None => None },
            match st { Some((v, _)) => Some(v as usize), None => None },
            match mx { Some((v, _)) => Some(v as usize), None => None },
        ))
    }
}

/// The first digit found lies between `pos` and the end.
pub proof fn lemma_skip_bounds(s: Seq<u8>, pos: int)
    requires
        0 <= pos <= s.len(),
    ensures
        pos <= skip_to_digit(s, pos) <= s.len(),
        skip_to_digit(s, pos) < s.len() ==> is_digit(s[skip_to_digit(s, pos)]),
    decreases s.len() - pos,
{
    if pos < s.len() && !is_digit(s[pos]) {
        lemma_skip_bounds(s, pos + 1);
    }
}

/// The run of digits from `pos` ends between `pos` and the end, at a non-digit or the end.
pub proof fn lemma_digits_bounds(s: Seq<u8>, pos: int)
    requires
        0 <= pos <= s.len(),
    ensures
        pos <= digits_end(s, pos) <= s.len(),
        forall|k: int| pos <= k < digits_end(s, pos) ==> is_digit(#[trigger] s[k]),
        digits_end(s, pos) < s.len() ==> !is_digit(s[digits_end(s, pos)]),
    decreases s.len() - pos,
{
    if pos < s.len() && is_digit(s[pos]) {
        lemma_digits_bounds(s, pos + 1);
    }
}

/// Reading more digits gives no smaller number.
pub proof fn lemma_value_grows(s: Seq<u8>, a: int, i: int, b: int)
    requires
        a <= i <= b,
        forall|k: int| a <= k < b ==> is_digit(#[trigger] s[k]),
    ensures
        digits_value(s, a, i) <= digits_value(s, a, b),
    decreases b - i,
{
    if i < b {
        lemma_value_grows(s, a, i, b - 1);
    }
}

/// The number at `pos` that is at most `bound`, as `number_at` reads it.
pub fn read_number(s: &[u8], pos: usize, bound: u64) -> (r: Option<(u64, usize)>)
    requires
        pos <= s@.len(),
    ensures
        match r {
            Some((v, e)) => number_at(s@, pos as int, bound as nat) == Some((v as nat, e as int)) && e <= s@.len(),
            None => number_at(s@, pos as int, bound as nat) is None,
        },
{
    proof {
        lemma_skip_bounds(s@, pos as int);
    }
    let mut a: usize = pos;
    while a < s.len() && !(48u8 <= s[a] && s[a] <= 57u8)
        invariant
            pos <= a <= s@.len(),
            skip_to_digit(s@, pos as int) == skip_to_digit(s@, a as int),
        decreases s@.len() - a,
    {
        a = a + 1;
    }
    proof {
        lemma_digits_bounds(s@, a as int);
    }
    let mut b: usize = a;
    let mut v: u64 = 0;
    while b < s.len() && 48u8 <= s[b] && s[b] <= 57u8
        invariant
            a <= b <= s@.len(),
            a == skip_to_digit(s@, pos as int),
            digits_end(s@, a as int) == digits_end(s@, b as int),
            a <= digits_end(s@, a as int) <= s@.len(),
            forall|k: int| a <= k < digits_end(s@, a as int) ==> is_digit(#[trigger] s@[k]),
            v as nat == digits_value(s@, a as int, b as int),
            v <= bound,
        decreases s@.len() - b,
    {
        let d = (s[b] - 48u8) as u64;
        if d > bound || v > (bound - d) / 10 {
            proof {
                assert(digits_value(s@, a as int, b + 1) == v * 10 + d);
                if d <= bound {
                    assert(v * 10 + d > bound) by (nonlinear_arith)
                        requires
                            v > (bound - d) / 10,
                            d <= bound,
                    ;
                }
                lemma_digits_bounds(s@, b + 1);
                lemma_value_grows(s@, a as int, b + 1, digits_end(s@, a as int));
            }
            return None;
        }
        v = v * 10 + d;
        b = b + 1;
    }
    if b == a {
        return None;
    }
    Some((v, b))
}

/// Read a progress line as `parse_spec` describes.
fn parse_progress(line: &[u8]) -> (r: Option<RemoteProgress>)
    ensures
        match r {
            Some(p) => parse_spec(line@) == Some(p@),
            None => parse_spec(line@) is None,
        },
{
    proof {
        lemma_next_sep_bounds(line@, 58u8, 0);
    }
    let mut a: usize = 0;
    while a < line.len() && line[a] != 58u8
        invariant
            a <= line@.len(),
            next_sep(line@, 58u8, 0) == next_sep(line@, 58u8, a as int),
        decreases line@.len() - a,
    {
        a = a + 1;
    }
    if a == 0 {
        return None;
    }
    let mut pos = a;
    let mut percent: Option<u32> = None;
    match read_number(line, pos, 4294967295u64) {
        Some((v, e)) => {
            if e < line.len() && line[e] == 37u8 {
                percent = Some(v as u32);
                pos = e + 1;
            }
        },
        None => {},
    }
    let mut step: Option<usize> = None;
    match read_number(line, pos, usize::MAX as u64) {
        Some((v, e)) => {
            step = Some(v as usize);
            pos = e;
        },
        None => {},
    }
    let mut max: Option<usize> = None;
    match read_number(line, pos, usize::MAX as u64) {
        Some((v, _)) => {
            max = Some(v as usize);
        },
        None => {},
    }
    Some(RemoteProgress { action: copy_range(line, 0, a), percent, step, max })
}

impl RemoteProgress {
    /// Read the progress of a typical progress line, if it gives at least one number.
    pub fn from_bytes(line: &[u8]) -> (r: Option<RemoteProgress>)
        ensures
            match parse_spec(line@) {
                Some(p) => if p.1 is None && p.2 is None && p.3 is None {
                    r is None
                } else {
                    r is Some && r->Some_0@ == p
                },
                None => r is None,
            },
    {
        match parse_progress(line) {
            Some(p) => {
                if p.percent.is_none() && p.step.is_none() && p.max.is_none() {
                    None
                } else {
                    Some(p)
                }
            },
            None => None,
        }
    }
}

/// A call to make on a progress display.
#[derive(Debug, PartialEq, Eq)]
pub enum ProgressCall {
    /// Report a failure with this message.
    Fail(Vec<u8>),
    /// Give the display this name.
    SetName(Vec<u8>),
    /// Start counting objects, up to `max` if it is known.
    Init(Option<usize>),
    /// Set the count to this step.
    SetStep(usize),
}

/// A progress call as plain values.
pub enum CallView {
    Fail(Seq<u8>),
    SetName(Seq<u8>),
    Init(Option<usize>),
    SetStep(usize),
}

impl View for ProgressCall {
    type V = CallView;

    open spec fn view(&self) -> CallView {
        match self {
            ProgressCall::Fail(m) => CallView::Fail(m@),
            ProgressCall::SetName(n) => CallView::SetName(n@),
            ProgressCall::Init(m) => CallView::Init(*m),
            ProgressCall::SetStep(s) => CallView::SetStep(*s),
        }
    }
}

/// The name of a display for `action`: the current name up to its first `:`, then `: ` and
/// the action; or the action alone if there is no current name.
pub open spec fn name_for(current: Option<Seq<u8>>, action: Seq<u8>) -> Seq<u8> {
    match current {
        Some(c) => c.subrange(0, next_sep(c, 58u8, 0)) + seq![58u8, 32u8] + action,
        None => action,
    }
}

/// The calls that report `text` from the server: an error message fails the display unless
/// it is empty (a keep-alive); a progress line names the display after its action, starts
/// counting up to its maximum and sets the step it gives; any other line names the display.
pub open spec fn calls_for(is_error: bool, text: Seq<u8>, current: Option<Seq<u8>>) -> Seq<CallView> {
    if is_error {
        if text.len() > 0 {
            seq![CallView::Fail(name_for(None, text))]
        } else {
            seq![]
        }
    } else {
        match parse_spec(text) {
            Some(p) => if p.1 is None && p.2 is None && p.3 is None {
                seq![CallView::SetName(name_for(current, text))]
            } else {
                seq![CallView::SetName(name_for(current, p.0)), CallView::Init(p.3)] + match p.2 {
                    Some(st) => seq![CallView::SetStep(st)],
                    None => seq![],
                }
            },
            None => seq![CallView::SetName(name_for(current, text))],
        }
    }
}

/// The name of a display for `action`, given its current name.
pub fn progress_name(current: &Option<Vec<u8>>, action: &[u8]) -> (r: Vec<u8>)
    ensures
        r@ == name_for(crate::capabilities::opt_view(*current), action@),
{
    match current {
        Some(c) => {
            proof {
                lemma_next_sep_bounds(c@, 58u8, 0);
            }
            let mut e: usize = 0;
            while e < c.len() && c[e] != 58u8
                invariant
                    e <= c@.len(),
                    next_sep(c@, 58u8, 0) == next_sep(c@, 58u8, e as int),
                decreases c@.len() - e,
            {
                e = e + 1;
            }
            let mut r = copy_range(c.as_slice(), 0, e);
            r.push(58u8);
            r.push(32u8);
            append(&mut r, action);
            assert(r@ =~= name_for(crate::capabilities::opt_view(*current), action@));
            r
        },
        None => to_vec(action),
    }
}

/// The calls to make on a display whose current name is `current_name` for the message
/// `text` from the server, which is an error message if `is_error` is set.
pub fn translate_to_progress(is_error: bool, text: &[u8], current_name: &Option<Vec<u8>>) -> (r: Vec<ProgressCall>)
    ensures
        r@.map_values(|c: ProgressCall| c@) == calls_for(is_error, text@, crate::capabilities::opt_view(*current_name)),
{
    let mut calls: Vec<ProgressCall> = Vec::new();
    if is_error {
        if text.len() > 0 {
            calls.push(ProgressCall::Fail(progress_name(&None, text)));
        }
    } else {
        match RemoteProgress::from_bytes(text) {
            Some(p) => {
                calls.push(ProgressCall::SetName(progress_name(current_name, p.action.as_slice())));
                calls.push(ProgressCall::Init(p.max));
                match p.step {
                    Some(st) => calls.push(ProgressCall::SetStep(st)),
                    None => {},
                }
            },
            None => {
                calls.push(ProgressCall::SetName(progress_name(current_name, text)));
            },
        }
    }
    assert(calls@.map_values(|c: ProgressCall| c@) =~= calls_for(is_error, text@, crate::capabilities::opt_view(*current_name)));
    calls
}

} // verus!

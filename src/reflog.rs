//! Reading the lines of a reflog file back.
use vstd::prelude::*;
use crate::bytes::{copy_range, decimal, next_sep, lemma_next_sep_bounds, lemma_next_sep_to};
use crate::reference::{hex_id, is_hex_id};
use crate::remote_progress::{digits_value, is_digit, lemma_digits_bounds};
use crate::store::{log_line_bytes, offset_bytes, padded, LogEntry, LogLine, Signature};

verus! {

/// The fields of a reflog line as plain values: previous id, new id, committer name, email,
/// seconds, offset in minutes, message.
pub type LineFields = (Seq<u8>, Seq<u8>, Seq<u8>, Seq<u8>, nat, int, Seq<u8>);

/// `s[a..b]` is a non-empty run of digits.
pub open spec fn all_digits(s: Seq<u8>, a: int, b: int) -> bool {
    a < b && forall|k: int| a <= k < b ==> is_digit(#[trigger] s[k])
}

/// The time part of a signature, ` <seconds> <sign><hh><mm>`, as seconds and minutes.
pub open spec fn time_fields(r: Seq<u8>) -> Option<(nat, int)> {
    let sp = next_sep(r, 32u8, 1);
    if r.len() < 1 || r[0] != 32u8 || !all_digits(r, 1, sp) || sp + 6 != r.len()
        || !(r[sp + 1] == 43u8 || r[sp + 1] == 45u8) || !all_digits(r, sp + 2, sp + 6)
        || digits_value(r, 1, sp) > u64::MAX as nat {
        None
    } else {
        let m = digits_value(r, sp + 2, sp + 4) * 60 + digits_value(r, sp + 4, sp + 6);
        Some((digits_value(r, 1, sp), if r[sp + 1] == 45u8 { -(m as int) } else { m as int }))
    }
}

/// What a reflog line (without its newline) holds, if it is well formed:
/// `<previous> <new> <name> <<email>> <seconds> <offset>\t<message>`, with hex ids.
pub open spec fn line_fields(line: Seq<u8>) -> Option<LineFields> {
    let p = next_sep(line, 32u8, 0);
    let q = next_sep(line, 32u8, p + 1);
    let t = next_sep(line, 9u8, q + 1);
    if p >= line.len() || q >= line.len() || t >= line.len() {
        None
    } else {
        let sig = line.subrange(q + 1, t);
        let lt = next_sep(sig, 60u8, 0);
        let gt = next_sep(sig, 62u8, lt + 1);
        if !is_hex_id(line.subrange(0, p)) || !is_hex_id(line.subrange(p + 1, q)) || lt < 1 || lt >= sig.len()
            || sig[lt - 1] != 32u8 || gt >= sig.len() {
            None
        } else {
            match time_fields(sig.subrange(gt + 1, sig.len() as int)) {
                Some((secs, off)) => Some((
                    line.subrange(0, p),
                    line.subrange(p + 1, q),
                    sig.subrange(0, lt - 1),
                    sig.subrange(lt + 1, gt),
                    secs,
                    off,
                    line.subrange(t + 1, line.len() as int),
                )),
                None => None,
            }
        }
    }
}

/// The reflog line `l` as fields, with `name` the reference's name.
pub open spec fn fields_of(l: LogLine) -> LineFields {
    (l.previous@, l.new@, l.committer.name@, l.committer.email@, l.committer.seconds as nat,
        l.committer.offset_minutes as int, l.message@)
}

fn find_byte(s: &[u8], b: u8, from: usize) -> (r: usize)
    requires
        from <= s@.len(),
    ensures
        r as int == next_sep(s@, b, from as int),
        from <= r <= s@.len(),
{
    proof {
        lemma_next_sep_bounds(s@, b, from as int);
    }
    let mut i = from;
    while i < s.len() && s[i] != b
        invariant
            from <= i <= s@.len(),
            next_sep(s@, b, from as int) == next_sep(s@, b, i as int),
        decreases s@.len() - i,
    {
        i = i + 1;
    }
    i
}

/// The value of the digits `s[a..b]`, if it fits in `u64`.
fn digits(s: &[u8], a: usize, b: usize) -> (r: Option<u64>)
    requires
        a <= b <= s@.len(),
        forall|k: int| a <= k < b ==> is_digit(#[trigger] s@[k]),
    ensures
        match r {
            Some(v) => v as nat == digits_value(s@, a as int, b as int),
            None => digits_value(s@, a as int, b as int) > u64::MAX as nat,
        },
{
    let mut v: u64 = 0;
    let mut i = a;
    while i < b
        invariant
            a <= i <= b <= s@.len(),
            forall|k: int| a <= k < b ==> is_digit(#[trigger] s@[k]),
            v as nat == digits_value(s@, a as int, i as int),
        decreases b - i,
    {
        let d = (s[i] - 48u8) as u64;
        if v > (u64::MAX - d) / 10 {
            proof {
                assert(digits_value(s@, a as int, i + 1) == v * 10 + d);
                assert(v * 10 + d > u64::MAX) by (nonlinear_arith)
                    requires
                        v > (u64::MAX - d) / 10,
                        d <= 9,
                ;
                crate::remote_progress::lemma_value_grows(s@, a as int, i + 1, b as int);
            }
            return None;
        }
        v = v * 10 + d;
        i = i + 1;
    }
    Some(v)
}

fn all_digits_exec(s: &[u8], a: usize, b: usize) -> (r: bool)
    requires
        a <= b <= s@.len(),
    ensures
        r == all_digits(s@, a as int, b as int),
{
    if a >= b {
        return false;
    }
    let mut i = a;
    while i < b
        invariant
            a <= i <= b <= s@.len(),
            forall|k: int| a <= k < i ==> is_digit(#[trigger] s@[k]),
        decreases b - i,
    {
        if !(48u8 <= s[i] && s[i] <= 57u8) {
            return false;
        }
        i = i + 1;
    }
    true
}

/// Read one line of the reflog of `name`, without its newline.
pub fn parse_log_line(name: &[u8], line: &[u8]) -> (r: Option<LogLine>)
    ensures
        match r {
            Some(l) => line_fields(line@) == Some(fields_of(l)) && l.name@ == name@,
            None => line_fields(line@) is None,
        },
{
    let p = find_byte(line, 32u8, 0);
    if p >= line.len() {
        return None;
    }
    let q = find_byte(line, 32u8, p + 1);
    if q >= line.len() {
        return None;
    }
    let t = find_byte(line, 9u8, q + 1);
    if t >= line.len() {
        return None;
    }
    let previous = copy_range(line, 0, p);
    let new = copy_range(line, p + 1, q);
    let sig = copy_range(line, q + 1, t);
    let sig = sig.as_slice();
    let lt = find_byte(sig, 60u8, 0);
    if !hex_id(previous.as_slice()) || !hex_id(new.as_slice()) || lt < 1 || lt >= sig.len() || sig[lt - 1] != 32u8 {
        return None;
    }
    let gt = find_byte(sig, 62u8, lt + 1);
    if gt >= sig.len() {
        return None;
    }
    let rest = copy_range(sig, gt + 1, sig.len());
    let r = rest.as_slice();
    let ghost rv = r@;
    if r.len() < 1 || r[0] != 32u8 {
        return None;
    }
    let sp = find_byte(r, 32u8, 1);
    if !all_digits_exec(r, 1, sp) || sp + 6 != r.len() || !(r[sp + 1] == 43u8 || r[sp + 1] == 45u8)
        || !all_digits_exec(r, sp + 2, sp + 6) {
        assert(time_fields(rv) is None);
        return None;
    }
    let secs = match digits(r, 1, sp) {
        Some(v) => v,
        None => {
            return None;
        },
    };
    let hh = (r[sp + 2] - 48u8) as i32 * 10 + (r[sp + 3] - 48u8) as i32;
    let mm = (r[sp + 4] - 48u8) as i32 * 10 + (r[sp + 5] - 48u8) as i32;
    proof {
        reveal_with_fuel(digits_value, 3);
    }
    let m = hh * 60 + mm;
    let offset = if r[sp + 1] == 45u8 { -m } else { m };
    let l = LogLine {
        name: crate::bytes::to_vec(name),
        previous,
        new,
        committer: Signature { name: copy_range(sig, 0, lt - 1), email: copy_range(sig, lt + 1, gt), seconds: secs, offset_minutes: offset },
        message: copy_range(line, t + 1, line.len()),
    };
    assert(fields_of(l) == line_fields(line@)->Some_0);
    Some(l)
}

/// The number the digits of `s[a..b]` write depends on those bytes alone.
pub proof fn lemma_digits_value_same(s: Seq<u8>, t: Seq<u8>, a: int, b: int, shift: int)
    requires
        0 <= a,
        b <= s.len(),
        forall|k: int| a <= k < b ==> #[trigger] s[k] == t[k + shift],
    ensures
        digits_value(s, a, b) == digits_value(t, a + shift, b + shift),
    decreases b - a,
{
    if a < b {
        lemma_digits_value_same(s, t, a, b - 1, shift);
        assert(s[b - 1] == t[b - 1 + shift]);
    }
}

/// The decimal digits of `n` are digits, at least one, and read back as `n`.
pub proof fn lemma_decimal_reads_back(n: nat)
    ensures
        decimal(n).len() >= 1,
        forall|k: int| 0 <= k < decimal(n).len() ==> is_digit(#[trigger] decimal(n)[k]),
        digits_value(decimal(n), 0, decimal(n).len() as int) == n,
    decreases n,
{
    if n >= 10 {
        let t = decimal(n / 10);
        lemma_decimal_reads_back(n / 10);
        let s = decimal(n);
        assert(s == t.push((48 + n % 10) as u8));
        assert forall|k: int| 0 <= k < s.len() implies is_digit(#[trigger] s[k]) by {
            if k < t.len() {
                assert(s[k] == t[k]);
            }
        }
        lemma_digits_value_same(s, t, 0, t.len() as int, 0);
        assert(digits_value(s, 0, s.len() as int) == digits_value(s, 0, t.len() as int) * 10 + (s[t.len() as int] - 48) as nat);
        assert(s[t.len() as int] == (48 + n % 10) as u8);
        assert((n / 10) * 10 + n % 10 == n);
    } else {
        let s = decimal(n);
        assert(s == seq![(48 + n) as u8]);
        assert(digits_value(s, 0, 1) == digits_value(s, 0, 0) * 10 + (s[0] - 48) as nat);
    }
}

/// `s` holds no byte `b`.
pub open spec fn lacks(s: Seq<u8>, b: u8) -> bool {
    forall|i: int| 0 <= i < s.len() ==> #[trigger] s[i] != b
}

/// A number below 100 is written with two digits.
pub proof fn lemma_two_digits(n: nat)
    requires
        n < 100,
    ensures
        padded(n) == seq![(48 + n / 10) as u8, (48 + n % 10) as u8],
        digits_value(padded(n), 0, 2) == n,
{
    if n >= 10 {
        assert(decimal(n / 10) == seq![(48 + n / 10) as u8]);
        assert(decimal(n) =~= seq![(48 + n / 10) as u8, (48 + n % 10) as u8]);
    } else {
        assert(padded(n) =~= seq![(48 + n / 10) as u8, (48 + n % 10) as u8]);
    }
    let p = padded(n);
    assert(digits_value(p, 0, 2) == digits_value(p, 0, 1) * 10 + (p[1] - 48) as nat);
    assert(digits_value(p, 0, 1) == digits_value(p, 0, 0) * 10 + (p[0] - 48) as nat);
}

/// The time part of a signature as written reads back as the seconds and the offset, for an
/// offset under 100 hours.
pub proof fn lemma_time_round_trip(seconds: u64, minutes: i32)
    requires
        -6000 < minutes < 6000,
    ensures
        time_fields(seq![32u8] + decimal(seconds as nat) + seq![32u8] + offset_bytes(minutes))
            == Some((seconds as nat, minutes as int)),
        lacks(seq![32u8] + decimal(seconds as nat) + seq![32u8] + offset_bytes(minutes), 9u8),
{
    let d = decimal(seconds as nat);
    let a: nat = if minutes < 0 { (-minutes) as nat } else { minutes as nat };
    let o = offset_bytes(minutes);
    lemma_decimal_reads_back(seconds as nat);
    lemma_two_digits(a / 60);
    lemma_two_digits(a % 60);
    let h = padded(a / 60);
    let m = padded(a % 60);
    assert(o =~= seq![o[0]] + h + m);
    let rest = seq![32u8] + d + seq![32u8] + o;
    let sp: int = 1 + d.len() as int;
    assert forall|k: int| 1 <= k < sp implies rest[k] != 32u8 && is_digit(#[trigger] rest[k]) by {
        assert(rest[k] == d[k - 1]);
    }
    assert(rest[sp] == 32u8);
    lemma_next_sep_to(rest, 32u8, 1, sp);
    assert(rest.len() == sp + 6);
    lemma_digits_value_same(rest, d, 1, sp, -1);
    assert(rest[sp + 1] == o[0]);
    assert forall|k: int| sp + 2 <= k < sp + 4 implies #[trigger] rest[k] == h[k - (sp + 2)] by {}
    assert forall|k: int| sp + 4 <= k < sp + 6 implies #[trigger] rest[k] == m[k - (sp + 4)] by {}
    assert forall|k: int| sp + 2 <= k < sp + 6 implies is_digit(#[trigger] rest[k]) by {}
    lemma_digits_value_same(rest, h, sp + 2, sp + 4, -(sp + 2));
    lemma_digits_value_same(rest, m, sp + 4, sp + 6, -(sp + 4));
    assert((a / 60) * 60 + a % 60 == a);
    assert forall|k: int| 0 <= k < rest.len() implies #[trigger] rest[k] != 9u8 by {
        if 1 <= k < sp {
            assert(is_digit(rest[k]));
        } else if sp + 2 <= k {
            assert(is_digit(rest[k]));
        }
    }
}

/// The signature part as written splits into name, email and the time part, when the name
/// has no `<` and the email no `>`.
pub proof fn lemma_signature_parts(nm: Seq<u8>, em: Seq<u8>, rest: Seq<u8>)
    requires
        lacks(nm, 60u8),
        lacks(em, 62u8),
    ensures
        ({
            let sig = nm + seq![32u8, 60u8] + em + seq![62u8] + rest;
            let lt = next_sep(sig, 60u8, 0);
            let gt = next_sep(sig, 62u8, lt + 1);
            &&& lt == nm.len() + 1
            &&& gt == nm.len() + 2 + em.len()
            &&& sig[lt - 1] == 32u8
            &&& sig.subrange(0, lt - 1) == nm
            &&& sig.subrange(lt + 1, gt) == em
            &&& sig.subrange(gt + 1, sig.len() as int) == rest
        }),
{
    let sig = nm + seq![32u8, 60u8] + em + seq![62u8] + rest;
    let lt: int = nm.len() as int + 1;
    assert forall|k: int| 0 <= k < lt implies sig[k] != 60u8 by {
        if k < nm.len() {
            assert(sig[k] == nm[k]);
        }
    }
    lemma_next_sep_to(sig, 60u8, 0, lt);
    let gt: int = lt + 1 + em.len() as int;
    assert forall|k: int| lt + 1 <= k < gt implies sig[k] != 62u8 by {
        assert(sig[k] == em[k - lt - 1]);
    }
    lemma_next_sep_to(sig, 62u8, lt + 1, gt);
    assert(sig.subrange(0, lt - 1) =~= nm);
    assert(sig.subrange(lt + 1, gt) =~= em);
    assert(sig.subrange(gt + 1, sig.len() as int) =~= rest);
}

/// A line as written splits at its first two spaces and the tab after them, when the ids are
/// hex ids and the signature has no tab.
pub proof fn lemma_line_parts(pv: Seq<u8>, nw: Seq<u8>, sig: Seq<u8>, msg: Seq<u8>)
    requires
        is_hex_id(pv),
        is_hex_id(nw),
        lacks(sig, 9u8),
    ensures
        ({
            let line = pv + seq![32u8] + nw + seq![32u8] + sig + seq![9u8] + msg;
            let p = next_sep(line, 32u8, 0);
            let q = next_sep(line, 32u8, p + 1);
            let t = next_sep(line, 9u8, q + 1);
            &&& p == pv.len() && q == pv.len() + 1 + nw.len() && t == q + 1 + sig.len()
            &&& t < line.len()
            &&& line.subrange(0, p) == pv
            &&& line.subrange(p + 1, q) == nw
            &&& line.subrange(q + 1, t) == sig
            &&& line.subrange(t + 1, line.len() as int) == msg
        }),
{
    let line = pv + seq![32u8] + nw + seq![32u8] + sig + seq![9u8] + msg;
    let p: int = pv.len() as int;
    let q: int = p + 1 + nw.len() as int;
    let t: int = q + 1 + sig.len() as int;
    assert forall|k: int| 0 <= k < p implies line[k] != 32u8 by {
        assert(line[k] == pv[k]);
        assert(crate::reference::is_hex_digit(pv[k]));
    }
    lemma_next_sep_to(line, 32u8, 0, p);
    assert forall|k: int| p + 1 <= k < q implies line[k] != 32u8 by {
        assert(line[k] == nw[k - p - 1]);
        assert(crate::reference::is_hex_digit(nw[k - p - 1]));
    }
    lemma_next_sep_to(line, 32u8, p + 1, q);
    assert forall|k: int| q + 1 <= k < t implies line[k] != 9u8 by {
        assert(line[k] == sig[k - q - 1]);
    }
    lemma_next_sep_to(line, 9u8, q + 1, t);
    assert(line.subrange(0, p) =~= pv);
    assert(line.subrange(p + 1, q) =~= nw);
    assert(line.subrange(q + 1, t) =~= sig);
    assert(line.subrange(t + 1, line.len() as int) =~= msg);
}

/// A reflog line as written reads back as the same fields, when the ids are hex ids, the
/// name has no `<`, the email no `>`, neither has a tab, and the offset is under 100 hours.
pub proof fn lemma_log_line_round_trip(e: LogEntry)
    requires
        is_hex_id(e.previous),
        is_hex_id(e.new),
        lacks(e.committer.name, 60u8),
        lacks(e.committer.name, 9u8),
        lacks(e.committer.email, 62u8),
        lacks(e.committer.email, 9u8),
        -6000 < e.committer.offset_minutes < 6000,
    ensures
        line_fields(log_line_bytes(e).drop_last()) == Some((e.previous, e.new, e.committer.name,
            e.committer.email, e.committer.seconds as nat, e.committer.offset_minutes as int, e.message)),
{
    let nm = e.committer.name;
    let em = e.committer.email;
    let d = decimal(e.committer.seconds as nat);
    let o = offset_bytes(e.committer.offset_minutes);
    let rest = seq![32u8] + d + seq![32u8] + o;
    let sig = nm + seq![32u8, 60u8] + em + seq![62u8] + rest;
    let line = e.previous + seq![32u8] + e.new + seq![32u8] + sig + seq![9u8] + e.message;
    assert(log_line_bytes(e).drop_last() =~= line);
    lemma_time_round_trip(e.committer.seconds, e.committer.offset_minutes);
    assert forall|k: int| 0 <= k < sig.len() implies sig[k] != 9u8 by {
        if k < nm.len() {
            assert(sig[k] == nm[k]);
        } else if nm.len() + 2 <= k < nm.len() + 2 + em.len() {
            assert(sig[k] == em[k - nm.len() - 2]);
        } else if k >= nm.len() + 3 + em.len() {
            assert(sig[k] == rest[k - (nm.len() + 3 + em.len())]);
        }
    }
    lemma_line_parts(e.previous, e.new, sig, e.message);
    lemma_signature_parts(nm, em, rest);
}

} // verus!

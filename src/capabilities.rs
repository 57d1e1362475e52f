//! Capabilities a server announces: a list of names, each with an optional value.
use vstd::prelude::*;
use crate::bytes::{bytes_eq, copy_range, next_sep, pieces, pieces_from, split, views, lemma_next_sep_bounds, lemma_pieces_front};
use crate::arguments::join;

verus! {

/// One announced capability, `name` or `name=value`.
#[derive(Debug, PartialEq, Eq)]
pub struct Capability {
    pub name: Vec<u8>,
    pub value: Option<Vec<u8>>,
}

/// The contents of an optional byte string.
pub open spec fn opt_view(o: Option<Vec<u8>>) -> Option<Seq<u8>> {
    match o {
        Some(v) => Some(v@),
        None => None,
    }
}

impl View for Capability {
    type V = (Seq<u8>, Option<Seq<u8>>);

    open spec fn view(&self) -> (Seq<u8>, Option<Seq<u8>>) {
        (self.name@, opt_view(self.value))
    }
}

/// The capability that one announced token stands for: the name ends at the first `=`.
pub open spec fn capability_of(t: Seq<u8>) -> (Seq<u8>, Option<Seq<u8>>) {
    let e = next_sep(t, 61u8, 0);
    if e < t.len() {
        (t.subrange(0, e), Some(t.subrange(e + 1, t.len() as int)))
    } else {
        (t, None)
    }
}

/// The capabilities announced by a list of tokens.
pub open spec fn capabilities_of(tokens: Seq<Seq<u8>>) -> Seq<(Seq<u8>, Option<Seq<u8>>)> {
    tokens.map_values(|t: Seq<u8>| capability_of(t))
}

/// Some capability in `caps` is called `name`.
pub open spec fn has_capability(caps: Seq<(Seq<u8>, Option<Seq<u8>>)>, name: Seq<u8>) -> bool {
    exists|i: int| 0 <= i < caps.len() && #[trigger] caps[i].0 == name
}

/// The value of the first capability called `name` that has a value.
pub open spec fn first_value(caps: Seq<(Seq<u8>, Option<Seq<u8>>)>, name: Seq<u8>) -> Option<Seq<u8>>
    decreases caps.len(),
{
    if caps.len() == 0 {
        None
    } else if caps[0].0 == name && caps[0].1 is Some {
        caps[0].1
    } else {
        first_value(caps.drop_first(), name)
    }
}

/// The line that opens the capabilities of protocol version 2.
pub open spec fn version_two_line() -> Seq<u8> {
    seq![118u8, 101, 114, 115, 105, 111, 110, 32, 50]  // `version 2`
}

/// Why announced capabilities could not be read.
#[derive(Debug, PartialEq, Eq)]
pub enum CapabilitiesError {
    /// Version 1 capabilities follow a NUL byte, and there was none.
    MissingDelimitingNullByte,
    /// Version 2 capabilities start with a `version 2` line, and it was missing.
    MissingVersionLine,
}

/// The capabilities a server announced.
pub struct Capabilities {
    pub entries: Vec<Capability>,
}

impl View for Capabilities {
    type V = Seq<(Seq<u8>, Option<Seq<u8>>)>;

    open spec fn view(&self) -> Seq<(Seq<u8>, Option<Seq<u8>>)> {
        self.entries@.map_values(|c: Capability| c@)
    }
}

/// Read one token as a capability.
pub fn parse_capability(t: &[u8]) -> (r: Capability)
    ensures
        r@ == capability_of(t@),
{
    proof {
        lemma_next_sep_bounds(t@, 61u8, 0);
    }
    let mut e: usize = 0;
    while e < t.len() && t[e] != 61u8
        invariant
            e <= t@.len(),
            next_sep(t@, 61u8, 0) == next_sep(t@, 61u8, e as int),
        decreases t@.len() - e,
    {
        e = e + 1;
    }
    if e < t.len() {
        Capability { name: copy_range(t, 0, e), value: Some(copy_range(t, e + 1, t.len())) }
    } else {
        assert(t@.subrange(0, e as int) =~= t@);
        Capability { name: copy_range(t, 0, e), value: None }
    }
}

fn parse_tokens(tokens: &Vec<Vec<u8>>, from: usize) -> (r: Vec<Capability>)
    requires
        from <= tokens@.len(),
    ensures
        r@.map_values(|c: Capability| c@) == capabilities_of(views(tokens@).subrange(from as int, tokens@.len() as int)),
{
    let mut r: Vec<Capability> = Vec::new();
    let mut i: usize = from;
    while i < tokens.len()
        invariant
            from <= i <= tokens@.len(),
            r@.map_values(|c: Capability| c@) == capabilities_of(views(tokens@).subrange(from as int, i as int)),
        decreases tokens@.len() - i,
    {
        let c = parse_capability(tokens[i].as_slice());
        assert(views(tokens@)[i as int] == tokens@[i as int]@);
        let ghost before = r@;
        r.push(c);
        assert(r@.map_values(|c: Capability| c@) =~= before.map_values(|c: Capability| c@).push(c@));
        i = i + 1;
        assert(r@.map_values(|c: Capability| c@) =~= capabilities_of(views(tokens@).subrange(from as int, i as int)));
    }
    r
}

impl Capabilities {
    /// Read version 1 capabilities: the space-separated tokens after the first NUL byte of
    /// `bytes`. Also returns the position of that NUL byte.
    pub fn from_bytes(bytes: &[u8]) -> (r: Result<(Capabilities, usize), CapabilitiesError>)
        ensures
            match r {
                Ok((c, d)) => d == next_sep(bytes@, 0u8, 0) && d < bytes@.len()
                    && c@ == capabilities_of(pieces(bytes@.subrange(d + 1, bytes@.len() as int), 32u8)),
                Err(e) => e == CapabilitiesError::MissingDelimitingNullByte
                    && next_sep(bytes@, 0u8, 0) == bytes@.len(),
            },
    {
        proof {
            lemma_next_sep_bounds(bytes@, 0u8, 0);
        }
        let mut d: usize = 0;
        while d < bytes.len() && bytes[d] != 0u8
            invariant
                d <= bytes@.len(),
                next_sep(bytes@, 0u8, 0) == next_sep(bytes@, 0u8, d as int),
            decreases bytes@.len() - d,
        {
            d = d + 1;
        }
        if d == bytes.len() {
            return Err(CapabilitiesError::MissingDelimitingNullByte);
        }
        let rest = copy_range(bytes, d + 1, bytes.len());
        let tokens = split(rest.as_slice(), 32u8);
        let entries = parse_tokens(&tokens, 0);
        assert(views(tokens@).subrange(0, tokens@.len() as int) =~= views(tokens@));
        Ok((Capabilities { entries }, d))
    }

    /// Read version 2 capabilities: a `version 2` line, then one capability per line.
    pub fn from_lines(bytes: &[u8]) -> (r: Result<Capabilities, CapabilitiesError>)
        ensures
            match r {
                Ok(c) => pieces(bytes@, 10u8).len() > 0 && pieces(bytes@, 10u8)[0] == version_two_line()
                    && c@ == capabilities_of(pieces(bytes@, 10u8).drop_first()),
                Err(e) => e == CapabilitiesError::MissingVersionLine
                    && !(pieces(bytes@, 10u8).len() > 0 && pieces(bytes@, 10u8)[0] == version_two_line()),
            },
    {
        let lines = split(bytes, 10u8);
        if lines.len() == 0 || !bytes_eq(lines[0].as_slice(), &VERSION_TWO) {
            return Err(CapabilitiesError::MissingVersionLine);
        }
        let entries = parse_tokens(&lines, 1);
        assert(views(lines@).subrange(1, lines@.len() as int) =~= views(lines@).drop_first());
        Ok(Capabilities { entries })
    }

    /// Some capability is called `name`.
    pub fn contains(&self, name: &[u8]) -> (r: bool)
        ensures
            r == has_capability(self@, name@),
    {
        let mut i: usize = 0;
        while i < self.entries.len()
            invariant
                i <= self.entries@.len(),
                forall|k: int| 0 <= k < i ==> self@[k].0 != name@,
            decreases self.entries@.len() - i,
        {
            if bytes_eq(self.entries[i].name.as_slice(), name) {
                assert(self@[i as int].0 == name@);
                return true;
            }
            i = i + 1;
        }
        false
    }

    /// The space-separated values of the first capability called `name` that has a value.
    pub fn values_of(&self, name: &[u8]) -> (r: Option<Vec<Vec<u8>>>)
        ensures
            match first_value(self@, name@) {
                Some(v) => r is Some && views(r->Some_0@) == pieces(v, 32u8),
                None => r is None,
            },
    {
        let mut i: usize = 0;
        assert(self@.subrange(0, self@.len() as int) =~= self@);
        while i < self.entries.len()
            invariant
                i <= self.entries@.len(),
                first_value(self@, name@) == first_value(self@.subrange(i as int, self@.len() as int), name@),
            decreases self.entries@.len() - i,
        {
            assert(self@.subrange(i as int, self@.len() as int).drop_first()
                =~= self@.subrange(i + 1, self@.len() as int));
            if bytes_eq(self.entries[i].name.as_slice(), name) {
                match &self.entries[i].value {
                    Some(v) => {
                        return Some(split(v.as_slice(), 32u8));
                    },
                    None => {},
                }
            }
            i = i + 1;
        }
        None
    }
}

/// The line that opens version 2 capabilities.
pub const VERSION_TWO: [u8; 9] = [118u8, 101, 114, 115, 105, 111, 110, 32, 50];  // `version 2`

/// `s` is a token that names a capability alone: not empty, with no space and no `=`.
pub open spec fn plain_token(s: Seq<u8>) -> bool {
    s.len() > 0 && forall|i: int| 0 <= i < s.len() ==> #[trigger] s[i] != 32u8 && s[i] != 61u8
}

/// A token with no separator in it is a single piece.
pub proof fn lemma_single_piece(x: Seq<u8>, sep: u8)
    requires
        x.len() > 0,
        forall|i: int| 0 <= i < x.len() ==> #[trigger] x[i] != sep,
    ensures
        next_sep(x, sep, 0) == x.len(),
        pieces(x, sep) == seq![x],
{
    lemma_next_sep_bounds(x, sep, 0);
    assert(x.subrange(0, x.len() as int) =~= x);
}

/// Joined with spaces, the first token comes first.
pub proof fn lemma_join_front(names: Seq<Seq<u8>>)
    requires
        names.len() >= 2,
    ensures
        join(names, 32u8) == names[0].push(32u8) + join(names.drop_first(), 32u8),
    decreases names.len(),
{
    if names.len() == 2 {
        assert(names.drop_last() =~= seq![names[0]]);
        assert(names.drop_first() =~= seq![names[1]]);
        assert(join(names.drop_last(), 32u8) == names[0]);
        assert(join(names.drop_first(), 32u8) == names[1]);
        assert(names.last() == names[1]);
        assert(join(names, 32u8) =~= names[0].push(32u8) + join(names.drop_first(), 32u8));
    } else {
        lemma_join_front(names.drop_last());
        assert(names.drop_last().drop_first() =~= names.drop_first().drop_last());
        assert(names.drop_last()[0] == names[0]);
        assert(names.drop_first().last() == names.last());
        assert(join(names, 32u8) =~= names[0].push(32u8) + join(names.drop_first(), 32u8));
    }
}

/// Capabilities announced as plain tokens joined with spaces are those tokens, with no value:
/// each listed name is found by `contains`, and no other name is.
pub proof fn lemma_listed_capabilities(names: Seq<Seq<u8>>)
    requires
        forall|i: int| 0 <= i < names.len() ==> plain_token(#[trigger] names[i]),
    ensures
        capabilities_of(pieces(join(names, 32u8), 32u8)) == names.map_values(|n: Seq<u8>| (n, None::<Seq<u8>>)),
        forall|i: int| 0 <= i < names.len() ==> has_capability(capabilities_of(pieces(join(names, 32u8), 32u8)), #[trigger] names[i]),
        forall|m: Seq<u8>| #![trigger has_capability(capabilities_of(pieces(join(names, 32u8), 32u8)), m)]
            (forall|i: int| 0 <= i < names.len() ==> names[i] != m)
            ==> !has_capability(capabilities_of(pieces(join(names, 32u8), 32u8)), m),
    decreases names.len(),
{
    let caps = capabilities_of(pieces(join(names, 32u8), 32u8));
    let want = names.map_values(|n: Seq<u8>| (n, None::<Seq<u8>>));
    if names.len() == 0 {
        assert(pieces(seq![], 32u8) =~= seq![]);
        assert(caps =~= want);
    } else {
        assert(plain_token(names[0]));
        lemma_single_piece(names[0], 61u8);
        if names.len() == 1 {
            lemma_single_piece(names[0], 32u8);
            assert(join(names, 32u8) == names[0]);
            assert(capability_of(names[0]) == (names[0], None::<Seq<u8>>));
            assert(caps =~= want);
        } else {
            let rest = names.drop_first();
            assert forall|i: int| 0 <= i < rest.len() implies plain_token(#[trigger] rest[i]) by {
                assert(rest[i] == names[i + 1]);
            }
            lemma_listed_capabilities(rest);
            lemma_join_front(names);
            lemma_pieces_front(names[0], join(rest, 32u8), 32u8);
            assert(capability_of(names[0]) == (names[0], None::<Seq<u8>>));
            let p = pieces(join(rest, 32u8), 32u8);
            assert(pieces(join(names, 32u8), 32u8) == seq![names[0]] + p);
            assert(capabilities_of(seq![names[0]] + p) =~= seq![capability_of(names[0])] + capabilities_of(p));
            assert(want =~= seq![(names[0], None::<Seq<u8>>)] + rest.map_values(|n: Seq<u8>| (n, None::<Seq<u8>>)));
            assert(caps =~= want);
        }
    }
    assert forall|i: int| 0 <= i < names.len() implies has_capability(caps, #[trigger] names[i]) by {
        assert(caps[i].0 == names[i]);
    }
    assert forall|m: Seq<u8>| (forall|i: int| 0 <= i < names.len() ==> names[i] != m) implies !has_capability(caps, m) by {
        if has_capability(caps, m) {
            let i = choose|i: int| 0 <= i < caps.len() && #[trigger] caps[i].0 == m;
            assert(caps[i].0 == names[i]);
        }
    }
}

} // verus!

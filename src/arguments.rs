//! The arguments of a `fetch` request, collected line by line as the negotiation goes on.
use vstd::prelude::*;
use crate::bytes::{append, decimal, decimal_bytes, to_vec, views};
use crate::capabilities::has_capability;
use crate::command::{features_view, has_feature, initial_argument_list, Command, Feature};
use crate::protocol::Protocol;

verus! {

/// The arguments of a `fetch` request.
pub struct Arguments {
    /// The features sent with the first `want` of each round, in version 1.
    pub base_features: Vec<Vec<u8>>,
    /// The arguments every round starts with, in version 2.
    pub base_args: Vec<Vec<u8>>,
    /// The arguments of this round.
    pub args: Vec<Vec<u8>>,
    pub filter: bool,
    pub shallow: bool,
    pub deepen_since: bool,
    pub deepen_not: bool,
    pub deepen_relative: bool,
    /// The features still to be sent with the next `want`.
    pub features_for_first_want: Option<Vec<Vec<u8>>>,
}

/// What one round of a request sends.
pub struct Request {
    /// The argument lines.
    pub lines: Vec<Vec<u8>>,
    /// Version 1 only: send `done` after the flush that ends the lines.
    pub done_after_flush: bool,
}

/// The pieces of `s` joined with `sep` between each two.
pub open spec fn join(s: Seq<Seq<u8>>, sep: u8) -> Seq<u8>
    decreases s.len(),
{
    if s.len() == 0 {
        seq![]
    } else if s.len() == 1 {
        s[0]
    } else {
        join(s.drop_last(), sep) + seq![sep] + s.last()
    }
}

/// A feature as sent in version 1: `name=value`, or `name` alone.
pub open spec fn baked(f: (Seq<u8>, Option<Seq<u8>>)) -> Seq<u8> {
    match f.1 {
        Some(v) => f.0 + seq![61u8] + v,
        None => f.0,
    }
}

/// The features as sent in version 1.
pub open spec fn baked_features(f: Seq<(Seq<u8>, Option<Seq<u8>>)>) -> Seq<Seq<u8>> {
    f.map_values(|x: (Seq<u8>, Option<Seq<u8>>)| baked(x))
}

/// The `want` line for the object `id`, with the features still to send if any.
pub open spec fn want_line(id: Seq<u8>, features: Option<Seq<Seq<u8>>>) -> Seq<u8> {
    match features {
        Some(f) => seq![119u8, 97, 110, 116, 32] + id + seq![0u8] + join(f, 32u8),  // `want `
        None => seq![119u8, 97, 110, 116, 32] + id,  // `want `
    }
}

/// Whether `done` is sent: when asked, unless the server takes `no-done` with
/// `multi_ack_detailed`.
pub open spec fn sends_done(features: Seq<(Seq<u8>, Option<Seq<u8>>)>, is_done: bool) -> bool {
    is_done && !(has_capability(features, seq![110u8, 111, 45, 100, 111, 110, 101]) && has_capability(features, seq![109u8, 117, 108, 116, 105, 95, 97, 99, 107, 95, 100, 101, 116, 97, 105, 108, 101, 100]))  // `no-done`, `multi_ack_detailed`
}

/// The contents of an optional list of byte strings.
pub open spec fn opt_views(o: Option<Vec<Vec<u8>>>) -> Option<Seq<Seq<u8>>> {
    match o {
        Some(v) => Some(views(v@)),
        None => None,
    }
}

fn copy_all(v: &Vec<Vec<u8>>) -> (r: Vec<Vec<u8>>)
    ensures
        views(r@) == views(v@),
{
    let mut r: Vec<Vec<u8>> = Vec::new();
    let mut i: usize = 0;
    while i < v.len()
        invariant
            i <= v@.len(),
            views(r@) == views(v@).subrange(0, i as int),
        decreases v@.len() - i,
    {
        let ghost before = views(r@);
        r.push(to_vec(v[i].as_slice()));
        assert(views(r@) =~= before.push(v@[i as int]@));
        i = i + 1;
        assert(views(r@) =~= views(v@).subrange(0, i as int));
    }
    assert(views(v@).subrange(0, v@.len() as int) =~= views(v@));
    r
}

fn join_bytes(v: &Vec<Vec<u8>>, sep: u8) -> (r: Vec<u8>)
    ensures
        r@ == join(views(v@), sep),
{
    let mut out: Vec<u8> = Vec::new();
    let mut i: usize = 0;
    while i < v.len()
        invariant
            i <= v@.len(),
            out@ == join(views(v@).subrange(0, i as int), sep),
        decreases v@.len() - i,
    {
        assert(views(v@).subrange(0, i + 1).drop_last() =~= views(v@).subrange(0, i as int));
        assert(views(v@)[i as int] == v@[i as int]@);
        if i > 0 {
            out.push(sep);
        }
        append(&mut out, v[i].as_slice());
        i = i + 1;
        assert(out@ =~= join(views(v@).subrange(0, i as int), sep));
    }
    assert(views(v@).subrange(0, v@.len() as int) =~= views(v@));
    out
}

fn bake(features: &Vec<Feature>) -> (r: Vec<Vec<u8>>)
    ensures
        views(r@) == baked_features(features_view(features@)),
{
    let mut r: Vec<Vec<u8>> = Vec::new();
    let mut i: usize = 0;
    while i < features.len()
        invariant
            i <= features@.len(),
            views(r@) == baked_features(features_view(features@)).subrange(0, i as int),
        decreases features@.len() - i,
    {
        let mut line = to_vec(features[i].0.as_slice());
        match &features[i].1 {
            Some(v) => {
                line.push(61u8);
                append(&mut line, v.as_slice());
            },
            None => {},
        }
        assert(line@ == baked(features_view(features@)[i as int]));
        let ghost before = views(r@);
        r.push(line);
        assert(views(r@) =~= before.push(line@));
        i = i + 1;
        assert(views(r@) =~= baked_features(features_view(features@)).subrange(0, i as int));
    }
    assert(baked_features(features_view(features@)).subrange(0, features@.len() as int)
        =~= baked_features(features_view(features@)));
    r
}

fn prefixed(prefix: &[u8], value: &[u8]) -> (r: Vec<u8>)
    ensures
        r@ == prefix@ + value@,
{
    let mut r = to_vec(prefix);
    append(&mut r, value);
    r
}

impl Arguments {
    /// Start the arguments of a `fetch` with the features in use. In version 1 the features
    /// go with the first `want`; in version 2 they turn into the initial arguments.
    pub fn new(version: Protocol, features: &Vec<Feature>) -> (r: Arguments)
        ensures
            r.filter == has_capability(features_view(features@), seq![102u8, 105, 108, 116, 101, 114]),  // `filter`
            r.shallow == has_capability(features_view(features@), seq![115u8, 104, 97, 108, 108, 111, 119]),  // `shallow`
            match version {
                Protocol::V1 => r.deepen_since == has_capability(features_view(features@), seq![100u8, 101, 101, 112, 101, 110, 45, 115, 105, 110, 99, 101])  // `deepen-since`
                    && r.deepen_not == has_capability(features_view(features@), seq![100u8, 101, 101, 112, 101, 110, 45, 110, 111, 116])  // `deepen-not`
                    && r.deepen_relative == has_capability(features_view(features@), seq![100u8, 101, 101, 112, 101, 110, 45, 114, 101, 108, 97, 116, 105, 118, 101])  // `deepen-relative`
                    && views(r.args@) == Seq::<Seq<u8>>::empty()
                    && views(r.base_args@) == Seq::<Seq<u8>>::empty()
                    && views(r.base_features@) == baked_features(features_view(features@))
                    && opt_views(r.features_for_first_want) == Some(baked_features(features_view(features@))),
                Protocol::V2 => r.deepen_since == r.shallow && r.deepen_not == r.shallow && r.deepen_relative == r.shallow
                    && views(r.args@) == initial_argument_list(Command::Fetch, features_view(features@))
                    && views(r.base_args@) == initial_argument_list(Command::Fetch, features_view(features@))
                    && r.base_features@.len() == 0
                    && r.features_for_first_want is None,
            },
    {
        let filter = has_feature(features, &FILTER);
        let shallow = has_feature(features, &SHALLOW);
        match version {
            Protocol::V1 => {
                let baked = bake(features);
                let first = copy_all(&baked);
                let r = Arguments {
                    base_features: baked,
                    base_args: Vec::new(),
                    args: Vec::new(),
                    filter,
                    shallow,
                    deepen_since: has_feature(features, &DEEPEN_SINCE),
                    deepen_not: has_feature(features, &DEEPEN_NOT),
                    deepen_relative: has_feature(features, &DEEPEN_RELATIVE),
                    features_for_first_want: Some(first),
                };
                assert(views(r.args@) =~= Seq::<Seq<u8>>::empty());
                assert(views(r.base_args@) =~= Seq::<Seq<u8>>::empty());
                r
            },
            Protocol::V2 => {
                let initial = Command::Fetch.initial_arguments(features);
                let base = copy_all(&initial);
                Arguments {
                    base_features: Vec::new(),
                    base_args: base,
                    args: initial,
                    filter,
                    shallow,
                    deepen_since: shallow,
                    deepen_not: shallow,
                    deepen_relative: shallow,
                    features_for_first_want: None,
                }
            },
        }
    }

    /// Whether the server takes `filter`.
    pub fn can_use_filter(&self) -> (r: bool)
        ensures
            r == self.filter,
    {
        self.filter
    }

    /// Whether the server takes `shallow`.
    pub fn can_use_shallow(&self) -> (r: bool)
        ensures
            r == self.shallow,
    {
        self.shallow
    }

    /// Deepening comes with `shallow`.
    pub fn can_use_deepen(&self) -> (r: bool)
        ensures
            r == self.shallow,
    {
        self.shallow
    }

    /// Whether the server takes `deepen-since`.
    pub fn can_use_deepen_since(&self) -> (r: bool)
        ensures
            r == self.deepen_since,
    {
        self.deepen_since
    }

    /// Whether the server takes `deepen-not`.
    pub fn can_use_deepen_not(&self) -> (r: bool)
        ensures
            r == self.deepen_not,
    {
        self.deepen_not
    }

    /// Whether the server takes `deepen-relative`.
    pub fn can_use_deepen_relative(&self) -> (r: bool)
        ensures
            r == self.deepen_relative,
    {
        self.deepen_relative
    }

    /// Ask for the object `id`, given in hex. The first `want` of a round carries the
    /// features still to be sent.
    pub fn want(&mut self, id: &[u8])
        ensures
            views(final(self).args@) == views(old(self).args@).push(want_line(id@, opt_views(old(self).features_for_first_want))),
            final(self).features_for_first_want is None,
            final(self).base_features == old(self).base_features,
            final(self).base_args == old(self).base_args,
            final(self).shallow == old(self).shallow && final(self).filter == old(self).filter
                && final(self).deepen_since == old(self).deepen_since && final(self).deepen_not == old(self).deepen_not
                && final(self).deepen_relative == old(self).deepen_relative,
    {
        let ghost pending = opt_views(self.features_for_first_want);
        let first = self.features_for_first_want.take();
        let mut line = prefixed(&WANT, id);
        match first {
            Some(features) => {
                line.push(0u8);
                let joined = join_bytes(&features, 32u8);
                append(&mut line, joined.as_slice());
                assert(line@ =~= want_line(id@, pending));
            },
            None => {
                assert(line@ =~= want_line(id@, pending));
            },
        }
        self.push_arg(line);
    }

    /// Say that the object `id`, given in hex, is there already.
    pub fn have(&mut self, id: &[u8])
        ensures
            views(final(self).args@) == views(old(self).args@).push(seq![104u8, 97, 118, 101, 32] + id@),  // `have `
            final(self).features_for_first_want == old(self).features_for_first_want,
            final(self).base_features == old(self).base_features,
            final(self).base_args == old(self).base_args,
            final(self).shallow == old(self).shallow && final(self).filter == old(self).filter
                && final(self).deepen_since == old(self).deepen_since && final(self).deepen_not == old(self).deepen_not
                && final(self).deepen_relative == old(self).deepen_relative,
    {
        let line = prefixed(&HAVE, id);
        self.push_arg(line);
    }

    /// Limit the history to `depth` commits. Needs the `shallow` feature.
    pub fn deepen(&mut self, depth: u64)
        requires
            old(self).shallow,
        ensures
            views(final(self).args@) == views(old(self).args@).push(seq![100u8, 101, 101, 112, 101, 110, 32] + decimal(depth as nat)),  // `deepen `
            final(self).features_for_first_want == old(self).features_for_first_want,
            final(self).base_features == old(self).base_features,
            final(self).base_args == old(self).base_args,
            final(self).shallow == old(self).shallow && final(self).filter == old(self).filter
                && final(self).deepen_since == old(self).deepen_since && final(self).deepen_not == old(self).deepen_not
                && final(self).deepen_relative == old(self).deepen_relative,
    {
        let d = decimal_bytes(depth);
        let line = prefixed(&DEEPEN, d.as_slice());
        self.push_arg(line);
    }

    /// Limit the history to commits after a time in seconds. Needs `deepen-since`.
    pub fn deepen_since(&mut self, seconds_since_unix_epoch: u64)
        requires
            old(self).deepen_since,
        ensures
            views(final(self).args@) == views(old(self).args@).push(seq![100u8, 101, 101, 112, 101, 110, 45, 115, 105, 110, 99, 101, 32] + decimal(seconds_since_unix_epoch as nat)),  // `deepen-since `
            final(self).features_for_first_want == old(self).features_for_first_want,
            final(self).base_features == old(self).base_features,
            final(self).base_args == old(self).base_args,
            final(self).shallow == old(self).shallow && final(self).filter == old(self).filter
                && final(self).deepen_since == old(self).deepen_since && final(self).deepen_not == old(self).deepen_not
                && final(self).deepen_relative == old(self).deepen_relative,
    {
        let d = decimal_bytes(seconds_since_unix_epoch);
        let line = prefixed(&DEEPEN_SINCE_LINE, d.as_slice());
        self.push_arg(line);
    }

    /// Filter the objects sent. Needs the `filter` feature.
    pub fn filter(&mut self, spec: &[u8])
        requires
            old(self).filter,
        ensures
            views(final(self).args@) == views(old(self).args@).push(seq![102u8, 105, 108, 116, 101, 114, 32] + spec@),  // `filter `
            final(self).features_for_first_want == old(self).features_for_first_want,
            final(self).base_features == old(self).base_features,
            final(self).base_args == old(self).base_args,
            final(self).shallow == old(self).shallow && final(self).filter == old(self).filter
                && final(self).deepen_since == old(self).deepen_since && final(self).deepen_not == old(self).deepen_not
                && final(self).deepen_relative == old(self).deepen_relative,
    {
        let line = prefixed(&FILTER_LINE, spec);
        self.push_arg(line);
    }

    /// Leave out the history reachable from `ref_path`. Needs `deepen-not`.
    pub fn deepen_not(&mut self, ref_path: &[u8])
        requires
            old(self).deepen_not,
        ensures
            views(final(self).args@) == views(old(self).args@).push(seq![100u8, 101, 101, 112, 101, 110, 45, 110, 111, 116, 32] + ref_path@),  // `deepen-not `
            final(self).features_for_first_want == old(self).features_for_first_want,
            final(self).base_features == old(self).base_features,
            final(self).base_args == old(self).base_args,
            final(self).shallow == old(self).shallow && final(self).filter == old(self).filter
                && final(self).deepen_since == old(self).deepen_since && final(self).deepen_not == old(self).deepen_not
                && final(self).deepen_relative == old(self).deepen_relative,
    {
        let line = prefixed(&DEEPEN_NOT_LINE, ref_path);
        self.push_arg(line);
    }

    fn push_arg(&mut self, line: Vec<u8>)
        ensures
            views(final(self).args@) == views(old(self).args@).push(line@),
            final(self).features_for_first_want == old(self).features_for_first_want,
            final(self).base_features == old(self).base_features,
            final(self).base_args == old(self).base_args,
            final(self).shallow == old(self).shallow && final(self).filter == old(self).filter
                && final(self).deepen_since == old(self).deepen_since && final(self).deepen_not == old(self).deepen_not
                && final(self).deepen_relative == old(self).deepen_relative,
    {
        let ghost before = views(self.args@);
        self.args.push(line);
        assert(views(self.args@) =~= before.push(line@));
    }

    /// End a round: hand out what is to be sent and make ready for the next round. In version
    /// 1 the lines are followed by a flush, then `done` if it is sent; a round that is not the
    /// last sends the features with its first `want` again. In version 2 the lines are the
    /// arguments, with `done` at the end if it is sent, and the next round starts from the
    /// initial arguments.
    pub fn send(&mut self, version: Protocol, features: &Vec<Feature>, is_done: bool) -> (r: Request)
        ensures
            final(self).base_features == old(self).base_features,
            final(self).base_args == old(self).base_args,
            match version {
                Protocol::V1 => views(r.lines@) == views(old(self).args@)
                    && r.done_after_flush == sends_done(features_view(features@), is_done)
                    && final(self).args@.len() == 0
                    && opt_views(final(self).features_for_first_want) == if is_done {
                        opt_views(old(self).features_for_first_want)
                    } else {
                        Some(views(old(self).base_features@))
                    },
                Protocol::V2 => views(r.lines@) == if sends_done(features_view(features@), is_done) {
                        views(old(self).args@).push(seq![100u8, 111, 110, 101])  // `done`
                    } else {
                        views(old(self).args@)
                    }
                    && !r.done_after_flush
                    && views(final(self).args@) == views(old(self).base_args@)
                    && final(self).features_for_first_want == old(self).features_for_first_want,
            },
    {
        let add_done = is_done && !(has_feature(features, &NO_DONE) && has_feature(features, &MULTI_ACK_DETAILED));
        match version {
            Protocol::V1 => {
                let mut lines: Vec<Vec<u8>> = Vec::new();
                std::mem::swap(&mut self.args, &mut lines);
                if !is_done {
                    self.features_for_first_want = Some(copy_all(&self.base_features));
                }
                Request { lines, done_after_flush: add_done }
            },
            Protocol::V2 => {
                let mut lines = copy_all(&self.base_args);
                std::mem::swap(&mut self.args, &mut lines);
                if add_done {
                    let ghost before = views(lines@);
                    lines.push(to_vec(&DONE));
                    assert(views(lines@) =~= before.push(seq![100u8, 111, 110, 101]));  // `done`
                }
                Request { lines, done_after_flush: false }
            },
        }
    }
}

const WANT: [u8; 5] = [119u8, 97, 110, 116, 32];  // `want `
const HAVE: [u8; 5] = [104u8, 97, 118, 101, 32];  // `have `
const DEEPEN: [u8; 7] = [100u8, 101, 101, 112, 101, 110, 32];  // `deepen `
const DEEPEN_SINCE_LINE: [u8; 13] = [100u8, 101, 101, 112, 101, 110, 45, 115, 105, 110, 99, 101, 32];  // `deepen-since `
const FILTER_LINE: [u8; 7] = [102u8, 105, 108, 116, 101, 114, 32];  // `filter `
const DEEPEN_NOT_LINE: [u8; 11] = [100u8, 101, 101, 112, 101, 110, 45, 110, 111, 116, 32];  // `deepen-not `
const DONE: [u8; 4] = [100u8, 111, 110, 101];  // `done`
const FILTER: [u8; 6] = [102u8, 105, 108, 116, 101, 114];  // `filter`
const SHALLOW: [u8; 7] = [115u8, 104, 97, 108, 108, 111, 119];  // `shallow`
const DEEPEN_SINCE: [u8; 12] = [100u8, 101, 101, 112, 101, 110, 45, 115, 105, 110, 99, 101];  // `deepen-since`
const DEEPEN_NOT: [u8; 10] = [100u8, 101, 101, 112, 101, 110, 45, 110, 111, 116];  // `deepen-not`
const DEEPEN_RELATIVE: [u8; 15] = [100u8, 101, 101, 112, 101, 110, 45, 114, 101, 108, 97, 116, 105, 118, 101];  // `deepen-relative`
const NO_DONE: [u8; 7] = [110u8, 111, 45, 100, 111, 110, 101];  // `no-done`
const MULTI_ACK_DETAILED: [u8; 18] = [109u8, 117, 108, 116, 105, 95, 97, 99, 107, 95, 100, 101, 116, 97, 105, 108, 101, 100];  // `multi_ack_detailed`

} // verus!

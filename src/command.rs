//! The commands a client sends in the wire protocol, and the features and arguments each may use.
use vstd::prelude::*;
use crate::bytes::{bytes_eq, to_vec, views, is_prefix, pieces, list_contains, any_is_prefix, lemma_filter_step};
use crate::capabilities::{Capabilities, has_capability, first_value, opt_view};
use crate::protocol::Protocol;

verus! {

/// A feature asked for: a name and an optional value.
pub type Feature = (Vec<u8>, Option<Vec<u8>>);

/// The contents of a list of features.
pub open spec fn features_view(f: Seq<Feature>) -> Seq<(Seq<u8>, Option<Seq<u8>>)> {
    f.map_values(|x: Feature| (x.0@, opt_view(x.1)))
}

/// A command of the wire protocol.
#[derive(Clone, Copy, Debug, PartialEq, Eq, Structural)]
pub enum Command {
    LsRefs,
    Fetch,
}

/// The feature or command name `side-band`.
pub open spec fn side_band_name() -> Seq<u8> {
    seq![115u8, 105, 100, 101, 45, 98, 97, 110, 100]  // `side-band`
}

/// The feature or command name `side-band-64k`.
pub open spec fn side_band_64k_name() -> Seq<u8> {
    seq![115u8, 105, 100, 101, 45, 98, 97, 110, 100, 45, 54, 52, 107]  // `side-band-64k`
}

/// The feature or command name `multi_ack`.
pub open spec fn multi_ack_name() -> Seq<u8> {
    seq![109u8, 117, 108, 116, 105, 95, 97, 99, 107]  // `multi_ack`
}

/// The feature or command name `multi_ack_detailed`.
pub open spec fn multi_ack_detailed_name() -> Seq<u8> {
    seq![109u8, 117, 108, 116, 105, 95, 97, 99, 107, 95, 100, 101, 116, 97, 105, 108, 101, 100]  // `multi_ack_detailed`
}

/// The feature or command name `no-progress`.
pub open spec fn no_progress_name() -> Seq<u8> {
    seq![110u8, 111, 45, 112, 114, 111, 103, 114, 101, 115, 115]  // `no-progress`
}

/// The feature or command name `thin-pack`.
pub open spec fn thin_pack_name() -> Seq<u8> {
    seq![116u8, 104, 105, 110, 45, 112, 97, 99, 107]  // `thin-pack`
}

/// The feature or command name `ofs-delta`.
pub open spec fn ofs_delta_name() -> Seq<u8> {
    seq![111u8, 102, 115, 45, 100, 101, 108, 116, 97]  // `ofs-delta`
}

/// The feature or command name `sideband-all`.
pub open spec fn sideband_all_name() -> Seq<u8> {
    seq![115u8, 105, 100, 101, 98, 97, 110, 100, 45, 97, 108, 108]  // `sideband-all`
}

/// The feature or command name `symrefs`.
pub open spec fn symrefs_name() -> Seq<u8> {
    seq![115u8, 121, 109, 114, 101, 102, 115]  // `symrefs`
}

/// The feature or command name `peel`.
pub open spec fn peel_name() -> Seq<u8> {
    seq![112u8, 101, 101, 108]  // `peel`
}

/// The feature or command name `agent`.
pub open spec fn agent_name() -> Seq<u8> {
    seq![97u8, 103, 101, 110, 116]  // `agent`
}

/// The feature or command name `fetch`.
pub open spec fn fetch_name() -> Seq<u8> {
    seq![102u8, 101, 116, 99, 104]  // `fetch`
}

/// The feature or command name `ls-refs`.
pub open spec fn ls_refs_name() -> Seq<u8> {
    seq![108u8, 115, 45, 114, 101, 102, 115]  // `ls-refs`
}

/// The features of `fetch` in protocol version 1, in the order they are offered: `multi_ack`, `thin-pack`, `side-band`, `side-band-64k`, `ofs-delta`, `shallow`, `deepen-since`, `deepen-not`, `deepen-relative`, `no-progress`, `include-tag`, `multi_ack_detailed`, `allow-tip-sha1-in-want`, `allow-reachable-sha1-in-want`, `no-done`, `filter`.
pub open spec fn fetch_v1() -> Seq<Seq<u8>> {
    seq![
        seq![109u8, 117, 108, 116, 105, 95, 97, 99, 107],  // `multi_ack`
        seq![116u8, 104, 105, 110, 45, 112, 97, 99, 107],  // `thin-pack`
        seq![115u8, 105, 100, 101, 45, 98, 97, 110, 100],  // `side-band`
        seq![115u8, 105, 100, 101, 45, 98, 97, 110, 100, 45, 54, 52, 107],  // `side-band-64k`
        seq![111u8, 102, 115, 45, 100, 101, 108, 116, 97],  // `ofs-delta`
        seq![115u8, 104, 97, 108, 108, 111, 119],  // `shallow`
        seq![100u8, 101, 101, 112, 101, 110, 45, 115, 105, 110, 99, 101],  // `deepen-since`
        seq![100u8, 101, 101, 112, 101, 110, 45, 110, 111, 116],  // `deepen-not`
        seq![100u8, 101, 101, 112, 101, 110, 45, 114, 101, 108, 97, 116, 105, 118, 101],  // `deepen-relative`
        seq![110u8, 111, 45, 112, 114, 111, 103, 114, 101, 115, 115],  // `no-progress`
        seq![105u8, 110, 99, 108, 117, 100, 101, 45, 116, 97, 103],  // `include-tag`
        seq![109u8, 117, 108, 116, 105, 95, 97, 99, 107, 95, 100, 101, 116, 97, 105, 108, 101, 100],  // `multi_ack_detailed`
        seq![97u8, 108, 108, 111, 119, 45, 116, 105, 112, 45, 115, 104, 97, 49, 45, 105, 110, 45, 119, 97, 110, 116],  // `allow-tip-sha1-in-want`
        seq![97u8, 108, 108, 111, 119, 45, 114, 101, 97, 99, 104, 97, 98, 108, 101, 45, 115, 104, 97, 49, 45, 105, 110, 45, 119, 97, 110, 116],  // `allow-reachable-sha1-in-want`
        seq![110u8, 111, 45, 100, 111, 110, 101],  // `no-done`
        seq![102u8, 105, 108, 116, 101, 114],  // `filter`
    ]
}

/// The features of `fetch` in protocol version 2, in the order they are offered: `shallow`, `filter`, `ref-in-want`, `sideband-all`, `packfile-uris`, `wait-for-done`.
pub open spec fn fetch_v2() -> Seq<Seq<u8>> {
    seq![
        seq![115u8, 104, 97, 108, 108, 111, 119],  // `shallow`
        seq![102u8, 105, 108, 116, 101, 114],  // `filter`
        seq![114u8, 101, 102, 45, 105, 110, 45, 119, 97, 110, 116],  // `ref-in-want`
        seq![115u8, 105, 100, 101, 98, 97, 110, 100, 45, 97, 108, 108],  // `sideband-all`
        seq![112u8, 97, 99, 107, 102, 105, 108, 101, 45, 117, 114, 105, 115],  // `packfile-uris`
        seq![119u8, 97, 105, 116, 45, 102, 111, 114, 45, 100, 111, 110, 101],  // `wait-for-done`
    ]
}

/// The argument prefixes `ls-refs` accepts: `symrefs`, `peel`, `ref-prefix`, `unborn`.
pub open spec fn ls_refs_args() -> Seq<Seq<u8>> {
    seq![
        seq![115u8, 121, 109, 114, 101, 102, 115],  // `symrefs`
        seq![112u8, 101, 101, 108],  // `peel`
        seq![114u8, 101, 102, 45, 112, 114, 101, 102, 105, 120, 32],  // `ref-prefix `
        seq![117u8, 110, 98, 111, 114, 110],  // `unborn`
    ]
}

/// The argument prefixes `fetch` accepts: `want`, `have`, `done`, `thin-pack`, `no-progress`, `include-tag`, `ofs-delta`, `shallow`, `deepen`, `deepen-relative`, `deepen-since`, `deepen-not`, `filter`, `want-ref`, `sideband-all`, `packfile-uris`, `wait-for-done`.
pub open spec fn fetch_args() -> Seq<Seq<u8>> {
    seq![
        seq![119u8, 97, 110, 116, 32],  // `want `
        seq![104u8, 97, 118, 101, 32],  // `have `
        seq![100u8, 111, 110, 101],  // `done`
        seq![116u8, 104, 105, 110, 45, 112, 97, 99, 107],  // `thin-pack`
        seq![110u8, 111, 45, 112, 114, 111, 103, 114, 101, 115, 115],  // `no-progress`
        seq![105u8, 110, 99, 108, 117, 100, 101, 45, 116, 97, 103],  // `include-tag`
        seq![111u8, 102, 115, 45, 100, 101, 108, 116, 97],  // `ofs-delta`
        seq![115u8, 104, 97, 108, 108, 111, 119, 32],  // `shallow `
        seq![100u8, 101, 101, 112, 101, 110, 32],  // `deepen `
        seq![100u8, 101, 101, 112, 101, 110, 45, 114, 101, 108, 97, 116, 105, 118, 101],  // `deepen-relative`
        seq![100u8, 101, 101, 112, 101, 110, 45, 115, 105, 110, 99, 101, 32],  // `deepen-since `
        seq![100u8, 101, 101, 112, 101, 110, 45, 110, 111, 116, 32],  // `deepen-not `
        seq![102u8, 105, 108, 116, 101, 114, 32],  // `filter `
        seq![119u8, 97, 110, 116, 45, 114, 101, 102, 32],  // `want-ref `
        seq![115u8, 105, 100, 101, 98, 97, 110, 100, 45, 97, 108, 108],  // `sideband-all`
        seq![112u8, 97, 99, 107, 102, 105, 108, 101, 45, 117, 114, 105, 115, 32],  // `packfile-uris `
        seq![119u8, 97, 105, 116, 45, 102, 111, 114, 45, 100, 111, 110, 101],  // `wait-for-done`
    ]
}

/// The name of a command on the wire.
pub open spec fn command_name(c: Command) -> Seq<u8> {
    match c {
        Command::LsRefs => ls_refs_name(),
        Command::Fetch => fetch_name(),
    }
}

/// All features a command knows in a protocol version.
pub open spec fn all_features(c: Command, v: Protocol) -> Seq<Seq<u8>> {
    match c {
        Command::LsRefs => seq![],
        Command::Fetch => match v {
            Protocol::V1 => fetch_v1(),
            Protocol::V2 => fetch_v2(),
        },
    }
}

/// The argument prefixes a command accepts.
pub open spec fn argument_prefixes(c: Command) -> Seq<Seq<u8>> {
    match c {
        Command::LsRefs => ls_refs_args(),
        Command::Fetch => fetch_args(),
    }
}

/// The space-separated values the server gave for command `c`, if any.
pub open spec fn command_values(c: Command, caps: Seq<(Seq<u8>, Option<Seq<u8>>)>) -> Seq<Seq<u8>> {
    match first_value(caps, command_name(c)) {
        Some(v) => pieces(v, 32u8),
        None => seq![],
    }
}

/// Whether feature `f` is used by default with the server's capabilities `caps`.
/// In version 1 a stronger form of a feature replaces the weaker one, and progress is never
/// switched off; in version 2 the server lists the features of `fetch`.
pub open spec fn keeps_feature(v: Protocol, caps: Seq<(Seq<u8>, Option<Seq<u8>>)>, f: Seq<u8>) -> bool {
    match v {
        Protocol::V1 => if f == side_band_name() {
            !has_capability(caps, side_band_64k_name()) && has_capability(caps, f)
        } else if f == multi_ack_name() {
            !has_capability(caps, multi_ack_detailed_name()) && has_capability(caps, f)
        } else if f == no_progress_name() {
            false
        } else {
            has_capability(caps, f)
        },
        Protocol::V2 => command_values(Command::Fetch, caps).contains(f),
    }
}

/// The names of the features a command uses by default.
pub open spec fn default_feature_names(c: Command, v: Protocol, caps: Seq<(Seq<u8>, Option<Seq<u8>>)>) -> Seq<Seq<u8>> {
    all_features(c, v).filter(|f: Seq<u8>| keeps_feature(v, caps, f))
}

/// The arguments a command starts with in version 2, given the features in use.
pub open spec fn initial_argument_list(c: Command, features: Seq<(Seq<u8>, Option<Seq<u8>>)>) -> Seq<Seq<u8>> {
    match c {
        Command::Fetch => seq![thin_pack_name(), ofs_delta_name()] + if has_capability(features, sideband_all_name()) {
            seq![sideband_all_name()]
        } else {
            seq![]
        },
        Command::LsRefs => seq![symrefs_name(), peel_name()],
    }
}

/// Argument `a` starts with one of the prefixes command `c` accepts.
pub open spec fn argument_allowed(c: Command, a: Seq<u8>) -> bool {
    exists|j: int| 0 <= j < argument_prefixes(c).len() && is_prefix(#[trigger] argument_prefixes(c)[j], a)
}

/// Feature `f` may be asked for: in version 1 it starts with the name of a capability of the
/// server, in version 2 the server lists it for the command, or it is `agent`.
pub open spec fn feature_allowed(c: Command, v: Protocol, caps: Seq<(Seq<u8>, Option<Seq<u8>>)>, f: Seq<u8>) -> bool {
    match v {
        Protocol::V1 => exists|i: int| 0 <= i < caps.len() && is_prefix(#[trigger] caps[i].0, f),
        Protocol::V2 => command_values(c, caps).contains(f) || f == agent_name(),
    }
}

/// An argument or feature a command does not accept.
#[derive(Debug, PartialEq, Eq)]
pub enum ValidationError {
    /// The argument starts with no prefix the command accepts.
    UnknownArgument { argument: Vec<u8> },
    /// The server does not support the feature.
    UnsupportedFeature { feature: Vec<u8> },
}

fn fetch_v1_list() -> (r: Vec<Vec<u8>>)
    ensures
        views(r@) == fetch_v1(),
{
    let mut v: Vec<Vec<u8>> = Vec::new();
    v.push(to_vec(&[109u8, 117, 108, 116, 105, 95, 97, 99, 107]));  // `multi_ack`
    v.push(to_vec(&[116u8, 104, 105, 110, 45, 112, 97, 99, 107]));  // `thin-pack`
    v.push(to_vec(&[115u8, 105, 100, 101, 45, 98, 97, 110, 100]));  // `side-band`
    v.push(to_vec(&[115u8, 105, 100, 101, 45, 98, 97, 110, 100, 45, 54, 52, 107]));  // `side-band-64k`
    v.push(to_vec(&[111u8, 102, 115, 45, 100, 101, 108, 116, 97]));  // `ofs-delta`
    v.push(to_vec(&[115u8, 104, 97, 108, 108, 111, 119]));  // `shallow`
    v.push(to_vec(&[100u8, 101, 101, 112, 101, 110, 45, 115, 105, 110, 99, 101]));  // `deepen-since`
    v.push(to_vec(&[100u8, 101, 101, 112, 101, 110, 45, 110, 111, 116]));  // `deepen-not`
    v.push(to_vec(&[100u8, 101, 101, 112, 101, 110, 45, 114, 101, 108, 97, 116, 105, 118, 101]));  // `deepen-relative`
    v.push(to_vec(&[110u8, 111, 45, 112, 114, 111, 103, 114, 101, 115, 115]));  // `no-progress`
    v.push(to_vec(&[105u8, 110, 99, 108, 117, 100, 101, 45, 116, 97, 103]));  // `include-tag`
    v.push(to_vec(&[109u8, 117, 108, 116, 105, 95, 97, 99, 107, 95, 100, 101, 116, 97, 105, 108, 101, 100]));  // `multi_ack_detailed`
    v.push(to_vec(&[97u8, 108, 108, 111, 119, 45, 116, 105, 112, 45, 115, 104, 97, 49, 45, 105, 110, 45, 119, 97, 110, 116]));  // `allow-tip-sha1-in-want`
    v.push(to_vec(&[97u8, 108, 108, 111, 119, 45, 114, 101, 97, 99, 104, 97, 98, 108, 101, 45, 115, 104, 97, 49, 45, 105, 110, 45, 119, 97, 110, 116]));  // `allow-reachable-sha1-in-want`
    v.push(to_vec(&[110u8, 111, 45, 100, 111, 110, 101]));  // `no-done`
    v.push(to_vec(&[102u8, 105, 108, 116, 101, 114]));  // `filter`
    assert(views(v@) =~= fetch_v1());
    v
}

fn fetch_v2_list() -> (r: Vec<Vec<u8>>)
    ensures
        views(r@) == fetch_v2(),
{
    let mut v: Vec<Vec<u8>> = Vec::new();
    v.push(to_vec(&[115u8, 104, 97, 108, 108, 111, 119]));  // `shallow`
    v.push(to_vec(&[102u8, 105, 108, 116, 101, 114]));  // `filter`
    v.push(to_vec(&[114u8, 101, 102, 45, 105, 110, 45, 119, 97, 110, 116]));  // `ref-in-want`
    v.push(to_vec(&[115u8, 105, 100, 101, 98, 97, 110, 100, 45, 97, 108, 108]));  // `sideband-all`
    v.push(to_vec(&[112u8, 97, 99, 107, 102, 105, 108, 101, 45, 117, 114, 105, 115]));  // `packfile-uris`
    v.push(to_vec(&[119u8, 97, 105, 116, 45, 102, 111, 114, 45, 100, 111, 110, 101]));  // `wait-for-done`
    assert(views(v@) =~= fetch_v2());
    v
}

fn ls_refs_args_list() -> (r: Vec<Vec<u8>>)
    ensures
        views(r@) == ls_refs_args(),
{
    let mut v: Vec<Vec<u8>> = Vec::new();
    v.push(to_vec(&[115u8, 121, 109, 114, 101, 102, 115]));  // `symrefs`
    v.push(to_vec(&[112u8, 101, 101, 108]));  // `peel`
    v.push(to_vec(&[114u8, 101, 102, 45, 112, 114, 101, 102, 105, 120, 32]));  // `ref-prefix `
    v.push(to_vec(&[117u8, 110, 98, 111, 114, 110]));  // `unborn`
    assert(views(v@) =~= ls_refs_args());
    v
}

fn fetch_args_list() -> (r: Vec<Vec<u8>>)
    ensures
        views(r@) == fetch_args(),
{
    let mut v: Vec<Vec<u8>> = Vec::new();
    v.push(to_vec(&[119u8, 97, 110, 116, 32]));  // `want `
    v.push(to_vec(&[104u8, 97, 118, 101, 32]));  // `have `
    v.push(to_vec(&[100u8, 111, 110, 101]));  // `done`
    v.push(to_vec(&[116u8, 104, 105, 110, 45, 112, 97, 99, 107]));  // `thin-pack`
    v.push(to_vec(&[110u8, 111, 45, 112, 114, 111, 103, 114, 101, 115, 115]));  // `no-progress`
    v.push(to_vec(&[105u8, 110, 99, 108, 117, 100, 101, 45, 116, 97, 103]));  // `include-tag`
    v.push(to_vec(&[111u8, 102, 115, 45, 100, 101, 108, 116, 97]));  // `ofs-delta`
    v.push(to_vec(&[115u8, 104, 97, 108, 108, 111, 119, 32]));  // `shallow `
    v.push(to_vec(&[100u8, 101, 101, 112, 101, 110, 32]));  // `deepen `
    v.push(to_vec(&[100u8, 101, 101, 112, 101, 110, 45, 114, 101, 108, 97, 116, 105, 118, 101]));  // `deepen-relative`
    v.push(to_vec(&[100u8, 101, 101, 112, 101, 110, 45, 115, 105, 110, 99, 101, 32]));  // `deepen-since `
    v.push(to_vec(&[100u8, 101, 101, 112, 101, 110, 45, 110, 111, 116, 32]));  // `deepen-not `
    v.push(to_vec(&[102u8, 105, 108, 116, 101, 114, 32]));  // `filter `
    v.push(to_vec(&[119u8, 97, 110, 116, 45, 114, 101, 102, 32]));  // `want-ref `
    v.push(to_vec(&[115u8, 105, 100, 101, 98, 97, 110, 100, 45, 97, 108, 108]));  // `sideband-all`
    v.push(to_vec(&[112u8, 97, 99, 107, 102, 105, 108, 101, 45, 117, 114, 105, 115, 32]));  // `packfile-uris `
    v.push(to_vec(&[119u8, 97, 105, 116, 45, 102, 111, 114, 45, 100, 111, 110, 101]));  // `wait-for-done`
    assert(views(v@) =~= fetch_args());
    v
}

fn feature_names_list(c: Command, v: Protocol) -> (r: Vec<Vec<u8>>)
    ensures
        views(r@) == all_features(c, v),
{
    match c {
        Command::LsRefs => {
            let r: Vec<Vec<u8>> = Vec::new();
            assert(views(r@) =~= seq![]);
            r
        },
        Command::Fetch => match v {
            Protocol::V1 => fetch_v1_list(),
            Protocol::V2 => fetch_v2_list(),
        },
    }
}

/// Each name with no value.
fn without_values(names: &Vec<Vec<u8>>) -> (r: Vec<Feature>)
    ensures
        r@.len() == names@.len(),
        forall|i: int| 0 <= i < r@.len() ==> (#[trigger] r@[i]).0@ == names@[i]@ && r@[i].1 is None,
{
    let mut r: Vec<Feature> = Vec::new();
    let mut i: usize = 0;
    while i < names.len()
        invariant
            i <= names@.len(),
            r@.len() == i,
            forall|k: int| 0 <= k < i ==> (#[trigger] r@[k]).0@ == names@[k]@ && r@[k].1 is None,
        decreases names@.len() - i,
    {
        r.push((to_vec(names[i].as_slice()), None));
        i = i + 1;
    }
    r
}

impl Command {
    /// The name of the command on the wire.
    pub fn as_bytes(&self) -> (r: &'static [u8])
        ensures
            r@ == command_name(*self),
    {
        match self {
            Command::LsRefs => &LS_REFS,
            Command::Fetch => &FETCH,
        }
    }

    /// The features to use by default: for `fetch` in version 1 all modern features the server
    /// announces, in version 2 all supported features it lists for `fetch`; none for `ls-refs`.
    pub fn default_features(&self, version: Protocol, server_capabilities: &Capabilities) -> (r: Vec<Feature>)
        ensures
            r@.len() == default_feature_names(*self, version, server_capabilities@).len(),
            forall|i: int| 0 <= i < r@.len() ==> (#[trigger] r@[i]).0@
                == default_feature_names(*self, version, server_capabilities@)[i] && r@[i].1 is None,
    {
        let all = feature_names_list(*self, version);
        let has_sideband_64k = server_capabilities.contains(&SIDE_BAND_64K);
        let has_multi_ack_detailed = server_capabilities.contains(&MULTI_ACK_DETAILED);
        let supported = match server_capabilities.values_of(&FETCH) {
            Some(v) => v,
            None => Vec::new(),
        };
        assert(views(supported@) == command_values(Command::Fetch, server_capabilities@));
        let ghost pred = |f: Seq<u8>| keeps_feature(version, server_capabilities@, f);
        let mut names: Vec<Vec<u8>> = Vec::new();
        let mut i: usize = 0;
        assert(views(all@).subrange(0, 0).filter(pred) =~= seq![]) by {
            reveal(Seq::filter);
        }
        while i < all.len()
            invariant
                i <= all@.len(),
                views(all@) == all_features(*self, version),
                views(supported@) == command_values(Command::Fetch, server_capabilities@),
                has_sideband_64k == has_capability(server_capabilities@, side_band_64k_name()),
                has_multi_ack_detailed == has_capability(server_capabilities@, multi_ack_detailed_name()),
                pred == (|f: Seq<u8>| keeps_feature(version, server_capabilities@, f)),
                views(names@) == views(all@).subrange(0, i as int).filter(pred),
            decreases all@.len() - i,
        {
            let f = all[i].as_slice();
            assert(f@ == views(all@)[i as int]);
            let keep = match version {
                Protocol::V1 => if bytes_eq(f, &SIDE_BAND) {
                    !has_sideband_64k && server_capabilities.contains(f)
                } else if bytes_eq(f, &MULTI_ACK) {
                    !has_multi_ack_detailed && server_capabilities.contains(f)
                } else if bytes_eq(f, &NO_PROGRESS) {
                    false
                } else {
                    server_capabilities.contains(f)
                },
                Protocol::V2 => list_contains(&supported, f),
            };
            assert(keep == pred(f@));
            proof {
                lemma_filter_step(views(all@), pred, i as int);
            }
            if keep {
                let ghost before = names@;
                names.push(to_vec(f));
                assert(views(names@) =~= views(before).push(f@));
            }
            i = i + 1;
        }
        assert(views(all@).subrange(0, all@.len() as int) =~= views(all@));
        let r = without_values(&names);
        assert forall|i: int| 0 <= i < r@.len() implies (#[trigger] r@[i]).0@
            == default_feature_names(*self, version, server_capabilities@)[i] by {
            assert(r@[i].0@ == views(names@)[i]);
        }
        r
    }

    /// The arguments a command starts with in version 2: `thin-pack` and `ofs-delta` for `fetch`,
    /// and `sideband-all` if that feature is in use; `symrefs` and `peel` for `ls-refs`.
    pub fn initial_arguments(&self, features: &Vec<Feature>) -> (r: Vec<Vec<u8>>)
        ensures
            views(r@) == initial_argument_list(*self, features_view(features@)),
    {
        let mut r: Vec<Vec<u8>> = Vec::new();
        match self {
            Command::Fetch => {
                r.push(to_vec(&THIN_PACK));
                r.push(to_vec(&OFS_DELTA));
                if has_feature(features, &SIDEBAND_ALL) {
                    r.push(to_vec(&SIDEBAND_ALL));
                }
            },
            Command::LsRefs => {
                r.push(to_vec(&SYMREFS));
                r.push(to_vec(&PEEL));
            },
        }
        assert(views(r@) =~= initial_argument_list(*self, features_view(features@)));
        r
    }

    /// Check that each argument starts with a prefix the command accepts, then that the server
    /// supports each feature. The first that fails is returned.
    pub fn validate_argument_prefixes(
        &self,
        version: Protocol,
        server: &Capabilities,
        arguments: &Vec<Vec<u8>>,
        features: &Vec<Feature>,
    ) -> (r: Result<(), ValidationError>)
        ensures
            r is Ok <==> (forall|i: int| 0 <= i < arguments@.len() ==> argument_allowed(*self, #[trigger] arguments@[i]@))
                && (forall|i: int| 0 <= i < features@.len() ==> feature_allowed(*self, version, server@, (#[trigger] features@[i]).0@)),
            match r {
                Ok(_) => true,
                Err(ValidationError::UnknownArgument { argument }) => exists|i: int| 0 <= i < arguments@.len()
                    && arguments@[i]@ == argument@ && !argument_allowed(*self, argument@)
                    && forall|k: int| 0 <= k < i ==> argument_allowed(*self, #[trigger] arguments@[k]@),
                Err(ValidationError::UnsupportedFeature { feature }) =>
                    (forall|k: int| 0 <= k < arguments@.len() ==> argument_allowed(*self, #[trigger] arguments@[k]@))
                    && exists|i: int| 0 <= i < features@.len()
                    && features@[i].0@ == feature@ && !feature_allowed(*self, version, server@, feature@)
                    && forall|k: int| 0 <= k < i ==> feature_allowed(*self, version, server@, (#[trigger] features@[k]).0@),
            },
    {
        let allowed = match self {
            Command::LsRefs => ls_refs_args_list(),
            Command::Fetch => fetch_args_list(),
        };
        let mut i: usize = 0;
        while i < arguments.len()
            invariant
                i <= arguments@.len(),
                views(allowed@) == argument_prefixes(*self),
                forall|k: int| 0 <= k < i ==> argument_allowed(*self, #[trigger] arguments@[k]@),
            decreases arguments@.len() - i,
        {
            assert(views(allowed@) == argument_prefixes(*self));
            if !any_is_prefix(&allowed, arguments[i].as_slice()) {
                return Err(ValidationError::UnknownArgument { argument: to_vec(arguments[i].as_slice()) });
            }
            i = i + 1;
        }
        let values = match server.values_of(self.as_bytes()) {
            Some(v) => v,
            None => Vec::new(),
        };
        let mut j: usize = 0;
        while j < features.len()
            invariant
                j <= features@.len(),
                views(values@) == command_values(*self, server@),
                forall|k: int| 0 <= k < arguments@.len() ==> argument_allowed(*self, #[trigger] arguments@[k]@),
                forall|k: int| 0 <= k < j ==> feature_allowed(*self, version, server@, (#[trigger] features@[k]).0@),
            decreases features@.len() - j,
        {
            let f = features[j].0.as_slice();
            let ok = match version {
                Protocol::V1 => capability_is_prefix(server, f),
                Protocol::V2 => list_contains(&values, f) || bytes_eq(f, &AGENT),
            };
            assert(f@ == features@[j as int].0@);
            assert(ok == feature_allowed(*self, version, server@, f@));
            if !ok {
                return Err(ValidationError::UnsupportedFeature { feature: to_vec(f) });
            }
            j = j + 1;
        }
        Ok(())
    }
}

/// Some feature of `features` is called `name`.
pub fn has_feature(features: &Vec<Feature>, name: &[u8]) -> (r: bool)
    ensures
        r == has_capability(features_view(features@), name@),
{
    let mut i: usize = 0;
    while i < features.len()
        invariant
            i <= features@.len(),
            forall|k: int| 0 <= k < i ==> features_view(features@)[k].0 != name@,
        decreases features@.len() - i,
    {
        if bytes_eq(features[i].0.as_slice(), name) {
            assert(features_view(features@)[i as int].0 == name@);
            return true;
        }
        i = i + 1;
    }
    false
}

/// The name of some capability of `server` is a prefix of `f`.
fn capability_is_prefix(server: &Capabilities, f: &[u8]) -> (r: bool)
    ensures
        r == exists|i: int| 0 <= i < server@.len() && is_prefix(#[trigger] server@[i].0, f@),
{
    let mut i: usize = 0;
    while i < server.entries.len()
        invariant
            i <= server.entries@.len(),
            forall|k: int| 0 <= k < i ==> !is_prefix(#[trigger] server@[k].0, f@),
        decreases server.entries@.len() - i,
    {
        if crate::bytes::starts_with(f, server.entries[i].name.as_slice()) {
            assert(is_prefix(server@[i as int].0, f@));
            return true;
        }
        i = i + 1;
    }
    false
}

pub const SIDE_BAND: [u8; 9] = [115u8, 105, 100, 101, 45, 98, 97, 110, 100];  // `side-band`
pub const SIDE_BAND_64K: [u8; 13] = [115u8, 105, 100, 101, 45, 98, 97, 110, 100, 45, 54, 52, 107];  // `side-band-64k`
pub const MULTI_ACK: [u8; 9] = [109u8, 117, 108, 116, 105, 95, 97, 99, 107];  // `multi_ack`
pub const MULTI_ACK_DETAILED: [u8; 18] = [109u8, 117, 108, 116, 105, 95, 97, 99, 107, 95, 100, 101, 116, 97, 105, 108, 101, 100];  // `multi_ack_detailed`
pub const NO_PROGRESS: [u8; 11] = [110u8, 111, 45, 112, 114, 111, 103, 114, 101, 115, 115];  // `no-progress`
pub const THIN_PACK: [u8; 9] = [116u8, 104, 105, 110, 45, 112, 97, 99, 107];  // `thin-pack`
pub const OFS_DELTA: [u8; 9] = [111u8, 102, 115, 45, 100, 101, 108, 116, 97];  // `ofs-delta`
pub const SIDEBAND_ALL: [u8; 12] = [115u8, 105, 100, 101, 98, 97, 110, 100, 45, 97, 108, 108];  // `sideband-all`
pub const SYMREFS: [u8; 7] = [115u8, 121, 109, 114, 101, 102, 115];  // `symrefs`
pub const PEEL: [u8; 4] = [112u8, 101, 101, 108];  // `peel`
pub const AGENT: [u8; 5] = [97u8, 103, 101, 110, 116];  // `agent`
pub const FETCH: [u8; 5] = [102u8, 101, 116, 99, 104];  // `fetch`
pub const LS_REFS: [u8; 7] = [108u8, 115, 45, 114, 101, 102, 115];  // `ls-refs`

} // verus!

//! The opt-in `url` source mode, and its address guard.
//!
//! Off by default. When an operator turns it on, a caller-supplied URL becomes
//! an outbound request from inside the gateway. Three things keep it bounded:
//!
//! - every hop is resolved and checked again, so a redirect to a private
//!   address is refused even though the first hop was public;
//! - private, loopback, link-local and unspecified addresses are refused
//!   unless the profile explicitly opts in;
//! - an optional host allowlist narrows it further.
//!
//! [`Fetch`] holds the decisions. Whoever runs it performs each [`Action`] and
//! hands back what came of it.

use vstd::prelude::*;

use crate::config::ProfileConfig;
use crate::error;
use crate::error::{BackendError, ErrorView};
use crate::source::{Acquired, AcquiredView};
use crate::stream::{StreamInfo, StreamInfoView};
use crate::text;

verus! {

/// An address, as octets or as groups of sixteen bits.
#[derive(Debug, Clone, Copy, PartialEq, Eq)]
pub enum IpAddr {
    V4([u8; 4]),
    V6([u16; 8]),
}

/// An address of IP version 4 that is routable on the public internet.
pub open spec fn public_v4(a: u8, b: u8, c: u8, d: u8) -> bool {
    // 10.0.0.0/8, 172.16.0.0/12 and 192.168.0.0/16, private.
    &&& a != 10
    &&& !(a == 172 && 16 <= b <= 31)
    &&& !(a == 192 && b == 168)
    // 127.0.0.0/8, loopback.
    &&& a != 127
    // 169.254.0.0/16, link-local.
    &&& !(a == 169 && b == 254)
    // 192.0.2.0/24, 198.51.100.0/24 and 203.0.113.0/24, documentation.
    &&& !(a == 192 && b == 0 && c == 2)
    &&& !(a == 198 && b == 51 && c == 100)
    &&& !(a == 203 && b == 0 && c == 113)
    // 0.0.0.0/8, unspecified and this network.
    &&& a != 0
    // 100.64.0.0/10, carrier-grade NAT.
    &&& !(a == 100 && 64 <= b <= 127)
    // 192.0.0.0/24, protocol assignments.
    &&& !(a == 192 && b == 0 && c == 0)
    // 198.18.0.0/15, benchmarking.
    &&& !(a == 198 && 18 <= b <= 19)
    // 224.0.0.0/4 and 240.0.0.0/4, multicast, reserved and broadcast.
    &&& a < 224
}

/// An address of version 4 in two groups of an address of version 6.
pub open spec fn public_groups(high: u16, low: u16) -> bool {
    public_v4((high / 256) as u8, (high % 256) as u8, (low / 256) as u8, (low % 256) as u8)
}

/// An address of IP version 6 that stands for one of version 4: ::ffff:0:0/96,
/// mapped, or 64:ff9b::/96, translated.
pub open spec fn carries_v4(s: Seq<u16>) -> bool {
    &&& s[2] == 0 && s[3] == 0 && s[4] == 0
    &&& {
        ||| s[0] == 0 && s[1] == 0 && s[5] == 0xffff
        ||| s[0] == 0x64 && s[1] == 0xff9b && s[5] == 0
    }
}

/// An address in 2001::/23, which is kept for protocols.
pub open spec fn kept_for_protocols(s: Seq<u16>) -> bool {
    s[0] == 0x2001 && s[1] < 0x200
}

/// The parts of 2001::/23 that are reachable all the same.
pub open spec fn reachable_protocol(s: Seq<u16>) -> bool {
    // 2001:1::1 to 2001:1::3, anycast: port control, relays, service discovery.
    ||| s[1] == 1 && s[2] == 0 && s[3] == 0 && s[4] == 0 && s[5] == 0 && s[6] == 0 && 1 <= s[7] <= 3
    // 2001:3::/32, automatic multicast tunnelling.
    ||| s[1] == 3
    // 2001:4:112::/48, the AS112 name servers.
    ||| s[1] == 4 && s[2] == 0x112
    // 2001:20::/28 and 2001:30::/28, cryptographic and drone identifiers.
    ||| 0x20 <= s[1] <= 0x3f
}

/// An address that is routable on the public internet.
pub open spec fn public(ip: IpAddr) -> bool {
    match ip {
        IpAddr::V4(o) => public_v4(o@[0], o@[1], o@[2], o@[3]),
        IpAddr::V6(g) => {
            let s = g@;
            if carries_v4(s) {
                public_groups(s[6], s[7])
            } else if s[0] == 0x2002 {
                // 2002::/16, 6to4: the address of version 4 comes first.
                public_groups(s[1], s[2])
            } else {
                // 2000::/3, global unicast. Outside it lie the unspecified and
                // loopback addresses and the rest of ::/8, discard-only
                // 100::/64, unique-local fc00::/7, link-local fe80::/10,
                // site-local fec0::/10, multicast ff00::/8, and what nobody
                // was given.
                &&& 0x2000 <= s[0] <= 0x3fff
                &&& kept_for_protocols(s) ==> reachable_protocol(s)
                // 2001:db8::/32 and 3fff::/20, documentation.
                &&& !(s[0] == 0x2001 && s[1] == 0xdb8)
                &&& !(s[0] == 0x3fff && s[1] < 0x1000)
            }
        },
    }
}

fn is_public_v4(a: u8, b: u8, c: u8, d: u8) -> (r: bool)
    ensures
        r == public_v4(a, b, c, d),
{
    let private = a == 10 || (a == 172 && 16 <= b && b <= 31) || (a == 192 && b == 168);
    let loopback = a == 127;
    let link_local = a == 169 && b == 254;
    let documentation = (a == 192 && b == 0 && c == 2) || (a == 198 && b == 51 && c == 100) || (a
        == 203 && b == 0 && c == 113);
    let this_network = a == 0;
    let carrier_nat = a == 100 && 64 <= b && b < 128;
    let protocol = a == 192 && b == 0 && c == 0;
    let benchmarking = a == 198 && 18 <= b && b < 20;
    let multicast_or_reserved = a >= 224;
    !(private || loopback || link_local || documentation || this_network || carrier_nat || protocol
        || benchmarking || multicast_or_reserved)
}

fn is_public_in(high: u16, low: u16) -> (r: bool)
    ensures
        r == public_groups(high, low),
{
    is_public_v4((high / 256) as u8, (high % 256) as u8, (low / 256) as u8, (low % 256) as u8)
}

/// Everything not routable on the public internet is refused. Written out so
/// the list can be read in one place.
pub fn is_public(ip: IpAddr) -> (r: bool)
    ensures
        r == public(ip),
{
    match ip {
        IpAddr::V4(o) => is_public_v4(o[0], o[1], o[2], o[3]),
        IpAddr::V6(s) => {
            let middle_zero = s[2] == 0 && s[3] == 0 && s[4] == 0;
            let mapped = s[0] == 0 && s[1] == 0 && s[5] == 0xffff;
            let translated = s[0] == 0x64 && s[1] == 0xff9b && s[5] == 0;
            // An IPv4-mapped address is an IPv4 address wearing a hat.
            if middle_zero && (mapped || translated) {
                return is_public_in(s[6], s[7]);
            }
            if s[0] == 0x2002 {
                return is_public_in(s[1], s[2]);
            }
            let global = 0x2000 <= s[0] && s[0] <= 0x3fff;
            let protocol = s[0] == 0x2001 && s[1] < 0x200;
            let anycast = s[1] == 1 && s[2] == 0 && s[3] == 0 && s[4] == 0 && s[5] == 0 && s[6] == 0
                && 1 <= s[7] && s[7] <= 3;
            let reachable = anycast || s[1] == 3 || (s[1] == 4 && s[2] == 0x112) || (0x20 <= s[1]
                && s[1] <= 0x3f);
            let documentation = (s[0] == 0x2001 && s[1] == 0xdb8) || (s[0] == 0x3fff && s[1]
                < 0x1000);
            global && (!protocol || reachable) && !documentation
        },
    }
}

/// The address of version 6 that an address of version 4 is mapped to.
pub open spec fn mapped(a: u8, b: u8, c: u8, d: u8) -> Seq<u16> {
    seq![0, 0, 0, 0, 0, 0xffff, (a * 256 + b) as u16, (c * 256 + d) as u16]
}

/// The address of version 6 that an address of version 4 is translated to.
pub open spec fn translated(a: u8, b: u8, c: u8, d: u8) -> Seq<u16> {
    seq![0x64, 0xff9b, 0, 0, 0, 0, (a * 256 + b) as u16, (c * 256 + d) as u16]
}

/// Wrapping an address of version 4 in one of version 6 changes nothing.
pub proof fn a_mapped_address_is_judged_as_what_it_carries(o: [u8; 4], g: [u16; 8])
    requires
        g@ == mapped(o@[0], o@[1], o@[2], o@[3]) || g@ == translated(
            o@[0],
            o@[1],
            o@[2],
            o@[3],
        ),
    ensures
        public(IpAddr::V6(g)) == public(IpAddr::V4(o)),
{
    let (a, b, c, d) = (o@[0], o@[1], o@[2], o@[3]);
    assert((a * 256 + b) / 256 == a && (a * 256 + b) % 256 == b);
    assert((c * 256 + d) / 256 == c && (c * 256 + d) % 256 == d);
}

/// The port that a scheme implies.
pub open spec fn default_port(scheme: Seq<char>) -> u16 {
    if scheme == "https"@ {
        443
    } else {
        80
    }
}

/// The port that a text writes, or else `default`.
pub open spec fn port_or(s: Seq<char>, default: u16) -> u16 {
    match text::number(s, u16::MAX as nat) {
        Some(n) => n as u16,
        None => default,
    }
}

/// The host and the port of an authority. A literal of IP version 6 stands in
/// brackets, and its colons separate no port.
pub open spec fn host_and_port(authority: Seq<char>, scheme: Seq<char>) -> (Seq<char>, u16) {
    let default = default_port(scheme);
    if authority.len() > 0 && authority[0] == '[' {
        let rest = authority.skip(1);
        let (host, tail) = match text::cut(rest, "]"@) {
            Some(parts) => parts,
            None => (rest, Seq::empty()),
        };
        if tail.len() > 0 && tail[0] == ':' {
            (host, port_or(tail.skip(1), default))
        } else {
            (host, default)
        }
    } else {
        match text::cut_last(authority, ':') {
            Some((host, port)) => (host, port_or(port, default)),
            None => (authority, default),
        }
    }
}

fn parse_port(s: &str, default: u16) -> (r: u16)
    ensures
        r == port_or(s@, default),
{
    match text::parse_number(s, 65535) {
        Some(n) => n as u16,
        None => default,
    }
}

pub fn split_host_port(authority: &str, scheme: &str) -> (r: (String, u16))
    ensures
        (r.0@, r.1) == host_and_port(authority@, scheme@),
{
    let default: u16 = if text::same(scheme, "https") {
        443
    } else {
        80
    };
    proof {
        reveal_strlit("[");
        reveal_strlit(":");
        text::lemma_one_char_prefix(authority@, "["@, '[');
    }
    if let Some(rest) = text::strip_prefix(authority, "[") {
        let (host, tail) = match text::split_once(rest, "]") {
            Some(parts) => parts,
            None => (rest, ""),
        };
        proof {
            reveal_strlit("");
            assert(""@ =~= Seq::empty());
            text::lemma_one_char_prefix(tail@, ":"@, ':');
        }
        let port: u16 = match text::strip_prefix(tail, ":") {
            Some(p) => parse_port(p, default),
            None => default,
        };
        return (host.to_owned(), port);
    }
    match text::rsplit_once(authority, ':') {
        Some((h, p)) => (h.to_owned(), parse_port(p, default)),
        None => (authority.to_owned(), default),
    }
}

/// What the caller of a malformed URL is told.
pub open spec fn malformed(url: Seq<char>) -> Seq<char> {
    "malformed url "@ + text::quoted(url)
}

fn malformed_url(url: &str) -> (r: BackendError)
    ensures
        r@ == error::refusal(malformed(url@)),
{
    error::invalid(text::concat2("malformed url ", text::debug_text(url).as_str()))
}

/// The authority at the start of what follows `://` in a URL.
pub open spec fn authority_in(rest: Seq<char>) -> Seq<char> {
    text::before_any(rest, "/?#"@)
}

/// What follows the authority in a URL.
pub open spec fn after_authority(rest: Seq<char>) -> Seq<char> {
    rest.skip(authority_in(rest).len() as int)
}

/// The path in what follows `://` in a URL: empty, or from the `/` that ends
/// the authority up to the query or fragment.
pub open spec fn path_in(rest: Seq<char>) -> Seq<char> {
    text::before_any(after_authority(rest), "?#"@)
}

/// The directory of a path: all up to its last `/`, or the root.
pub open spec fn directory(path: Seq<char>) -> Seq<char> {
    match text::cut_last(path, '/') {
        Some((dir, _)) => dir + "/"@,
        None => "/"@,
    }
}

/// Segments of a path that were reached by `done`, with `.` and `..` taken at
/// their word.
pub open spec fn walked(done: Seq<Seq<char>>, segments: Seq<Seq<char>>) -> Seq<Seq<char>>
    decreases segments.len(),
{
    if segments.len() == 0 {
        done
    } else {
        let (here, rest) = (segments[0], segments.drop_first());
        if here == "."@ || here == ".."@ {
            let up = if here == ".."@ && done.len() > 0 {
                done.drop_last()
            } else {
                done
            };
            // At the end they name a directory.
            walked(
                if rest.len() == 0 {
                    up.push(Seq::empty())
                } else {
                    up
                },
                rest,
            )
        } else {
            walked(done.push(here), rest)
        }
    }
}

/// A path from the root without its `.` and `..` segments.
pub open spec fn tidy(path: Seq<char>) -> Seq<char> {
    "/"@ + text::joined(walked(Seq::empty(), text::pieces(path.skip(1), '/')), "/"@)
}

/// Whether a reference carries a scheme and an authority of its own. A `://`
/// further on, as in a query, is no sign of them.
pub open spec fn is_absolute(loc: Seq<char>) -> bool {
    match text::cut(loc, "://"@) {
        Some((scheme, _)) => text::before_any(scheme, "/?#"@) == scheme,
        None => false,
    }
}

/// What a relative reference leads to from a URL's scheme and what follows it.
pub open spec fn relative_to(scheme: Seq<char>, rest: Seq<char>, loc: Seq<char>) -> Seq<char> {
    let site = scheme + "://"@ + authority_in(rest);
    let place = text::before_any(loc, "?#"@);
    let tail = loc.skip(place.len() as int);
    if "//"@.is_prefix_of(loc) {
        // Another authority under the same scheme.
        scheme + ":"@ + loc
    } else if place.len() > 0 {
        let path = if place[0] == '/' {
            place
        } else {
            directory(path_in(rest)) + place
        };
        site + tidy(path) + tail
    } else if loc.len() > 0 && loc[0] == '?' {
        site + path_in(rest) + loc
    } else {
        site + text::before_any(after_authority(rest), "#"@) + loc
    }
}

/// Where a `Location` header leads from the URL that produced it, or the
/// reason why it leads nowhere.
pub open spec fn redirected(base: Seq<char>, location: Seq<char>) -> Result<Seq<char>, Seq<char>> {
    let loc = text::trimmed(location);
    if is_absolute(loc) {
        Ok(loc)
    } else {
        match text::cut(base, "://"@) {
            None => Err(malformed(base)),
            Some((scheme, rest)) => Ok(relative_to(scheme, rest, loc)),
        }
    }
}

/// What follows the part of `s` that `head` is.
fn beyond<'a>(s: &'a str, head: &str) -> (r: &'a str)
    requires
        head@.len() <= s@.len(),
    ensures
        r@ == s@.skip(head@.len() as int),
{
    let n: usize = head.unicode_len();
    let all: usize = s.unicode_len();
    let r = s.substring_char(n, all);
    assert(r@ =~= s@.skip(head@.len() as int));
    r
}

/// The authority, and what follows it.
fn split_authority<'a>(rest: &'a str) -> (r: (&'a str, &'a str))
    ensures
        r.0@ == authority_in(rest@),
        r.1@ == after_authority(rest@),
{
    let authority = text::up_to_any(rest, "/?#");
    proof {
        text::lemma_first_of(rest@, "/?#"@, 0);
    }
    (authority, beyond(rest, authority))
}

fn walk(segments: &Vec<String>) -> (r: Vec<String>)
    ensures
        text::texts_of(r@) == walked(Seq::empty(), text::texts_of(segments@)),
{
    let ghost all = text::texts_of(segments@);
    let mut done: Vec<String> = Vec::new();
    let mut i: usize = 0;
    assert(text::texts_of(done@) =~= Seq::empty());
    assert(all.skip(0) =~= all);
    while i < segments.len()
        invariant
            i <= segments@.len(),
            all == text::texts_of(segments@),
            walked(Seq::empty(), all) == walked(text::texts_of(done@), all.skip(i as int)),
        decreases segments@.len() - i,
    {
        let ghost before = text::texts_of(done@);
        let here = segments[i].as_str();
        assert(all.skip(i as int)[0] == here@);
        assert(all.skip(i as int).drop_first() =~= all.skip(i + 1));
        let above = text::same(here, "..");
        if above || text::same(here, ".") {
            if above && done.len() > 0 {
                done.pop();
                assert(text::texts_of(done@) =~= before.drop_last());
            }
            let ghost up = text::texts_of(done@);
            if i + 1 == segments.len() {
                done.push(String::new());
                assert(text::texts_of(done@) =~= up.push(Seq::empty()));
            }
        } else {
            done.push(here.to_owned());
            assert(text::texts_of(done@) =~= before.push(here@));
        }
        i = i + 1;
    }
    assert(all.skip(i as int) =~= Seq::empty());
    done
}

fn tidied(path: &str) -> (r: String)
    requires
        path@.len() > 0,
    ensures
        r@ == tidy(path@),
{
    let n: usize = path.unicode_len();
    let below = path.substring_char(1, n);
    assert(below@ =~= path@.skip(1));
    let segments = text::split(below, '/');
    text::concat2("/", text::join(&walk(&segments), "/").as_str())
}

/// Resolve a `Location` header against the URL that produced it.
pub fn resolve_redirect(base: &str, location: &str) -> (r: Result<String, BackendError>)
    ensures
        match redirected(base@, location@) {
            Ok(url) => r is Ok && r->Ok_0@ == url,
            Err(message) => r is Err && r->Err_0@ == error::refusal(message),
        },
{
    let loc = text::trim(location);
    if let Some((scheme, _)) = text::split_once(loc, "://") {
        if text::same(text::up_to_any(scheme, "/?#"), scheme) {
            return Ok(loc.to_owned());
        }
    }
    let (scheme, rest) = match text::split_once(base, "://") {
        Some(parts) => parts,
        None => {
            return Err(malformed_url(base));
        },
    };
    if text::starts_with(loc, "//") {
        return Ok(text::concat3(scheme, ":", loc));
    }
    let (authority, after) = split_authority(rest);
    let mut url = text::concat3(scheme, "://", authority);
    let place = text::up_to_any(loc, "?#");
    proof {
        text::lemma_first_of(loc@, "?#"@, 0);
        reveal_strlit("/");
        reveal_strlit("?");
        text::lemma_one_char_prefix(place@, "/"@, '/');
        text::lemma_one_char_prefix(loc@, "?"@, '?');
    }
    if !place.is_empty() {
        if text::starts_with(place, "/") {
            url.append(tidied(place).as_str());
        } else {
            let mut path = match text::rsplit_once(text::up_to_any(after, "?#"), '/') {
                Some((dir, _)) => text::concat2(dir, "/"),
                None => "/".to_owned(),
            };
            path.append(place);
            url.append(tidied(path.as_str()).as_str());
        }
        url.append(beyond(loc, place));
    } else if text::starts_with(loc, "?") {
        url.append(text::up_to_any(after, "?#"));
        url.append(loc);
    } else {
        url.append(text::up_to_any(after, "#"));
        url.append(loc);
    }
    Ok(url)
}

/// The filename at the end of a URL's path, where it has an extension.
pub open spec fn filename_of(url: Seq<char>) -> Option<Seq<char>> {
    match text::cut(url, "://"@) {
        None => None,
        Some((_, rest)) => match text::cut_last(path_in(rest), '/') {
            Some((_, last)) if last.len() > 0 && text::has(last, "."@) => Some(last),
            _ => None,
        },
    }
}

pub fn filename_from_url(url: &str) -> (r: Option<String>)
    ensures
        text::text_of(r) == filename_of(url@),
{
    let (_, rest) = match text::split_once(url, "://") {
        Some(parts) => parts,
        None => {
            return None;
        },
    };
    let (_, after) = split_authority(rest);
    match text::rsplit_once(text::up_to_any(after, "?#"), '/') {
        Some((_, last)) => {
            if last.is_empty() || !text::contains(last, ".") {
                None
            } else {
                Some(last.to_owned())
            }
        },
        None => None,
    }
}

/// What the policy says of a URL before anything is resolved.
pub enum Verdict {
    Refused(Seq<char>),
    /// Private addresses are permitted, so no address needs to be looked at.
    Cleared,
    /// Every address of the host is still to be looked at.
    Resolve { host: Seq<char>, port: u16 },
}

/// Whether the allowlist names a host.
pub open spec fn listed(hosts: Seq<Seq<char>>, host: Seq<char>) -> bool {
    exists|i: int| 0 <= i < hosts.len() && text::same_ignoring_case(#[trigger] hosts[i], host)
}

/// The scheme of a URL, and its host and port. What stands before an `@` in
/// the authority is no part of the host.
pub open spec fn target_of(url: Seq<char>) -> Option<(Seq<char>, Seq<char>, u16)> {
    match text::cut(url, "://"@) {
        None => None,
        Some((scheme, rest)) => {
            let authority = text::after_last(text::before_any(rest, "/?#"@), '@');
            let (host, port) = host_and_port(authority, scheme);
            Some((scheme, host, port))
        },
    }
}

/// Checks one URL against the profile's policy, as far as that goes without
/// resolving the host.
pub open spec fn judged(url: Seq<char>, cfg: ProfileConfig) -> Verdict {
    match target_of(url) {
        None => Verdict::Refused(malformed(url)),
        Some((scheme, host, port)) => {
            let hosts = text::texts_of(cfg.url.allow_hosts@);
            if scheme != "http"@ && scheme != "https"@ {
                Verdict::Refused("refusing scheme "@ + text::quoted(scheme))
            } else if host.len() == 0 {
                Verdict::Refused(malformed(url))
            } else if hosts.len() > 0 && !listed(hosts, host) {
                Verdict::Refused(host + " is not in the profile's url.allow_hosts"@)
            } else if cfg.url.allow_private_addresses {
                Verdict::Cleared
            } else {
                Verdict::Resolve { host, port }
            }
        },
    }
}

/// One answer of the resolver, with the address in words.
#[derive(Debug)]
pub struct Resolved {
    pub ip: IpAddr,
    pub text: String,
}

/// What the resolver answered.
pub type Resolution = Result<Vec<Resolved>, String>;

/// The first of a list of addresses that is not public, at or after `from`.
pub open spec fn first_private(addrs: Seq<Resolved>, from: int) -> Option<int>
    decreases addrs.len() - from,
{
    if from < 0 || from >= addrs.len() {
        None
    } else if !public(addrs[from].ip) {
        Some(from)
    } else {
        first_private(addrs, from + 1)
    }
}

/// Why the addresses of a host are refused, if they are. A name with one
/// public and one private address is refused, not sampled.
pub open spec fn objection(host: Seq<char>, answer: Resolution) -> Option<Seq<char>> {
    match answer {
        Err(e) => Some(host + " did not resolve: "@ + e@),
        Ok(addrs) => if addrs@.len() == 0 {
            Some(host + " resolved to no addresses"@)
        } else {
            match first_private(addrs@, 0) {
                Some(i) => Some(
                    host + " resolves to the non-public address "@ + addrs@[i].text@
                        + "; set url.allow_private_addresses to permit it"@,
                ),
                None => None,
            }
        },
    }
}

/// What the policy says of a URL before anything is resolved.
#[derive(Debug)]
pub enum Guard {
    Cleared,
    Resolve { host: String, port: u16 },
}

fn is_listed(hosts: &Vec<String>, host: &str) -> (r: bool)
    ensures
        r == listed(text::texts_of(hosts@), host@),
{
    let mut i: usize = 0;
    while i < hosts.len()
        invariant
            i <= hosts@.len(),
            forall|j: int|
                0 <= j < i ==> !text::same_ignoring_case(
                    #[trigger] text::texts_of(hosts@)[j],
                    host@,
                ),
        decreases hosts@.len() - i,
    {
        assert(text::texts_of(hosts@)[i as int] == hosts@[i as int]@);
        if text::eq_ignore_ascii_case(hosts[i].as_str(), host) {
            return true;
        }
        i = i + 1;
    }
    false
}

/// Check one URL against the profile's policy, as far as that goes without
/// resolving the host.
pub fn guard(url: &str, cfg: &ProfileConfig) -> (r: Result<Guard, BackendError>)
    ensures
        match judged(url@, *cfg) {
            Verdict::Refused(message) => r is Err && r->Err_0@ == error::refusal(message),
            Verdict::Cleared => r == Ok::<Guard, BackendError>(Guard::Cleared),
            Verdict::Resolve { host, port } => {
                &&& r is Ok
                &&& r->Ok_0 is Resolve
                &&& r->Ok_0->host@ == host
                &&& r->Ok_0->port == port
            },
        },
{
    let (scheme, rest) = match text::split_once(url, "://") {
        Some(parts) => parts,
        None => {
            return Err(malformed_url(url));
        },
    };
    if !text::same(scheme, "http") && !text::same(scheme, "https") {
        return Err(
            error::invalid(text::concat2("refusing scheme ", text::debug_text(scheme).as_str())),
        );
    }
    let authority = text::tail_after(text::up_to_any(rest, "/?#"), '@');
    let (host, port) = split_host_port(authority, scheme);
    if host.as_str().is_empty() {
        return Err(malformed_url(url));
    }
    if cfg.url.allow_hosts.len() > 0 && !is_listed(&cfg.url.allow_hosts, host.as_str()) {
        return Err(
            error::invalid(
                text::concat2(host.as_str(), " is not in the profile's url.allow_hosts"),
            ),
        );
    }
    if cfg.url.allow_private_addresses {
        return Ok(Guard::Cleared);
    }
    Ok(Guard::Resolve { host, port })
}

/// Check every address that a host resolved to.
pub fn check_addresses(host: &str, answer: &Resolution) -> (r: Result<(), BackendError>)
    ensures
        match objection(host@, *answer) {
            Some(message) => r is Err && r->Err_0@ == error::refusal(message),
            None => r is Ok,
        },
{
    let addrs = match answer {
        Err(e) => {
            return Err(
                error::invalid(text::concat3(host, " did not resolve: ", e.as_str())),
            );
        },
        Ok(addrs) => addrs,
    };
    if addrs.len() == 0 {
        return Err(error::invalid(text::concat2(host, " resolved to no addresses")));
    }
    let mut i: usize = 0;
    while i < addrs.len()
        invariant
            *answer == Ok::<Vec<Resolved>, String>(*addrs),
            addrs@.len() > 0,
            i <= addrs@.len(),
            first_private(addrs@, 0) == first_private(addrs@, i as int),
        decreases addrs@.len() - i,
    {
        if !is_public(addrs[i].ip) {
            let mut message = text::concat3(
                host,
                " resolves to the non-public address ",
                addrs[i].text.as_str(),
            );
            message.append("; set url.allow_private_addresses to permit it");
            return Err(error::invalid(message));
        }
        i = i + 1;
    }
    Ok(())
}

/// What a fetch waits for.
#[derive(Debug)]
pub enum Stage {
    /// The addresses of the host.
    Resolving { host: String },
    /// The response to a request.
    Requesting,
    /// The body of a response.
    Reading { content_type: Option<String> },
}

/// A fetch in progress. Redirects are followed here, one hop at a time, so
/// each target is checked before it is contacted. Only [`Fetch::begin`] makes
/// one, and only [`Fetch::advance`] moves it on, under the policy that it began
/// with.
#[derive(Debug)]
pub struct Fetch<'a> {
    cfg: &'a ProfileConfig,
    /// What the caller named.
    start: String,
    /// Where the present hop leads.
    current: String,
    /// How many redirects may still be followed.
    left: u32,
    info: StreamInfo,
    stage: Stage,
}

/// A hop whose target is still to be checked, or was.
struct Hop<'a> {
    cfg: &'a ProfileConfig,
    start: String,
    current: String,
    left: u32,
    info: StreamInfo,
}

/// What to do next.
#[derive(Debug)]
pub enum Action {
    /// Resolve a host.
    Resolve { host: String, port: u16 },
    /// Request a URL, without following redirects.
    Request { url: String, timeout_ms: u64 },
    /// Read the body, up to this many bytes.
    Read { ceiling: u64 },
}

/// Where a fetch stands.
#[derive(Debug)]
pub enum Step<'a> {
    /// It goes on with what comes of the action.
    Wait(Fetch<'a>, Action),
    Done(Acquired),
    Fail(BackendError),
}

/// What came of a request.
#[derive(Debug)]
pub enum Reply {
    /// A response, whatever its status.
    Head { status: u16, location: Option<String>, content_type: Option<String> },
    /// The client reported the status as an error.
    Status { code: u16, error: String },
    /// There was no response.
    Lost { error: String },
}

/// What came of an action.
#[derive(Debug)]
pub enum Event {
    Resolved(Resolution),
    Replied(Reply),
    Body(Result<Vec<u8>, String>),
}

/// What a [`Stage`] says.
pub enum StageView {
    Resolving { host: Seq<char> },
    Requesting,
    Reading { content_type: Option<Seq<char>> },
}

/// What a [`Fetch`] says.
pub struct FetchView {
    pub start: Seq<char>,
    pub current: Seq<char>,
    pub left: u32,
    pub info: StreamInfoView,
    pub stage: StageView,
}

/// What an [`Action`] says.
pub enum ActionView {
    Resolve { host: Seq<char>, port: u16 },
    Request { url: Seq<char>, timeout_ms: u64 },
    Read { ceiling: u64 },
}

/// What a [`Step`] says.
pub enum StepView {
    Wait(FetchView, ActionView),
    Done(AcquiredView),
    Fail(ErrorView),
}

impl Stage {
    pub open spec fn view(&self) -> StageView {
        match self {
            Stage::Resolving { host } => StageView::Resolving { host: host@ },
            Stage::Requesting => StageView::Requesting,
            Stage::Reading { content_type } => StageView::Reading {
                content_type: text::text_of(*content_type),
            },
        }
    }
}

impl<'a> Fetch<'a> {
    pub closed spec fn view(&self) -> FetchView {
        FetchView {
            start: self.start@,
            current: self.current@,
            left: self.left,
            info: self.info@,
            stage: self.stage@,
        }
    }

    /// The profile that this fetch goes by.
    pub closed spec fn policy(&self) -> ProfileConfig {
        *self.cfg
    }

    /// The present target passed the checks that its stage supposes.
    #[verifier::type_invariant]
    spec fn passed(self) -> bool {
        &&& self.left <= self.cfg.url.max_redirects
        &&& !(judged(self.current@, *self.cfg) is Refused)
        &&& self.stage matches Stage::Resolving { host } ==> {
            &&& judged(self.current@, *self.cfg) is Resolve
            &&& judged(self.current@, *self.cfg)->host == host@
        }
    }
}

impl<'a> Hop<'a> {
    spec fn view(&self) -> FetchView {
        FetchView {
            start: self.start@,
            current: self.current@,
            left: self.left,
            info: self.info@,
            stage: StageView::Requesting,
        }
    }
}

impl Action {
    pub open spec fn view(&self) -> ActionView {
        match self {
            Action::Resolve { host, port } => ActionView::Resolve { host: host@, port: *port },
            Action::Request { url, timeout_ms } => ActionView::Request {
                url: url@,
                timeout_ms: *timeout_ms,
            },
            Action::Read { ceiling } => ActionView::Read { ceiling: *ceiling },
        }
    }
}

impl<'a> Step<'a> {
    /// Whether what goes on goes on under this profile.
    pub open spec fn under(&self, cfg: ProfileConfig) -> bool {
        self matches Step::Wait(fetch, _) ==> fetch.policy() == cfg
    }

    pub open spec fn view(&self) -> StepView {
        match self {
            Step::Wait(fetch, action) => StepView::Wait(fetch@, action@),
            Step::Done(acquired) => StepView::Done(acquired@),
            Step::Fail(e) => StepView::Fail(e@),
        }
    }
}

/// A fetch that may contact its present target.
pub open spec fn requested(f: FetchView, cfg: ProfileConfig) -> StepView {
    StepView::Wait(
        FetchView { stage: StageView::Requesting, ..f },
        ActionView::Request { url: f.current, timeout_ms: cfg.url.timeout_ms },
    )
}

/// The beginning of a hop: its target is checked.
pub open spec fn entered(f: FetchView, cfg: ProfileConfig) -> StepView {
    match judged(f.current, cfg) {
        Verdict::Refused(message) => StepView::Fail(error::refusal(message)),
        Verdict::Cleared => requested(f, cfg),
        Verdict::Resolve { host, port } => StepView::Wait(
            FetchView { stage: StageView::Resolving { host }, ..f },
            ActionView::Resolve { host, port },
        ),
    }
}

/// The beginning of a fetch.
pub open spec fn begun(url: Seq<char>, cfg: ProfileConfig, info: StreamInfoView) -> StepView {
    entered(
        FetchView {
            start: url,
            current: url,
            left: cfg.url.max_redirects,
            info,
            stage: StageView::Requesting,
        },
        cfg,
    )
}

/// The next hop, if one more may be followed.
pub open spec fn followed(f: FetchView, cfg: ProfileConfig, location: Seq<char>) -> StepView {
    match redirected(f.current, location) {
        Err(message) => StepView::Fail(error::refusal(message)),
        Ok(next) => if f.left == 0 {
            StepView::Fail(
                error::refusal(
                    f.start + " exceeded max_redirects ("@ + text::decimal(
                        cfg.url.max_redirects as nat,
                    ) + ")"@,
                ),
            )
        } else {
            entered(FetchView { current: next, left: (f.left - 1) as u32, ..f }, cfg)
        },
    }
}

/// The status of a redirect.
pub open spec fn is_redirect(status: u16) -> bool {
    300 <= status < 400
}

/// One byte past the limit, so an oversized body is refused rather than
/// silently cut into half a document.
pub open spec fn ceiling(cfg: ProfileConfig) -> u64 {
    let limit = cfg.convert.limits.max_input_bytes;
    if limit < u64::MAX {
        (limit + 1) as u64
    } else {
        limit
    }
}

/// What a reply to the present request leads to.
pub open spec fn answered(f: FetchView, cfg: ProfileConfig, reply: Reply) -> StepView {
    match reply {
        Reply::Status { code, error: e } => if is_redirect(code) {
            StepView::Fail(
                error::refusal(
                    f.current + " redirected with status "@ + text::decimal(code as nat)
                        + " but sent no Location header"@,
                ),
            )
        } else {
            StepView::Fail(
                ErrorView::Transport { message: "fetching "@ + f.current + ": "@ + e@ },
            )
        },
        Reply::Lost { error: e } => StepView::Fail(
            ErrorView::Transport { message: "fetching "@ + f.current + ": "@ + e@ },
        ),
        Reply::Head { status, location, content_type } => if is_redirect(status) {
            match location {
                Some(l) => followed(f, cfg, l@),
                None => StepView::Fail(
                    error::refusal(
                        f.current + " returned "@ + text::decimal(status as nat)
                            + " with no Location header"@,
                    ),
                ),
            }
        } else if !(200 <= status < 300) {
            StepView::Fail(
                ErrorView::Transport {
                    message: f.current + " returned HTTP "@ + text::decimal(status as nat),
                },
            )
        } else {
            StepView::Wait(
                FetchView {
                    stage: StageView::Reading { content_type: text::text_of(content_type) },
                    ..f
                },
                ActionView::Read { ceiling: ceiling(cfg) },
            )
        },
    }
}

/// What the body of the present response leads to.
pub open spec fn finished(
    f: FetchView,
    cfg: ProfileConfig,
    content_type: Option<Seq<char>>,
    body: Result<Vec<u8>, String>,
) -> StepView {
    let limit = cfg.convert.limits.max_input_bytes;
    match body {
        Err(e) => StepView::Fail(
            ErrorView::Transport { message: "reading "@ + f.current + ": "@ + e@ },
        ),
        Ok(bytes) => if bytes@.len() > limit {
            StepView::Fail(
                error::refusal(
                    f.current + " is larger than max_input_bytes ("@ + text::decimal(limit as nat)
                        + ")"@,
                ),
            )
        } else {
            StepView::Done(
                AcquiredView {
                    bytes: bytes@,
                    info: f.info.typed_or(content_type).named_or(filename_of(f.current)).located(
                        f.current,
                    ),
                    mode: "url"@,
                },
            )
        },
    }
}

/// Whether an event is what a stage waits for.
pub open spec fn expects(stage: StageView, event: Event) -> bool {
    match stage {
        StageView::Resolving { .. } => event is Resolved,
        StageView::Requesting => event is Replied,
        StageView::Reading { .. } => event is Body,
    }
}

/// What an event leads to.
pub open spec fn advanced(f: FetchView, cfg: ProfileConfig, event: Event) -> StepView
    recommends
        expects(f.stage, event),
{
    match f.stage {
        StageView::Resolving { host } => match objection(host, event->Resolved_0) {
            Some(message) => StepView::Fail(error::refusal(message)),
            None => requested(f, cfg),
        },
        StageView::Requesting => answered(f, cfg, event->Replied_0),
        StageView::Reading { content_type } => finished(f, cfg, content_type, event->Body_0),
    }
}

impl<'a> Hop<'a> {
    fn request(self) -> (r: Step<'a>)
        requires
            self.left <= self.cfg.url.max_redirects,
            !(judged(self.current@, *self.cfg) is Refused),
        ensures
            r@ == requested(self@, *self.cfg),
            r.under(*self.cfg),
    {
        let url = self.current.clone();
        let Hop { cfg, start, current, left, info } = self;
        Step::Wait(
            Fetch { cfg, start, current, left, info, stage: Stage::Requesting },
            Action::Request { url, timeout_ms: cfg.url.timeout_ms },
        )
    }

    fn enter(self) -> (r: Step<'a>)
        requires
            self.left <= self.cfg.url.max_redirects,
        ensures
            r@ == entered(self@, *self.cfg),
            r.under(*self.cfg),
    {
        match guard(self.current.as_str(), self.cfg) {
            Err(e) => Step::Fail(e),
            Ok(Guard::Cleared) => self.request(),
            Ok(Guard::Resolve { host, port }) => {
                let stage = Stage::Resolving { host: host.clone() };
                let Hop { cfg, start, current, left, info } = self;
                Step::Wait(
                    Fetch { cfg, start, current, left, info, stage },
                    Action::Resolve { host, port },
                )
            },
        }
    }

    fn follow(self, location: &str) -> (r: Step<'a>)
        requires
            self.left <= self.cfg.url.max_redirects,
        ensures
            r@ == followed(self@, *self.cfg, location@),
            r.under(*self.cfg),
    {
        match resolve_redirect(self.current.as_str(), location) {
            Err(e) => Step::Fail(e),
            Ok(next) => {
                if self.left == 0 {
                    let mut message = text::concat2(
                        self.start.as_str(),
                        " exceeded max_redirects (",
                    );
                    message.append(text::decimal_text(self.cfg.url.max_redirects as u64).as_str());
                    message.append(")");
                    return Step::Fail(error::invalid(message));
                }
                let left: u32 = self.left - 1;
                Hop { current: next, left, ..self }.enter()
            },
        }
    }

    fn answer(self, reply: Reply) -> (r: Step<'a>)
        requires
            self.left <= self.cfg.url.max_redirects,
            !(judged(self.current@, *self.cfg) is Refused),
        ensures
            r@ == answered(self@, *self.cfg, reply),
            r.under(*self.cfg),
    {
        match reply {
            Reply::Status { code, error: e } => {
                if 300 <= code && code < 400 {
                    let mut message = text::concat2(
                        self.current.as_str(),
                        " redirected with status ",
                    );
                    message.append(text::decimal_text(code as u64).as_str());
                    message.append(" but sent no Location header");
                    return Step::Fail(error::invalid(message));
                }
                Step::Fail(self.lost(e.as_str()))
            },
            Reply::Lost { error: e } => Step::Fail(self.lost(e.as_str())),
            Reply::Head { status, location, content_type } => {
                if 300 <= status && status < 400 {
                    return match location {
                        Some(l) => self.follow(l.as_str()),
                        None => {
                            let mut message = text::concat2(self.current.as_str(), " returned ");
                            message.append(text::decimal_text(status as u64).as_str());
                            message.append(" with no Location header");
                            Step::Fail(error::invalid(message))
                        },
                    };
                }
                if status < 200 || status >= 300 {
                    let mut message = text::concat2(self.current.as_str(), " returned HTTP ");
                    message.append(text::decimal_text(status as u64).as_str());
                    return Step::Fail(BackendError::Transport { message });
                }
                let Hop { cfg, start, current, left, info } = self;
                let ceiling: u64 = cfg.convert.limits.max_input_bytes.saturating_add(1);
                let stage = Stage::Reading { content_type };
                Step::Wait(
                    Fetch { cfg, start, current, left, info, stage },
                    Action::Read { ceiling },
                )
            },
        }
    }

    fn lost(&self, e: &str) -> (r: BackendError)
        ensures
            r@ == (ErrorView::Transport { message: "fetching "@ + self.current@ + ": "@ + e@ }),
    {
        let mut message = text::concat3("fetching ", self.current.as_str(), ": ");
        message.append(e);
        BackendError::Transport { message }
    }

    fn finish(self, content_type: Option<String>, body: Result<Vec<u8>, String>) -> (r: Step<'a>)
        ensures
            r@ == finished(self@, *self.cfg, text::text_of(content_type), body),
            r.under(*self.cfg),
    {
        let limit: u64 = self.cfg.convert.limits.max_input_bytes;
        let bytes = match body {
            Err(e) => {
                let mut message = text::concat3("reading ", self.current.as_str(), ": ");
                message.append(e.as_str());
                return Step::Fail(BackendError::Transport { message });
            },
            Ok(bytes) => bytes,
        };
        if bytes.len() as u64 > limit {
            let mut message = text::concat2(
                self.current.as_str(),
                " is larger than max_input_bytes (",
            );
            message.append(text::decimal_text(limit).as_str());
            message.append(")");
            return Step::Fail(error::invalid(message));
        }
        let mut info = self.info;
        if info.mimetype.is_none() {
            if let Some(m) = &content_type {
                info = info.with_mimetype(m.as_str());
            }
        }
        if info.filename.is_none() {
            if let Some(name) = filename_from_url(self.current.as_str()) {
                info = info.with_filename(name.as_str());
            }
        }
        Step::Done(Acquired { bytes, info: info.with_url(self.current.as_str()), mode: "url" })
    }
}

impl<'a> Fetch<'a> {
    /// Begin to fetch `url`.
    pub fn begin(url: &str, cfg: &'a ProfileConfig, info: StreamInfo) -> (r: Step<'a>)
        ensures
            r@ == begun(url@, *cfg, info@),
            r.under(*cfg),
    {
        let hop = Hop {
            cfg,
            start: url.to_owned(),
            current: url.to_owned(),
            left: cfg.url.max_redirects,
            info,
        };
        hop.enter()
    }

    /// Where the present hop leads.
    pub fn current(&self) -> (r: &str)
        ensures
            r@ == self@.current,
    {
        self.current.as_str()
    }

    /// Whether `event` is what this fetch waits for.
    pub fn takes(&self, event: &Event) -> (r: bool)
        ensures
            r == expects(self@.stage, *event),
    {
        match (&self.stage, event) {
            (Stage::Resolving { .. }, Event::Resolved(_)) => true,
            (Stage::Requesting, Event::Replied(_)) => true,
            (Stage::Reading { .. }, Event::Body(_)) => true,
            _ => false,
        }
    }

    /// Go on with what came of the last action.
    pub fn advance(self, event: Event) -> (r: Step<'a>)
        requires
            expects(self@.stage, event),
        ensures
            r@ == advanced(self@, self.policy(), event),
            r.under(self.policy()),
    {
        proof {
            use_type_invariant(&self);
        }
        let Fetch { cfg, start, current, left, info, stage } = self;
        let hop = Hop { cfg, start, current, left, info };
        match (stage, event) {
            (Stage::Resolving { host }, Event::Resolved(answer)) => {
                match check_addresses(host.as_str(), &answer) {
                    Err(e) => Step::Fail(e),
                    Ok(()) => hop.request(),
                }
            },
            (Stage::Requesting, Event::Replied(reply)) => hop.answer(reply),
            (Stage::Reading { content_type }, Event::Body(body)) => hop.finish(content_type, body),
            _ => vstd::pervasive::unreached(),
        }
    }
}

} // verus!

//! Endpoint discovery: the pure core of SSDP and mDNS resolution.
//!
//! The transport layer performs the multicast sends and bounded receives
//! and hands every reply observed within the discovery window to this
//! module, which selects and parses the endpoint.

use crate::number::{all_digits, dec_val, is_digit, lemma_dec_val_monotone};
use crate::text::{contains_seq, contains_str, find_char, find_char_from, lemma_find_char, trim,
    trim_window};
use vstd::prelude::*;

verus! {

/// How an endpoint is discovered on the network.
#[derive(Debug, Clone, Copy, PartialEq, Eq, Structural)]
pub enum DiscoveryMethod {
    Ssdp,
    Mdns,
}

/// Host and port for a Nova OpenAPI endpoint.
#[derive(Debug, Clone)]
pub struct NovaEndpoint {
    pub host: String,
    pub port: u16,
}

/// The port number denoted by `s`, exactly as `str::parse::<u16>` accepts
/// it: an optional leading plus sign, then at least one digit, with a
/// value of at most 65535.
pub open spec fn parse_port(s: Seq<char>) -> Option<u16> {
    let t = if s.len() > 0 && s[0] == '+' {
        s.drop_first()
    } else {
        s
    };
    if t.len() > 0 && all_digits(t) && dec_val(t) <= 65535 {
        Some(dec_val(t) as u16)
    } else {
        None
    }
}

/// Parse a decimal port number from the window `[lo, hi)` of `s`.
fn parse_port_str(s: &str, lo: usize, hi: usize) -> (r: Option<u16>)
    requires
        lo <= hi <= s@.len(),
    ensures
        r == parse_port(s@.subrange(lo as int, hi as int)),
{
    let ghost w = s@.subrange(lo as int, hi as int);
    let mut i = lo;
    if i < hi && s.get_char(i) == '+' {
        i += 1;
    }
    let ghost t = s@.subrange(i as int, hi as int);
    proof {
        if w.len() > 0 && w[0] == '+' {
            assert(t =~= w.drop_first());
        } else {
            assert(t =~= w);
        }
    }
    if i == hi {
        return None;
    }
    let mut v: u32 = 0;
    let mut j = i;
    while j < hi
        invariant
            lo <= i <= j <= hi <= s@.len(),
            i < hi,
            w == s@.subrange(lo as int, hi as int),
            t == s@.subrange(i as int, hi as int),
            parse_port(w) == (if t.len() > 0 && all_digits(t) && dec_val(t) <= 65535 {
                Some(dec_val(t) as u16)
            } else {
                None::<u16>
            }),
            v <= 65535,
            all_digits(t.take(j - i)),
            v == dec_val(t.take(j - i)),
        decreases hi - j,
    {
        let c = s.get_char(j);
        let cu = c as u32;
        if cu < 48 || cu > 57 {
            proof {
                assert(t[j - i] == c);
                assert(!is_digit(t[j - i]));
                assert(!all_digits(t));
            }
            return None;
        }
        let d = cu - 48;
        proof {
            assert(t.take(j - i + 1).drop_last() =~= t.take(j - i));
            assert(t.take(j - i + 1).last() == t[j - i]);
            assert(is_digit(t[j - i]));
        }
        v = v * 10 + d;
        j += 1;
        if v > 65535 {
            proof {
                if all_digits(t) {
                    lemma_dec_val_monotone(t, j - i);
                }
            }
            return None;
        }
    }
    proof {
        assert(t.take(hi - i) =~= t);
    }
    Some(v as u16)
}

/// Whether the window `[lo, hi)` of `s` begins with `pat`.
fn has_prefix(s: &str, lo: usize, hi: usize, pat: &str) -> (r: bool)
    requires
        lo <= hi <= s@.len(),
    ensures
        r == {
            let w = s@.subrange(lo as int, hi as int);
            w.len() >= pat@.len() && w.take(pat@.len() as int) == pat@
        },
{
    let ghost w = s@.subrange(lo as int, hi as int);
    let m = pat.unicode_len();
    if hi - lo < m {
        return false;
    }
    let mut j: usize = 0;
    while j < m
        invariant
            0 <= j <= m,
            m == pat@.len(),
            lo <= hi <= s@.len(),
            m <= hi - lo,
            w == s@.subrange(lo as int, hi as int),
            forall|l: int| 0 <= l < j ==> w[l] == pat@[l],
        decreases m - j,
    {
        if s.get_char(lo + j) != pat.get_char(j) {
            proof {
                assert(w[j as int] != pat@[j as int]);
            }
            return false;
        }
        proof {
            assert(w[j as int] == s@[lo + j]);
        }
        j += 1;
    }
    proof {
        assert(w.take(m as int) =~= pat@);
    }
    true
}

/// `s` with every leading occurrence of the word `p` removed.
pub open spec fn strip_prefix_all(s: Seq<char>, p: Seq<char>) -> Seq<char>
    decreases s.len(),
{
    if p.len() > 0 && s.len() >= p.len() && s.take(p.len() as int) == p {
        strip_prefix_all(s.skip(p.len() as int), p)
    } else {
        s
    }
}

/// `s` with every trailing occurrence of the character `c` removed.
pub open spec fn strip_end_all(s: Seq<char>, c: char) -> Seq<char>
    decreases s.len(),
{
    if s.len() > 0 && s.last() == c {
        strip_end_all(s.drop_last(), c)
    } else {
        s
    }
}

/// The endpoint denoted by a discovery `LOCATION` value: the text without
/// its scheme prefix and trailing path, split into host and port at the
/// first colon.
pub open spec fn parse_location_spec(loc: Seq<char>) -> Option<(Seq<char>, u16)> {
    let a = strip_prefix_all(loc, "http://"@);
    let b = strip_prefix_all(a, "ws://"@);
    let c = strip_end_all(b, '/');
    let hp = c.take(find_char(c, '/'));
    let k = find_char(hp, ':');
    if k == hp.len() {
        None
    } else {
        match parse_port(hp.skip(k + 1)) {
            Some(p) => Some((hp.take(k), p)),
            None => None,
        }
    }
}

/// Parse a discovery `LOCATION` value into an endpoint.
#[verifier::rlimit(80)]
pub fn parse_location(location: &str) -> (r: Option<NovaEndpoint>)
    ensures
        match r {
            Some(e) => parse_location_spec(location@) == Some((e.host@, e.port)),
            None => parse_location_spec(location@) is None,
        },
{
    let n = location.unicode_len();
    let mut lo: usize = 0;
    let mut hi: usize = n;
    proof {
        assert(location@.subrange(0, n as int) =~= location@);
    }

    // Strip the scheme prefixes.
    while has_prefix(location, lo, hi, "http://")
        invariant
            0 <= lo <= hi <= n,
            n == location@.len(),
            strip_prefix_all(location@.subrange(lo as int, hi as int), "http://"@)
                == strip_prefix_all(location@, "http://"@),
        decreases hi - lo,
    {
        proof {
            reveal_strlit("http://");
            assert(location@.subrange(lo as int, hi as int).skip(7)
                =~= location@.subrange(lo + 7, hi as int));
        }
        lo += 7;
    }
    let ghost after_http = strip_prefix_all(location@, "http://"@);
    proof {
        assert(location@.subrange(lo as int, hi as int) == after_http);
    }
    while has_prefix(location, lo, hi, "ws://")
        invariant
            0 <= lo <= hi <= n,
            n == location@.len(),
            strip_prefix_all(location@.subrange(lo as int, hi as int), "ws://"@)
                == strip_prefix_all(after_http, "ws://"@),
        decreases hi - lo,
    {
        proof {
            reveal_strlit("ws://");
            assert(location@.subrange(lo as int, hi as int).skip(5)
                =~= location@.subrange(lo + 5, hi as int));
        }
        lo += 5;
    }
    let ghost after_ws = strip_prefix_all(after_http, "ws://"@);
    proof {
        assert(location@.subrange(lo as int, hi as int) == after_ws);
    }

    // Strip trailing slashes.
    while hi > lo && location.get_char(hi - 1) == '/'
        invariant
            0 <= lo <= hi <= n,
            n == location@.len(),
            strip_end_all(location@.subrange(lo as int, hi as int), '/')
                == strip_end_all(after_ws, '/'),
        decreases hi - lo,
    {
        proof {
            assert(location@.subrange(lo as int, hi as int).last() == location@[hi - 1]);
            assert(location@.subrange(lo as int, hi as int).drop_last()
                =~= location@.subrange(lo as int, hi - 1));
        }
        hi -= 1;
    }
    let ghost stripped = strip_end_all(after_ws, '/');
    proof {
        if hi > lo {
            assert(location@.subrange(lo as int, hi as int).last() == location@[hi - 1]);
        }
        assert(location@.subrange(lo as int, hi as int) == stripped);
    }

    // Keep only the part before the first slash.
    let slash = find_char_from(location, lo, '/');
    let hp_hi = if slash < hi {
        slash
    } else {
        hi
    };
    let ghost hp = stripped.take(find_char(stripped, '/'));
    proof {
        lemma_find_char(stripped, '/');
        if slash < hi {
            assert(stripped[slash - lo] == '/');
            assert(forall|j: int| 0 <= j < slash - lo ==> stripped[j] != '/');
            assert(find_char(stripped, '/') == slash - lo);
        } else {
            assert(forall|j: int| 0 <= j < stripped.len() ==> stripped[j] != '/');
            assert(find_char(stripped, '/') == stripped.len());
        }
        assert(hp =~= location@.subrange(lo as int, hp_hi as int));
    }

    // Split host and port at the first colon.
    let colon = find_char_from(location, lo, ':');
    proof {
        lemma_find_char(hp, ':');
        if colon < hp_hi {
            assert(hp[colon - lo] == ':');
            assert(forall|j: int| 0 <= j < colon - lo ==> hp[j] != ':');
            assert(find_char(hp, ':') == colon - lo);
        } else {
            assert(forall|j: int| 0 <= j < hp.len() ==> hp[j] != ':');
            assert(find_char(hp, ':') == hp.len());
        }
    }
    if colon >= hp_hi {
        return None;
    }
    let port = match parse_port_str(location, colon + 1, hp_hi) {
        Some(p) => p,
        None => {
            proof {
                assert(hp.skip(find_char(hp, ':') + 1)
                    =~= location@.subrange(colon + 1, hp_hi as int));
            }
            return None;
        },
    };
    proof {
        assert(hp.skip(find_char(hp, ':') + 1) =~= location@.subrange(colon + 1, hp_hi as int));
        assert(hp.take(find_char(hp, ':')) =~= location@.subrange(lo as int, colon as int));
    }
    let host = location.substring_char(lo, colon).to_owned();
    Some(NovaEndpoint { host, port })
}

/// One line as `str::lines` yields it: the carriage return that preceded
/// the line feed is dropped.
pub open spec fn strip_cr(line: Seq<char>) -> Seq<char> {
    if line.len() > 0 && line.last() == '\r' {
        line.drop_last()
    } else {
        line
    }
}

/// The lines of `s`, split at line feeds.
pub open spec fn split_lines(s: Seq<char>) -> Seq<Seq<char>>
    decreases s.len(),
    via split_lines_decreases
{
    if s.len() == 0 {
        Seq::empty()
    } else {
        let k = find_char(s, '\n');
        if k == s.len() {
            seq![s]
        } else {
            seq![strip_cr(s.take(k))] + split_lines(s.skip(k + 1))
        }
    }
}

#[via_fn]
proof fn split_lines_decreases(s: Seq<char>) {
    if s.len() > 0 {
        lemma_find_char(s, '\n');
    }
}

/// The location a single header line announces, if any.
pub open spec fn line_loc(l: Seq<char>) -> Option<Seq<char>> {
    if l.len() >= 9 && l.take(9) == "LOCATION:"@ {
        Some(trim(l.skip(9)))
    } else {
        None
    }
}

/// The location announced by the last `LOCATION` header among `lines`.
pub open spec fn location_of_lines(lines: Seq<Seq<char>>) -> Option<Seq<char>>
    decreases lines.len(),
{
    if lines.len() == 0 {
        None
    } else {
        match line_loc(lines.last()) {
            Some(x) => Some(x),
            None => location_of_lines(lines.drop_last()),
        }
    }
}

/// Prepending one line defers to the later lines: the last header wins.
proof fn lemma_location_prepend(l: Seq<char>, rest: Seq<Seq<char>>)
    ensures
        location_of_lines(seq![l] + rest) == match location_of_lines(rest) {
            Some(x) => Some(x),
            None => line_loc(l),
        },
    decreases rest.len(),
{
    let s = seq![l] + rest;
    if rest.len() == 0 {
        assert(s =~= seq![l]);
        assert(s.last() == l);
        assert(s.drop_last() =~= Seq::<Seq<char>>::empty());
        assert(location_of_lines(Seq::<Seq<char>>::empty()) is None);
    } else {
        assert(s.last() == rest.last());
        assert(s.drop_last() =~= seq![l] + rest.drop_last());
        lemma_location_prepend(l, rest.drop_last());
    }
}

/// The location announced by an SSDP search response that carries the
/// expected service identifier.
pub open spec fn ssdp_location(resp: Seq<char>) -> Option<Seq<char>> {
    if contains_seq(resp, "urn:openlaunch:service:openapi:1"@) {
        location_of_lines(split_lines(resp))
    } else {
        None
    }
}

/// The endpoint an SSDP search response advertises, if any.
pub open spec fn ssdp_endpoint_spec(resp: Seq<char>) -> Option<(Seq<char>, u16)> {
    match ssdp_location(resp) {
        Some(loc) => parse_location_spec(loc),
        None => None,
    }
}

/// The view of an optional string.
pub open spec fn opt_text(o: Option<String>) -> Option<Seq<char>> {
    match o {
        Some(s) => Some(s@),
        None => None,
    }
}

/// Extract the advertised endpoint from one SSDP search response: the
/// response must carry the expected service identifier, and the last
/// `LOCATION` header names the endpoint.
#[verifier::rlimit(80)]
pub fn ssdp_response_endpoint(response: &str) -> (r: Option<NovaEndpoint>)
    ensures
        match r {
            Some(e) => ssdp_endpoint_spec(response@) == Some((e.host@, e.port)),
            None => ssdp_endpoint_spec(response@) is None,
        },
{
    if !contains_str(response, "urn:openlaunch:service:openapi:1") {
        return None;
    }
    let n = response.unicode_len();
    let mut pos: usize = 0;
    let mut cand: Option<String> = None;
    proof {
        assert(response@.skip(0) =~= response@);
    }
    while pos < n
        invariant
            0 <= pos <= n,
            n == response@.len(),
            location_of_lines(split_lines(response@)) == match location_of_lines(
                split_lines(response@.skip(pos as int)),
            ) {
                Some(x) => Some(x),
                None => opt_text(cand),
            },
        decreases n - pos,
    {
        let ghost suffix = response@.skip(pos as int);
        let nl = find_char_from(response, pos, '\n');
        proof {
            lemma_find_char(suffix, '\n');
            if nl < n {
                assert(suffix[nl - pos] == '\n');
                assert(forall|j: int| 0 <= j < nl - pos ==> suffix[j] != '\n');
                assert(find_char(suffix, '\n') == nl - pos);
            } else {
                assert(forall|j: int| 0 <= j < suffix.len() ==> suffix[j] != '\n');
                assert(find_char(suffix, '\n') == suffix.len());
            }
        }
        let line_end: usize = if nl < n {
            if nl > pos && response.get_char(nl - 1) == '\r' {
                nl - 1
            } else {
                nl
            }
        } else {
            n
        };
        let ghost l = response@.subrange(pos as int, line_end as int);
        let next_pos: usize = if nl < n {
            nl + 1
        } else {
            n
        };
        proof {
            if nl < n {
                let k = nl - pos;
                assert(suffix.take(k) =~= response@.subrange(pos as int, nl as int));
                if nl > pos && response@[nl - 1] == '\r' {
                    assert(suffix.take(k).last() == '\r');
                    assert(suffix.take(k).drop_last() =~= l);
                } else {
                    if nl > pos {
                        assert(suffix.take(k).last() == response@[nl - 1]);
                    }
                    assert(strip_cr(suffix.take(k)) =~= l);
                }
                assert(suffix.skip(k + 1) =~= response@.skip(next_pos as int));
                assert(split_lines(suffix) == seq![l] + split_lines(
                    response@.skip(next_pos as int),
                ));
                lemma_location_prepend(l, split_lines(response@.skip(next_pos as int)));
            } else {
                assert(l =~= suffix);
                assert(split_lines(suffix) == seq![l]);
                assert(split_lines(response@.skip(next_pos as int)) =~= Seq::<Seq<char>>::empty());
                lemma_location_prepend(l, split_lines(response@.skip(next_pos as int)));
                assert(seq![l] + Seq::<Seq<char>>::empty() =~= seq![l]);
            }
        }
        if has_prefix(response, pos, line_end, "LOCATION:") {
            proof {
                reveal_strlit("LOCATION:");
                assert(l.skip(9) =~= response@.subrange(pos + 9, line_end as int));
            }
            let (a, b) = trim_window(response, pos + 9, line_end);
            let trimmed = response.substring_char(a, b).to_owned();
            proof {
                assert(line_loc(l) == Some(trimmed@));
            }
            cand = Some(trimmed);
        } else {
            proof {
                assert(line_loc(l) is None);
            }
        }
        pos = next_pos;
    }
    proof {
        assert(split_lines(response@.skip(n as int)) =~= Seq::<Seq<char>>::empty());
    }
    match cand {
        Some(loc) => parse_location(loc.as_str()),
        None => None,
    }
}

/// One reply observed during a discovery window.
#[derive(Debug)]
pub enum DiscoveryReply {
    /// A datagram received in reply to the SSDP search, as text.
    Ssdp(String),
    /// A service resolved by the mDNS browse: an address and a port.
    Mdns(String, u16),
}

/// Discovery failed to produce an endpoint within its window.
#[derive(Debug, Clone, Copy, PartialEq, Eq, Structural)]
pub enum DiscoveryError {
    /// No usable reply to the SSDP search.
    SsdpNoResponse,
    /// No service resolved by the mDNS browse.
    MdnsNoResponse,
}

/// The endpoint advertised by the first usable SSDP reply.
pub open spec fn ssdp_result(replies: Seq<DiscoveryReply>) -> Option<(Seq<char>, u16)>
    decreases replies.len(),
{
    if replies.len() == 0 {
        None
    } else {
        match replies[0] {
            DiscoveryReply::Ssdp(text) => match ssdp_endpoint_spec(text@) {
                Some(e) => Some(e),
                None => ssdp_result(replies.drop_first()),
            },
            _ => ssdp_result(replies.drop_first()),
        }
    }
}

/// The address and port of the first service the mDNS browse resolved.
pub open spec fn mdns_result(replies: Seq<DiscoveryReply>) -> Option<(Seq<char>, u16)>
    decreases replies.len(),
{
    if replies.len() == 0 {
        None
    } else {
        match replies[0] {
            DiscoveryReply::Mdns(host, port) => Some((host@, port)),
            _ => mdns_result(replies.drop_first()),
        }
    }
}

/// Select the device endpoint from the replies observed during one
/// bounded discovery window, under the preferred discovery protocol:
/// the first usable reply wins, and an empty window is a failure.
pub fn discover_nova_openapi(preferred: DiscoveryMethod, replies: &Vec<DiscoveryReply>) -> (r:
    Result<NovaEndpoint, DiscoveryError>)
    ensures
        preferred is Ssdp ==> match ssdp_result(replies@) {
            Some(e) => r matches Ok(ep) && ep.host@ == e.0 && ep.port == e.1,
            None => r == Err::<NovaEndpoint, DiscoveryError>(DiscoveryError::SsdpNoResponse),
        },
        preferred is Mdns ==> match mdns_result(replies@) {
            Some(e) => r matches Ok(ep) && ep.host@ == e.0 && ep.port == e.1,
            None => r == Err::<NovaEndpoint, DiscoveryError>(DiscoveryError::MdnsNoResponse),
        },
{
    let n = replies.len();
    match preferred {
        DiscoveryMethod::Ssdp => {
            let mut i: usize = 0;
            proof {
                assert(replies@.skip(0) =~= replies@);
            }
            while i < n
                invariant
                    preferred is Ssdp,
                    0 <= i <= n,
                    n == replies@.len(),
                    ssdp_result(replies@) == ssdp_result(replies@.skip(i as int)),
                decreases n - i,
            {
                proof {
                    assert(replies@.skip(i as int)[0] == replies@[i as int]);
                    assert(replies@.skip(i as int).drop_first() =~= replies@.skip(i + 1));
                }
                match &replies[i] {
                    DiscoveryReply::Ssdp(text) => {
                        match ssdp_response_endpoint(text.as_str()) {
                            Some(e) => {
                                return Ok(e);
                            },
                            None => {},
                        }
                    },
                    _ => {},
                }
                i += 1;
            }
            Err(DiscoveryError::SsdpNoResponse)
        },
        DiscoveryMethod::Mdns => {
            let mut i: usize = 0;
            proof {
                assert(replies@.skip(0) =~= replies@);
            }
            while i < n
                invariant
                    preferred is Mdns,
                    0 <= i <= n,
                    n == replies@.len(),
                    mdns_result(replies@) == mdns_result(replies@.skip(i as int)),
                decreases n - i,
            {
                proof {
                    assert(replies@.skip(i as int)[0] == replies@[i as int]);
                    assert(replies@.skip(i as int).drop_first() =~= replies@.skip(i + 1));
                }
                match &replies[i] {
                    DiscoveryReply::Mdns(host, port) => {
                        return Ok(NovaEndpoint { host: host.clone(), port: *port });
                    },
                    _ => {},
                }
                i += 1;
            }
            Err(DiscoveryError::MdnsNoResponse)
        },
    }
}

} // verus!

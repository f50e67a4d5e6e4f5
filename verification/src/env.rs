//! SFTP credentials: the values read from the environment and the parsing
//! of the host setting.

use vstd::prelude::*;
use vstd::string::*;
use crate::text::{
    decimal_digits, drop_white_until, is_digit, is_white_space, last_index_of,
    lemma_decimal_digits_value, lemma_drop_white_bounds, lemma_drop_white_suffix,
    lemma_index_of_before, lemma_index_of_before_skip, lemma_parse_u16_of_decimal,
    lemma_skip_white_bounds, lemma_skip_white_prefix, lemma_trimmed_unchanged, parse_u16,
    parsed_u16, rfind_char, skip_white_from, strip_prefix, trim, trimmed,
};

verus! {

/// Where and as whom the launcher logs in to mirror the game files.
pub struct SftpCredentials {
    pub host: String,
    pub port: u16,
    pub user: String,
    pub password: String,
}

/// The port used when the host setting names none.
pub const DEFAULT_SFTP_PORT: u16 = 22;

/// `s` without one leading `sftp://`, `ssh://` or `ftp://`, tried in that order.
pub open spec fn without_scheme(s: Seq<char>) -> Seq<char> {
    if "sftp://"@.is_prefix_of(s) {
        s.skip("sftp://"@.len() as int)
    } else if "ssh://"@.is_prefix_of(s) {
        s.skip("ssh://"@.len() as int)
    } else if "ftp://"@.is_prefix_of(s) {
        s.skip("ftp://"@.len() as int)
    } else {
        s
    }
}

/// The outcome of parsing a host setting: the setting is trimmed and its
/// scheme dropped; what follows the last `:` is the port, and must parse
/// as a `u16`; without a `:`, the whole is the host and the port is 22.
pub open spec fn sftp_host_outcome(s: Seq<char>) -> Result<(Seq<char>, u16), Seq<char>> {
    let t = without_scheme(trimmed(s));
    let i = last_index_of(t, ':');
    if i < 0 {
        Ok((t, DEFAULT_SFTP_PORT))
    } else {
        let port = t.skip(i + 1);
        match parsed_u16(port) {
            Some(p) => Ok((t.take(i), p)),
            None => Err("Invalid SFTP port: "@ + port),
        }
    }
}

/// Splits a host setting such as `sftp://example.org:2222` into host and port.
pub fn parse_sftp_host(s: &str) -> (r: Result<(String, u16), String>)
    ensures
        match r {
            Ok((host, port)) => sftp_host_outcome(s@) == Ok::<(Seq<char>, u16), Seq<char>>((host@, port)),
            Err(e) => sftp_host_outcome(s@) == Err::<(Seq<char>, u16), Seq<char>>(e@),
        },
{
    let s = trim(s);
    let without = match strip_prefix(s, "sftp://") {
        Some(t) => t,
        None => match strip_prefix(s, "ssh://") {
            Some(t) => t,
            None => match strip_prefix(s, "ftp://") {
                Some(t) => t,
                None => s,
            },
        },
    };
    assert(without@ == without_scheme(s@));
    match rfind_char(without, ':') {
        Some(i) => {
            let n = without.unicode_len();
            proof {
                lemma_index_of_before(without@, ':', n as int);
            }
            let host = without.substring_char(0, i);
            let port_str = without.substring_char(i + 1, n);
            match parse_u16(port_str) {
                Some(port) => Ok((String::from_str(host), port)),
                None => {
                    let mut e = String::from_str("Invalid SFTP port: ");
                    e.append(port_str);
                    Err(e)
                },
            }
        },
        None => Ok((String::from_str(without), DEFAULT_SFTP_PORT)),
    }
}

/// The view of an optional string.
pub open spec fn opt_view(o: Option<String>) -> Option<Seq<char>> {
    match o {
        Some(s) => Some(s@),
        None => None,
    }
}

/// Credentials as plain values: host, port, user, password.
pub type CredentialsView = (Seq<char>, u16, Seq<char>, Seq<char>);

impl SftpCredentials {
    pub open spec fn view(&self) -> CredentialsView {
        (self.host@, self.port, self.user@, self.password@)
    }
}

/// The outcome of building credentials from the three variables: the first
/// unset one, in the order host, user, password, is reported; otherwise the
/// host setting is parsed.
pub open spec fn credentials_outcome(
    host: Option<Seq<char>>,
    user: Option<Seq<char>>,
    password: Option<Seq<char>>,
) -> Result<CredentialsView, Seq<char>> {
    match host {
        None => Err("SFTP_HOST not set"@),
        Some(h) => match user {
            None => Err("SFTP_USER not set"@),
            Some(u) => match password {
                None => Err("SFTP_PASSWORD not set"@),
                Some(p) => match sftp_host_outcome(h) {
                    Ok((hh, port)) => Ok((hh, port, u, p)),
                    Err(e) => Err(e),
                },
            },
        },
    }
}

/// Builds the credentials from the values of `SFTP_HOST`, `SFTP_USER` and
/// `SFTP_PASSWORD` (`None` where a variable is unset).
pub fn credentials_from_vars(
    host: Option<String>,
    user: Option<String>,
    password: Option<String>,
) -> (r: Result<SftpCredentials, String>)
    ensures
        match r {
            Ok(c) => credentials_outcome(opt_view(host), opt_view(user), opt_view(password)) == Ok::<CredentialsView, Seq<char>>(c.view()),
            Err(e) => credentials_outcome(opt_view(host), opt_view(user), opt_view(password)) == Err::<CredentialsView, Seq<char>>(e@),
        },
{
    let host = match host {
        Some(h) => h,
        None => return Err(String::from_str("SFTP_HOST not set")),
    };
    let user = match user {
        Some(u) => u,
        None => return Err(String::from_str("SFTP_USER not set")),
    };
    let password = match password {
        Some(p) => p,
        None => return Err(String::from_str("SFTP_PASSWORD not set")),
    };
    match parse_sftp_host(host.as_str()) {
        Ok((host, port)) => Ok(SftpCredentials { host, port, user, password }),
        Err(e) => Err(e),
    }
}


/// A scheme is dropped from `t` followed by `:` and decimal digits just as
/// from `t` alone.
proof fn lemma_scheme_before_port(t: Seq<char>, d: Seq<char>)
    requires
        d.len() > 0,
        forall|k: int| 0 <= k < d.len() ==> is_digit(#[trigger] d[k]),
    ensures
        without_scheme(t + seq![':'] + d) == without_scheme(t) + seq![':'] + d,
{
    reveal_strlit("sftp://");
    reveal_strlit("ssh://");
    reveal_strlit("ftp://");
    let w = t + seq![':'] + d;
    let h = t.len() as int;
    assert(w[h] == ':');
    assert(is_digit(w[h + 1]));
    assert(forall|k: int| 0 <= k < h ==> w[k] == t[k]);
    let schemes = seq!["sftp://"@, "ssh://"@, "ftp://"@];
    assert forall|i: int| 0 <= i < 3 implies (#[trigger] schemes[i]).is_prefix_of(t) == schemes[
        i
    ].is_prefix_of(w) by {
        let p = schemes[i];
        if p.is_prefix_of(t) {
            assert(w.subrange(0, p.len() as int) =~= t.subrange(0, p.len() as int));
        }
        if p.is_prefix_of(w) && !p.is_prefix_of(t) {
            if h >= p.len() {
                assert(t.subrange(0, p.len() as int) =~= w.subrange(0, p.len() as int));
            } else {
                assert(w[h] == p[h]);
                assert(w[h + 1] == p[h + 1]);
            }
        }
    }
    assert(schemes[0] == "sftp://"@ && schemes[1] == "ssh://"@ && schemes[2] == "ftp://"@);
    if "sftp://"@.is_prefix_of(t) {
        assert(w.skip(7) =~= t.skip(7) + seq![':'] + d);
    } else if "ssh://"@.is_prefix_of(t) {
        assert(w.skip(6) =~= t.skip(6) + seq![':'] + d);
    } else if "ftp://"@.is_prefix_of(t) {
        assert(w.skip(6) =~= t.skip(6) + seq![':'] + d);
    }
}

/// A host setting `host:port` gives the host, trimmed at its start and
/// without its scheme, and the port.
pub proof fn lemma_host_with_port(host: Seq<char>, port: u16)
    ensures
        sftp_host_outcome(host + seq![':'] + decimal_digits(port as nat)) == Ok::<
            (Seq<char>, u16),
            Seq<char>,
        >((without_scheme(host.skip(skip_white_from(host, 0))), port)),
{
    let d = decimal_digits(port as nat);
    lemma_decimal_digits_value(port as nat);
    lemma_parse_u16_of_decimal(port);
    let tail = seq![':'] + d;
    let s = host + tail;
    assert(s =~= host + seq![':'] + d);
    let a = skip_white_from(host, 0);
    lemma_skip_white_bounds(host, 0);
    lemma_skip_white_prefix(host, tail, 0);
    let t = host.skip(a);
    assert(s.skip(a) =~= t + tail);
    let u = s.skip(a);
    assert(u.len() > 0 && !is_white_space(u[0])) by {
        if a < host.len() {
            assert(u[0] == host[a]);
        } else {
            assert(u[0] == ':');
        }
    }
    assert(!is_white_space(u.last())) by {
        assert(u.last() == d.last());
        assert(is_digit(d[d.len() - 1]));
    }
    lemma_trimmed_unchanged(u);
    assert(trimmed(s) == trimmed(u)) by {
        lemma_drop_white_bounds(s, a, s.len() as int);
        assert(drop_white_until(s, a, s.len() as int) == s.len()) by {
            assert(s.last() == u.last());
        }
        assert(s.subrange(a, s.len() as int) =~= u);
    }
    lemma_scheme_before_port(t, d);
    let v = without_scheme(t);
    let w = v + seq![':'] + d;
    assert(without_scheme(trimmed(s)) == w);
    let h = v.len() as int;
    assert(forall|k: int| h + 1 <= k < w.len() ==> w[k] == d[k - h - 1]);
    assert(forall|k: int| h + 1 <= k < w.len() ==> is_digit(#[trigger] w[k]));
    lemma_index_of_before_skip(w, ':', h + 1, w.len() as int);
    assert(w[h] == ':');
    assert(last_index_of(w, ':') == h);
    assert(w.skip(h + 1) =~= d);
    assert(w.take(h) =~= v);
}

/// A host setting without a `:` is the host, trimmed, on the default port 22.
pub proof fn lemma_host_without_port(host: Seq<char>)
    requires
        forall|k: int| 0 <= k < host.len() ==> host[k] != ':',
    ensures
        sftp_host_outcome(host) == Ok::<(Seq<char>, u16), Seq<char>>(
            (trimmed(host), DEFAULT_SFTP_PORT),
        ),
{
    reveal_strlit("sftp://");
    reveal_strlit("ssh://");
    reveal_strlit("ftp://");
    let t = trimmed(host);
    let a = skip_white_from(host, 0);
    lemma_skip_white_bounds(host, 0);
    lemma_drop_white_bounds(host, a, host.len() as int);
    assert(forall|k: int| 0 <= k < t.len() ==> t[k] == host[a + k]);
    assert(forall|k: int| 0 <= k < t.len() ==> t[k] != ':');
    if "sftp://"@.is_prefix_of(t) {
        assert(t[4] == "sftp://"@[4]);
    }
    if "ssh://"@.is_prefix_of(t) {
        assert(t[3] == "ssh://"@[3]);
    }
    if "ftp://"@.is_prefix_of(t) {
        assert(t[3] == "ftp://"@[3]);
    }
    lemma_index_of_before_skip(t, ':', 0, t.len() as int);
}

/// A leading `sftp://`, `ssh://` or `ftp://` does not change what a host
/// setting gives, where what follows it starts with neither white space
/// nor another scheme.
pub proof fn lemma_scheme_ignored(rest: Seq<char>)
    requires
        rest.len() > 0 ==> !is_white_space(rest[0]),
        without_scheme(rest) == rest,
    ensures
        sftp_host_outcome("sftp://"@ + rest) == sftp_host_outcome(rest),
        sftp_host_outcome("ssh://"@ + rest) == sftp_host_outcome(rest),
        sftp_host_outcome("ftp://"@ + rest) == sftp_host_outcome(rest),
{
    reveal_strlit("sftp://");
    reveal_strlit("ssh://");
    reveal_strlit("ftp://");
    let b = drop_white_until(rest, 0, rest.len() as int);
    lemma_drop_white_bounds(rest, 0, rest.len() as int);
    assert(skip_white_from(rest, 0) == 0);
    let tr = rest.subrange(0, b);
    assert(trimmed(rest) == tr);
    assert(without_scheme(tr) == tr) by {
        if "sftp://"@.is_prefix_of(tr) {
            assert(rest.subrange(0, 7) =~= tr.subrange(0, 7));
        }
        if "ssh://"@.is_prefix_of(tr) {
            assert(rest.subrange(0, 6) =~= tr.subrange(0, 6));
        }
        if "ftp://"@.is_prefix_of(tr) {
            assert(rest.subrange(0, 6) =~= tr.subrange(0, 6));
        }
    }
    let schemes = seq!["sftp://"@, "ssh://"@, "ftp://"@];
    assert forall|i: int| 0 <= i < 3 implies sftp_host_outcome(#[trigger] schemes[i] + rest)
        == sftp_host_outcome(rest) by {
        let p = schemes[i];
        let whole = p + rest;
        assert(p.len() > 0 && !is_white_space(p.last()));
        assert(skip_white_from(whole, 0) == 0) by {
            assert(whole[0] == p[0]);
        }
        lemma_drop_white_suffix(p, rest, rest.len() as int);
        assert(trimmed(whole) =~= p + tr);
        let pt = p + tr;
        assert(pt.subrange(0, p.len() as int) =~= p);
        assert(pt.skip(p.len() as int) =~= tr);
        if i == 1 {
            if "sftp://"@.is_prefix_of(pt) {
                assert(pt[1] == "sftp://"@[1]);
            }
        }
        if i == 2 {
            if "sftp://"@.is_prefix_of(pt) {
                assert(pt[0] == "sftp://"@[0]);
            }
            if "ssh://"@.is_prefix_of(pt) {
                assert(pt[0] == "ssh://"@[0]);
            }
        }
        assert(without_scheme(pt) == tr);
    }
    assert(schemes[0] == "sftp://"@ && schemes[1] == "ssh://"@ && schemes[2] == "ftp://"@);
    assert(sftp_host_outcome(schemes[0] + rest) == sftp_host_outcome(rest));
    assert(sftp_host_outcome(schemes[1] + rest) == sftp_host_outcome(rest));
    assert(sftp_host_outcome(schemes[2] + rest) == sftp_host_outcome(rest));
}

} // verus!

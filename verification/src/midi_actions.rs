//! Reading the system MIDI patch bay from the text that `aconnect -l`
//! prints: the devices, the numeric port map, and the connections of one
//! client.  Each device is written `"<client name>:<port name>"`.  The
//! functions here work on the captured text alone; running the command
//! and applying changes is the caller's business.

use crate::builder::contains_string;
use crate::strutil::all_digits;
use crate::strutil::digits_val;
use crate::strutil::find_at;
use crate::strutil::find_from;
use crate::strutil::find_substr_from;
use crate::strutil::has_substr;
use crate::strutil::contains_substr;
use crate::strutil::non_ws_at;
use crate::strutil::non_ws_from;
use crate::strutil::parse_usize;
use crate::strutil::rfind_at;
use crate::strutil::rfind_from;
use crate::strutil::starts_with;
use crate::strutil::substr_at;
use crate::strutil::trim;
use crate::strutil::trim_spec;
use crate::strutil::ws_at;
use crate::strutil::ws_from;
use vstd::prelude::*;
use vstd::string::StrSliceExecFns;
use vstd::string::StringExecFns;

verus! {

/// The errors MIDI handling can raise.
#[derive(Clone, Debug, PartialEq)]
pub enum MidiError {
    /// The system's MIDI layer failed.
    OsFailure(String),
    /// A line of the patch-bay listing that should describe a client but
    /// does not.
    BadMidiDevice(String),
    /// A device name that the system does not list.
    BadName(String),
}

/// The lines of `s` from position `p` on, split at newlines.
pub open spec fn lines_from(s: Seq<char>, p: int) -> Seq<Seq<char>>
    decreases s.len() - p,
{
    if 0 <= p < s.len() {
        let k = find_at(s, p, '\n');
        if k >= s.len() || k < p {
            seq![s.subrange(p, s.len() as int)]
        } else {
            seq![s.subrange(p, k)] + lines_from(s, k + 1)
        }
    } else {
        Seq::empty()
    }
}

/// Split `s` into its lines.
fn split_lines(s: &str) -> (r: Vec<String>)
    ensures
        r.deep_view() == lines_from(s@, 0),
{
    let len = s.unicode_len();
    let mut r: Vec<String> = Vec::new();
    let mut p: usize = 0;
    while p < len
        invariant
            p <= len,
            len == s@.len(),
            r.deep_view() + lines_from(s@, p as int) =~= lines_from(s@, 0),
        decreases len - p,
    {
        let k = find_from(s, p, '\n');
        let piece = String::from_str(s.substring_char(p, k));
        let ghost pre = r.deep_view();
        r.push(piece);
        proof {
            assert(r.deep_view() =~= pre.push(s@.subrange(p as int, k as int)));
            if k < len {
                assert(r.deep_view() + lines_from(s@, k + 1) =~= lines_from(s@, 0));
            } else {
                assert(lines_from(s@, len as int) =~= Seq::<Seq<char>>::empty());
                assert(r.deep_view() + lines_from(s@, len as int) =~= lines_from(s@, 0));
            }
        }
        p = if k == len {
            len
        } else {
            k + 1
        };
    }
    proof {
        assert(lines_from(s@, p as int) =~= Seq::<Seq<char>>::empty());
        assert(r.deep_view() =~= lines_from(s@, 0));
    }
    r
}

/// The text between the first and the last quote of `l`, where the first
/// quote comes before the last.
pub open spec fn quoted_span(l: Seq<char>) -> Option<Seq<char>> {
    let q1 = find_at(l, 0, '\'');
    let q2 = rfind_at(l, '\'');
    if q1 < l.len() && q1 < q2 {
        Some(l.subrange(q1 + 1, q2))
    } else {
        None
    }
}

/// The text between the first and the last quote of `l`.
fn quoted_span_exec(l: &str) -> (r: Option<&str>)
    ensures
        match r {
            Some(v) => quoted_span(l@) == Some(v@),
            None => quoted_span(l@) is None,
        },
{
    let len = l.unicode_len();
    let q1 = find_from(l, 0, '\'');
    let q2 = rfind_from(l, '\'');
    if q1 < len && q2 < len && q1 < q2 {
        Some(l.substring_char(q1 + 1, q2))
    } else {
        proof {
            if q2 == len {
                assert(rfind_at(l@, '\'') == -1);
            }
        }
        None
    }
}

/// The second whitespace-separated token of `l`; empty where there is
/// none.
pub open spec fn second_token(l: Seq<char>) -> Seq<char> {
    let e1 = ws_at(l, 0);
    let s2 = non_ws_at(l, e1);
    let e2 = ws_at(l, s2);
    l.subrange(s2, e2)
}

/// The second whitespace-separated token of `l`.
fn second_token_exec(l: &str) -> (r: &str)
    ensures
        r@ == second_token(l@),
{
    let e1 = ws_from(l, 0);
    let s2 = non_ws_from(l, e1);
    let e2 = ws_from(l, s2);
    l.substring_char(s2, e2)
}

/// The token read as a number no larger than 255.
pub open spec fn u8_of(tok: Seq<char>) -> Option<u8> {
    if tok.len() > 0 && all_digits(tok) && digits_val(tok) <= 255 {
        Some(digits_val(tok) as u8)
    } else {
        None
    }
}

/// The token read as a number no larger than 255.
fn u8_of_exec(tok: &str) -> (r: Option<u8>)
    ensures
        r == u8_of(tok@),
{
    match parse_usize(tok) {
        Some(v) => {
            if v <= 255 {
                Some(v as u8)
            } else {
                None
            }
        },
        None => None,
    }
}

/// What a `client` line of the listing sets the current client to: its
/// number (the second token less its final character) and its quoted
/// name; nothing where the line does not read.
pub open spec fn client_state_of(t: Seq<char>) -> Option<(u8, Seq<char>)> {
    let tok = second_token(t);
    if tok.len() == 0 {
        None
    } else {
        match quoted_span(t) {
            Some(name) => match u8_of(tok.drop_last()) {
                Some(n) => Some((n, name)),
                None => None,
            },
            None => None,
        }
    }
}

/// What a port line contributes under client `(cn, cname)`: the key
/// `(client number, port number)` and the name `"<client>:<port>"`.
pub open spec fn port_entry_of(t: Seq<char>, cn: u8, cname: Seq<char>) -> Option<
    ((u8, u8), Seq<char>),
> {
    if t.len() > 0 {
        match u8_of(t.subrange(0, ws_at(t, 0))) {
            Some(pn) => match quoted_span(t) {
                Some(pname) => Some(((cn, pn), cname + ":"@ + pname)),
                None => None,
            },
            None => None,
        }
    } else {
        None
    }
}

/// The port map built from the first `n` lines: walking the listing, a
/// `client` line selects the current client, and each numbered line under
/// it maps `(client number, port number)` to `"<client>:<port>"`.
pub open spec fn mmp_upto(lines: Seq<Seq<char>>, n: int) -> (
    Option<(u8, Seq<char>)>,
    Seq<((u8, u8), Seq<char>)>,
)
    decreases n,
{
    if n <= 0 {
        (None, Seq::empty())
    } else {
        let (cur, acc) = mmp_upto(lines, n - 1);
        let t = trim_spec(lines[n - 1]);
        if t.len() >= 6 && t.subrange(0, 6) == "client"@ {
            (client_state_of(t), acc)
        } else {
            match cur {
                Some((cn, cname)) => match port_entry_of(t, cn, cname) {
                    Some(e) => (cur, acc.push(e)),
                    None => (cur, acc),
                },
                None => (cur, acc),
            }
        }
    }
}

/// Convert the raw text of the patch-bay listing into the map from
/// numeric `(client, port)` pairs to device names, in listing order.
pub fn map_midi_ports(input: &str) -> (r: Vec<((u8, u8), String)>)
    ensures
        r.deep_view() == mmp_upto(
            lines_from(input@, 0),
            lines_from(input@, 0).len() as int,
        ).1,
{
    proof {
        reveal_strlit("client");
        reveal_strlit(":");
    }
    let lines = split_lines(input);
    let ghost lv = lines.deep_view();
    let n = lines.len();
    let mut result: Vec<((u8, u8), String)> = Vec::new();
    let mut cur: Option<(u8, String)> = None;
    let mut i: usize = 0;
    while i < n
        invariant
            i <= n,
            n == lines@.len(),
            lv == lines.deep_view(),
            lv == lines_from(input@, 0),
            result.deep_view() == mmp_upto(lv, i as int).1,
            match (cur, mmp_upto(lv, i as int).0) {
                (Some(c), Some(s)) => c.0 == s.0 && c.1@ == s.1,
                (None, None) => true,
                _ => false,
            },
        decreases n - i,
    {
        proof {
            reveal_strlit("client");
        }
        let t = trim(lines[i].as_str());
        let tlen = t.unicode_len();
        if tlen >= 6 && starts_with(t, "client") {
            let tok = second_token_exec(t);
            let toklen = tok.unicode_len();
            if toklen == 0 {
                cur = None;
            } else {
                match quoted_span_exec(t) {
                    Some(name) => {
                        let numtok = tok.substring_char(0, toklen - 1);
                        proof {
                            assert(numtok@ =~= second_token(t@).drop_last());
                        }
                        match u8_of_exec(numtok) {
                            Some(cn) => {
                                cur = Some((cn, String::from_str(name)));
                            },
                            None => {
                                cur = None;
                            },
                        }
                    },
                    None => {
                        cur = None;
                    },
                }
            }
        } else {
            match &cur {
                Some(c) => {
                    if tlen > 0 {
                        let e = ws_from(t, 0);
                        let first = t.substring_char(0, e);
                        match u8_of_exec(first) {
                            Some(pn) => {
                                match quoted_span_exec(t) {
                                    Some(pname) => {
                                        let mut devname = c.1.clone();
                                        devname.append(":");
                                        devname.append(pname);
                                        let cn = c.0;
                                        result.push(((cn, pn), devname));
                                        proof {
                                            assert(result.deep_view() =~= mmp_upto(
                                                lv,
                                                i as int + 1,
                                            ).1);
                                        }
                                    },
                                    None => {},
                                }
                            },
                            None => {},
                        }
                    }
                },
                None => {},
            }
        }
        i += 1;
    }
    result
}

/// What a `client ` line of the device listing sets the client name to:
/// the text between its quotes, trimmed; nothing where the line has no
/// quoted name, which is a hard error.
pub open spec fn ld_client_of(l: Seq<char>) -> Option<Seq<char>> {
    match quoted_span(l) {
        Some(name) => Some(trim_spec(name)),
        None => None,
    }
}

/// What a port line of the device listing contributes: the quoted port
/// name, trimmed, where the text before the first quote is a number.
pub open spec fn ld_port_of(l: Seq<char>) -> Option<Seq<char>> {
    let q1 = find_at(l, 0, '\'');
    if q1 < l.len() {
        let numtok = trim_spec(l.subrange(0, q1));
        if numtok.len() > 0 && all_digits(numtok) && digits_val(numtok) <= usize::MAX {
            let q2 = rfind_at(l, '\'');
            if q1 < q2 {
                Some(trim_spec(l.subrange(q1 + 1, q2)))
            } else {
                None
            }
        } else {
            None
        }
    } else {
        None
    }
}

/// The devices named by the first `n` lines of the listing, or the first
/// malformed `client ` line.  The state carried is the current client
/// name and the devices so far.
pub open spec fn ld_upto(lines: Seq<Seq<char>>, n: int) -> Result<
    (Seq<char>, Seq<Seq<char>>),
    Seq<char>,
>
    decreases n,
{
    if n <= 0 {
        Ok((Seq::empty(), Seq::empty()))
    } else {
        match ld_upto(lines, n - 1) {
            Ok((client, acc)) => {
                let l = lines[n - 1];
                if l.len() >= 7 && l.subrange(0, 7) == "client "@ {
                    match ld_client_of(l) {
                        Some(c) => Ok((c, acc)),
                        None => Err(l),
                    }
                } else {
                    match ld_port_of(l) {
                        Some(p) => Ok((client, acc.push(client + ":"@ + p))),
                        None => Ok((client, acc)),
                    }
                }
            },
            Err(e) => Err(e),
        }
    }
}

proof fn lemma_ld_err_propagates(lines: Seq<Seq<char>>, m: int, n: int)
    requires
        0 <= m <= n,
        ld_upto(lines, m) is Err,
    ensures
        ld_upto(lines, n) == ld_upto(lines, m),
    decreases n - m,
{
    if m < n {
        lemma_ld_err_propagates(lines, m, n - 1);
    }
}

/// List every device of the patch-bay listing as `"<client>:<port>"`.  A
/// `client ` line without a quoted name is reported as a bad device.
pub fn list_devices(raw: &str) -> (r: Result<Vec<String>, MidiError>)
    ensures
        match r {
            Ok(v) => match ld_upto(lines_from(raw@, 0), lines_from(raw@, 0).len() as int) {
                Ok(p) => p.1 == v.deep_view(),
                Err(_) => false,
            },
            Err(e) => match e {
                MidiError::BadMidiDevice(l) => match ld_upto(
                    lines_from(raw@, 0),
                    lines_from(raw@, 0).len() as int,
                ) {
                    Ok(_) => false,
                    Err(bad) => bad == l@,
                },
                _ => false,
            },
        },
{
    proof {
        reveal_strlit("client ");
        reveal_strlit(":");
    }
    let lines = split_lines(raw);
    let ghost lv = lines.deep_view();
    let n = lines.len();
    let mut result: Vec<String> = Vec::new();
    let mut client: String = String::new();
    let mut i: usize = 0;
    while i < n
        invariant
            i <= n,
            n == lines@.len(),
            lv == lines.deep_view(),
            lv == lines_from(raw@, 0),
            match ld_upto(lv, i as int) {
                Ok(p) => p.0 == client@ && p.1 == result.deep_view(),
                Err(_) => false,
            },
        decreases n - i,
    {
        proof {
            reveal_strlit("client ");
        }
        let l = lines[i].as_str();
        let llen = l.unicode_len();
        if llen >= 7 && starts_with(l, "client ") {
            match quoted_span_exec(l) {
                Some(name) => {
                    client = String::from_str(trim(name));
                },
                None => {
                    proof {
                        assert(ld_upto(lv, i as int + 1) == Err::<
                            (Seq<char>, Seq<Seq<char>>),
                            Seq<char>,
                        >(lv[i as int]));
                        lemma_ld_err_propagates(lv, i as int + 1, n as int);
                    }
                    return Err(MidiError::BadMidiDevice(lines[i].clone()));
                },
            }
        } else {
            let q1 = find_from(l, 0, '\'');
            if q1 < llen {
                let numtok = trim(l.substring_char(0, q1));
                match parse_usize(numtok) {
                    Some(_) => {
                        let q2 = rfind_from(l, '\'');
                        if q2 < llen && q1 < q2 {
                            let port = trim(l.substring_char(q1 + 1, q2));
                            proof {
                                assert(ld_port_of(lv[i as int]) == Some(port@));
                            }
                            let mut dev = client.clone();
                            dev.append(":");
                            dev.append(port);
                            let ghost pre = result.deep_view();
                            result.push(dev);
                            proof {
                                assert(result.deep_view() =~= pre.push(client@ + ":"@ + port@));
                            }
                        } else {
                            proof {
                                if q2 == llen {
                                    assert(rfind_at(l@, '\'') == -1);
                                }
                            }
                        }
                    },
                    None => {},
                }
            }
        }
        i += 1;
    }
    Ok(result)
}

/// Split `s` from `p` on at every `", "`.
pub open spec fn split_cs_from(s: Seq<char>, p: int) -> Seq<Seq<char>>
    decreases s.len() - p + 1,
{
    if 0 <= p <= s.len() {
        let k = substr_at(s, p, ", "@);
        if k >= s.len() || k < p {
            seq![s.subrange(p, s.len() as int)]
        } else {
            seq![s.subrange(p, k)] + split_cs_from(s, k + 2)
        }
    } else {
        Seq::empty()
    }
}

/// The numeric `client:port` pair a connection token names; nothing where
/// the token is not of that shape.
pub open spec fn token_pair(tok: Seq<char>) -> Option<(u8, u8)> {
    let c1 = find_at(tok, 0, ':');
    if c1 == tok.len() {
        None
    } else {
        let p0 = tok.subrange(0, c1);
        let c2 = find_at(tok, c1 + 1, ':');
        let p1 = tok.subrange(c1 + 1, c2);
        match (u8_of(p0), u8_of(p1)) {
            (Some(a), Some(b)) => Some((a, b)),
            _ => None,
        }
    }
}

/// The device name the port map holds for `key`: the latest entry wins,
/// as a map insert would.
pub open spec fn map_lookup(entries: Seq<((u8, u8), Seq<char>)>, key: (u8, u8)) -> Option<
    Seq<char>,
>
    decreases entries.len(),
{
    if entries.len() == 0 {
        None
    } else if entries.last().0 == key {
        Some(entries.last().1)
    } else {
        map_lookup(entries.drop_last(), key)
    }
}

/// The connection pairs the tokens contribute: each token that names a
/// known device yields `(lhs, that device)`.
pub open spec fn conn_from_tokens(
    toks: Seq<Seq<char>>,
    lhs: Seq<char>,
    map: Seq<((u8, u8), Seq<char>)>,
) -> Seq<(Seq<char>, Seq<char>)>
    decreases toks.len(),
{
    if toks.len() == 0 {
        Seq::empty()
    } else {
        let pre = conn_from_tokens(toks.drop_last(), lhs, map);
        match token_pair(toks.last()) {
            Some(k) => match map_lookup(map, k) {
                Some(dev) => pre.push((lhs, dev)),
                None => pre,
            },
            None => pre,
        }
    }
}

/// The state the connection listing walk carries.
pub ghost struct LcState {
    pub found: bool,
    pub stopped: bool,
    pub port: Option<Seq<char>>,
    pub acc: Seq<(Seq<char>, Seq<char>)>,
}

/// Is `l` a port line: non-blank, with a number as its first token?
pub open spec fn lc_is_port_line(l: Seq<char>) -> bool {
    let t = trim_spec(l);
    t.len() > 0 && u8_of(t.subrange(0, ws_at(t, 0))) is Some
}

/// One step of the connection listing walk over line `l`.
pub open spec fn lc_step(
    st: LcState,
    l: Seq<char>,
    client: Seq<char>,
    map: Seq<((u8, u8), Seq<char>)>,
) -> LcState {
    if st.stopped {
        st
    } else {
        let is_client = l.len() >= 7 && l.subrange(0, 7) == "client "@;
        if is_client && st.found {
            LcState { stopped: true, ..st }
        } else if is_client && has_substr(l, client) {
            LcState { found: true, ..st }
        } else if is_client {
            st
        } else if st.found && lc_is_port_line(l) {
            match quoted_span(l) {
                Some(p) => LcState { port: Some(p), ..st },
                None => st,
            }
        } else if st.found && {
            let t = trim_spec(l);
            t.len() >= 15 && t.subrange(0, 15) == "Connecting To: "@
        } {
            let a = substr_at(l, 0, ": "@);
            if a >= l.len() {
                st
            } else {
                let b = substr_at(l, a + 2, ": "@);
                let text = l.subrange(a + 2, if b > l.len() {
                    l.len() as int
                } else {
                    b
                });
                match st.port {
                    Some(p) => LcState {
                        acc: st.acc + conn_from_tokens(
                            split_cs_from(text, 0),
                            client + ":"@ + p,
                            map,
                        ),
                        ..st
                    },
                    None => st,
                }
            }
        } else {
            st
        }
    }
}

/// The connection walk over the first `n` lines.
pub open spec fn lc_upto(
    lines: Seq<Seq<char>>,
    n: int,
    client: Seq<char>,
    map: Seq<((u8, u8), Seq<char>)>,
) -> LcState
    decreases n,
{
    if n <= 0 {
        LcState { found: false, stopped: false, port: None, acc: Seq::empty() }
    } else {
        lc_step(lc_upto(lines, n - 1, client, map), lines[n - 1], client, map)
    }
}

/// The device name the port map holds for `key`.
fn map_lookup_exec(entries: &Vec<((u8, u8), String)>, key: (u8, u8)) -> (r: Option<String>)
    ensures
        match r {
            Some(d) => map_lookup(entries.deep_view(), key) == Some(d@),
            None => map_lookup(entries.deep_view(), key) is None,
        },
{
    let n = entries.len();
    proof {
        assert(entries.deep_view().subrange(0, n as int) =~= entries.deep_view());
    }
    let mut i: usize = n;
    while i > 0
        invariant
            i <= n,
            n == entries@.len(),
            map_lookup(entries.deep_view(), key) == map_lookup(
                entries.deep_view().subrange(0, i as int),
                key,
            ),
        decreases i,
    {
        proof {
            let t = entries.deep_view().subrange(0, i as int);
            assert(t.drop_last() =~= entries.deep_view().subrange(0, i - 1));
            assert(t.last() == entries.deep_view()[i - 1]);
        }
        i -= 1;
        if entries[i].0.0 == key.0 && entries[i].0.1 == key.1 {
            proof {
                assert(entries.deep_view()[i as int].0 == key);
            }
            return Some(entries[i].1.clone());
        }
        proof {
            assert(entries.deep_view()[i as int].0 != key);
        }
    }
    proof {
        assert(entries.deep_view().subrange(0, 0) =~= Seq::<((u8, u8), Seq<char>)>::empty());
    }
    None
}

/// The numeric `client:port` pair a connection token names.
fn token_pair_exec(tok: &str) -> (r: Option<(u8, u8)>)
    ensures
        r == token_pair(tok@),
{
    let len = tok.unicode_len();
    let c1 = find_from(tok, 0, ':');
    if c1 == len {
        return None;
    }
    let p0 = tok.substring_char(0, c1);
    let c2 = find_from(tok, c1 + 1, ':');
    let p1 = tok.substring_char(c1 + 1, c2);
    match (u8_of_exec(p0), u8_of_exec(p1)) {
        (Some(a), Some(b)) => Some((a, b)),
        _ => None,
    }
}

/// List the connections of the client named `client`, as pairs of device
/// names, from the raw patch-bay listing: the ports under the client's
/// entry, paired with each device their `Connecting To` lines name in the
/// port map.
pub fn list_connections(client: &str, raw: &str) -> (r: Result<Vec<(String, String)>, MidiError>)
    ensures
        match r {
            Ok(v) => v.deep_view() == lc_upto(
                lines_from(raw@, 0),
                lines_from(raw@, 0).len() as int,
                client@,
                mmp_upto(lines_from(raw@, 0), lines_from(raw@, 0).len() as int).1,
            ).acc,
            Err(_) => false,
        },
{
    let device_map = map_midi_ports(raw);
    let ghost mapv = device_map.deep_view();
    let lines = split_lines(raw);
    let ghost lv = lines.deep_view();
    let n = lines.len();
    let mut found = false;
    let mut stopped = false;
    let mut current_port: Option<String> = None;
    let mut result: Vec<(String, String)> = Vec::new();
    let mut i: usize = 0;
    while i < n
        invariant
            i <= n,
            n == lines@.len(),
            lv == lines.deep_view(),
            lv == lines_from(raw@, 0),
            mapv == device_map.deep_view(),
            mapv == mmp_upto(lines_from(raw@, 0), lines_from(raw@, 0).len() as int).1,
            ({
                let st = lc_upto(lv, i as int, client@, mapv);
                &&& st.found == found
                &&& st.stopped == stopped
                &&& st.acc == result.deep_view()
                &&& match (st.port, current_port) {
                    (Some(p), Some(cp)) => p == cp@,
                    (None, None) => true,
                    _ => false,
                }
            }),
        decreases n - i,
    {
        proof {
            reveal_strlit("client ");
            reveal_strlit("Connecting To: ");
            reveal_strlit(": ");
            reveal_strlit(", ");
            reveal_strlit(":");
        }
        let ghost pre_st = lc_upto(lv, i as int, client@, mapv);
        let l = lines[i].as_str();
        let llen = l.unicode_len();
        if stopped {
        } else {
            let is_client = llen >= 7 && starts_with(l, "client ");
            if is_client && found {
                stopped = true;
            } else if is_client && contains_substr(l, client) {
                found = true;
            } else if is_client {
            } else {
                let t = trim(l);
                let tlen = t.unicode_len();
                let is_port = found && tlen > 0 && {
                    let e = ws_from(t, 0);
                    u8_of_exec(t.substring_char(0, e)).is_some()
                };
                if is_port {
                    match quoted_span_exec(l) {
                        Some(p) => {
                            current_port = Some(String::from_str(p));
                        },
                        None => {},
                    }
                } else if found && tlen >= 15 && starts_with(t, "Connecting To: ") {
                    let a = find_substr_from(l, 0, ": ");
                    if a < llen {
                        proof {
                            crate::strutil::lemma_substr_at_found(l@, 0, ": "@);
                        }
                        let b = find_substr_from(l, a + 2, ": ");
                        let text = l.substring_char(a + 2, b);
                        match &current_port {
                            Some(cp) => {
                                let mut lhs = String::from_str(client);
                                lhs.append(":");
                                lhs.append(cp.as_str());
                                // Walk the comma-separated connection tokens.
                                let ghost textv = text@;
                                let tlen2 = text.unicode_len();
                                let mut p: usize = 0;
                                let ghost lhsv = lhs@;
                                let ghost base = result.deep_view();
                                let mut done = false;
                                while !done
                                    invariant
                                        p <= tlen2,
                                        tlen2 == textv.len(),
                                        textv == text@,
                                        lhsv == lhs@,
                                        mapv == device_map.deep_view(),
                                        !done ==> result.deep_view() + conn_from_tokens(
                                            split_cs_from(textv, p as int),
                                            lhsv,
                                            mapv,
                                        ) =~= base + conn_from_tokens(
                                            split_cs_from(textv, 0),
                                            lhsv,
                                            mapv,
                                        ),
                                        done ==> result.deep_view() =~= base + conn_from_tokens(
                                            split_cs_from(textv, 0),
                                            lhsv,
                                            mapv,
                                        ),
                                    decreases tlen2 - p + 1, (if done { 0int } else { 1int }),
                                {
                                    proof {
                                        reveal_strlit(", ");
                                    }
                                    let k = find_substr_from(text, p, ", ");
                                    proof {
                                        crate::strutil::lemma_substr_at_found(text@, p as int, ", "@);
                                    }
                                    let tok = text.substring_char(p, k);
                                    let ghost toks = split_cs_from(textv, p as int);
                                    proof {
                                        if k >= tlen2 {
                                            assert(toks =~= seq![textv.subrange(p as int, tlen2 as int)]);
                                        } else {
                                            assert(toks == seq![textv.subrange(p as int, k as int)]
                                                + split_cs_from(textv, k as int + 2));
                                        }
                                    }
                                    match token_pair_exec(tok) {
                                        Some(key) => {
                                            match map_lookup_exec(&device_map, key) {
                                                Some(dev) => {
                                                    let ghost prev = result.deep_view();
                                                    result.push((lhs.clone(), dev));
                                                    proof {
                                                        assert(result.deep_view() =~= prev.push(
                                                            (lhsv, map_lookup(mapv, key).unwrap()),
                                                        ));
                                                    }
                                                },
                                                None => {},
                                            }
                                        },
                                        None => {},
                                    }
                                    if k >= tlen2 {
                                        proof {
                                            lemma_conn_single(toks, tok@, lhsv, mapv);
                                        }
                                        done = true;
                                    } else {
                                        proof {
                                            lemma_conn_cons(
                                                toks,
                                                tok@,
                                                split_cs_from(textv, k as int + 2),
                                                lhsv,
                                                mapv,
                                            );
                                        }
                                        p = k + 2;
                                    }
                                }
                            },
                            None => {},
                        }
                    }
                }
            }
        }
        i += 1;
    }
    Ok(result)
}

proof fn lemma_conn_single(
    toks: Seq<Seq<char>>,
    tok: Seq<char>,
    lhs: Seq<char>,
    map: Seq<((u8, u8), Seq<char>)>,
)
    requires
        toks =~= seq![tok],
    ensures
        conn_from_tokens(toks, lhs, map) == match token_pair(tok) {
            Some(k) => match map_lookup(map, k) {
                Some(dev) => seq![(lhs, dev)],
                None => Seq::<(Seq<char>, Seq<char>)>::empty(),
            },
            None => Seq::<(Seq<char>, Seq<char>)>::empty(),
        },
{
    let e = Seq::<(Seq<char>, Seq<char>)>::empty();
    assert(toks.drop_last() =~= Seq::<Seq<char>>::empty());
    assert(conn_from_tokens(Seq::<Seq<char>>::empty(), lhs, map) == e);
    assert(toks.last() == tok);
    match token_pair(tok) {
        Some(k) => match map_lookup(map, k) {
            Some(dev) => {
                assert(conn_from_tokens(toks, lhs, map) =~= seq![(lhs, dev)]);
            },
            None => {},
        },
        None => {},
    }
}

proof fn lemma_conn_cons(
    toks: Seq<Seq<char>>,
    tok: Seq<char>,
    rest: Seq<Seq<char>>,
    lhs: Seq<char>,
    map: Seq<((u8, u8), Seq<char>)>,
)
    requires
        toks =~= seq![tok] + rest,
    ensures
        conn_from_tokens(toks, lhs, map) == (match token_pair(tok) {
            Some(k) => match map_lookup(map, k) {
                Some(dev) => seq![(lhs, dev)],
                None => Seq::<(Seq<char>, Seq<char>)>::empty(),
            },
            None => Seq::<(Seq<char>, Seq<char>)>::empty(),
        }) + conn_from_tokens(rest, lhs, map),
    decreases rest.len(),
{
    if rest.len() == 0 {
        lemma_conn_single(toks, tok, lhs, map);
        assert(conn_from_tokens(Seq::<Seq<char>>::empty(), lhs, map)
            == Seq::<(Seq<char>, Seq<char>)>::empty());
        assert(conn_from_tokens(rest, lhs, map) == Seq::<(Seq<char>, Seq<char>)>::empty());
    } else {
        let toks2 = toks.drop_last();
        assert(toks2 =~= seq![tok] + rest.drop_last());
        lemma_conn_cons(toks2, tok, rest.drop_last(), lhs, map);
        assert(toks.last() == rest.last());
    }
}

/// Connect two devices, checking first that both are listed: the caller
/// supplies the current device list.
pub fn connect(lhs: &str, rhs: &str, devices: &Vec<String>) -> (r: Result<(), MidiError>)
    ensures
        match r {
            Ok(_) => devices.deep_view().contains(lhs@) && devices.deep_view().contains(rhs@),
            Err(e) => match e {
                MidiError::BadName(b) => (b@ == lhs@ && !devices.deep_view().contains(lhs@)) || (
                b@ == rhs@ && devices.deep_view().contains(lhs@) && !devices.deep_view().contains(
                    rhs@,
                )),
                _ => false,
            },
        },
{
    if !contains_string(devices, lhs) {
        return Err(MidiError::BadName(String::from_str(lhs)));
    }
    if !contains_string(devices, rhs) {
        return Err(MidiError::BadName(String::from_str(rhs)));
    }
    Ok(())
}

/// Disconnect two devices, checking first that both are listed: the
/// caller supplies the current device list.
pub fn disconnect(lhs: &str, rhs: &str, devices: &Vec<String>) -> (r: Result<(), MidiError>)
    ensures
        match r {
            Ok(_) => devices.deep_view().contains(lhs@) && devices.deep_view().contains(rhs@),
            Err(e) => match e {
                MidiError::BadName(b) => (b@ == lhs@ && !devices.deep_view().contains(lhs@)) || (
                b@ == rhs@ && devices.deep_view().contains(lhs@) && !devices.deep_view().contains(
                    rhs@,
                )),
                _ => false,
            },
        },
{
    if !contains_string(devices, lhs) {
        return Err(MidiError::BadName(String::from_str(lhs)));
    }
    if !contains_string(devices, rhs) {
        return Err(MidiError::BadName(String::from_str(rhs)));
    }
    Ok(())
}

} // verus!

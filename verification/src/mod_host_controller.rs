//! The command queue and response correlator: the engine that drives the
//! external plugin host over its line protocol.
//!
//! Commands are queued first-in first-out and sent one at a time: at most
//! one command is ever awaiting a response, since the wire protocol
//! carries no request identifiers and responses are matched to commands
//! strictly by send order.  Connect and disconnect traffic is gated by a
//! tracker of connection state so that redundant commands are dropped at
//! the queue.  The engine never reads or writes bytes itself: `pump_mh_queue`
//! hands the caller the line to write, and the caller feeds every line
//! the host sends back into `on_response_line`.

use crate::lv2::Lv2;
use crate::lv2::Lv2V;
use crate::lv2_simulator::Lv2Simulator;
use crate::lv2_simulator::SimV;
use crate::lv2_simulator::Status;
use crate::strutil::all_digits;
use crate::strutil::dec_digits;
use crate::strutil::lemma_find_at_of_scan;
use crate::strutil::usize_to_string;
use crate::strutil::digits_val;
use crate::strutil::find_at;
use crate::strutil::int_digits;
use crate::strutil::int_of_chars;
use crate::strutil::isize_to_string;
use crate::strutil::rfind_ws_at;
use crate::strutil::rfind_ws;
use crate::strutil::str_eq;
use crate::strutil::starts_with;
use crate::strutil::trim;
use crate::strutil::trim_spec;
use crate::strutil::ws_at;
use crate::strutil::ws_from;
use crate::strutil::find_from;
use crate::strutil::parse_isize;
use crate::strutil::parse_usize;
use vstd::prelude::*;
use vstd::string::StrSliceExecFns;
use vstd::string::StringExecFns;

verus! {

/// The state of one tracked connection between two ports.
#[derive(Clone, Copy, Debug, PartialEq, Eq, Structural)]
pub enum ConDisconFlight {
    Connected,
    Disconnected,
    InFlight,
}

/// What handling one line from the host amounted to.
#[derive(Clone, Copy, Debug, PartialEq, Eq, Structural)]
pub enum RespOutcome {
    /// A blank line, noise, or the echo of the command in flight.
    Ignored,
    /// An unrecognized line while nothing was in flight; `true` the first
    /// time this particular line is seen, so the caller can log it once.
    Unrecognized(bool),
    /// A response line whose result code could not be read.
    BadResponse,
    /// A response line while no command was in flight.
    NoCommand,
    /// A response with a non-negative code, applied to the model.
    Success,
    /// A response with a negative code: the protocol error it named.
    ProtocolError(isize),
}

/// Remove everything from the first zero byte on.
pub fn rem_trail_0(resp: Vec<u8>) -> (r: Vec<u8>)
    ensures
        r@ == resp@.subrange(0, first_zero(resp@)),
{
    let n = resp.len();
    let mut i: usize = 0;
    while i < n
        invariant
            i <= n,
            n == resp@.len(),
            forall|j: int| 0 <= j < i ==> resp@[j] != 0,
        decreases n - i,
    {
        if resp[i] == 0 {
            proof {
                lemma_first_zero_scan(resp@, i as int);
            }
            let mut r = resp;
            r.truncate(i);
            return r;
        }
        i += 1;
    }
    proof {
        lemma_first_zero_scan(resp@, n as int);
        assert(resp@.subrange(0, n as int) =~= resp@);
    }
    resp
}

/// Index of the first zero byte; the length if there is none.
pub open spec fn first_zero(s: Seq<u8>) -> int
    decreases s.len(),
{
    if s.len() == 0 {
        0
    } else if s[0] == 0 {
        0
    } else {
        1 + first_zero(s.subrange(1, s.len() as int))
    }
}

proof fn lemma_first_zero_scan(s: Seq<u8>, i: int)
    requires
        0 <= i <= s.len(),
        i < s.len() ==> s[i] == 0,
        forall|j: int| 0 <= j < i ==> s[j] != 0,
    ensures
        first_zero(s) == i,
    decreases s.len(),
{
    if s.len() > 0 && s[0] != 0 {
        let t = s.subrange(1, s.len() as int);
        lemma_first_zero_scan(t, i - 1);
    }
}

/// Index of the first entry with key `key`, from `from`; the length if
/// there is none.
pub open spec fn conn_idx_at(
    conns: Seq<(Seq<char>, ConDisconFlight)>,
    from: int,
    key: Seq<char>,
) -> int
    decreases conns.len() - from,
{
    if 0 <= from < conns.len() {
        if conns[from].0 == key {
            from
        } else {
            conn_idx_at(conns, from + 1, key)
        }
    } else {
        conns.len() as int
    }
}

/// The tracked state of the connection `key`, if any.
pub open spec fn conn_lookup(
    conns: Seq<(Seq<char>, ConDisconFlight)>,
    key: Seq<char>,
) -> Option<ConDisconFlight> {
    let i = conn_idx_at(conns, 0, key);
    if i < conns.len() {
        Some(conns[i].1)
    } else {
        None
    }
}

/// `conns` with the entry for `key` set to `st`: updated in place where
/// the key is tracked, appended where it is new.
pub open spec fn conn_set(
    conns: Seq<(Seq<char>, ConDisconFlight)>,
    key: Seq<char>,
    st: ConDisconFlight,
) -> Seq<(Seq<char>, ConDisconFlight)> {
    let i = conn_idx_at(conns, 0, key);
    if i < conns.len() {
        conns.update(i, (key, st))
    } else {
        conns.push((key, st))
    }
}

proof fn lemma_conn_idx_scan(
    conns: Seq<(Seq<char>, ConDisconFlight)>,
    from: int,
    i: int,
    key: Seq<char>,
)
    requires
        0 <= from <= i <= conns.len(),
        i < conns.len() ==> conns[i].0 == key,
        forall|j: int| from <= j < i ==> (#[trigger] conns[j]).0 != key,
    ensures
        conn_idx_at(conns, from, key) == i,
    decreases i - from,
{
    if from < i {
        lemma_conn_idx_scan(conns, from + 1, i, key);
    }
}

/// The leading word of a command: its text to the first space.
pub open spec fn first_word_of(c: Seq<char>) -> Seq<char> {
    c.subrange(0, find_at(c, 0, ' '))
}

/// Does the command have arguments after its leading word?
pub open spec fn has_args(c: Seq<char>) -> bool {
    find_at(c, 0, ' ') < c.len()
}

/// The connection key of a connect or disconnect command: everything
/// after the first space.
pub open spec fn conn_key_of(c: Seq<char>) -> Seq<char> {
    c.subrange(find_at(c, 0, ' ') + 1, c.len() as int)
}

/// Is `c` a connect or disconnect command with arguments?
pub open spec fn is_conn_cmd(c: Seq<char>) -> bool {
    (first_word_of(c) == "connect"@ || first_word_of(c) == "disconnect"@) && has_args(c)
}

/// Should enqueueing `c` be dropped as a no-op, given the tracked state
/// of its connection key?  Yes when the key is already in flight, already
/// connected for a connect, or already disconnected for a disconnect.
pub open spec fn conn_noop(
    conns: Seq<(Seq<char>, ConDisconFlight)>,
    c: Seq<char>,
) -> bool {
    is_conn_cmd(c) && match conn_lookup(conns, conn_key_of(c)) {
        Some(ConDisconFlight::InFlight) => true,
        Some(ConDisconFlight::Connected) => first_word_of(c) == "connect"@,
        Some(ConDisconFlight::Disconnected) => first_word_of(c) == "disconnect"@,
        None => false,
    }
}

/// Interface to the external host process: the assembled plugins, the
/// tracked instances, the outbound command queue, the single command in
/// flight, and the connection tracker.
#[derive(Debug)]
pub struct ModHostController {
    /// The plugins the triple stream described.
    pub simulators: Vec<Lv2>,
    /// The plugin instances the engine tracks, with their load status.
    pub instances: Vec<Lv2Simulator>,
    /// Commands waiting to be sent, oldest first.
    pub mh_command_queue: Vec<String>,
    /// The commands sent and awaiting a response: never more than one.
    pub sent_commands: Vec<String>,
    /// Tracked connection state by `"<left-port> <right-port>"` key; keys
    /// are unique and entries are never removed.
    pub connections: Vec<(String, ConDisconFlight)>,
    /// Unrecognized lines already reported, so each is reported once.
    pub unrecognized: Vec<String>,
    /// Partial line received from the host and not yet complete.
    pub buffer: String,
}

impl ModHostController {
    /// The plugins as mathematical values.
    pub open spec fn sims(&self) -> Seq<Lv2V> {
        self.simulators@.map_values(|l: Lv2| l@)
    }

    /// The instances as mathematical values.
    pub open spec fn insts(&self) -> Seq<SimV> {
        self.instances@.map_values(|s: Lv2Simulator| s@)
    }

    /// The queued command texts, oldest first.
    pub open spec fn queue(&self) -> Seq<Seq<char>> {
        self.mh_command_queue.deep_view()
    }

    /// The texts of the commands in flight (none, or one).
    pub open spec fn sent(&self) -> Seq<Seq<char>> {
        self.sent_commands.deep_view()
    }

    /// The connection tracker as mathematical values.
    pub open spec fn conns(&self) -> Seq<(Seq<char>, ConDisconFlight)> {
        self.connections@.map_values(|p: (String, ConDisconFlight)| (p.0@, p.1))
    }

    /// Single-flight discipline: at most one command is ever awaiting a
    /// response.
    pub open spec fn single_flight(&self) -> bool {
        self.sent().len() <= 1
    }

    /// Each connection key is tracked at most once.
    pub open spec fn conn_keys_unique(&self) -> bool {
        forall|i: int, j: int|
            0 <= i < j < self.conns().len() ==> (#[trigger] self.conns()[i]).0 != (
            #[trigger] self.conns()[j]).0
    }

    /// The engine's invariant.
    pub open spec fn wf(&self) -> bool {
        self.single_flight() && self.conn_keys_unique()
    }

    /// The tracked state of the connection `key`.
    pub fn conn_find(&self, key: &str) -> (r: Option<ConDisconFlight>)
        ensures
            r == conn_lookup(self.conns(), key@),
    {
        let n = self.connections.len();
        let mut i: usize = 0;
        while i < n
            invariant
                i <= n,
                n == self.connections@.len(),
                forall|j: int| 0 <= j < i ==> (#[trigger] self.conns()[j]).0 != key@,
            decreases n - i,
        {
            if str_eq(self.connections[i].0.as_str(), key) {
                proof {
                    lemma_conn_idx_scan(self.conns(), 0, i as int, key@);
                }
                return Some(self.connections[i].1);
            }
            i += 1;
        }
        proof {
            lemma_conn_idx_scan(self.conns(), 0, n as int, key@);
        }
        None
    }

    /// Index of the tracked entry for `key`; the number of entries where
    /// the key is new.
    fn conn_index(&self, key: &str) -> (r: usize)
        ensures
            r == conn_idx_at(self.conns(), 0, key@),
            r <= self.conns().len(),
            r < self.conns().len() ==> self.conns()[r as int].0 == key@,
            forall|j: int| 0 <= j < r ==> (#[trigger] self.conns()[j]).0 != key@,
    {
        let n = self.connections.len();
        let mut i: usize = 0;
        while i < n
            invariant
                i <= n,
                n == self.connections@.len(),
                forall|j: int| 0 <= j < i ==> (#[trigger] self.conns()[j]).0 != key@,
            decreases n - i,
        {
            if str_eq(self.connections[i].0.as_str(), key) {
                proof {
                    lemma_conn_idx_scan(self.conns(), 0, i as int, key@);
                }
                return i;
            }
            i += 1;
        }
        proof {
            lemma_conn_idx_scan(self.conns(), 0, n as int, key@);
        }
        n
    }

    /// Set the tracked state of `key` to `st`, creating the entry if it
    /// is new.
    fn set_connection(&mut self, key: &str, st: ConDisconFlight)
        requires
            old(self).wf(),
        ensures
            final(self).wf(),
            final(self).conns() == conn_set(old(self).conns(), key@, st),
            final(self).simulators == old(self).simulators,
            final(self).instances == old(self).instances,
            final(self).mh_command_queue == old(self).mh_command_queue,
            final(self).sent_commands == old(self).sent_commands,
            final(self).unrecognized == old(self).unrecognized,
            final(self).buffer == old(self).buffer,
    {
        let ghost old_conns = self.conns();
        let i = self.conn_index(key);
        if i < self.connections.len() {
            self.connections[i] = (String::from_str(key), st);
            proof {
                assert(self.conns() =~= conn_set(old_conns, key@, st));
                assert forall|a: int, b: int|
                    0 <= a < b < self.conns().len() implies (#[trigger] self.conns()[a]).0 != (
                #[trigger] self.conns()[b]).0 by {
                    assert(old_conns[a].0 != old_conns[b].0);
                    assert(old_conns[i as int].0 == key@);
                }
            }
        } else {
            self.connections.push((String::from_str(key), st));
            proof {
                assert(self.conns() =~= conn_set(old_conns, key@, st));
                assert forall|a: int, b: int|
                    0 <= a < b < self.conns().len() implies (#[trigger] self.conns()[a]).0 != (
                #[trigger] self.conns()[b]).0 by {
                    if b < self.conns().len() - 1 {
                        assert(old_conns[a].0 != old_conns[b].0);
                    } else {
                        assert(self.conns()[b].0 == key@);
                        assert(old_conns[a].0 != key@);
                    }
                }
            }
        }
    }

    /// Queue a command for the host.  A connect or disconnect command
    /// that the tracker shows to be a no-op — its key already in flight,
    /// already connected for a connect, already disconnected for a
    /// disconnect — is silently dropped; otherwise such a command marks
    /// its key in flight at once, so that a repeat enqueued before the
    /// response is itself a no-op.
    pub fn send_mh_cmd(&mut self, cmd: &str)
        requires
            old(self).wf(),
        ensures
            final(self).wf(),
            final(self).simulators == old(self).simulators,
            final(self).instances == old(self).instances,
            final(self).sent_commands == old(self).sent_commands,
            final(self).unrecognized == old(self).unrecognized,
            final(self).buffer == old(self).buffer,
            conn_noop(old(self).conns(), cmd@) ==> final(self).queue() == old(self).queue()
                && final(self).conns() == old(self).conns(),
            !conn_noop(old(self).conns(), cmd@) ==> final(self).queue() == old(self).queue().push(
                cmd@,
            ) && final(self).conns() == if is_conn_cmd(cmd@) {
                conn_set(old(self).conns(), conn_key_of(cmd@), ConDisconFlight::InFlight)
            } else {
                old(self).conns()
            },
    {
        let len = cmd.unicode_len();
        let sp = find_from(cmd, 0, ' ');
        let word = cmd.substring_char(0, sp);
        let is_conn = (str_eq(word, "connect") || str_eq(word, "disconnect")) && sp < len;
        if is_conn {
            let key = cmd.substring_char(sp + 1, len);
            let drop_it = match self.conn_find(key) {
                Some(ConDisconFlight::InFlight) => true,
                Some(ConDisconFlight::Connected) => str_eq(word, "connect"),
                Some(ConDisconFlight::Disconnected) => str_eq(word, "disconnect"),
                None => false,
            };
            if drop_it {
                return ;
            }
            self.set_connection(key, ConDisconFlight::InFlight);
        }
        self.mh_command_queue.push(String::from_str(cmd));
        proof {
            assert(self.queue() =~= old(self).queue().push(cmd@));
        }
    }

    /// If nothing is in flight and a command is queued, pop the oldest
    /// command, mark it in flight, mark any referenced connection key in
    /// flight, and hand it back for the caller to write to the host.
    pub fn pump_mh_queue(&mut self) -> (r: Option<String>)
        requires
            old(self).wf(),
        ensures
            final(self).wf(),
            final(self).simulators == old(self).simulators,
            final(self).instances == old(self).instances,
            final(self).unrecognized == old(self).unrecognized,
            final(self).buffer == old(self).buffer,
            old(self).sent().len() > 0 || old(self).queue().len() == 0 ==> r is None && *final(self)
                == *old(self),
            old(self).sent().len() == 0 && old(self).queue().len() > 0 ==> {
                &&& match r {
                    Some(line) => line@ == old(self).queue()[0],
                    None => false,
                }
                &&& final(self).queue() == old(self).queue().subrange(
                    1,
                    old(self).queue().len() as int,
                )
                &&& final(self).sent() == seq![trim_spec(old(self).queue()[0])]
                &&& final(self).conns() == if is_conn_cmd(old(self).queue()[0]) {
                    conn_set(
                        old(self).conns(),
                        conn_key_of(old(self).queue()[0]),
                        ConDisconFlight::InFlight,
                    )
                } else {
                    old(self).conns()
                }
            },
    {
        if self.sent_commands.len() > 0 {
            return None;
        }
        if self.mh_command_queue.len() == 0 {
            return None;
        }
        let cmd = self.mh_command_queue.remove(0);
        proof {
            assert(self.queue() =~= old(self).queue().subrange(
                1,
                old(self).queue().len() as int,
            ));
        }
        let len = cmd.as_str().unicode_len();
        let sp = find_from(cmd.as_str(), 0, ' ');
        let word = cmd.as_str().substring_char(0, sp);
        proof {
            assert(self.connections == old(self).connections);
            assert(self.conns() == old(self).conns());
            assert(self.conn_keys_unique());
            assert(self.sent().len() == 0);
            assert(self.wf());
        }
        if (str_eq(word, "connect") || str_eq(word, "disconnect")) && sp < len {
            let key = String::from_str(cmd.as_str().substring_char(sp + 1, len));
            self.set_connection(key.as_str(), ConDisconFlight::InFlight);
        }
        // Record the trimmed text: responses are matched against it.
        self.sent_commands.push(String::from_str(trim(cmd.as_str())));
        proof {
            assert(self.sent() =~= seq![trim_spec(old(self).queue()[0])]);
        }
        Some(cmd)
    }

    /// How many commands are waiting to be sent.
    pub fn get_queued_count(&self) -> (r: usize)
        ensures
            r == self.queue().len(),
    {
        self.mh_command_queue.len()
    }

    /// Saving the current instance is not implemented; the call reports
    /// that nothing was saved.
    pub fn save_current_lv2(&self, _save_name: &str) -> (r: bool)
        ensures
            r == false,
    {
        false
    }

    /// The symbolic name of a host error code: the fixed table, or
    /// `Unknown error code: <n>` for a code outside it.
    pub fn translate_error_code(error: isize) -> (r: String)
        ensures
            r@ == error_name(error as int),
    {
        if error == -1 {
            String::from_str("ERR_INSTANCE_INVALID")
        } else if error == -2 {
            String::from_str("ERR_INSTANCE_ALREADY_EXISTS")
        } else if error == -3 {
            String::from_str("ERR_INSTANCE_NON_EXISTS")
        } else if error == -4 {
            String::from_str("ERR_INSTANCE_UNLICENSED")
        } else if error == -101 {
            String::from_str("ERR_LV2_INVALID_URI")
        } else if error == -102 {
            String::from_str("ERR_LV2_INSTANTIATION")
        } else if error == -103 {
            String::from_str("ERR_LV2_INVALID_PARAM_SYMBOL")
        } else if error == -104 {
            String::from_str("ERR_LV2_INVALID_PRESET_URI")
        } else if error == -105 {
            String::from_str("ERR_LV2_CANT_LOAD_STATE")
        } else if error == -201 {
            String::from_str("ERR_JACK_CLIENT_CREATION")
        } else if error == -202 {
            String::from_str("ERR_JACK_CLIENT_ACTIVATION")
        } else if error == -203 {
            String::from_str("ERR_JACK_CLIENT_DEACTIVATION")
        } else if error == -204 {
            String::from_str("ERR_JACK_PORT_REGISTER")
        } else if error == -205 {
            String::from_str("ERR_JACK_PORT_CONNECTION")
        } else if error == -206 {
            String::from_str("ERR_JACK_PORT_DISCONNECTION")
        } else if error == -301 {
            String::from_str("ERR_ASSIGNMENT_ALREADY_EXISTS")
        } else if error == -302 {
            String::from_str("ERR_ASSIGNMENT_INVALID_OP")
        } else if error == -303 {
            String::from_str("ERR_ASSIGNMENT_LIST_FULL")
        } else if error == -304 {
            String::from_str("ERR_ASSIGNMENT_FAILED")
        } else if error == -401 {
            String::from_str("ERR_CONTROL_CHAIN_UNAVAILABLE")
        } else if error == -402 {
            String::from_str("ERR_LINK_UNAVAILABLE")
        } else if error == -901 {
            String::from_str("ERR_MEMORY_ALLOCATION")
        } else if error == -902 {
            String::from_str("ERR_INVALID_OPERATION")
        } else {
            let mut r = String::from_str("Unknown error code: ");
            r.append(isize_to_string(error).as_str());
            r
        }
    }
}

/// Index of the first instance in slot `id`, from `from`; the length if
/// there is none.
pub open spec fn inst_idx_at(insts: Seq<SimV>, from: int, id: usize) -> int
    decreases insts.len() - from,
{
    if 0 <= from < insts.len() {
        if insts[from].mh_id == id {
            from
        } else {
            inst_idx_at(insts, from + 1, id)
        }
    } else {
        insts.len() as int
    }
}

/// The plugin url of the first instance in slot `id`, if any.
pub open spec fn inst_url(insts: Seq<SimV>, id: usize) -> Option<Seq<char>> {
    let i = inst_idx_at(insts, 0, id);
    if i < insts.len() {
        Some(insts[i].url)
    } else {
        None
    }
}

/// Every instance in slot `id` set to status `st`.
pub open spec fn set_inst_status(insts: Seq<SimV>, id: usize, st: Status) -> Seq<SimV> {
    insts.map_values(
        |s: SimV|
            if s.mh_id == id {
                SimV { status: st, ..s }
            } else {
                s
            },
    )
}

/// Every instance set to `Unloaded`.
pub open spec fn all_unloaded(insts: Seq<SimV>) -> Seq<SimV> {
    insts.map_values(|s: SimV| SimV { status: Status::Unloaded, ..s })
}

/// Index of the first scale pair whose value part is `v`, from `from`;
/// the length if there is none.
pub open spec fn scale_idx_at(lvs: Seq<(Seq<char>, Seq<char>)>, from: int, v: Seq<char>) -> int
    decreases lvs.len() - from,
{
    if 0 <= from < lvs.len() {
        if lvs[from].1 == v {
            from
        } else {
            scale_idx_at(lvs, from + 1, v)
        }
    } else {
        lvs.len() as int
    }
}

/// The position of the scale pair whose value part is `v`, if any.
pub open spec fn scale_value_index(lvs: Seq<(Seq<char>, Seq<char>)>, v: Seq<char>) -> Option<
    usize,
> {
    let i = scale_idx_at(lvs, 0, v);
    if i < lvs.len() {
        Some(i as usize)
    } else {
        None
    }
}

/// A control's properties with its current value set to `v`: a continuous
/// control stores the text, a scale stores the position of the pair whose
/// value is the normalized text.
pub open spec fn cpp_with_value(c: crate::port::CppV, v: Seq<char>) -> crate::port::CppV {
    match c {
        crate::port::CppV::Continuous(cc) => crate::port::CppV::Continuous(
            crate::port::ContinuousV { value: Some(v), ..cc },
        ),
        crate::port::CppV::Scale(sc) => crate::port::CppV::Scale(
            crate::port::ScaleV {
                value: scale_value_index(
                    sc.labels_values,
                    crate::port_table::scale_value_norm(v),
                ),
                ..sc
            },
        ),
    }
}

/// One port type with any control value set to `v`.
pub open spec fn port_type_with_value(
    t: crate::port::PortTypeV,
    v: Seq<char>,
) -> crate::port::PortTypeV {
    match t {
        crate::port::PortTypeV::Control(c) => crate::port::PortTypeV::Control(cpp_with_value(c, v)),
        x => x,
    }
}

/// A port with its control value set to `v` where its symbol is `sym`.
pub open spec fn port_with_value(
    p: crate::port::PortV,
    sym: Seq<char>,
    v: Seq<char>,
) -> crate::port::PortV {
    if p.symbol == sym {
        crate::port::PortV {
            types: p.types.map_values(|t: crate::port::PortTypeV| port_type_with_value(t, v)),
            ..p
        }
    } else {
        p
    }
}

/// A plugin with the value of its port `sym` set to `v`.
pub open spec fn lv2_with_value(l: Lv2V, sym: Seq<char>, v: Seq<char>) -> Lv2V {
    Lv2V { ports: l.ports.map_values(|p: crate::port::PortV| port_with_value(p, sym, v)), ..l }
}

/// The plugin list with the value of port `sym` of the plugin `url` set
/// to `v`.
pub open spec fn sims_with_value(
    sims: Seq<Lv2V>,
    url: Seq<char>,
    sym: Seq<char>,
    v: Seq<char>,
) -> Seq<Lv2V> {
    sims.map_values(
        |l: Lv2V|
            if l.url == url {
                lv2_with_value(l, sym, v)
            } else {
                l
            },
    )
}

proof fn lemma_inst_idx_scan(insts: Seq<SimV>, from: int, i: int, id: usize)
    requires
        0 <= from <= i <= insts.len(),
        i < insts.len() ==> insts[i].mh_id == id,
        forall|j: int| from <= j < i ==> (#[trigger] insts[j]).mh_id != id,
    ensures
        inst_idx_at(insts, from, id) == i,
    decreases i - from,
{
    if from < i {
        lemma_inst_idx_scan(insts, from + 1, i, id);
    }
}

proof fn lemma_scale_idx_scan(lvs: Seq<(Seq<char>, Seq<char>)>, from: int, i: int, v: Seq<char>)
    requires
        0 <= from <= i <= lvs.len(),
        i < lvs.len() ==> lvs[i].1 == v,
        forall|j: int| from <= j < i ==> (#[trigger] lvs[j]).1 != v,
    ensures
        scale_idx_at(lvs, from, v) == i,
    decreases i - from,
{
    if from < i {
        lemma_scale_idx_scan(lvs, from + 1, i, v);
    }
}

/// The position of the scale pair whose value part is `v`, if any.
fn scale_find_index(lvs: &Vec<(String, String)>, v: &str) -> (r: Option<usize>)
    ensures
        r == scale_value_index(lvs.deep_view(), v@),
{
    let n = lvs.len();
    let mut i: usize = 0;
    while i < n
        invariant
            i <= n,
            n == lvs@.len(),
            forall|j: int| 0 <= j < i ==> (#[trigger] lvs.deep_view()[j]).1 != v@,
        decreases n - i,
    {
        if str_eq(lvs[i].1.as_str(), v) {
            proof {
                assert(lvs.deep_view()[i as int].1 == v@);
                lemma_scale_idx_scan(lvs.deep_view(), 0, i as int, v@);
            }
            return Some(i);
        }
        i += 1;
    }
    proof {
        lemma_scale_idx_scan(lvs.deep_view(), 0, n as int, v@);
    }
    None
}

/// Set the current value of one port type, where it is a control.
fn update_port_type_value(t: &mut crate::port::PortType, value: &str)
    ensures
        final(t)@ == port_type_with_value(old(t)@, value@),
{
    match t {
        crate::port::PortType::Control(cpp) => {
            match cpp {
                crate::port::ControlPortProperties::Continuous(cc) => {
                    cc.value = Some(String::from_str(value));
                },
                crate::port::ControlPortProperties::Scale(sc) => {
                    let norm = crate::port_table::value_from_scale_control(value);
                    let found = scale_find_index(&sc.labels_values, norm.as_str());
                    sc.value = found;
                },
            }
        },
        _ => {},
    }
}

/// Set the current value of every control type of `p` where its symbol
/// is `sym`.
fn update_port_value(p: &mut crate::port::Port, sym: &str, value: &str)
    ensures
        final(p)@ == port_with_value(old(p)@, sym@, value@),
{
    if str_eq(p.symbol.as_str(), sym) {
        let n = p.types.len();
        let mut i: usize = 0;
        while i < n
            invariant
                i <= n,
                n == p.types@.len(),
                p.name == old(p).name,
                p.symbol == old(p).symbol,
                p.index == old(p).index,
                forall|k: int|
                    0 <= k < i ==> (#[trigger] p.types@[k])@ == port_type_with_value(
                        old(p).types@[k]@,
                        value@,
                    ),
                forall|k: int| i <= k < n ==> p.types@[k] == old(p).types@[k],
            decreases n - i,
        {
            update_port_type_value(&mut p.types[i], value);
            i += 1;
        }
        proof {
            assert(p@.types =~= port_with_value(old(p)@, sym@, value@).types);
        }
    }
}

/// Set the current value of port `sym` of `l`.
fn update_lv2_value(l: &mut Lv2, sym: &str, value: &str)
    ensures
        final(l)@ == lv2_with_value(old(l)@, sym@, value@),
{
    let n = l.ports.len();
    let mut i: usize = 0;
    while i < n
        invariant
            i <= n,
            n == l.ports@.len(),
            l.name == old(l).name,
            l.url == old(l).url,
            l.types == old(l).types,
            forall|k: int|
                0 <= k < i ==> (#[trigger] l.ports@[k])@ == port_with_value(
                    old(l).ports@[k]@,
                    sym@,
                    value@,
                ),
            forall|k: int| i <= k < n ==> l.ports@[k] == old(l).ports@[k],
        decreases n - i,
    {
        update_port_value(&mut l.ports[i], sym, value);
        i += 1;
    }
    proof {
        assert(l@.ports =~= lv2_with_value(old(l)@, sym@, value@).ports);
    }
}

/// A line break as the host's output uses it: newline, carriage return,
/// or escape.
pub open spec fn is_brk(c: char) -> bool {
    c == '\n' || c == '\r' || c == '\u{1b}'
}

/// Index of the first line break at or after `from`; the length if there
/// is none.
pub open spec fn brk_at(s: Seq<char>, from: int) -> int
    decreases s.len() - from,
{
    if 0 <= from < s.len() {
        if is_brk(s[from]) {
            from
        } else {
            brk_at(s, from + 1)
        }
    } else {
        s.len() as int
    }
}

proof fn lemma_brk_scan(s: Seq<char>, from: int, i: int)
    requires
        0 <= from <= i <= s.len(),
        i < s.len() ==> is_brk(s[i]),
        forall|j: int| from <= j < i ==> !is_brk(s[j]),
    ensures
        brk_at(s, from) == i,
    decreases i - from,
{
    if from < i {
        lemma_brk_scan(s, from + 1, i);
    }
}

impl ModHostController {
    /// The unrecognized lines already reported.
    pub open spec fn unrec(&self) -> Seq<Seq<char>> {
        self.unrecognized.deep_view()
    }

    /// Append raw text from the host to the line buffer.
    pub fn push_input(&mut self, data: &str)
        ensures
            final(self).buffer@ == old(self).buffer@ + data@,
            final(self).simulators == old(self).simulators,
            final(self).instances == old(self).instances,
            final(self).mh_command_queue == old(self).mh_command_queue,
            final(self).sent_commands == old(self).sent_commands,
            final(self).connections == old(self).connections,
            final(self).unrecognized == old(self).unrecognized,
    {
        self.buffer.append(data);
    }

    /// Take one complete line off the buffer: the text before the first
    /// line break.  `None` while no line break has arrived.
    pub fn take_line(&mut self) -> (r: Option<String>)
        ensures
            final(self).simulators == old(self).simulators,
            final(self).instances == old(self).instances,
            final(self).mh_command_queue == old(self).mh_command_queue,
            final(self).sent_commands == old(self).sent_commands,
            final(self).connections == old(self).connections,
            final(self).unrecognized == old(self).unrecognized,
            match r {
                Some(l) => {
                    let k = brk_at(old(self).buffer@, 0);
                    &&& k < old(self).buffer@.len()
                    &&& l@ == old(self).buffer@.subrange(0, k)
                    &&& final(self).buffer@ == old(self).buffer@.subrange(
                        k + 1,
                        old(self).buffer@.len() as int,
                    )
                },
                None => brk_at(old(self).buffer@, 0) == old(self).buffer@.len() && *final(self)
                    == *old(self),
            },
    {
        let len = self.buffer.as_str().unicode_len();
        let mut i: usize = 0;
        while i < len
            invariant
                i <= len,
                len == self.buffer@.len(),
                *self == *old(self),
                forall|j: int| 0 <= j < i ==> !is_brk(self.buffer@[j]),
            decreases len - i,
        {
            let c = self.buffer.as_str().get_char(i);
            if c == '\n' || c == '\r' || c == '\u{1b}' {
                proof {
                    lemma_brk_scan(self.buffer@, 0, i as int);
                }
                let line = String::from_str(self.buffer.as_str().substring_char(0, i));
                let rest = String::from_str(self.buffer.as_str().substring_char(i + 1, len));
                self.buffer = rest;
                return Some(line);
            }
            i += 1;
        }
        proof {
            lemma_brk_scan(self.buffer@, 0, len as int);
        }
        None
    }

    /// Set the status of every tracked instance in slot `mh_id`.
    fn set_instance_status(&mut self, mh_id: usize, st: Status)
        ensures
            final(self).insts() == set_inst_status(old(self).insts(), mh_id, st),
            final(self).simulators == old(self).simulators,
            final(self).mh_command_queue == old(self).mh_command_queue,
            final(self).sent_commands == old(self).sent_commands,
            final(self).connections == old(self).connections,
            final(self).unrecognized == old(self).unrecognized,
            final(self).buffer == old(self).buffer,
    {
        let n = self.instances.len();
        let mut i: usize = 0;
        while i < n
            invariant
                i <= n,
                n == self.instances@.len(),
                n == old(self).instances@.len(),
                self.simulators == old(self).simulators,
                self.mh_command_queue == old(self).mh_command_queue,
                self.sent_commands == old(self).sent_commands,
                self.connections == old(self).connections,
                self.unrecognized == old(self).unrecognized,
                self.buffer == old(self).buffer,
                forall|k: int|
                    0 <= k < i ==> (#[trigger] self.instances@[k])@ == set_inst_status(
                        old(self).insts(),
                        mh_id,
                        st,
                    )[k],
                forall|k: int| i <= k < n ==> self.instances@[k] == old(self).instances@[k],
            decreases n - i,
        {
            if self.instances[i].mh_id == mh_id {
                self.instances[i].status = st;
            }
            proof {
                let target = set_inst_status(old(self).insts(), mh_id, st);
                assert(old(self).insts()[i as int] == old(self).instances@[i as int]@);
                assert(target[i as int] == if old(self).insts()[i as int].mh_id == mh_id {
                    SimV { status: st, ..old(self).insts()[i as int] }
                } else {
                    old(self).insts()[i as int]
                });
                assert(self.instances@[i as int]@ == target[i as int]);
            }
            i += 1;
        }
        proof {
            assert(self.insts() =~= set_inst_status(old(self).insts(), mh_id, st));
        }
    }

    /// Set every tracked instance to `Unloaded`: the host's state is
    /// assumed lost after a global failure.
    fn set_all_unloaded(&mut self)
        ensures
            final(self).insts() == all_unloaded(old(self).insts()),
            final(self).simulators == old(self).simulators,
            final(self).mh_command_queue == old(self).mh_command_queue,
            final(self).sent_commands == old(self).sent_commands,
            final(self).connections == old(self).connections,
            final(self).unrecognized == old(self).unrecognized,
            final(self).buffer == old(self).buffer,
    {
        let n = self.instances.len();
        let mut i: usize = 0;
        while i < n
            invariant
                i <= n,
                n == self.instances@.len(),
                n == old(self).instances@.len(),
                self.simulators == old(self).simulators,
                self.mh_command_queue == old(self).mh_command_queue,
                self.sent_commands == old(self).sent_commands,
                self.connections == old(self).connections,
                self.unrecognized == old(self).unrecognized,
                self.buffer == old(self).buffer,
                forall|k: int|
                    0 <= k < i ==> (#[trigger] self.instances@[k])@ == all_unloaded(
                        old(self).insts(),
                    )[k],
                forall|k: int| i <= k < n ==> self.instances@[k] == old(self).instances@[k],
            decreases n - i,
        {
            self.instances[i].status = Status::Unloaded;
            i += 1;
        }
        proof {
            assert(self.insts() =~= all_unloaded(old(self).insts()));
        }
    }

    /// Record the value of port `symbol` of the instance in slot
    /// `instance_number`: the value is written into the matching port of
    /// the plugin that instance refers to.  Nothing changes where no
    /// instance has that slot.
    pub fn set_port_value(&mut self, instance_number: usize, symbol: &str, value: &str)
        ensures
            final(self).sims() == match inst_url(old(self).insts(), instance_number) {
                Some(url) => sims_with_value(old(self).sims(), url, symbol@, value@),
                None => old(self).sims(),
            },
            final(self).instances == old(self).instances,
            final(self).mh_command_queue == old(self).mh_command_queue,
            final(self).sent_commands == old(self).sent_commands,
            final(self).connections == old(self).connections,
            final(self).unrecognized == old(self).unrecognized,
            final(self).buffer == old(self).buffer,
    {
        let n = self.instances.len();
        let mut i: usize = 0;
        while i < n
            invariant
                i <= n,
                n == self.instances@.len(),
                *self == *old(self),
                forall|j: int| 0 <= j < i ==> (#[trigger] self.insts()[j]).mh_id != instance_number,
            decreases n - i,
        {
            if self.instances[i].mh_id == instance_number {
                proof {
                    lemma_inst_idx_scan(self.insts(), 0, i as int, instance_number);
                }
                let url = self.instances[i].url.clone();
                proof {
                    assert(inst_url(old(self).insts(), instance_number) == Some(url@));
                }
                let m = self.simulators.len();
                let mut k: usize = 0;
                while k < m
                    invariant
                        k <= m,
                        m == self.simulators@.len(),
                        m == old(self).simulators@.len(),
                        self.instances == old(self).instances,
                        self.mh_command_queue == old(self).mh_command_queue,
                        self.sent_commands == old(self).sent_commands,
                        self.connections == old(self).connections,
                        self.unrecognized == old(self).unrecognized,
                        self.buffer == old(self).buffer,
                        forall|j: int|
                            0 <= j < k ==> (#[trigger] self.simulators@[j])@ == sims_with_value(
                                old(self).sims(),
                                url@,
                                symbol@,
                                value@,
                            )[j],
                        forall|j: int|
                            k <= j < m ==> self.simulators@[j] == old(self).simulators@[j],
                    decreases m - k,
                {
                    if str_eq(self.simulators[k].url.as_str(), url.as_str()) {
                        update_lv2_value(&mut self.simulators[k], symbol, value);
                    }
                    k += 1;
                }
                proof {
                    assert(self.sims() =~= sims_with_value(
                        old(self).sims(),
                        url@,
                        symbol@,
                        value@,
                    ));
                }
                return ;
            }
            i += 1;
        }
        proof {
            lemma_inst_idx_scan(self.insts(), 0, n as int, instance_number);
        }
    }
}

/// A line as the correlator reads it: trimmed, with any leading
/// `mod-host>` prompt removed and the remainder trimmed again.
pub open spec fn clean_of(l: Seq<char>) -> Seq<char> {
    let t0 = trim_spec(l);
    if t0.len() > 8 && t0.subrange(0, 9) == "mod-host>"@ {
        trim_spec(t0.subrange(9, t0.len() as int))
    } else {
        t0
    }
}

/// Is the cleaned line a response line?
pub open spec fn is_resp_line(t: Seq<char>) -> bool {
    t.len() > 5 && t.subrange(0, 5) == "resp "@
}

/// Is the cleaned line known noise: the banner, one of the host's chatter
/// words, or any line without a space?
pub open spec fn is_noise(t: Seq<char>) -> bool {
    t == "using block size: 1024"@ || t == "chump"@ || t == "bigchump"@ || t == "vibrochump"@
        || find_at(t, 0, ' ') == t.len()
}

/// The result code of a response line: the first token after `resp `.
pub open spec fn resp_code_of(t: Seq<char>) -> Option<int> {
    let r = t.subrange(5, t.len() as int);
    let sp = ws_at(r, 0);
    int_of_chars(r.subrange(0, sp))
}

/// The result code where it reads as a machine integer.
pub open spec fn resp_code_ok(t: Seq<char>) -> Option<int> {
    match resp_code_of(t) {
        Some(c) => if isize::MIN <= c <= isize::MAX {
            Some(c)
        } else {
            None
        },
        None => None,
    }
}

/// The trailing value of a response line: everything after the result
/// code, trimmed.
pub open spec fn resp_value_of(t: Seq<char>) -> Seq<char> {
    let r = t.subrange(5, t.len() as int);
    let sp = ws_at(r, 0);
    trim_spec(r.subrange(sp, r.len() as int))
}

/// The number a command carries as its last whitespace-separated token,
/// where it is one.
pub open spec fn last_token_usize(c: Seq<char>) -> Option<usize> {
    let sp = rfind_ws_at(c);
    if sp < 0 {
        None
    } else {
        let tok = trim_spec(c.subrange(sp, c.len() as int));
        if tok.len() > 0 && all_digits(tok) && digits_val(tok) <= usize::MAX {
            Some(digits_val(tok) as usize)
        } else {
            None
        }
    }
}

/// The instance slot and port symbol of a `param_get` or `param_set`
/// command: the two tokens after the nine-character command word.
pub open spec fn param_target(c: Seq<char>) -> Option<(usize, Seq<char>)> {
    if c.len() < 9 {
        None
    } else {
        let rest = trim_spec(c.subrange(9, c.len() as int));
        let sp = ws_at(rest, 0);
        if sp == rest.len() {
            None
        } else {
            let inst = rest.subrange(0, sp);
            if inst.len() > 0 && all_digits(inst) && digits_val(inst) <= usize::MAX {
                let sym_part = trim_spec(rest.subrange(sp, rest.len() as int));
                let sym = sym_part.subrange(0, ws_at(sym_part, 0));
                Some((digits_val(inst) as usize, sym))
            } else {
                None
            }
        }
    }
}

/// The value a `param_set` command carries: everything after its last
/// whitespace, trimmed; empty where the command has no whitespace.
pub open spec fn set_value_of(c: Seq<char>) -> Seq<char> {
    let rp = rfind_ws_at(c);
    if rp < 0 {
        Seq::empty()
    } else {
        trim_spec(c.subrange(rp + 1, c.len() as int))
    }
}

/// The connection tracker after an error response to `cmd`: a failed
/// connect reverts its key to disconnected, a failed disconnect to
/// connected.
pub open spec fn err_conns(
    conns: Seq<(Seq<char>, ConDisconFlight)>,
    cmd: Seq<char>,
) -> Seq<(Seq<char>, ConDisconFlight)> {
    if first_word_of(cmd) == "connect"@ && has_args(cmd) {
        conn_set(conns, conn_key_of(cmd), ConDisconFlight::Disconnected)
    } else if first_word_of(cmd) == "disconnect"@ && has_args(cmd) {
        conn_set(conns, conn_key_of(cmd), ConDisconFlight::Connected)
    } else {
        conns
    }
}

/// The connection tracker after a success response to `cmd`: the key is
/// finalized to connected or disconnected.
pub open spec fn ok_conns(
    conns: Seq<(Seq<char>, ConDisconFlight)>,
    cmd: Seq<char>,
) -> Seq<(Seq<char>, ConDisconFlight)> {
    if first_word_of(cmd) == "connect"@ && has_args(cmd) {
        conn_set(conns, conn_key_of(cmd), ConDisconFlight::Connected)
    } else if first_word_of(cmd) == "disconnect"@ && has_args(cmd) {
        conn_set(conns, conn_key_of(cmd), ConDisconFlight::Disconnected)
    } else {
        conns
    }
}

/// The instances after an error response with `code` to `cmd`: a failed
/// add reverts its instance to unloaded, and a host whose client could
/// not be created has lost everything, so every instance is unloaded.
pub open spec fn err_insts(insts: Seq<SimV>, cmd: Seq<char>, code: int) -> Seq<SimV> {
    let base = if first_word_of(cmd) == "add"@ {
        match last_token_usize(cmd) {
            Some(id) => set_inst_status(insts, id, Status::Unloaded),
            None => insts,
        }
    } else {
        insts
    };
    if code == -201 {
        all_unloaded(base)
    } else {
        base
    }
}

/// The instances after a success response with `code` to `cmd`: a
/// successful add whose code names its instance marks it loaded, a
/// successful remove marks its instance unloaded.
pub open spec fn ok_insts(insts: Seq<SimV>, cmd: Seq<char>, code: int) -> Seq<SimV> {
    if first_word_of(cmd) == "add"@ {
        match last_token_usize(cmd) {
            Some(id) => if code == id {
                set_inst_status(insts, id, Status::Loaded)
            } else {
                insts
            },
            None => insts,
        }
    } else if first_word_of(cmd) == "remove"@ && code == 0 {
        match last_token_usize(cmd) {
            Some(id) => set_inst_status(insts, id, Status::Unloaded),
            None => insts,
        }
    } else {
        insts
    }
}

/// The plugins after a success response to `cmd` on response line `t`: a
/// `param_get` stores the reported value, a `param_set` mirrors the value
/// the command carried.
pub open spec fn ok_sims(
    sims: Seq<Lv2V>,
    insts: Seq<SimV>,
    cmd: Seq<char>,
    t: Seq<char>,
) -> Seq<Lv2V> {
    if first_word_of(cmd) == "param_get"@ {
        match param_target(cmd) {
            Some((id, sym)) => match inst_url(insts, id) {
                Some(url) => sims_with_value(sims, url, sym, resp_value_of(t)),
                None => sims,
            },
            None => sims,
        }
    } else if first_word_of(cmd) == "param_set"@ {
        match param_target(cmd) {
            Some((id, sym)) => match inst_url(insts, id) {
                Some(url) => sims_with_value(sims, url, sym, set_value_of(cmd)),
                None => sims,
            },
            None => sims,
        }
    } else {
        sims
    }
}

/// The number a command carries as its last token.
fn last_usize_token(c: &str) -> (r: Option<usize>)
    ensures
        r == last_token_usize(c@),
{
    let clen = c.unicode_len();
    let rp = rfind_ws(c);
    if rp == clen {
        None
    } else {
        let tok = trim(c.substring_char(rp, clen));
        parse_usize(tok)
    }
}

/// The instance slot and port symbol of a `param_get` or `param_set`
/// command.
fn param_target_exec(c: &str) -> (r: Option<(usize, String)>)
    ensures
        match r {
            Some(p) => param_target(c@) == Some((p.0, p.1@)),
            None => param_target(c@) is None,
        },
{
    let clen = c.unicode_len();
    if clen < 9 {
        return None;
    }
    let rest = trim(c.substring_char(9, clen));
    let rlen = rest.unicode_len();
    let sp = ws_from(rest, 0);
    if sp == rlen {
        return None;
    }
    let inst = rest.substring_char(0, sp);
    match parse_usize(inst) {
        Some(id) => {
            let sym_part = trim(rest.substring_char(sp, rlen));
            let end = ws_from(sym_part, 0);
            let sym = String::from_str(sym_part.substring_char(0, end));
            Some((id, sym))
        },
        None => None,
    }
}

/// The value a `param_set` command carries.
fn set_value_exec(c: &str) -> (r: &str)
    ensures
        r@ == set_value_of(c@),
{
    let clen = c.unicode_len();
    let rp = rfind_ws(c);
    if rp == clen {
        c.substring_char(0, 0)
    } else {
        trim(c.substring_char(rp + 1, clen))
    }
}

impl ModHostController {
    /// Handle one line from the host.  A response line is matched to the
    /// single command in flight and its outcome applied to the model; the
    /// echo of the in-flight command and known noise are ignored; any
    /// other line while nothing is in flight is recorded so the caller
    /// can log it once.
    pub fn on_response_line(&mut self, line: &str) -> (r: RespOutcome)
        requires
            old(self).wf(),
        ensures
            final(self).wf(),
            final(self).mh_command_queue == old(self).mh_command_queue,
            final(self).buffer == old(self).buffer,
            !is_resp_line(clean_of(line@)) ==> {
                let t = clean_of(line@);
                &&& final(self).simulators == old(self).simulators
                &&& final(self).instances == old(self).instances
                &&& final(self).connections == old(self).connections
                &&& final(self).sent_commands == old(self).sent_commands
                &&& if t.len() == 0 || is_noise(t) || old(self).sent().len() > 0 {
                    r == RespOutcome::Ignored && final(self).unrecognized == old(self).unrecognized
                } else {
                    r == RespOutcome::Unrecognized(!old(self).unrec().contains(t))
                        && final(self).unrec() == if old(self).unrec().contains(t) {
                        old(self).unrec()
                    } else {
                        old(self).unrec().push(t)
                    }
                }
            },
            is_resp_line(clean_of(line@)) ==> {
                let t = clean_of(line@);
                &&& final(self).unrecognized == old(self).unrecognized
                &&& match resp_code_ok(t) {
                    Some(code) => if old(self).sent().len() == 0 {
                        r == RespOutcome::NoCommand && *final(self) == *old(self)
                    } else {
                        let cmd = old(self).sent()[0];
                        &&& final(self).sent().len() == 0
                        &&& if code < 0 {
                            &&& r == RespOutcome::ProtocolError(code as isize)
                            &&& final(self).sims() == old(self).sims()
                            &&& final(self).insts() == err_insts(old(self).insts(), cmd, code)
                            &&& final(self).conns() == err_conns(old(self).conns(), cmd)
                        } else {
                            &&& r == RespOutcome::Success
                            &&& final(self).sims() == ok_sims(
                                old(self).sims(),
                                old(self).insts(),
                                cmd,
                                t,
                            )
                            &&& final(self).insts() == ok_insts(old(self).insts(), cmd, code)
                            &&& final(self).conns() == ok_conns(old(self).conns(), cmd)
                        }
                    },
                    None => r == RespOutcome::BadResponse && *final(self) == *old(self),
                }
            },
    {
        proof {
            reveal_strlit("mod-host>");
            reveal_strlit("resp ");
            reveal_strlit("add");
            reveal_strlit("remove");
            reveal_strlit("param_get");
            reveal_strlit("param_set");
            reveal_strlit("connect");
            reveal_strlit("disconnect");
        }
        let t0 = trim(line);
        let t0len = t0.unicode_len();
        let cleaned: &str = if t0len > 8 && starts_with(t0, "mod-host>") {
            trim(t0.substring_char(9, t0len))
        } else {
            t0
        };
        proof {
            assert(cleaned@ == clean_of(line@));
        }
        let tlen = cleaned.unicode_len();
        if tlen > 5 && starts_with(cleaned, "resp ") {
            proof {
                assert(is_resp_line(clean_of(line@)));
            }
            let rpart = cleaned.substring_char(5, tlen);
            let sp = ws_from(rpart, 0);
            let tok = rpart.substring_char(0, sp);
            proof {
                assert(rpart@ == clean_of(line@).subrange(5, clean_of(line@).len() as int));
                assert(tok@ == rpart@.subrange(0, ws_at(rpart@, 0)));
            }
            match parse_isize(tok) {
                None => {
                    return RespOutcome::BadResponse;
                },
                Some(code) => {
                    if self.sent_commands.len() == 0 {
                        return RespOutcome::NoCommand;
                    }
                    let cmd = self.sent_commands.remove(0);
                    proof {
                        assert(cmd@ == old(self).sent()[0]);
                        assert(self.sent() =~= Seq::<Seq<char>>::empty());
                        assert(self.connections == old(self).connections);
                        assert(self.conns() == old(self).conns());
                        assert(self.conn_keys_unique());
                        assert(self.wf());
                    }
                    let clen = cmd.as_str().unicode_len();
                    let csp = find_from(cmd.as_str(), 0, ' ');
                    let word = cmd.as_str().substring_char(0, csp);
                    proof {
                        assert(word@ == first_word_of(cmd@));
                    }
                    if code < 0 {
                        if str_eq(word, "connect") && csp < clen {
                            let key = cmd.as_str().substring_char(csp + 1, clen);
                            self.set_connection(key, ConDisconFlight::Disconnected);
                        } else if str_eq(word, "disconnect") && csp < clen {
                            let key = cmd.as_str().substring_char(csp + 1, clen);
                            self.set_connection(key, ConDisconFlight::Connected);
                        }
                        if str_eq(word, "add") {
                            match last_usize_token(cmd.as_str()) {
                                Some(id) => {
                                    self.set_instance_status(id, Status::Unloaded);
                                },
                                None => {},
                            }
                        }
                        if code == -201 {
                            self.set_all_unloaded();
                        }
                        proof {
                            assert(self.insts() == err_insts(old(self).insts(), cmd@, code as int));
                            assert(self.conns() == err_conns(old(self).conns(), cmd@));
                        }
                        return RespOutcome::ProtocolError(code);
                    } else {
                        if str_eq(word, "add") {
                            match last_usize_token(cmd.as_str()) {
                                Some(id) => {
                                    if code as usize == id {
                                        self.set_instance_status(id, Status::Loaded);
                                    }
                                },
                                None => {},
                            }
                        } else if str_eq(word, "remove") {
                            if code == 0 {
                                match last_usize_token(cmd.as_str()) {
                                    Some(id) => {
                                        self.set_instance_status(id, Status::Unloaded);
                                    },
                                    None => {},
                                }
                            }
                        } else if str_eq(word, "param_get") {
                            match param_target_exec(cmd.as_str()) {
                                Some(target) => {
                                    let rplen = rpart.unicode_len();
                                    let value = trim(rpart.substring_char(sp, rplen));
                                    proof {
                                        assert(value@ == resp_value_of(clean_of(line@)));
                                    }
                                    self.set_port_value(target.0, target.1.as_str(), value);
                                },
                                None => {},
                            }
                        } else if str_eq(word, "param_set") {
                            match param_target_exec(cmd.as_str()) {
                                Some(target) => {
                                    let value = String::from_str(set_value_exec(cmd.as_str()));
                                    self.set_port_value(target.0, target.1.as_str(), value.as_str());
                                },
                                None => {},
                            }
                        } else if str_eq(word, "connect") && csp < clen {
                            let key = cmd.as_str().substring_char(csp + 1, clen);
                            self.set_connection(key, ConDisconFlight::Connected);
                        } else if str_eq(word, "disconnect") && csp < clen {
                            let key = cmd.as_str().substring_char(csp + 1, clen);
                            self.set_connection(key, ConDisconFlight::Disconnected);
                        }
                        proof {
                            assert(self.sims() == ok_sims(
                                old(self).sims(),
                                old(self).insts(),
                                cmd@,
                                clean_of(line@),
                            ));
                            assert(self.insts() == ok_insts(old(self).insts(), cmd@, code as int));
                            assert(self.conns() == ok_conns(old(self).conns(), cmd@));
                        }
                        return RespOutcome::Success;
                    }
                },
            }
        }
        if tlen == 0 {
            return RespOutcome::Ignored;
        }
        if str_eq(cleaned, "using block size: 1024") || str_eq(cleaned, "chump") || str_eq(
            cleaned,
            "bigchump",
        ) || str_eq(cleaned, "vibrochump") {
            return RespOutcome::Ignored;
        }
        let spc = find_from(cleaned, 0, ' ');
        if spc == tlen {
            return RespOutcome::Ignored;
        }
        if self.sent_commands.len() > 0 {
            return RespOutcome::Ignored;
        }
        let fresh = !crate::builder::contains_string(&self.unrecognized, cleaned);
        if fresh {
            self.unrecognized.push(String::from_str(cleaned));
            proof {
                assert(self.unrec() =~= old(self).unrec().push(clean_of(line@)));
            }
        }
        RespOutcome::Unrecognized(fresh)
    }
}

/// Index of the first plugin with url `url`, from `from`; the length if
/// there is none.
pub open spec fn lv2_idx_at(sims: Seq<Lv2V>, from: int, url: Seq<char>) -> int
    decreases sims.len() - from,
{
    if 0 <= from < sims.len() {
        if sims[from].url == url {
            from
        } else {
            lv2_idx_at(sims, from + 1, url)
        }
    } else {
        sims.len() as int
    }
}

/// The first plugin with url `url`, if any.
pub open spec fn find_lv2(sims: Seq<Lv2V>, url: Seq<char>) -> Option<Lv2V> {
    let i = lv2_idx_at(sims, 0, url);
    if i < sims.len() {
        Some(sims[i])
    } else {
        None
    }
}

/// Index of the first port with symbol `sym`, from `from`; the length if
/// there is none.
pub open spec fn port_idx_at(ports: Seq<crate::port::PortV>, from: int, sym: Seq<char>) -> int
    decreases ports.len() - from,
{
    if 0 <= from < ports.len() {
        if ports[from].symbol == sym {
            from
        } else {
            port_idx_at(ports, from + 1, sym)
        }
    } else {
        ports.len() as int
    }
}

/// The first port with symbol `sym`, if any.
pub open spec fn find_port(ports: Seq<crate::port::PortV>, sym: Seq<char>) -> Option<
    crate::port::PortV,
> {
    let i = port_idx_at(ports, 0, sym);
    if i < ports.len() {
        Some(ports[i])
    } else {
        None
    }
}

/// Index of the first control entry among `types`, from `from`; the
/// length if there is none.
pub open spec fn ctrl_idx_at(types: Seq<crate::port::PortTypeV>, from: int) -> int
    decreases types.len() - from,
{
    if 0 <= from < types.len() {
        if types[from] is Control {
            from
        } else {
            ctrl_idx_at(types, from + 1)
        }
    } else {
        types.len() as int
    }
}

/// The first control classification among `types`, if any.
pub open spec fn find_control(types: Seq<crate::port::PortTypeV>) -> Option<crate::port::CppV> {
    let i = ctrl_idx_at(types, 0);
    if i < types.len() {
        match types[i] {
            crate::port::PortTypeV::Control(c) => Some(c),
            _ => None,
        }
    } else {
        None
    }
}

proof fn lemma_lv2_idx_scan(sims: Seq<Lv2V>, from: int, i: int, url: Seq<char>)
    requires
        0 <= from <= i <= sims.len(),
        i < sims.len() ==> sims[i].url == url,
        forall|j: int| from <= j < i ==> (#[trigger] sims[j]).url != url,
    ensures
        lv2_idx_at(sims, from, url) == i,
    decreases i - from,
{
    if from < i {
        lemma_lv2_idx_scan(sims, from + 1, i, url);
    }
}

proof fn lemma_port_idx_scan(ports: Seq<crate::port::PortV>, from: int, i: int, sym: Seq<char>)
    requires
        0 <= from <= i <= ports.len(),
        i < ports.len() ==> ports[i].symbol == sym,
        forall|j: int| from <= j < i ==> (#[trigger] ports[j]).symbol != sym,
    ensures
        port_idx_at(ports, from, sym) == i,
    decreases i - from,
{
    if from < i {
        lemma_port_idx_scan(ports, from + 1, i, sym);
    }
}

proof fn lemma_ctrl_idx_scan(types: Seq<crate::port::PortTypeV>, from: int, i: int)
    requires
        0 <= from <= i <= types.len(),
        i < types.len() ==> types[i] is Control,
        forall|j: int| from <= j < i ==> !((#[trigger] types[j]) is Control),
    ensures
        ctrl_idx_at(types, from) == i,
    decreases i - from,
{
    if from < i {
        lemma_ctrl_idx_scan(types, from + 1, i);
    }
}

/// What the lines parse to, where they all parse.
pub open spec fn parsed_data(kept: Seq<Seq<char>>) -> Seq<crate::lv2::DatumV> {
    Seq::new(kept.len(), |k: int| crate::builder::parse_line_spec(kept[k]).unwrap())
}

impl ModHostController {
    /// The first plugin with url `url`, if any.
    pub fn get_lv2_by_url(&self, url: &str) -> (r: Option<&Lv2>)
        ensures
            match r {
                Some(l) => find_lv2(self.sims(), url@) == Some(l@),
                None => find_lv2(self.sims(), url@) is None,
            },
    {
        let n = self.simulators.len();
        let mut i: usize = 0;
        while i < n
            invariant
                i <= n,
                n == self.simulators@.len(),
                forall|j: int| 0 <= j < i ==> (#[trigger] self.sims()[j]).url != url@,
            decreases n - i,
        {
            if str_eq(self.simulators[i].url.as_str(), url) {
                proof {
                    lemma_lv2_idx_scan(self.sims(), 0, i as int, url@);
                }
                return Some(&self.simulators[i]);
            }
            i += 1;
        }
        proof {
            lemma_lv2_idx_scan(self.sims(), 0, n as int, url@);
        }
        None
    }

    /// The plugin, port and control classification that `get_default`
    /// reads all exist, and a scale has at least one pair.
    pub open spec fn default_target_ok(sims: Seq<Lv2V>, url: Seq<char>, sym: Seq<char>) -> bool {
        match find_lv2(sims, url) {
            Some(l) => match find_port(l.ports, sym) {
                Some(p) => match find_control(p.types) {
                    Some(c) => match c {
                        crate::port::CppV::Scale(sc) => sc.labels_values.len() > 0,
                        crate::port::CppV::Continuous(_) => true,
                    },
                    None => false,
                },
                None => false,
            },
            None => false,
        }
    }

    /// The default value `get_default` returns.
    pub open spec fn default_of(sims: Seq<Lv2V>, url: Seq<char>, sym: Seq<char>) -> Seq<char> {
        match find_control(find_port(find_lv2(sims, url).unwrap().ports, sym).unwrap().types).unwrap() {
            crate::port::CppV::Continuous(cc) => cc.default,
            crate::port::CppV::Scale(sc) => sc.labels_values[0].0,
        }
    }

    /// The default value of a control port: the stored default text for a
    /// continuous control, the first label for a scale.  The plugin, the
    /// port, and its control classification must exist.
    pub fn get_default(&self, lv2_url: &str, port_symb: &str) -> (r: String)
        requires
            Self::default_target_ok(self.sims(), lv2_url@, port_symb@),
        ensures
            r@ == Self::default_of(self.sims(), lv2_url@, port_symb@),
    {
        let n = self.simulators.len();
        let mut i: usize = 0;
        while i < n
            invariant
                i <= n,
                n == self.simulators@.len(),
                Self::default_target_ok(self.sims(), lv2_url@, port_symb@),
                forall|j: int| 0 <= j < i ==> (#[trigger] self.sims()[j]).url != lv2_url@,
            decreases n - i,
        {
            if str_eq(self.simulators[i].url.as_str(), lv2_url) {
                proof {
                    lemma_lv2_idx_scan(self.sims(), 0, i as int, lv2_url@);
                }
                let lv2 = &self.simulators[i];
                let m = lv2.ports.len();
                let mut k: usize = 0;
                while k < m
                    invariant
                        m == lv2.ports@.len(),
                        k <= m,
                        Self::default_target_ok(self.sims(), lv2_url@, port_symb@),
                        lv2@ == find_lv2(self.sims(), lv2_url@).unwrap(),
                        forall|j: int| 0 <= j < k ==> (#[trigger] lv2@.ports[j]).symbol != port_symb@,
                    decreases m - k,
                {
                    if str_eq(lv2.ports[k].symbol.as_str(), port_symb) {
                        proof {
                            lemma_port_idx_scan(lv2@.ports, 0, k as int, port_symb@);
                        }
                        let port = &lv2.ports[k];
                        let tn = port.types.len();
                        let mut q: usize = 0;
                        while q < tn
                            invariant
                                tn == port.types@.len(),
                                q <= tn,
                                Self::default_target_ok(self.sims(), lv2_url@, port_symb@),
                                lv2@ == find_lv2(self.sims(), lv2_url@).unwrap(),
                                port@ == find_port(lv2@.ports, port_symb@).unwrap(),
                                forall|j: int|
                                    0 <= j < q ==> !((#[trigger] port@.types[j]) is Control),
                            decreases tn - q,
                        {
                            match &port.types[q] {
                                crate::port::PortType::Control(cpp) => {
                                    proof {
                                        lemma_ctrl_idx_scan(port@.types, 0, q as int);
                                        assert(find_control(port@.types) == Some(cpp@));
                                    }
                                    match cpp {
                                        crate::port::ControlPortProperties::Continuous(cc) => {
                                            return cc.default.clone();
                                        },
                                        crate::port::ControlPortProperties::Scale(sc) => {
                                            return sc.labels_values[0].0.clone();
                                        },
                                    }
                                },
                                _ => {},
                            }
                            q += 1;
                        }
                        proof {
                            lemma_ctrl_idx_scan(port@.types, 0, tn as int);
                            assert(false);
                        }
                    }
                    k += 1;
                }
                proof {
                    lemma_port_idx_scan(lv2@.ports, 0, m as int, port_symb@);
                    assert(false);
                }
            }
            i += 1;
        }
        proof {
            lemma_lv2_idx_scan(self.sims(), 0, n as int, lv2_url@);
            assert(false);
        }
        String::new()
    }

    /// Build the engine from the triple stream: parse the lines, assemble
    /// the plugins, and start with nothing queued, nothing in flight, no
    /// tracked instances and no tracked connections.  The first malformed
    /// line aborts with that line as the error.
    pub fn get_lv2_controller(lines: &Vec<String>) -> (r: Result<ModHostController, String>)
        ensures
            match r {
                Ok(c) => {
                    let kept = crate::builder::kept_lines(lines.deep_view());
                    let data = parsed_data(kept);
                    &&& forall|k: int|
                        0 <= k < kept.len() ==> crate::builder::parse_line_spec(
                            #[trigger] kept[k],
                        ) is Some
                    &&& c.wf()
                    &&& c.sims() == crate::builder::build_upto(data, data.len() as int)
                    &&& c.insts().len() == 0
                    &&& c.queue().len() == 0
                    &&& c.sent().len() == 0
                    &&& c.conns().len() == 0
                    &&& c.unrec().len() == 0
                    &&& c.buffer@.len() == 0
                },
                Err(l) => {
                    let kept = crate::builder::kept_lines(lines.deep_view());
                    exists|k: int|
                        0 <= k < kept.len() && crate::builder::parse_line_spec(
                            #[trigger] kept[k],
                        ) is None && l@ == kept[k] && forall|j: int|
                            0 <= j < k ==> crate::builder::parse_line_spec(kept[j]) is Some
                },
            },
    {
        let data = match crate::builder::parse_lv2_data(lines) {
            Ok(d) => d,
            Err(l) => {
                return Err(l);
            },
        };
        let simulators = crate::builder::build_simulators(&data);
        proof {
            let kept = crate::builder::kept_lines(lines.deep_view());
            assert forall|k: int| 0 <= k < kept.len() implies crate::builder::parse_line_spec(
                #[trigger] kept[k],
            ) is Some by {
                assert(crate::builder::parse_line_spec(kept[k]) == Some(data.deep_view()[k]));
            }
            assert(data.deep_view() =~= parsed_data(kept));
            assert(simulators@.map_values(|l: Lv2| l@) == crate::builder::build_upto(
                parsed_data(kept),
                parsed_data(kept).len() as int,
            ));
        }
        let c = ModHostController {
            simulators,
            instances: Vec::new(),
            mh_command_queue: Vec::new(),
            sent_commands: Vec::new(),
            connections: Vec::new(),
            unrecognized: Vec::new(),
            buffer: String::new(),
        };
        Ok(c)
    }
}

/// For a command built as `word + " " + rest` whose leading word has no
/// space in it, the parsed leading word and key are exactly those parts.
proof fn lemma_built_cmd(word: Seq<char>, rest: Seq<char>)
    requires
        forall|i: int| 0 <= i < word.len() ==> word[i] != ' ',
    ensures
        first_word_of(word + " "@ + rest) == word,
        has_args(word + " "@ + rest),
        conn_key_of(word + " "@ + rest) == rest,
{
    reveal_strlit(" ");
    let cmd = word + " "@ + rest;
    assert(cmd[word.len() as int] == ' ');
    assert forall|i: int| 0 <= i < word.len() implies cmd[i] != ' ' by {
        assert(cmd[i] == word[i]);
    }
    lemma_find_at_of_scan(cmd, 0, word.len() as int, ' ');
    assert(first_word_of(cmd) =~= word);
    assert(conn_key_of(cmd) =~= rest);
}

impl ModHostController {
    /// Build `word + " " + rest` as one string.
    fn build_cmd(word: &str, rest: &str) -> (r: String)
        ensures
            r@ == word@ + " "@ + rest@,
    {
        let mut r = String::from_str(word);
        r.append(" ");
        r.append(rest);
        proof {
            assert(r@ =~= word@ + " "@ + rest@);
        }
        r
    }

    /// Queue the command that loads the plugin `url` into slot `mh_id`:
    /// `add <url> <mh_id>`.
    pub fn queue_add_command(&mut self, url: &str, mh_id: usize)
        requires
            old(self).wf(),
        ensures
            final(self).wf(),
            final(self).queue() == old(self).queue().push(
                "add "@ + url@ + " "@ + dec_digits(mh_id as nat),
            ),
            final(self).simulators == old(self).simulators,
            final(self).instances == old(self).instances,
            final(self).sent_commands == old(self).sent_commands,
            final(self).conns() == old(self).conns(),
            final(self).unrecognized == old(self).unrecognized,
            final(self).buffer == old(self).buffer,
    {
        proof {
            reveal_strlit("add");
            reveal_strlit("add ");
            reveal_strlit("connect");
            reveal_strlit("disconnect");
            reveal_strlit(" ");
        }
        let mut rest = String::from_str(url);
        rest.append(" ");
        rest.append(usize_to_string(mh_id).as_str());
        let cmd = Self::build_cmd("add", rest.as_str());
        proof {
            lemma_built_cmd("add"@, rest@);
            assert(!is_conn_cmd(cmd@));
            assert(cmd@ =~= "add "@ + url@ + " "@ + dec_digits(mh_id as nat));
        }
        self.send_mh_cmd(cmd.as_str());
    }

    /// Queue the command that unloads slot `mh_id`: `remove <mh_id>`.
    pub fn queue_remove_command(&mut self, mh_id: usize)
        requires
            old(self).wf(),
        ensures
            final(self).wf(),
            final(self).queue() == old(self).queue().push(
                "remove "@ + dec_digits(mh_id as nat),
            ),
            final(self).simulators == old(self).simulators,
            final(self).instances == old(self).instances,
            final(self).sent_commands == old(self).sent_commands,
            final(self).conns() == old(self).conns(),
            final(self).unrecognized == old(self).unrecognized,
            final(self).buffer == old(self).buffer,
    {
        proof {
            reveal_strlit("remove");
            reveal_strlit("remove ");
            reveal_strlit("connect");
            reveal_strlit("disconnect");
            reveal_strlit(" ");
        }
        let num = usize_to_string(mh_id);
        let cmd = Self::build_cmd("remove", num.as_str());
        proof {
            lemma_built_cmd("remove"@, num@);
            assert(!is_conn_cmd(cmd@));
            assert(cmd@ =~= "remove "@ + dec_digits(mh_id as nat));
        }
        self.send_mh_cmd(cmd.as_str());
    }

    /// Queue the command that asks for a port's value:
    /// `param_get <mh_id> <symbol>`.
    pub fn queue_param_get(&mut self, mh_id: usize, symbol: &str)
        requires
            old(self).wf(),
        ensures
            final(self).wf(),
            final(self).queue() == old(self).queue().push(
                "param_get "@ + dec_digits(mh_id as nat) + " "@ + symbol@,
            ),
            final(self).simulators == old(self).simulators,
            final(self).instances == old(self).instances,
            final(self).sent_commands == old(self).sent_commands,
            final(self).conns() == old(self).conns(),
            final(self).unrecognized == old(self).unrecognized,
            final(self).buffer == old(self).buffer,
    {
        proof {
            reveal_strlit("param_get");
            reveal_strlit("param_get ");
            reveal_strlit("connect");
            reveal_strlit("disconnect");
            reveal_strlit(" ");
        }
        let mut rest = usize_to_string(mh_id);
        rest.append(" ");
        rest.append(symbol);
        let cmd = Self::build_cmd("param_get", rest.as_str());
        proof {
            lemma_built_cmd("param_get"@, rest@);
            assert(!is_conn_cmd(cmd@));
            assert(cmd@ =~= "param_get "@ + dec_digits(mh_id as nat) + " "@ + symbol@);
        }
        self.send_mh_cmd(cmd.as_str());
    }

    /// Queue the command that sets a port's value:
    /// `param_set <mh_id> <symbol> <value>`.
    pub fn queue_param_set(&mut self, mh_id: usize, symbol: &str, value: &str)
        requires
            old(self).wf(),
        ensures
            final(self).wf(),
            final(self).queue() == old(self).queue().push(
                "param_set "@ + dec_digits(mh_id as nat) + " "@ + symbol@ + " "@ + value@,
            ),
            final(self).simulators == old(self).simulators,
            final(self).instances == old(self).instances,
            final(self).sent_commands == old(self).sent_commands,
            final(self).conns() == old(self).conns(),
            final(self).unrecognized == old(self).unrecognized,
            final(self).buffer == old(self).buffer,
    {
        proof {
            reveal_strlit("param_set");
            reveal_strlit("param_set ");
            reveal_strlit("connect");
            reveal_strlit("disconnect");
            reveal_strlit(" ");
        }
        let mut rest = usize_to_string(mh_id);
        rest.append(" ");
        rest.append(symbol);
        rest.append(" ");
        rest.append(value);
        let cmd = Self::build_cmd("param_set", rest.as_str());
        proof {
            lemma_built_cmd("param_set"@, rest@);
            assert(!is_conn_cmd(cmd@));
            assert(cmd@ =~= "param_set "@ + dec_digits(mh_id as nat) + " "@ + symbol@ + " "@
                + value@);
        }
        self.send_mh_cmd(cmd.as_str());
    }

    /// Queue `connect <left> <right>`, under the tracker's no-op
    /// suppression for the key `<left> <right>`.
    pub fn queue_connect(&mut self, left: &str, right: &str)
        requires
            old(self).wf(),
        ensures
            final(self).wf(),
            final(self).simulators == old(self).simulators,
            final(self).instances == old(self).instances,
            final(self).sent_commands == old(self).sent_commands,
            final(self).unrecognized == old(self).unrecognized,
            final(self).buffer == old(self).buffer,
            conn_noop(old(self).conns(), "connect "@ + left@ + " "@ + right@) ==> final(self).queue() == old(self).queue() && final(self).conns() == old(self).conns(),
            !conn_noop(old(self).conns(), "connect "@ + left@ + " "@ + right@) ==> final(self).queue() == old(self).queue().push("connect "@ + left@ + " "@ + right@) && final(self).conns() == conn_set(
                old(self).conns(),
                left@ + " "@ + right@,
                ConDisconFlight::InFlight,
            ),
    {
        proof {
            reveal_strlit("connect");
            reveal_strlit("connect ");
            reveal_strlit(" ");
        }
        let mut rest = String::from_str(left);
        rest.append(" ");
        rest.append(right);
        let cmd = Self::build_cmd("connect", rest.as_str());
        proof {
            lemma_built_cmd("connect"@, rest@);
            assert(is_conn_cmd(cmd@));
            assert(cmd@ =~= "connect "@ + left@ + " "@ + right@);
            assert(conn_key_of(cmd@) == left@ + " "@ + right@);
        }
        self.send_mh_cmd(cmd.as_str());
    }

    /// Queue `disconnect <left> <right>`, under the tracker's no-op
    /// suppression for the key `<left> <right>`.
    pub fn queue_disconnect(&mut self, left: &str, right: &str)
        requires
            old(self).wf(),
        ensures
            final(self).wf(),
            final(self).simulators == old(self).simulators,
            final(self).instances == old(self).instances,
            final(self).sent_commands == old(self).sent_commands,
            final(self).unrecognized == old(self).unrecognized,
            final(self).buffer == old(self).buffer,
            conn_noop(old(self).conns(), "disconnect "@ + left@ + " "@ + right@) ==> final(self).queue() == old(self).queue() && final(self).conns() == old(self).conns(),
            !conn_noop(old(self).conns(), "disconnect "@ + left@ + " "@ + right@) ==> final(self).queue() == old(self).queue().push("disconnect "@ + left@ + " "@ + right@) && final(self).conns() == conn_set(
                old(self).conns(),
                left@ + " "@ + right@,
                ConDisconFlight::InFlight,
            ),
    {
        proof {
            reveal_strlit("disconnect");
            reveal_strlit("disconnect ");
            reveal_strlit(" ");
        }
        let mut rest = String::from_str(left);
        rest.append(" ");
        rest.append(right);
        let cmd = Self::build_cmd("disconnect", rest.as_str());
        proof {
            lemma_built_cmd("disconnect"@, rest@);
            assert(is_conn_cmd(cmd@));
            assert(cmd@ =~= "disconnect "@ + left@ + " "@ + right@);
            assert(conn_key_of(cmd@) == left@ + " "@ + right@);
        }
        self.send_mh_cmd(cmd.as_str());
    }
}

/// Is the port an audio input: typed both `Input` and `Audio`?
pub open spec fn is_audio_in(p: crate::port::PortV) -> bool {
    p.types.contains(crate::port::PortTypeV::Input) && p.types.contains(
        crate::port::PortTypeV::Audio,
    )
}

/// Is the port an audio output: typed both `Output` and `Audio`?
pub open spec fn is_audio_out(p: crate::port::PortV) -> bool {
    p.types.contains(crate::port::PortTypeV::Output) && p.types.contains(
        crate::port::PortTypeV::Audio,
    )
}

/// The text `effect_<mh_id>:<symbol>`: how the host names a port of a
/// loaded instance.
pub open spec fn effect_port(mh_id: nat, symbol: Seq<char>) -> Seq<char> {
    "effect_"@ + dec_digits(mh_id) + ":"@ + symbol
}

/// The connect commands that wire the audio inputs of `ports` (from
/// position `k` on) to the system's capture ports, numbering captures
/// from `i`: one `connect system:capture_<i> effect_<mh_id>:<symbol>` for
/// each audio input, in port order.
pub open spec fn input_cmds(ports: Seq<crate::port::PortV>, k: int, mh_id: nat, i: nat) -> Seq<
    Seq<char>,
>
    decreases ports.len() - k,
{
    if 0 <= k < ports.len() {
        if is_audio_in(ports[k]) {
            seq![
                "connect system:capture_"@ + dec_digits(i) + " "@ + effect_port(
                    mh_id,
                    ports[k].symbol,
                ),
            ] + input_cmds(ports, k + 1, mh_id, i + 1)
        } else {
            input_cmds(ports, k + 1, mh_id, i)
        }
    } else {
        Seq::empty()
    }
}

/// The connect commands that wire the audio outputs of `ports` (from
/// position `k` on) to the system's playback ports, numbering playbacks
/// from `i`.
pub open spec fn output_cmds(ports: Seq<crate::port::PortV>, k: int, mh_id: nat, i: nat) -> Seq<
    Seq<char>,
>
    decreases ports.len() - k,
{
    if 0 <= k < ports.len() {
        if is_audio_out(ports[k]) {
            seq![
                "connect "@ + effect_port(mh_id, ports[k].symbol) + " system:playback_"@
                    + dec_digits(i),
            ] + output_cmds(ports, k + 1, mh_id, i + 1)
        } else {
            output_cmds(ports, k + 1, mh_id, i)
        }
    } else {
        Seq::empty()
    }
}

/// Does the port carry the given type?
fn port_has_type(p: &crate::port::Port, want_input: bool) -> (r: (bool, bool))
    ensures
        r.0 == (if want_input {
            p@.types.contains(crate::port::PortTypeV::Input)
        } else {
            p@.types.contains(crate::port::PortTypeV::Output)
        }),
        r.1 == p@.types.contains(crate::port::PortTypeV::Audio),
{
    let n = p.types.len();
    let mut has_dir = false;
    let mut has_audio = false;
    let mut i: usize = 0;
    while i < n
        invariant
            i <= n,
            n == p.types@.len(),
            has_dir == exists|j: int|
                0 <= j < i && (#[trigger] p@.types[j]) == (if want_input {
                    crate::port::PortTypeV::Input
                } else {
                    crate::port::PortTypeV::Output
                }),
            has_audio == exists|j: int|
                0 <= j < i && (#[trigger] p@.types[j]) == crate::port::PortTypeV::Audio,
        decreases n - i,
    {
        match &p.types[i] {
            crate::port::PortType::Input => {
                if want_input {
                    proof {
                        assert(p@.types[i as int] == crate::port::PortTypeV::Input);
                    }
                    has_dir = true;
                }
            },
            crate::port::PortType::Output => {
                if !want_input {
                    proof {
                        assert(p@.types[i as int] == crate::port::PortTypeV::Output);
                    }
                    has_dir = true;
                }
            },
            crate::port::PortType::Audio => {
                proof {
                    assert(p@.types[i as int] == crate::port::PortTypeV::Audio);
                }
                has_audio = true;
            },
            _ => {},
        }
        proof {
            assert(p@.types[i as int] == p.types@[i as int]@);
        }
        i += 1;
    }
    (has_dir, has_audio)
}

impl ModHostController {
    /// The connect commands that wire a loaded instance's audio inputs to
    /// the system's capture ports and its audio outputs to the system's
    /// playback ports, each side numbered from one in port order.
    pub fn audio_connect_commands(lv2: &Lv2, mh_id: usize) -> (r: (Vec<String>, Vec<String>))
        requires
            lv2.ports@.len() < usize::MAX,
        ensures
            r.0.deep_view() == input_cmds(lv2@.ports, 0, mh_id as nat, 1),
            r.1.deep_view() == output_cmds(lv2@.ports, 0, mh_id as nat, 1),
    {
        proof {
            reveal_strlit("connect system:capture_");
            reveal_strlit("connect ");
            reveal_strlit(" system:playback_");
            reveal_strlit("effect_");
            reveal_strlit(":");
            reveal_strlit(" ");
        }
        let n = lv2.ports.len();
        let mut inputs: Vec<String> = Vec::new();
        let mut outputs: Vec<String> = Vec::new();
        let mut ni: usize = 1;
        let mut no: usize = 1;
        let mut k: usize = 0;
        while k < n
            invariant
                k <= n,
                n == lv2.ports@.len(),
                n < usize::MAX,
                1 <= ni <= k + 1,
                1 <= no <= k + 1,
                inputs.deep_view() + input_cmds(lv2@.ports, k as int, mh_id as nat, ni as nat)
                    =~= input_cmds(lv2@.ports, 0, mh_id as nat, 1),
                outputs.deep_view() + output_cmds(lv2@.ports, k as int, mh_id as nat, no as nat)
                    =~= output_cmds(lv2@.ports, 0, mh_id as nat, 1),
            decreases n - k,
        {
            proof {
                reveal_strlit("connect system:capture_");
                reveal_strlit("connect ");
                reveal_strlit(" system:playback_");
                reveal_strlit("effect_");
                reveal_strlit(":");
                reveal_strlit(" ");
            }
            let port = &lv2.ports[k];
            let (is_in, audio_a) = port_has_type(port, true);
            if is_in && audio_a {
                let mut cmd = String::from_str("connect system:capture_");
                cmd.append(usize_to_string(ni).as_str());
                cmd.append(" ");
                cmd.append("effect_");
                cmd.append(usize_to_string(mh_id).as_str());
                cmd.append(":");
                cmd.append(port.symbol.as_str());
                proof {
                    assert(cmd@ =~= "connect system:capture_"@ + dec_digits(ni as nat) + " "@
                        + effect_port(mh_id as nat, lv2@.ports[k as int].symbol));
                }
                let ghost pre = inputs.deep_view();
                inputs.push(cmd);
                proof {
                    assert(is_audio_in(lv2@.ports[k as int]));
                    assert(inputs.deep_view() =~= pre.push(
                        "connect system:capture_"@ + dec_digits(ni as nat) + " "@ + effect_port(
                            mh_id as nat,
                            lv2@.ports[k as int].symbol,
                        ),
                    ));
                }
                ni = ni + 1;
            } else {
                proof {
                    assert(!is_audio_in(lv2@.ports[k as int]));
                }
            }
            let (is_out, audio_b) = port_has_type(port, false);
            if is_out && audio_b {
                let mut cmd = String::from_str("connect ");
                cmd.append("effect_");
                cmd.append(usize_to_string(mh_id).as_str());
                cmd.append(":");
                cmd.append(port.symbol.as_str());
                cmd.append(" system:playback_");
                cmd.append(usize_to_string(no).as_str());
                proof {
                    assert(cmd@ =~= "connect "@ + effect_port(
                        mh_id as nat,
                        lv2@.ports[k as int].symbol,
                    ) + " system:playback_"@ + dec_digits(no as nat));
                }
                let ghost pre = outputs.deep_view();
                outputs.push(cmd);
                proof {
                    assert(is_audio_out(lv2@.ports[k as int]));
                    assert(outputs.deep_view() =~= pre.push(
                        "connect "@ + effect_port(mh_id as nat, lv2@.ports[k as int].symbol)
                            + " system:playback_"@ + dec_digits(no as nat),
                    ));
                }
                no = no + 1;
            } else {
                proof {
                    assert(!is_audio_out(lv2@.ports[k as int]));
                }
            }
            k += 1;
        }
        proof {
            assert(input_cmds(lv2@.ports, n as int, mh_id as nat, ni as nat)
                =~= Seq::<Seq<char>>::empty());
            assert(output_cmds(lv2@.ports, n as int, mh_id as nat, no as nat)
                =~= Seq::<Seq<char>>::empty());
            assert(inputs.deep_view() =~= input_cmds(lv2@.ports, 0, mh_id as nat, 1));
            assert(outputs.deep_view() =~= output_cmds(lv2@.ports, 0, mh_id as nat, 1));
        }
        (inputs, outputs)
    }
}

/// The symbolic name of a host error code.
pub open spec fn error_name(error: int) -> Seq<char> {
    if error == -1 {
        "ERR_INSTANCE_INVALID"@
    } else if error == -2 {
        "ERR_INSTANCE_ALREADY_EXISTS"@
    } else if error == -3 {
        "ERR_INSTANCE_NON_EXISTS"@
    } else if error == -4 {
        "ERR_INSTANCE_UNLICENSED"@
    } else if error == -101 {
        "ERR_LV2_INVALID_URI"@
    } else if error == -102 {
        "ERR_LV2_INSTANTIATION"@
    } else if error == -103 {
        "ERR_LV2_INVALID_PARAM_SYMBOL"@
    } else if error == -104 {
        "ERR_LV2_INVALID_PRESET_URI"@
    } else if error == -105 {
        "ERR_LV2_CANT_LOAD_STATE"@
    } else if error == -201 {
        "ERR_JACK_CLIENT_CREATION"@
    } else if error == -202 {
        "ERR_JACK_CLIENT_ACTIVATION"@
    } else if error == -203 {
        "ERR_JACK_CLIENT_DEACTIVATION"@
    } else if error == -204 {
        "ERR_JACK_PORT_REGISTER"@
    } else if error == -205 {
        "ERR_JACK_PORT_CONNECTION"@
    } else if error == -206 {
        "ERR_JACK_PORT_DISCONNECTION"@
    } else if error == -301 {
        "ERR_ASSIGNMENT_ALREADY_EXISTS"@
    } else if error == -302 {
        "ERR_ASSIGNMENT_INVALID_OP"@
    } else if error == -303 {
        "ERR_ASSIGNMENT_LIST_FULL"@
    } else if error == -304 {
        "ERR_ASSIGNMENT_FAILED"@
    } else if error == -401 {
        "ERR_CONTROL_CHAIN_UNAVAILABLE"@
    } else if error == -402 {
        "ERR_LINK_UNAVAILABLE"@
    } else if error == -901 {
        "ERR_MEMORY_ALLOCATION"@
    } else if error == -902 {
        "ERR_INVALID_OPERATION"@
    } else {
        "Unknown error code: "@ + int_digits(error)
    }
}

} // verus!

//! The desktop app as launcher and client of its own server: what it
//! learns from the server's stdout, the status it shows, where it looks for
//! the server binary, and the small decisions of its control-plane client.
//! Spawning, reading the pipe and talking to the UI are the program's job.
use vstd::prelude::*;
use crate::config::joined;
use crate::text::{chars_of, string_of, starts_with, trim, trimmed, has_prefix, same_text};

verus! {

pub open spec fn opt_view(o: Option<String>) -> Option<Seq<char>> {
    match o {
        Some(s) => Some(s@),
        None => None,
    }
}

/// The compact JSON text of the value a text holds, where it holds one:
/// what `serde_json::from_str::<serde_json::Value>` followed by the value's
/// `Display` gives.
pub uninterp spec fn json_canonical(text: Seq<char>) -> Option<Seq<char>>;

/// `serde_json::from_str::<serde_json::Value>`, the parsed value handed out
/// as its compact JSON text (`Display`). Claimed: the outcome depends on
/// the text alone; which texts parse, and to what, is left to the name.
#[verifier::external_body]
fn canonical_json(text: &str) -> (r: Option<String>)
    ensures
        opt_view(r) == json_canonical(text@),
{
    match serde_json::from_str::<serde_json::Value>(text) {
        Ok(v) => Some(v.to_string()),
        Err(_) => None,
    }
}

/// The JSON string literal for a text: quotes around it, with what JSON
/// must escape escaped.
pub uninterp spec fn json_quoted(text: Seq<char>) -> Seq<char>;

/// `Display` of `serde_json::Value::String`: the JSON string literal for
/// `text`. Claimed: it depends on the text alone; the escaping is left to
/// the name.
#[verifier::external_body]
fn json_string_literal(text: &str) -> (r: String)
    ensures
        r@ == json_quoted(text@),
{
    serde_json::Value::String(text.to_string()).to_string()
}

/// The ticket the launcher's own client connects with, as compact JSON: the
/// server's address under `addr`, then the launcher token (or `null`) under
/// `pin`.
pub open spec fn self_ticket_text(addr_json: Seq<char>, pin: Option<Seq<char>>) -> Seq<char> {
    "{\"addr\":"@ + addr_json + ",\"pin\":"@ + match pin {
        Some(p) => json_quoted(p),
        None => "null"@,
    } + "}"@
}

/// The self-connect ticket for the address the server printed (JSON) and
/// the launcher token; `None` where the address is not JSON.
pub fn self_ticket(raw_addr: &str, pin: Option<String>) -> (r: Option<String>)
    ensures
        match json_canonical(raw_addr@) {
            Some(a) => r matches Some(t) && t@ == self_ticket_text(a, opt_view(pin)),
            None => r is None,
        },
{
    match canonical_json(raw_addr) {
        Some(addr) => {
            let mut t = "{\"addr\":".to_owned();
            t.append(addr.as_str());
            t.append(",\"pin\":");
            match pin {
                Some(p) => {
                    let q = json_string_literal(p.as_str());
                    t.append(q.as_str());
                },
                None => t.append("null"),
            }
            t.append("}");
            Some(t)
        },
        None => None,
    }
}

/// What a line the server prints tells the launcher.
pub enum ServerLine {
    EndpointId(String),
    Addr(String),
    PairingTicket(String),
    Other,
}

/// Prefixes of the lines the launcher reads.
pub open spec fn endpoint_prefix() -> Seq<char> {
    "endpoint id:"@
}

pub open spec fn addr_prefix() -> Seq<char> {
    "addr:"@
}

pub open spec fn ticket_prefix() -> Seq<char> {
    "pairing ticket (QR payload):"@
}

/// A line that starts with one of the prefixes carries the rest of it,
/// trimmed.
pub open spec fn classified(line: Seq<char>, l: ServerLine) -> bool {
    if has_prefix(line, endpoint_prefix()) {
        l matches ServerLine::EndpointId(v) && v@ == trimmed(line.skip(endpoint_prefix().len() as int))
    } else if has_prefix(line, addr_prefix()) {
        l matches ServerLine::Addr(v) && v@ == trimmed(line.skip(addr_prefix().len() as int))
    } else if has_prefix(line, ticket_prefix()) {
        l matches ServerLine::PairingTicket(v) && v@ == trimmed(line.skip(ticket_prefix().len() as int))
    } else {
        l is Other
    }
}

fn rest_trimmed(cs: &[char], from: usize) -> (r: String)
    requires
        from <= cs@.len(),
    ensures
        r@ == trimmed(cs@.skip(from as int)),
{
    let mut tail: Vec<char> = Vec::new();
    let mut i = from;
    while i < cs.len()
        invariant
            from <= i <= cs@.len(),
            tail@ == cs@.subrange(from as int, i as int),
        decreases cs@.len() - i,
    {
        tail.push(cs[i]);
        i = i + 1;
        assert(tail@ =~= cs@.subrange(from as int, i as int));
    }
    assert(tail@ =~= cs@.skip(from as int));
    let t = trim(tail.as_slice());
    string_of(t.as_slice())
}

/// Reads one line of the server's stdout.
pub fn classify_line(line: &str) -> (l: ServerLine)
    ensures
        classified(line@, l),
{
    let cs = chars_of(line);
    let p1 = chars_of("endpoint id:");
    let p2 = chars_of("addr:");
    let p3 = chars_of("pairing ticket (QR payload):");
    if starts_with(cs.as_slice(), p1.as_slice()) {
        ServerLine::EndpointId(rest_trimmed(cs.as_slice(), p1.len()))
    } else if starts_with(cs.as_slice(), p2.as_slice()) {
        ServerLine::Addr(rest_trimmed(cs.as_slice(), p2.len()))
    } else if starts_with(cs.as_slice(), p3.as_slice()) {
        ServerLine::PairingTicket(rest_trimmed(cs.as_slice(), p3.len()))
    } else {
        ServerLine::Other
    }
}

/// The launcher token as the launcher reads it: the file's text trimmed,
/// and only where something is left.
pub fn launcher_token(raw: Option<String>) -> (r: Option<String>)
    ensures
        match raw {
            Some(t) => if trimmed(t@).len() > 0 {
                r matches Some(v) && v@ == trimmed(t@)
            } else {
                r is None
            },
            None => r is None,
        },
{
    match raw {
        Some(t) => {
            let cs = chars_of(t.as_str());
            let tt = trim(cs.as_slice());
            if tt.len() > 0 {
                Some(string_of(tt.as_slice()))
            } else {
                None
            }
        },
        None => None,
    }
}

/// What the launcher shows of the server it runs.
pub struct ServerStatus {
    pub running: bool,
    pub pairing: bool,
    pub endpoint_id: Option<String>,
    pub addr: Option<String>,
    pub ticket: Option<String>,
}

/// The launcher's state of the server child process.
pub struct ServerProc {
    pub running: bool,
    pub pairing: bool,
    pub endpoint_id: Option<String>,
    pub addr: Option<String>,
    pub ticket: Option<String>,
    /// The ticket the launcher's own client connects with.
    pub connected_ticket: Option<String>,
}

/// Why the server could not be started.
pub enum LauncherError {
    AlreadyRunning,
}

impl LauncherError {
    pub fn message(&self) -> (m: String)
        ensures
            m@ == "server already running"@,
    {
        "server already running".to_owned()
    }
}

impl ServerProc {
    pub fn new() -> (s: ServerProc)
        ensures
            !s.running,
            !s.pairing,
            s.endpoint_id is None,
            s.addr is None,
            s.ticket is None,
            s.connected_ticket is None,
    {
        ServerProc {
            running: false,
            pairing: false,
            endpoint_id: None,
            addr: None,
            ticket: None,
            connected_ticket: None,
        }
    }

    /// Starting the server (with a pairing window where `pair`): refused
    /// while one runs; otherwise the tickets of any earlier run are
    /// forgotten. Where the spawn then fails, `stop` puts the state back.
    pub fn start(&mut self, pair: bool) -> (r: Result<(), LauncherError>)
        ensures
            r is Ok <==> !old(self).running,
            r is Err ==> *final(self) == *old(self),
            r is Ok ==> {
                &&& final(self).running
                &&& final(self).pairing == pair
                &&& final(self).ticket is None
                &&& final(self).connected_ticket is None
                &&& final(self).endpoint_id == old(self).endpoint_id
                &&& final(self).addr == old(self).addr
            },
    {
        if self.running {
            return Err(LauncherError::AlreadyRunning);
        }
        self.pairing = pair;
        self.ticket = None;
        self.connected_ticket = None;
        self.running = true;
        Ok(())
    }

    /// Takes in one line of the server's stdout; `token` is the launcher
    /// token, read where the line gives the address. The address line also
    /// yields the ticket the launcher's own client uses, where the address
    /// is JSON.
    pub fn observe_line(&mut self, line: ServerLine, token: Option<String>)
        ensures
            final(self).running == old(self).running,
            final(self).pairing == old(self).pairing,
            match line {
                ServerLine::EndpointId(v) => final(self).endpoint_id == Some(v) && final(self).addr
                    == old(self).addr && final(self).ticket == old(self).ticket
                    && final(self).connected_ticket == old(self).connected_ticket,
                ServerLine::Addr(v) => final(self).addr == Some(v) && final(self).endpoint_id
                    == old(self).endpoint_id && final(self).ticket == old(self).ticket && match json_canonical(
                    v@,
                ) {
                    Some(a) => final(self).connected_ticket matches Some(t) && t@ == self_ticket_text(
                        a,
                        opt_view(token),
                    ),
                    None => final(self).connected_ticket == old(self).connected_ticket,
                },
                ServerLine::PairingTicket(v) => final(self).ticket == Some(v) && final(self).endpoint_id
                    == old(self).endpoint_id && final(self).addr == old(self).addr
                    && final(self).connected_ticket == old(self).connected_ticket,
                ServerLine::Other => final(self).endpoint_id == old(self).endpoint_id && final(self).addr
                    == old(self).addr && final(self).ticket == old(self).ticket
                    && final(self).connected_ticket == old(self).connected_ticket,
            },
    {
        match line {
            ServerLine::EndpointId(v) => {
                self.endpoint_id = Some(v);
            },
            ServerLine::Addr(v) => {
                match self_ticket(v.as_str(), token) {
                    Some(t) => {
                        self.connected_ticket = Some(t);
                    },
                    None => {},
                }
                self.addr = Some(v);
            },
            ServerLine::PairingTicket(v) => {
                self.ticket = Some(v);
            },
            ServerLine::Other => {},
        }
    }

    /// The server exited, or was stopped: nothing runs, no window is open,
    /// and no ticket is offered any more.
    pub fn stop(&mut self)
        ensures
            !final(self).running,
            !final(self).pairing,
            final(self).ticket is None,
            final(self).connected_ticket is None,
            final(self).endpoint_id == old(self).endpoint_id,
            final(self).addr == old(self).addr,
    {
        self.running = false;
        self.pairing = false;
        self.ticket = None;
        self.connected_ticket = None;
    }

    pub fn status(&self) -> (s: ServerStatus)
        ensures
            s.running == self.running,
            s.pairing == self.pairing,
            s.endpoint_id == self.endpoint_id,
            s.addr == self.addr,
            s.ticket == self.ticket,
    {
        ServerStatus {
            running: self.running,
            pairing: self.pairing,
            endpoint_id: self.endpoint_id.clone(),
            addr: self.addr.clone(),
            ticket: self.ticket.clone(),
        }
    }

    pub fn connected_ticket(&self) -> (t: Option<String>)
        ensures
            t == self.connected_ticket,
    {
        self.connected_ticket.clone()
    }
}

/// The server binary's file name on this platform.
pub fn server_bin_name(exe_suffix: &str) -> (r: String)
    ensures
        r@ == "maplayer-server"@ + exe_suffix@,
{
    let mut r = "maplayer-server".to_owned();
    r.append(exe_suffix);
    r
}

/// Where the launcher looks for the server binary, in order: the debug and
/// then the release build in `../target`, relative to the working
/// directory.
pub open spec fn bin_candidates(bin: Seq<char>) -> Seq<Seq<char>> {
    seq![joined(joined("../target"@, "debug"@), bin), joined(joined("../target"@, "release"@), bin)]
}

fn candidate(base: &str, profile: &str, bin: &str) -> (r: String)
    ensures
        r@ == joined(joined(base@, profile@), bin@),
{
    let d = crate::config::join(base, profile);
    crate::config::join(d.as_str(), bin)
}

pub fn server_bin_candidates(bin: &str) -> (r: Vec<String>)
    ensures
        crate::text::texts(r@) == bin_candidates(bin@),
{
    let mut r: Vec<String> = Vec::new();
    r.push(candidate("../target", "debug", bin));
    r.push(candidate("../target", "release", bin));
    assert(crate::text::texts(r@) =~= bin_candidates(bin@));
    r
}

/// The binary to run: `MAPLAYER_SERVER_BIN` where set and non-empty, else
/// the first candidate that is a file, else the bare name (a `PATH` lookup).
pub fn choose_server_bin(env: Option<String>, first_existing: Option<String>, bin: String) -> (r: String)
    ensures
        r == (match env {
            Some(v) if v@.len() > 0 => v,
            _ => match first_existing {
                Some(c) => c,
                None => bin,
            },
        }),
{
    match env {
        Some(v) => {
            if v.as_str().is_empty() {
                match first_existing {
                    Some(c) => c,
                    None => bin,
                }
            } else {
                v
            }
        },
        None => match first_existing {
            Some(c) => c,
            None => bin,
        },
    }
}

/// Why the launcher's client could not connect.
pub enum ClientError {
    /// The server refused the client and the ticket has no PIN to pair with.
    NoPin,
}

impl ClientError {
    pub fn message(&self) -> (m: String)
        ensures
            m@ == "server rejected us and ticket carries no pin"@,
    {
        "server rejected us and ticket carries no pin".to_owned()
    }
}

/// The PIN to pair with after the server refused a plain connect: the
/// ticket's, where it has a non-empty one.
pub fn pairing_pin(pin: Option<String>) -> (r: Result<String, ClientError>)
    ensures
        match pin {
            Some(p) if p@.len() > 0 => r == Ok::<String, ClientError>(p),
            _ => r is Err,
        },
{
    match pin {
        Some(p) => {
            if p.as_str().is_empty() {
                Err(ClientError::NoPin)
            } else {
                Ok(p)
            }
        },
        None => Err(ClientError::NoPin),
    }
}

/// The text an error response is reported with: its message, or
/// "rpc error" where it carries none.
pub fn rpc_error_text(message: Option<String>) -> (r: String)
    ensures
        r@ == (match message {
            Some(m) => m@,
            None => "rpc error"@,
        }),
{
    match message {
        Some(m) => m,
        None => "rpc error".to_owned(),
    }
}

/// Whether the cached client can be reused: it connected with the very
/// ticket the launcher holds now.
pub fn cached_client_fits(cached_ticket: Option<&str>, ticket: &str) -> (r: bool)
    ensures
        r == (match cached_ticket {
            Some(c) => c@ == ticket@,
            None => false,
        }),
{
    match cached_ticket {
        Some(c) => same_text(c, ticket),
        None => false,
    }
}

} // verus!

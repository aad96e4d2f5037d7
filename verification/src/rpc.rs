//! The control plane: which `maplayer/*` methods exist, who may call them,
//! and the error codes a refused call is answered with.
use vstd::prelude::*;
use crate::proto::{StreamHeader, PairHelloResult, PingResult};
use crate::text::same_text;

verus! {

/// JSON-RPC code for a non-allowlisted caller.
pub const UNAUTHORIZED: i64 = -32001;

/// JSON-RPC code for a method that failed.
pub const METHOD_FAILED: i64 = -32000;

/// JSON-RPC code for a method that does not exist.
pub const METHOD_NOT_FOUND: i64 = -32601;

/// The control-plane methods.
#[derive(Clone, Copy, Debug, PartialEq, Eq)]
pub enum Method {
    Ping,
    PairHello,
    Sessions,
    SessionNew,
    SessionKill,
    SessionTail,
    Profiles,
    ProfileNew,
    ProfileDefault,
}

/// The name each method is called by on the wire.
pub open spec fn method_name(m: Method) -> Seq<char> {
    match m {
        Method::Ping => "maplayer/ping"@,
        Method::PairHello => "maplayer/pair_hello"@,
        Method::Sessions => "maplayer/sessions"@,
        Method::SessionNew => "maplayer/session_new"@,
        Method::SessionKill => "maplayer/session_kill"@,
        Method::SessionTail => "maplayer/session_tail"@,
        Method::Profiles => "maplayer/profiles"@,
        Method::ProfileNew => "maplayer/profile_new"@,
        Method::ProfileDefault => "maplayer/profile_default"@,
    }
}

/// The error object of a JSON-RPC response.
pub struct RpcError {
    pub code: i64,
    pub message: String,
}

impl RpcError {
    /// A method-level failure, answered with `METHOD_FAILED` and the error's text.
    pub fn failed(message: String) -> (e: RpcError)
        ensures
            e.code == METHOD_FAILED,
            e.message == message,
    {
        RpcError { code: METHOD_FAILED, message }
    }
}

/// The method called by `name`, if there is one.
pub fn parse_method(name: &str) -> (r: Option<Method>)
    ensures
        r matches Some(m) ==> name@ == method_name(m),
        r is None ==> forall|m: Method| name@ != method_name(m),
{
    if same_text(name, "maplayer/ping") {
        Some(Method::Ping)
    } else if same_text(name, "maplayer/pair_hello") {
        Some(Method::PairHello)
    } else if same_text(name, "maplayer/sessions") {
        Some(Method::Sessions)
    } else if same_text(name, "maplayer/session_new") {
        Some(Method::SessionNew)
    } else if same_text(name, "maplayer/session_kill") {
        Some(Method::SessionKill)
    } else if same_text(name, "maplayer/session_tail") {
        Some(Method::SessionTail)
    } else if same_text(name, "maplayer/profiles") {
        Some(Method::Profiles)
    } else if same_text(name, "maplayer/profile_new") {
        Some(Method::ProfileNew)
    } else if same_text(name, "maplayer/profile_default") {
        Some(Method::ProfileDefault)
    } else {
        proof {
            assert forall|m: Method| name@ != method_name(m) by {
                match m {
                    Method::Ping => {},
                    Method::PairHello => {},
                    Method::Sessions => {},
                    Method::SessionNew => {},
                    Method::SessionKill => {},
                    Method::SessionTail => {},
                    Method::Profiles => {},
                    Method::ProfileNew => {},
                    Method::ProfileDefault => {},
                }
            }
        }
        None
    }
}

/// Where a call goes: the method to run, or the code and message it is
/// refused with. A caller that is not allowlisted reaches `pair_hello` alone
/// (everything else, unknown names included, is `UNAUTHORIZED`); an
/// allowlisted caller reaches every method, and an unknown name is
/// `METHOD_NOT_FOUND`.
pub open spec fn routed(allowed: bool, name: Seq<char>) -> Result<Method, (i64, Seq<char>)> {
    if !allowed && name != method_name(Method::PairHello) {
        Err((UNAUTHORIZED, "unauthorized"@))
    } else if exists|m: Method| name == method_name(m) {
        Ok(choose|m: Method| name == method_name(m))
    } else {
        Err((METHOD_NOT_FOUND, "method not found"@))
    }
}

/// A fingerprint that tells the method names apart.
spec fn name_key(s: Seq<char>) -> (nat, char, char) {
    (s.len(), s[9], if s.len() > 17 { s[17] } else { ' ' })
}

proof fn lemma_name_key(m: Method)
    ensures
        name_key(method_name(m)) == (match m {
            Method::Ping => (13nat, 'p', ' '),
            Method::PairHello => (19nat, 'p', 'l'),
            Method::Sessions => (17nat, 's', ' '),
            Method::SessionNew => (20nat, 's', 'n'),
            Method::SessionKill => (21nat, 's', 'k'),
            Method::SessionTail => (21nat, 's', 't'),
            Method::Profiles => (17nat, 'p', ' '),
            Method::ProfileNew => (20nat, 'p', 'n'),
            Method::ProfileDefault => (24nat, 'p', 'd'),
        }),
{
    match m {
        Method::Ping => {
            reveal_strlit("maplayer/ping");
            assert(method_name(m).len() == 13 && method_name(m)[9] == 'p');
        },
        Method::PairHello => {
            reveal_strlit("maplayer/pair_hello");
            assert(method_name(m).len() == 19 && method_name(m)[9] == 'p' && method_name(m)[17] == 'l');
        },
        Method::Sessions => {
            reveal_strlit("maplayer/sessions");
            assert(method_name(m).len() == 17 && method_name(m)[9] == 's');
        },
        Method::SessionNew => {
            reveal_strlit("maplayer/session_new");
            assert(method_name(m).len() == 20 && method_name(m)[9] == 's' && method_name(m)[17] == 'n');
        },
        Method::SessionKill => {
            reveal_strlit("maplayer/session_kill");
            assert(method_name(m).len() == 21 && method_name(m)[9] == 's' && method_name(m)[17] == 'k');
        },
        Method::SessionTail => {
            reveal_strlit("maplayer/session_tail");
            assert(method_name(m).len() == 21 && method_name(m)[9] == 's' && method_name(m)[17] == 't');
        },
        Method::Profiles => {
            reveal_strlit("maplayer/profiles");
            assert(method_name(m).len() == 17 && method_name(m)[9] == 'p');
        },
        Method::ProfileNew => {
            reveal_strlit("maplayer/profile_new");
            assert(method_name(m).len() == 20 && method_name(m)[9] == 'p' && method_name(m)[17] == 'n');
        },
        Method::ProfileDefault => {
            reveal_strlit("maplayer/profile_default");
            assert(method_name(m).len() == 24 && method_name(m)[9] == 'p' && method_name(m)[17] == 'd');
        },
    }
}

/// Two methods never share a name.
pub proof fn lemma_method_names_distinct(a: Method, b: Method)
    requires
        method_name(a) == method_name(b),
    ensures
        a == b,
{
    lemma_name_key(a);
    lemma_name_key(b);
}

/// Decides where a control-plane call goes.
pub fn route(allowed: bool, name: &str) -> (r: Result<Method, RpcError>)
    ensures
        match (r, routed(allowed, name@)) {
            (Ok(m), Ok(n)) => m == n,
            (Err(e), Err((code, message))) => e.code == code && e.message@ == message,
            _ => false,
        },
{
    let parsed = parse_method(name);
    if !allowed && !same_text(name, "maplayer/pair_hello") {
        return Err(RpcError { code: UNAUTHORIZED, message: "unauthorized".to_owned() });
    }
    match parsed {
        Some(m) => {
            proof {
                let n = choose|n: Method| name@ == method_name(n);
                lemma_method_names_distinct(m, n);
            }
            Ok(m)
        },
        None => Err(RpcError { code: METHOD_NOT_FOUND, message: "method not found".to_owned() }),
    }
}

/// Law: a caller that is not allowlisted reaches `maplayer/pair_hello` and
/// nothing else; every other name is refused as unauthorized.
pub proof fn law_unauthorized_reach_pair_hello_only(name: Seq<char>)
    ensures
        routed(false, name) matches Ok(m) ==> m == Method::PairHello,
        name != method_name(Method::PairHello) ==> routed(false, name) == Err::<Method, (i64, Seq<char>)>(
            (UNAUTHORIZED, "unauthorized"@),
        ),
        name == method_name(Method::PairHello) ==> routed(false, name) == Ok::<Method, (i64, Seq<char>)>(
            Method::PairHello,
        ),
{
    if name == method_name(Method::PairHello) {
        let n = choose|n: Method| name == method_name(n);
        lemma_method_names_distinct(n, Method::PairHello);
    }
}

/// Law: an allowlisted caller reaches every method by its name, and only an
/// unknown name is refused, as `METHOD_NOT_FOUND`.
pub proof fn law_allowed_reach_every_method(m: Method, name: Seq<char>)
    ensures
        routed(true, method_name(m)) == Ok::<Method, (i64, Seq<char>)>(m),
        (forall|k: Method| name != method_name(k)) ==> routed(true, name) == Err::<
            Method,
            (i64, Seq<char>),
        >((METHOD_NOT_FOUND, "method not found"@)),
{
    let n = choose|n: Method| method_name(m) == method_name(n);
    lemma_method_names_distinct(n, m);
}

/// How many lines `session_tail` returns: 50 when the caller names none,
/// never more than 500.
pub fn tail_line_count(lines: Option<usize>) -> (n: usize)
    ensures
        n == (match lines {
            Some(k) => if k < 500 { k } else { 500 },
            None => 50,
        }),
{
    let k = match lines {
        Some(k) => k,
        None => 50,
    };
    if k < 500 { k } else { 500 }
}

/// What the server does with a stream, given its header.
pub enum StreamRoute {
    /// Serve one control-plane call.
    Rpc,
    /// Refuse the attach: the caller is not allowlisted.
    Unauthorized,
    /// Attach the caller to this managed session.
    Attach(String),
}

/// An `rpc` stream is always served (each call is checked by `route`); an
/// `acp` attach is refused unless the caller is allowlisted.
pub fn route_stream(header: StreamHeader, allowed: bool) -> (r: StreamRoute)
    ensures
        header is Rpc ==> r is Rpc,
        header matches StreamHeader::Acp { session_id, .. } ==> if allowed {
            r matches StreamRoute::Attach(id) && id == session_id
        } else {
            r is Unauthorized
        },
{
    match header {
        StreamHeader::Rpc { .. } => StreamRoute::Rpc,
        StreamHeader::Acp { session_id, .. } => {
            if allowed {
                StreamRoute::Attach(session_id)
            } else {
                StreamRoute::Unauthorized
            }
        },
    }
}

/// The answer to `maplayer/ping`.
pub fn ping_result(server_id: String, version: String) -> (r: PingResult)
    ensures
        r.server_id == server_id,
        r.version == version,
{
    PingResult { server_id, version }
}

/// The answer to a successful `maplayer/pair_hello`: who the server is.
pub fn pair_hello_result(server_id: String) -> (r: PairHelloResult)
    ensures
        r.server_id == server_id,
        r.name@ == "maplayer-server"@,
{
    PairHelloResult { server_id, name: "maplayer-server".to_owned() }
}

} // verus!

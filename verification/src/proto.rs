//! Values carried by the control plane and the stream headers. The JSON
//! encoding of these lives with the program that does the I/O.
use vstd::prelude::*;

verus! {

/// The first line of every stream: a control-plane call or an attach to a
/// managed session's ACP stream.
pub enum StreamHeader {
    Rpc { v: u32 },
    Acp { v: u32, session_id: String },
}

pub struct PairHelloParams {
    pub pin: String,
    pub label: Option<String>,
}

pub struct PairHelloResult {
    pub server_id: String,
    pub name: String,
}

pub struct SessionNewParams {
    pub provider: String,
    pub profile: Option<String>,
    pub cwd: String,
}

pub struct SessionNewResult {
    pub session_id: String,
}

pub struct SessionKillParams {
    pub session_id: String,
}

pub struct SessionTailParams {
    /// Absolute path of the external session file (from `ExternalSession::reference`).
    pub reference: String,
    /// How many trailing lines to return (default 50, max 500).
    pub lines: Option<usize>,
}

pub struct SessionTailResult {
    pub lines: Vec<String>,
    /// Byte offset the tail starts at; pass back to resume later.
    pub offset: u64,
}

pub struct ManagedSession {
    pub session_id: String,
    pub provider: String,
    pub profile: Option<String>,
    pub cwd: String,
    pub state: String,
    pub pid: Option<u32>,
    pub created_at: String,
}

pub struct ExternalSession {
    pub provider: String,
    pub reference: String,
    pub title: Option<String>,
    pub last_active: Option<String>,
    pub alive: bool,
    pub detail: String,
}

pub struct SessionsResult {
    pub managed: Vec<ManagedSession>,
    pub external: Vec<ExternalSession>,
}

pub struct Profile {
    pub name: String,
    pub credential: String,
    pub codex_home: String,
}

pub struct ProfilesResult {
    pub profiles: Vec<Profile>,
    pub default: Option<String>,
}

pub struct ProfileNewParams {
    pub name: String,
    pub credential: String,
}

pub struct LoginInstruction {
    pub kind: String,
    pub text: String,
}

pub struct ProfileNewResult {
    pub name: String,
    pub codex_home: String,
    pub login: LoginInstruction,
}

pub struct ProfileDefaultParams {
    pub name: String,
}

pub struct PingResult {
    pub server_id: String,
    pub version: String,
}

} // verus!

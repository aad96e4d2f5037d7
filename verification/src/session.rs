//! Managed agent sessions: what the spawn runs, the seq-tagged backlog of
//! agent output that late attachers replay, how replay and live output are
//! told apart, and how a client's bytes are cut into lines for the agent.
use vstd::prelude::*;
use crate::proto::SessionNewParams;
use crate::text::{chars_of, split_whitespace, same_text, texts, words};

verus! {

/// Env override for tests: when set, a new session runs this command
/// (program and whitespace-separated arguments) whatever the provider.
pub const STUB_AGENT_ENV: &'static str = "MAPLAYER_STUB_AGENT";

/// Most output lines a session keeps for replay.
pub const BACKLOG_CAP: usize = 4000;

/// The process a new session runs.
pub struct CommandSpec {
    pub program: String,
    pub args: Vec<String>,
    /// `CODEX_HOME` for the child, where a profile chose one.
    pub codex_home: Option<String>,
    /// Working directory of the child.
    pub cwd: String,
}

/// Why no command could be built.
pub enum CommandError {
    /// The stub override is set but holds no word.
    StubEmpty,
    /// The provider is neither `codex` nor `cursor`.
    UnknownProvider(String),
}

impl CommandError {
    pub open spec fn message_spec(&self) -> Seq<char> {
        match self {
            CommandError::StubEmpty => "MAPLAYER_STUB_AGENT is empty"@,
            CommandError::UnknownProvider(p) => "unknown provider: "@ + p@,
        }
    }

    /// The error's text, as the caller sees it.
    pub fn message(&self) -> (m: String)
        ensures
            m@ == self.message_spec(),
    {
        match self {
            CommandError::StubEmpty => "MAPLAYER_STUB_AGENT is empty".to_owned(),
            CommandError::UnknownProvider(p) => {
                let mut m = "unknown provider: ".to_owned();
                m.append(p.as_str());
                m
            },
        }
    }
}

/// What a new session runs. With the stub override set, its first word is
/// the program and the rest are the arguments. Otherwise `codex` runs the
/// codex ACP adapter through `npx` and `cursor` runs `agent acp`; any other
/// provider is refused. `codex_home` and the requested working directory
/// go along unchanged.
pub fn build_command(params: &SessionNewParams, codex_home: Option<String>, stub: Option<String>) -> (r: Result<CommandSpec, CommandError>)
    ensures
        match stub {
            Some(st) => {
                let ws = words(st@);
                if ws.len() == 0 {
                    r matches Err(CommandError::StubEmpty)
                } else {
                    r matches Ok(c) && c.program@ == ws[0] && texts(c.args@) == ws.drop_first()
                }
            },
            None => if params.provider@ == "codex"@ {
                r matches Ok(c) && c.program@ == "npx"@ && texts(c.args@) == seq![
                    "-y"@,
                    "@agentclientprotocol/codex-acp"@,
                ]
            } else if params.provider@ == "cursor"@ {
                r matches Ok(c) && c.program@ == "agent"@ && texts(c.args@) == seq!["acp"@]
            } else {
                r matches Err(CommandError::UnknownProvider(p)) && p@ == params.provider@
            },
        },
        r matches Ok(c) ==> c.codex_home == codex_home && c.cwd@ == params.cwd@,
{
    let (program, args) = match stub {
        Some(st) => {
            let cs = chars_of(st.as_str());
            let mut ws = split_whitespace(cs.as_slice());
            if ws.len() == 0 {
                return Err(CommandError::StubEmpty);
            }
            let prog = ws.remove(0);
            proof {
                assert(texts(ws@) =~= words(st@).drop_first());
            }
            (prog, ws)
        },
        None => {
            if same_text(params.provider.as_str(), "codex") {
                let mut a: Vec<String> = Vec::new();
                a.push("-y".to_owned());
                a.push("@agentclientprotocol/codex-acp".to_owned());
                assert(texts(a@) =~= seq!["-y"@, "@agentclientprotocol/codex-acp"@]);
                ("npx".to_owned(), a)
            } else if same_text(params.provider.as_str(), "cursor") {
                let mut a: Vec<String> = Vec::new();
                a.push("acp".to_owned());
                assert(texts(a@) =~= seq!["acp"@]);
                ("agent".to_owned(), a)
            } else {
                return Err(CommandError::UnknownProvider(params.provider.clone()));
            }
        },
    };
    Ok(CommandSpec { program, args, codex_home, cwd: params.cwd.clone() })
}

/// The `state` a managed session is listed with.
pub fn session_state(exited: bool) -> (s: String)
    ensures
        s@ == (if exited { "exited"@ } else { "running"@ }),
{
    if exited { "exited".to_owned() } else { "running".to_owned() }
}

/// The exit status recorded for a reaped child: its code, or -1 where it
/// has none (killed by a signal, or the wait failed).
pub fn recorded_exit(code: Option<i32>) -> (c: i32)
    ensures
        c == (match code {
            Some(k) => k as int,
            None => -1int,
        }),
{
    match code {
        Some(k) => k,
        None => -1,
    }
}

/// The backlog as data: its seq-tagged lines, the next seq, and (ghost)
/// every line the agent has printed.
pub struct BacklogView {
    pub lines: Seq<(u64, Seq<u8>)>,
    pub next_seq: nat,
    pub history: Seq<Seq<u8>>,
}

/// The backlog holds, in order, the most recent lines of the agent's output
/// (each with its newline), tagged with consecutive seqs that count lines
/// from the first; at most `BACKLOG_CAP` of them, and never fewer than
/// `BACKLOG_CAP / 2 + 1` once that many were printed.
pub open spec fn backlog_wf(b: BacklogView) -> bool {
    &&& b.next_seq == b.history.len()
    &&& b.lines.len() <= BACKLOG_CAP
    &&& b.lines.len() <= b.next_seq
    &&& b.lines.len() >= (if b.next_seq < BACKLOG_CAP / 2 + 1 { b.next_seq } else { (BACKLOG_CAP / 2
        + 1) as nat })
    &&& forall|i: int|
        0 <= i < b.lines.len() ==> {
            let s = b.next_seq - b.lines.len() + i;
            &&& (#[trigger] b.lines[i]).0 == s
            &&& b.lines[i].1 == b.history[s].push(10u8)
        }
}

/// Output lines of one managed session, kept for replay.
pub struct Backlog {
    lines: Vec<(u64, Vec<u8>)>,
    next_seq: u64,
    history: Ghost<Seq<Seq<u8>>>,
}

pub open spec fn line_views(v: Seq<(u64, Vec<u8>)>) -> Seq<(u64, Seq<u8>)> {
    v.map_values(|e: (u64, Vec<u8>)| (e.0, e.1@))
}

impl View for Backlog {
    type V = BacklogView;

    closed spec fn view(&self) -> BacklogView {
        BacklogView { lines: line_views(self.lines@), next_seq: self.next_seq as nat, history: self.history@ }
    }
}

fn copy_bytes(b: &[u8]) -> (r: Vec<u8>)
    ensures
        r@ == b@,
{
    let mut r: Vec<u8> = Vec::new();
    let mut i: usize = 0;
    while i < b.len()
        invariant
            i <= b@.len(),
            r@ == b@.take(i as int),
        decreases b@.len() - i,
    {
        r.push(b[i]);
        i = i + 1;
        assert(r@ =~= b@.take(i as int));
    }
    assert(r@ =~= b@);
    r
}

impl Backlog {
    #[verifier::type_invariant]
    closed spec fn inv(self) -> bool {
        backlog_wf(self@)
    }

    pub fn new() -> (b: Backlog)
        ensures
            b@.lines == Seq::<(u64, Seq<u8>)>::empty(),
            b@.next_seq == 0,
            b@.history == Seq::<Seq<u8>>::empty(),
            backlog_wf(b@),
    {
        let lines: Vec<(u64, Vec<u8>)> = Vec::new();
        assert(line_views(lines@) =~= Seq::<(u64, Seq<u8>)>::empty());
        Backlog { lines, next_seq: 0, history: Ghost(Seq::empty()) }
    }

    /// The seq the next line will get.
    pub fn next_seq(&self) -> (n: u64)
        ensures
            n == self@.next_seq,
            backlog_wf(self@),
    {
        proof {
            use_type_invariant(self);
        }
        self.next_seq
    }

    /// Records one line of agent output: it gets the next seq and its
    /// newline back; when the backlog is full its older half is dropped
    /// first. Returns what to broadcast to attached clients.
    pub fn push_line(&mut self, line: Vec<u8>) -> (r: (u64, Vec<u8>))
        requires
            old(self)@.next_seq < u64::MAX,
        ensures
            backlog_wf(old(self)@),
            backlog_wf(final(self)@),
            r.0 == old(self)@.next_seq,
            r.1@ == line@.push(10u8),
            final(self)@.next_seq == old(self)@.next_seq + 1,
            final(self)@.history == old(self)@.history.push(line@),
            final(self)@.lines == (if old(self)@.lines.len() >= BACKLOG_CAP {
                old(self)@.lines.skip((BACKLOG_CAP / 2) as int)
            } else {
                old(self)@.lines
            }).push((r.0, r.1@)),
    {
        let mut cur = Backlog::new();
        std::mem::swap(self, &mut cur);
        proof {
            use_type_invariant(&cur);
        }
        let ghost old_view = cur@;
        let Backlog { lines: mut lines, next_seq, history } = cur;
        let ghost old_lines = line_views(lines@);
        let mut bytes = line;
        let ghost line_view = bytes@;
        bytes.push(10u8);
        let seq = next_seq;
        if lines.len() >= BACKLOG_CAP {
            let kept = lines.split_off(BACKLOG_CAP / 2);
            lines = kept;
            assert(line_views(lines@) =~= old_lines.skip((BACKLOG_CAP / 2) as int));
        }
        let ghost before_push = line_views(lines@);
        let copy = copy_bytes(bytes.as_slice());
        lines.push((seq, copy));
        assert(line_views(lines@) =~= before_push.push((seq, bytes@)));
        let ghost new_history = history@.push(line_view);
        let next = Backlog { lines, next_seq: seq + 1, history: Ghost(new_history) };
        assert(backlog_wf(next@)) by {
            assert(next@.lines == line_views(next.lines@));
            assert forall|i: int| 0 <= i < next@.lines.len() implies {
                let s = next@.next_seq - next@.lines.len() + i;
                &&& (#[trigger] next@.lines[i]).0 == s
                &&& next@.lines[i].1 == next@.history[s].push(10u8)
            } by {
                if i < next@.lines.len() - 1 {
                    if old_view.lines.len() >= BACKLOG_CAP {
                        assert(next@.lines[i] == old_view.lines[i + BACKLOG_CAP / 2]);
                    } else {
                        assert(next@.lines[i] == old_view.lines[i]);
                    }
                }
            }
        }
        *self = next;
        (seq, bytes)
    }

    /// The lines to replay to a client attaching now, oldest first, and the
    /// seq of the last of them (`None` when there is none yet).
    pub fn replay(&self) -> (r: (Vec<Vec<u8>>, Option<u64>))
        ensures
            backlog_wf(self@),
            r.0@.len() == self@.lines.len(),
            forall|i: int| 0 <= i < self@.lines.len() ==> (#[trigger] r.0@[i])@ == self@.lines[i].1,
            r.1 == (if self@.lines.len() == 0 {
                None
            } else {
                Some(self@.lines.last().0)
            }),
    {
        proof {
            use_type_invariant(self);
        }
        let mut out: Vec<Vec<u8>> = Vec::new();
        let mut i: usize = 0;
        while i < self.lines.len()
            invariant
                i <= self.lines@.len(),
                out@.len() == i,
                forall|j: int| 0 <= j < i ==> (#[trigger] out@[j])@ == self.lines@[j].1@,
            decreases self.lines@.len() - i,
        {
            out.push(copy_bytes(self.lines[i].1.as_slice()));
            i = i + 1;
        }
        let last = if self.lines.len() == 0 {
            None
        } else {
            Some(self.lines[self.lines.len() - 1].0)
        };
        (out, last)
    }
}

/// Whether a live line with seq `seq` goes to a client whose replay ended
/// at `last`: only lines newer than the replay do.
pub open spec fn forwards(seq: u64, last: Option<u64>) -> bool {
    match last {
        Some(l) => seq > l,
        None => true,
    }
}

pub fn should_forward(seq: u64, last: Option<u64>) -> (r: bool)
    ensures
        r == forwards(seq, last),
{
    match last {
        Some(l) => seq > l,
        None => true,
    }
}

/// The seq that ends a replay of `b`.
pub open spec fn replay_end(b: BacklogView) -> Option<u64> {
    if b.lines.len() == 0 {
        None
    } else {
        Some(b.lines.last().0)
    }
}

/// Law: replay and live output together deliver each line once. A live line
/// that is also in the replay is skipped; every line printed after the
/// snapshot was taken is forwarded.
pub proof fn law_replay_then_live_delivers_once(b: BacklogView, seq: u64)
    requires
        backlog_wf(b),
    ensures
        forall|i: int| 0 <= i < b.lines.len() && #[trigger] b.lines[i].0 == seq ==> !forwards(seq, replay_end(b)),
        seq >= b.next_seq ==> forwards(seq, replay_end(b)),
{
}

/// Law: the backlog is always the most recent part of the agent's output:
/// its lines are the last ones printed, in order, and it keeps at most
/// `BACKLOG_CAP` of them.
pub proof fn law_backlog_is_recent_output(b: BacklogView)
    requires
        backlog_wf(b),
    ensures
        b.lines.len() <= BACKLOG_CAP,
        forall|i: int|
            0 <= i < b.lines.len() ==> (#[trigger] b.lines[i]).1 == b.history[b.history.len() - b.lines.len()
                + i].push(10u8),
        forall|i: int, j: int| 0 <= i < j < b.lines.len() ==> #[trigger] b.lines[i].0 < #[trigger] b.lines[j].0,
{
    assert forall|i: int, j: int| 0 <= i < j < b.lines.len() implies #[trigger] b.lines[i].0
        < #[trigger] b.lines[j].0 by {
        assert(b.lines[i].0 == b.next_seq - b.lines.len() + i);
        assert(b.lines[j].0 == b.next_seq - b.lines.len() + j);
    }
}

/// All of `ls`, one after the other.
pub open spec fn concat(ls: Seq<Seq<u8>>) -> Seq<u8>
    decreases ls.len(),
{
    if ls.len() == 0 {
        Seq::empty()
    } else {
        concat(ls.drop_last()) + ls.last()
    }
}

pub open spec fn no_newline(s: Seq<u8>) -> bool {
    forall|i: int| 0 <= i < s.len() ==> s[i] != 10u8
}

/// A complete line as it goes to the agent: ends with its newline, no other
/// newline in it.
pub open spec fn complete_line(s: Seq<u8>) -> bool {
    s.len() > 0 && s.last() == 10u8 && no_newline(s.drop_last())
}

pub open spec fn byte_views(v: Seq<Vec<u8>>) -> Seq<Seq<u8>> {
    v.map_values(|x: Vec<u8>| x@)
}

/// Takes every complete line off the front of the bytes a client sent so
/// far, each with its newline; what stays holds no newline.
pub fn take_complete_lines(pending: &mut Vec<u8>) -> (out: Vec<Vec<u8>>)
    ensures
        concat(byte_views(out@)) + final(pending)@ == old(pending)@,
        forall|i: int| 0 <= i < out@.len() ==> complete_line(#[trigger] out@[i]@),
        no_newline(final(pending)@),
{
    let mut out: Vec<Vec<u8>> = Vec::new();
    let mut start: usize = 0;
    let n = pending.len();
    loop
        invariant
            n == pending@.len(),
            pending@ == old(pending)@,
            start <= n,
            concat(byte_views(out@)) == pending@.take(start as int),
            forall|i: int| 0 <= i < out@.len() ==> complete_line(#[trigger] out@[i]@),
        decreases n - start,
    {
        let mut j: usize = start;
        while j < n && pending[j] != 10u8
            invariant
                n == pending@.len(),
                start <= j <= n,
                forall|k: int| start <= k < j ==> pending@[k] != 10u8,
            decreases n - j,
        {
            j = j + 1;
        }
        if j == n {
            let mut rest: Vec<u8> = Vec::new();
            let mut k: usize = start;
            while k < n
                invariant
                    n == pending@.len(),
                    start <= k <= n,
                    rest@ == pending@.subrange(start as int, k as int),
                decreases n - k,
            {
                rest.push(pending[k]);
                k = k + 1;
                assert(rest@ =~= pending@.subrange(start as int, k as int));
            }
            proof {
                assert(pending@.take(start as int) + rest@ =~= old(pending)@);
                assert forall|i: int| 0 <= i < rest@.len() implies rest@[i] != 10u8 by {
                    assert(rest@[i] == pending@[start + i]);
                }
            }
            *pending = rest;
            return out;
        }
        let mut line: Vec<u8> = Vec::new();
        let mut k: usize = start;
        while k <= j
            invariant
                n == pending@.len(),
                start <= k <= j + 1,
                j < n,
                line@ == pending@.subrange(start as int, k as int),
            decreases j + 1 - k,
        {
            line.push(pending[k]);
            k = k + 1;
            assert(line@ =~= pending@.subrange(start as int, k as int));
        }
        proof {
            assert(line@.last() == 10u8);
            assert forall|i: int| 0 <= i < line@.drop_last().len() implies line@.drop_last()[i] != 10u8 by {
                assert(line@.drop_last()[i] == pending@[start + i]);
            }
            let ghost before = byte_views(out@);
            assert(byte_views(out@.push(line)) =~= before.push(line@));
            assert(byte_views(out@.push(line)).drop_last() =~= before);
            assert(pending@.take(start as int) + line@ =~= pending@.take(j + 1));
        }
        out.push(line);
        start = j + 1;
    }
}

/// The text of a lookup that found no managed session.
pub fn session_not_found_message() -> (m: String)
    ensures
        m@ == "session not found"@,
{
    "session not found".to_owned()
}

/// A lower-case hexadecimal digit.
pub open spec fn lower_hex(c: char) -> bool {
    ('0' <= c && c <= '9') || ('a' <= c && c <= 'f')
}

/// The hyphenated text of a version-4 UUID: 36 characters, hyphens after
/// the 8th, 12th, 16th and 20th hex digit, lower-case hex digits elsewhere,
/// `4` (the version) at index 14 and one of `8`, `9`, `a`, `b` (the RFC 4122
/// variant) at index 19.
pub open spec fn is_v4_uuid_text(s: Seq<char>) -> bool {
    &&& s.len() == 36
    &&& forall|i: int|
        0 <= i < 36 ==> if i == 8 || i == 13 || i == 18 || i == 23 {
            s[i] == '-'
        } else {
            lower_hex(#[trigger] s[i])
        }
    &&& s[14] == '4'
    &&& (s[19] == '8' || s[19] == '9' || s[19] == 'a' || s[19] == 'b')
}

/// `uuid::Uuid::new_v4().to_string()`: a random version-4 UUID, written
/// hyphenated in lower case. Which UUID is left open.
#[verifier::external_body]
fn random_uuid() -> (s: String)
    ensures
        is_v4_uuid_text(s@),
{
    uuid::Uuid::new_v4().to_string()
}

/// The id of a new managed session: a fresh random UUID.
pub fn new_session_id() -> (s: String)
    ensures
        is_v4_uuid_text(s@),
{
    random_uuid()
}

/// `SystemTime::now().duration_since(UNIX_EPOCH)` in whole seconds (0 where
/// the clock stands before the epoch). Nothing is claimed of the time.
#[verifier::external_body]
fn unix_seconds() -> u64 {
    std::time::SystemTime::now().duration_since(std::time::UNIX_EPOCH).unwrap_or_default().as_secs()
}

/// A session's `created_at`: unix seconds in decimal.
pub fn created_at_text(secs: u64) -> (s: String)
    ensures
        s@ == crate::text::decimal(secs as nat),
{
    crate::text::decimal_string(secs)
}

/// The current time as a session's `created_at`.
pub fn unix_now() -> (s: String)
    ensures
        exists|t: u64| s@ == crate::text::decimal(t as nat),
{
    let t = unix_seconds();
    created_at_text(t)
}

} // verus!

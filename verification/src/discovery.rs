//! Read-only discovery of agent sessions the user started outside maplayer.
//! Codex: `~/.codex/sessions/**/rollout-*.jsonl` (tail-capable).
//! Cursor: `~/.cursor/chats/<project>/<chat>/store.db` (list-level only).
//! The program walks the directories, reads modification times and looks
//! for running agents; which files count, their order and what is said of
//! each are decided here.
use vstd::prelude::*;
use crate::proto::ExternalSession;
use crate::text::{chars_of, string_of, find_last, last_index, has_prefix, starts_with, same_chars, decimal, decimal_string};

verus! {

/// Most external sessions listed per provider.
pub const CODEX_LIMIT: usize = 50;
pub const CURSOR_LIMIT: usize = 50;

/// The two providers whose own sessions are discovered.
#[derive(Clone, Copy, Debug, PartialEq, Eq)]
pub enum SessionSource {
    Codex,
    Cursor,
}

impl SessionSource {
    /// Directory under the home directory that is walked.
    pub fn root_dir(&self) -> (r: &'static str)
        ensures
            r@ == (match self {
                SessionSource::Codex => ".codex/sessions"@,
                SessionSource::Cursor => ".cursor/chats"@,
            }),
    {
        match self {
            SessionSource::Codex => ".codex/sessions",
            SessionSource::Cursor => ".cursor/chats",
        }
    }

    /// How many directory levels the walk descends.
    pub fn walk_depth(&self) -> (d: usize)
        ensures
            d == (match self {
                SessionSource::Codex => 4usize,
                SessionSource::Cursor => 3usize,
            }),
    {
        match self {
            SessionSource::Codex => 4,
            SessionSource::Cursor => 3,
        }
    }

    /// The `pgrep -f` pattern whose match marks the provider's sessions alive.
    pub fn process_pattern(&self) -> (r: &'static str)
        ensures
            r@ == (match self {
                SessionSource::Codex => "codex"@,
                SessionSource::Cursor => "cursor-agent|agent acp"@,
            }),
    {
        match self {
            SessionSource::Codex => "codex",
            SessionSource::Cursor => "cursor-agent|agent acp",
        }
    }

    pub open spec fn limit_spec(&self) -> usize {
        match self {
            SessionSource::Codex => CODEX_LIMIT,
            SessionSource::Cursor => CURSOR_LIMIT,
        }
    }
}

/// A file the walk found, with its modification time in unix seconds where
/// it could be read.
pub struct FileCandidate {
    pub path: String,
    pub mtime: Option<u64>,
}

pub open spec fn cand_view(c: FileCandidate) -> (Seq<char>, Option<u64>) {
    (c.path@, c.mtime)
}

pub open spec fn cand_views(v: Seq<FileCandidate>) -> Seq<(Seq<char>, Option<u64>)> {
    v.map_values(|c: FileCandidate| cand_view(c))
}

/// The last `/`-separated segment of `p`, unless it is empty, `.` or `..`:
/// the file name of a path the walk built as `directory/name`.
pub open spec fn file_name(p: Seq<char>) -> Option<Seq<char>> {
    let seg = p.skip(last_index(p, '/') + 1);
    if seg.len() == 0 || seg == "."@ || seg == ".."@ {
        None
    } else {
        Some(seg)
    }
}

/// What follows the last `.` of a file name, unless that `.` is its first
/// character or it has none (`Path::extension`).
pub open spec fn extension(name: Seq<char>) -> Option<Seq<char>> {
    let i = last_index(name, '.');
    if i <= 0 {
        None
    } else {
        Some(name.skip(i + 1))
    }
}

/// The file name of the directory that holds `p`.
pub open spec fn parent_name(p: Seq<char>) -> Option<Seq<char>> {
    let i = last_index(p, '/');
    if i < 0 {
        None
    } else {
        file_name(p.take(i))
    }
}

/// Which files are sessions: codex rollouts are `rollout-*` files with the
/// `jsonl` extension, cursor chats are `store.db` files.
pub open spec fn is_session_file(source: SessionSource, p: Seq<char>) -> bool {
    match source {
        SessionSource::Codex => match file_name(p) {
            Some(n) => has_prefix(n, "rollout-"@) && extension(n) == Some("jsonl"@),
            None => false,
        },
        SessionSource::Cursor => file_name(p) == Some("store.db"@),
    }
}

fn file_name_of(p: &[char]) -> (r: Option<Vec<char>>)
    ensures
        match r {
            Some(v) => file_name(p@) == Some(v@),
            None => file_name(p@) is None,
        },
{
    let start = match find_last(p, '/') {
        Some(k) => k + 1,
        None => 0usize,
    };
    let mut seg: Vec<char> = Vec::new();
    let mut i = start;
    while i < p.len()
        invariant
            start <= i <= p@.len(),
            seg@ == p@.subrange(start as int, i as int),
        decreases p@.len() - i,
    {
        seg.push(p[i]);
        i = i + 1;
        assert(seg@ =~= p@.subrange(start as int, i as int));
    }
    assert(seg@ =~= p@.skip(last_index(p@, '/') + 1));
    let dot = chars_of(".");
    let dotdot = chars_of("..");
    proof {
        reveal_strlit(".");
        reveal_strlit("..");
    }
    if seg.len() == 0 || same_chars(seg.as_slice(), dot.as_slice()) || same_chars(seg.as_slice(), dotdot.as_slice()) {
        None
    } else {
        Some(seg)
    }
}

fn extension_of(name: &[char]) -> (r: Option<Vec<char>>)
    ensures
        match r {
            Some(v) => extension(name@) == Some(v@),
            None => extension(name@) is None,
        },
{
    match find_last(name, '.') {
        Some(k) => {
            if k == 0 {
                return None;
            }
            let mut ext: Vec<char> = Vec::new();
            let mut i = k + 1;
            while i < name.len()
                invariant
                    k + 1 <= i <= name@.len(),
                    ext@ == name@.subrange(k + 1, i as int),
                decreases name@.len() - i,
            {
                ext.push(name[i]);
                i = i + 1;
                assert(ext@ =~= name@.subrange(k + 1, i as int));
            }
            assert(ext@ =~= name@.skip(k + 1));
            Some(ext)
        },
        None => None,
    }
}

fn parent_name_of(p: &[char]) -> (r: Option<Vec<char>>)
    ensures
        match r {
            Some(v) => parent_name(p@) == Some(v@),
            None => parent_name(p@) is None,
        },
{
    match find_last(p, '/') {
        Some(k) => {
            let (dir, _) = p.split_at(k);
            assert(dir@ =~= p@.take(k as int));
            file_name_of(dir)
        },
        None => None,
    }
}

/// Whether the walked file at `path` is one of `source`'s sessions.
pub fn is_session_path(source: SessionSource, path: &str) -> (r: bool)
    ensures
        r == is_session_file(source, path@),
{
    let p = chars_of(path);
    proof {
        reveal_strlit("rollout-");
        reveal_strlit("jsonl");
        reveal_strlit("store.db");
    }
    match file_name_of(p.as_slice()) {
        Some(n) => match source {
            SessionSource::Codex => {
                let prefix = chars_of("rollout-");
                if !starts_with(n.as_slice(), prefix.as_slice()) {
                    return false;
                }
                match extension_of(n.as_slice()) {
                    Some(e) => {
                        let jsonl = chars_of("jsonl");
                        same_chars(e.as_slice(), jsonl.as_slice())
                    },
                    None => false,
                }
            },
            SessionSource::Cursor => {
                let store = chars_of("store.db");
                same_chars(n.as_slice(), store.as_slice())
            },
        },
        None => false,
    }
}

/// The files of `cs` that are sessions, in the order the walk found them.
pub open spec fn session_files(source: SessionSource, cs: Seq<(Seq<char>, Option<u64>)>) -> Seq<
    (Seq<char>, Option<u64>),
>
    decreases cs.len(),
{
    if cs.len() == 0 {
        Seq::empty()
    } else if is_session_file(source, cs.last().0) {
        session_files(source, cs.drop_last()).push(cs.last())
    } else {
        session_files(source, cs.drop_last())
    }
}

/// The key files are ranked by: modification time, 0 where unknown.
pub open spec fn age_key(c: (Seq<char>, Option<u64>)) -> u64 {
    match c.1 {
        Some(t) => t,
        None => 0,
    }
}

/// How many files at the front of `s` are at least as new as `k`.
pub open spec fn newer_prefix(s: Seq<(Seq<char>, Option<u64>)>, k: u64) -> nat
    decreases s.len(),
{
    if s.len() > 0 && age_key(s[0]) >= k {
        1 + newer_prefix(s.drop_first(), k)
    } else {
        0
    }
}

/// Newest first, ties in the order found: each file goes after every file
/// at least as new as it (a stable sort by descending modification time).
pub open spec fn newest_first(s: Seq<(Seq<char>, Option<u64>)>) -> Seq<(Seq<char>, Option<u64>)>
    decreases s.len(),
{
    if s.len() == 0 {
        Seq::empty()
    } else {
        let rest = newest_first(s.drop_last());
        rest.insert(newer_prefix(rest, age_key(s.last())) as int, s.last())
    }
}

/// The files listed for `source`: its session files, newest first, at most
/// `limit` of them.
pub open spec fn listed(source: SessionSource, cs: Seq<(Seq<char>, Option<u64>)>, limit: usize) -> Seq<
    (Seq<char>, Option<u64>),
> {
    let ranked = newest_first(session_files(source, cs));
    if ranked.len() <= limit {
        ranked
    } else {
        ranked.take(limit as int)
    }
}

proof fn lemma_newer_prefix(s: Seq<(Seq<char>, Option<u64>)>, k: u64, i: int)
    requires
        0 <= i <= s.len(),
        forall|j: int| 0 <= j < i ==> age_key(s[j]) >= k,
        i < s.len() ==> age_key(s[i]) < k,
    ensures
        newer_prefix(s, k) == i,
    decreases s.len(),
{
    if i > 0 {
        assert forall|j: int| 0 <= j < i - 1 implies age_key(s.drop_first()[j]) >= k by {
            assert(s.drop_first()[j] == s[j + 1]);
        }
        if i - 1 < s.drop_first().len() {
            assert(s.drop_first()[i - 1] == s[i]);
        }
        lemma_newer_prefix(s.drop_first(), k, i - 1);
    }
}

fn key_of(c: &FileCandidate) -> (k: u64)
    ensures
        k == age_key(cand_view(*c)),
{
    match c.mtime {
        Some(t) => t,
        None => 0,
    }
}

/// Keeps the session files among what the walk found, in order.
pub fn select_session_files(source: SessionSource, files: Vec<FileCandidate>) -> (r: Vec<FileCandidate>)
    ensures
        cand_views(r@) == session_files(source, cand_views(files@)),
{
    let ghost all = cand_views(files@);
    let ghost n = files@.len();
    let mut rest = files;
    let mut r: Vec<FileCandidate> = Vec::new();
    while rest.len() > 0
        invariant
            all.len() == n,
            rest@.len() <= n,
            cand_views(rest@) == all.skip(n - rest@.len()),
            cand_views(r@) == session_files(source, all.take(n - rest@.len())),
        decreases rest@.len(),
    {
        let ghost i = n - rest@.len();
        let ghost before = rest@;
        let c = rest.remove(0);
        proof {
            assert(cand_views(before)[0] == cand_view(before[0]));
            assert(all.skip(i)[0] == all[i]);
            assert(cand_views(rest@) =~= cand_views(before).drop_first());
            assert(all.skip(i).drop_first() =~= all.skip(i + 1));
            assert(cand_view(c) == all[i]);
            assert(all.take(i + 1).drop_last() =~= all.take(i));
            assert(all.take(i + 1).last() == all[i]);
            assert(cand_views(rest@) =~= all.skip(i + 1));
        }
        if is_session_path(source, c.path.as_str()) {
            let ghost before = cand_views(r@);
            r.push(c);
            assert(cand_views(r@) =~= before.push(all[i]));
        }
    }
    assert(all.take(n as int) =~= all);
    r
}

/// Orders files newest first; files of the same age keep their order.
pub fn rank_newest_first(files: Vec<FileCandidate>) -> (r: Vec<FileCandidate>)
    ensures
        cand_views(r@) == newest_first(cand_views(files@)),
{
    let ghost all = cand_views(files@);
    let ghost n = files@.len();
    let mut rest = files;
    let mut r: Vec<FileCandidate> = Vec::new();
    while rest.len() > 0
        invariant
            all.len() == n,
            rest@.len() <= n,
            cand_views(rest@) == all.skip(n - rest@.len()),
            cand_views(r@) == newest_first(all.take(n - rest@.len())),
        decreases rest@.len(),
    {
        let ghost i = n - rest@.len();
        let ghost before = rest@;
        let c = rest.remove(0);
        proof {
            assert(cand_views(before)[0] == cand_view(before[0]));
            assert(all.skip(i)[0] == all[i]);
            assert(cand_views(rest@) =~= cand_views(before).drop_first());
            assert(all.skip(i).drop_first() =~= all.skip(i + 1));
            assert(cand_view(c) == all[i]);
            assert(all.take(i + 1).drop_last() =~= all.take(i));
            assert(all.take(i + 1).last() == all[i]);
            assert(cand_views(rest@) =~= all.skip(i + 1));
        }
        let k = key_of(&c);
        let mut pos: usize = 0;
        while pos < r.len() && key_of(&r[pos]) >= k
            invariant
                pos <= r@.len(),
                forall|j: int| 0 <= j < pos ==> age_key(cand_views(r@)[j]) >= k,
            decreases r@.len() - pos,
        {
            pos = pos + 1;
        }
        proof {
            lemma_newer_prefix(cand_views(r@), k, pos as int);
        }
        let ghost before = cand_views(r@);
        r.insert(pos, c);
        assert(cand_views(r@) =~= before.insert(pos as int, all[i]));
    }
    assert(all.take(n as int) =~= all);
    r
}

/// What is said of one discovered session: its provider, its path, a title
/// (the rollout's file name; the chat's directory name), its modification
/// time as decimal unix seconds, whether the provider's agent is running,
/// and how far it can be read.
pub open spec fn describes(source: SessionSource, c: (Seq<char>, Option<u64>), running: bool, e: ExternalSession) -> bool {
    &&& e.provider@ == (match source {
        SessionSource::Codex => "codex"@,
        SessionSource::Cursor => "cursor"@,
    })
    &&& e.reference@ == c.0
    &&& (match (e.title, (match source {
        SessionSource::Codex => file_name(c.0),
        SessionSource::Cursor => parent_name(c.0),
    })) {
        (Some(t), Some(u)) => t@ == u,
        (None, None) => true,
        _ => false,
    })
    &&& (match (e.last_active, c.1) {
        (Some(a), Some(t)) => a@ == decimal(t as nat),
        (None, None) => true,
        _ => false,
    })
    &&& e.alive == running
    &&& e.detail@ == (match source {
        SessionSource::Codex => "rollout jsonl; tail-capable"@,
        SessionSource::Cursor => "sqlite store.db; list-level"@,
    })
}

pub fn describe(source: SessionSource, c: FileCandidate, running: bool) -> (e: ExternalSession)
    ensures
        describes(source, cand_view(c), running, e),
{
    let p = chars_of(c.path.as_str());
    let title_chars = match source {
        SessionSource::Codex => file_name_of(p.as_slice()),
        SessionSource::Cursor => parent_name_of(p.as_slice()),
    };
    let title = match title_chars {
        Some(t) => Some(string_of(t.as_slice())),
        None => None,
    };
    let last_active = match c.mtime {
        Some(t) => Some(decimal_string(t)),
        None => None,
    };
    let (provider, detail) = match source {
        SessionSource::Codex => ("codex".to_owned(), "rollout jsonl; tail-capable".to_owned()),
        SessionSource::Cursor => ("cursor".to_owned(), "sqlite store.db; list-level".to_owned()),
    };
    ExternalSession { provider, reference: c.path, title, last_active, alive: running, detail }
}

/// Lists `source`'s sessions among the files the walk found under its root:
/// the session files, newest first, at most `limit`, each described;
/// `running` says whether the provider's agent was seen running.
pub fn discover(source: SessionSource, files: Vec<FileCandidate>, limit: usize, running: bool) -> (r: Vec<ExternalSession>)
    ensures
        r@.len() == listed(source, cand_views(files@), limit).len(),
        forall|i: int|
            0 <= i < r@.len() ==> describes(source, listed(source, cand_views(files@), limit)[i], running, #[trigger] r@[i]),
{
    let ghost chosen = listed(source, cand_views(files@), limit);
    let selected = select_session_files(source, files);
    let mut ranked = rank_newest_first(selected);
    ranked.truncate(limit);
    assert(cand_views(ranked@) =~= chosen);
    let ghost n = ranked@.len();
    let mut out: Vec<ExternalSession> = Vec::new();
    while ranked.len() > 0
        invariant
            n == chosen.len(),
            ranked@.len() <= n,
            cand_views(ranked@) == chosen.skip(n - ranked@.len()),
            out@.len() == n - ranked@.len(),
            forall|i: int| 0 <= i < out@.len() ==> describes(source, chosen[i], running, #[trigger] out@[i]),
        decreases ranked@.len(),
    {
        let ghost i = n - ranked@.len();
        let ghost before = ranked@;
        let c = ranked.remove(0);
        proof {
            assert(cand_views(before)[0] == cand_view(before[0]));
            assert(chosen.skip(i)[0] == chosen[i]);
            assert(cand_views(ranked@) =~= cand_views(before).drop_first());
            assert(chosen.skip(i).drop_first() =~= chosen.skip(i + 1));
            assert(cand_view(c) == chosen[i]);
            assert(cand_views(ranked@) =~= chosen.skip(i + 1));
        }
        out.push(describe(source, c, running));
    }
    out
}

/// Codex rollouts among the files found under `~/.codex/sessions`.
pub fn codex_sessions(files: Vec<FileCandidate>, running: bool) -> (r: Vec<ExternalSession>)
    ensures
        r@.len() == listed(SessionSource::Codex, cand_views(files@), CODEX_LIMIT).len(),
        forall|i: int|
            0 <= i < r@.len() ==> describes(
                SessionSource::Codex,
                listed(SessionSource::Codex, cand_views(files@), CODEX_LIMIT)[i],
                running,
                #[trigger] r@[i],
            ),
{
    discover(SessionSource::Codex, files, CODEX_LIMIT, running)
}

/// Cursor chats among the files found under `~/.cursor/chats`.
pub fn cursor_sessions(files: Vec<FileCandidate>, running: bool) -> (r: Vec<ExternalSession>)
    ensures
        r@.len() == listed(SessionSource::Cursor, cand_views(files@), CURSOR_LIMIT).len(),
        forall|i: int|
            0 <= i < r@.len() ==> describes(
                SessionSource::Cursor,
                listed(SessionSource::Cursor, cand_views(files@), CURSOR_LIMIT)[i],
                running,
                #[trigger] r@[i],
            ),
{
    discover(SessionSource::Cursor, files, CURSOR_LIMIT, running)
}

/// All external sessions: codex rollouts first, then cursor chats.
pub fn external_sessions(codex_files: Vec<FileCandidate>, codex_running: bool, cursor_files: Vec<FileCandidate>, cursor_running: bool) -> (r: Vec<ExternalSession>)
    ensures
        ({
            let cx = listed(SessionSource::Codex, cand_views(codex_files@), CODEX_LIMIT);
            let cu = listed(SessionSource::Cursor, cand_views(cursor_files@), CURSOR_LIMIT);
            &&& r@.len() == cx.len() + cu.len()
            &&& forall|i: int| 0 <= i < cx.len() ==> describes(SessionSource::Codex, cx[i], codex_running, #[trigger] r@[i])
            &&& forall|i: int|
                cx.len() <= i < r@.len() ==> describes(SessionSource::Cursor, cu[i - cx.len()], cursor_running, #[trigger] r@[i])
        }),
{
    let mut out = codex_sessions(codex_files, codex_running);
    let ghost first = out@;
    let mut more = cursor_sessions(cursor_files, cursor_running);
    let ghost second = more@;
    out.append(&mut more);
    assert(out@ =~= first + second);
    out
}

proof fn lemma_newer_prefix_bounds(s: Seq<(Seq<char>, Option<u64>)>, k: u64)
    ensures
        newer_prefix(s, k) <= s.len(),
        forall|j: int| 0 <= j < newer_prefix(s, k) ==> age_key(s[j]) >= k,
        newer_prefix(s, k) < s.len() ==> age_key(s[newer_prefix(s, k) as int]) < k,
    decreases s.len(),
{
    if s.len() > 0 && age_key(s[0]) >= k {
        lemma_newer_prefix_bounds(s.drop_first(), k);
        assert forall|j: int| 0 <= j < newer_prefix(s, k) implies age_key(s[j]) >= k by {
            if j > 0 {
                assert(s[j] == s.drop_first()[j - 1]);
            }
        }
        if newer_prefix(s, k) < s.len() {
            assert(s[newer_prefix(s, k) as int] == s.drop_first()[newer_prefix(s.drop_first(), k) as int]);
        }
    }
}

pub open spec fn newest_first_ordered(s: Seq<(Seq<char>, Option<u64>)>) -> bool {
    forall|i: int, j: int| 0 <= i < j < s.len() ==> age_key(#[trigger] s[i]) >= age_key(#[trigger] s[j])
}

/// Law: discovery lists the newest sessions first. `newest_first` puts the
/// files in non-increasing order of modification time and loses or adds
/// none of them.
pub proof fn law_newest_first_sorts(s: Seq<(Seq<char>, Option<u64>)>)
    ensures
        newest_first_ordered(newest_first(s)),
        newest_first(s).to_multiset() == s.to_multiset(),
    decreases s.len(),
{
    broadcast use vstd::seq_lib::to_multiset_insert, vstd::seq_lib::to_multiset_build;

    if s.len() > 0 {
        let rest = newest_first(s.drop_last());
        law_newest_first_sorts(s.drop_last());
        let x = s.last();
        let k = age_key(x);
        let p = newer_prefix(rest, k) as int;
        lemma_newer_prefix_bounds(rest, k);
        let r = rest.insert(p, x);
        assert forall|i: int, j: int| 0 <= i < j < r.len() implies age_key(#[trigger] r[i]) >= age_key(
            #[trigger] r[j],
        ) by {
            if j < p {
                assert(r[i] == rest[i] && r[j] == rest[j]);
            } else if j == p {
                assert(r[i] == rest[i]);
            } else if i < p {
                assert(r[i] == rest[i] && r[j] == rest[j - 1]);
            } else if i == p {
                assert(r[j] == rest[j - 1]);
                assert(age_key(rest[p]) < k);
                if j - 1 > p {
                    assert(age_key(rest[p]) >= age_key(rest[j - 1]));
                }
            } else {
                assert(r[i] == rest[i - 1] && r[j] == rest[j - 1]);
            }
        }
        assert(s =~= s.drop_last().push(x));
        assert(newest_first(s) == r);
        assert(r.to_multiset() == rest.to_multiset().insert(x));
        assert(s.drop_last().push(x).to_multiset() == s.drop_last().to_multiset().insert(x));
    } else {
        assert(s =~= Seq::<(Seq<char>, Option<u64>)>::empty());
    }
}

proof fn lemma_session_files_are_sessions(source: SessionSource, cs: Seq<(Seq<char>, Option<u64>)>)
    ensures
        forall|i: int|
            0 <= i < session_files(source, cs).len() ==> is_session_file(
                source,
                (#[trigger] session_files(source, cs)[i]).0,
            ),
    decreases cs.len(),
{
    if cs.len() > 0 {
        lemma_session_files_are_sessions(source, cs.drop_last());
        let r = session_files(source, cs.drop_last());
        if is_session_file(source, cs.last().0) {
            assert forall|i: int| 0 <= i < r.push(cs.last()).len() implies is_session_file(
                source,
                (#[trigger] r.push(cs.last())[i]).0,
            ) by {
                if i < r.len() {
                    assert(r.push(cs.last())[i] == r[i]);
                }
            }
        }
    }
}

/// Law: what discovery lists for a provider are that provider's session
/// files only, newest first, at most `limit` of them; where there are no
/// more than `limit`, every one is listed.
pub proof fn law_listing_is_newest_sessions_capped(
    source: SessionSource,
    cs: Seq<(Seq<char>, Option<u64>)>,
    limit: usize,
)
    ensures
        listed(source, cs, limit).len() <= limit,
        newest_first_ordered(listed(source, cs, limit)),
        forall|i: int|
            0 <= i < listed(source, cs, limit).len() ==> is_session_file(
                source,
                (#[trigger] listed(source, cs, limit)[i]).0,
            ),
        session_files(source, cs).len() <= limit ==> listed(source, cs, limit).to_multiset()
            == session_files(source, cs).to_multiset(),
{
    broadcast use vstd::seq_lib::to_multiset_contains, vstd::seq_lib::to_multiset_len;

    let sf = session_files(source, cs);
    let ranked = newest_first(sf);
    law_newest_first_sorts(sf);
    lemma_session_files_are_sessions(source, cs);
    assert(ranked.to_multiset().len() == sf.to_multiset().len());
    assert forall|i: int| 0 <= i < ranked.len() implies is_session_file(source, (#[trigger] ranked[i]).0) by {
        let x = ranked[i];
        assert(ranked.contains(x));
        assert(ranked.to_multiset().count(x) > 0);
        assert(sf.to_multiset().count(x) > 0);
        assert(sf.contains(x));
        let j = choose|j: int| 0 <= j < sf.len() && sf[j] == x;
        assert(is_session_file(source, sf[j].0));
    }
    let l = listed(source, cs, limit);
    if ranked.len() > limit {
        assert forall|i: int, j: int| 0 <= i < j < l.len() implies age_key(#[trigger] l[i]) >= age_key(
            #[trigger] l[j],
        ) by {
            assert(l[i] == ranked[i] && l[j] == ranked[j]);
        }
        assert forall|i: int| 0 <= i < l.len() implies is_session_file(source, (#[trigger] l[i]).0) by {
            assert(l[i] == ranked[i]);
        }
    }
}

/// Law: discovery ranks by modification time itself. In what is listed,
/// a file never comes before one modified later, a file whose time could
/// not be read counting as modified at 0; and of two files with known
/// times, the newer comes first.
pub proof fn law_listing_newest_by_mtime(source: SessionSource, cs: Seq<(Seq<char>, Option<u64>)>, limit: usize)
    ensures
        forall|i: int, j: int|
            0 <= i < j < listed(source, cs, limit).len() ==> (match (#[trigger] listed(source, cs, limit)[i]).1 {
                Some(t) => t as int,
                None => 0int,
            }) >= (match (#[trigger] listed(source, cs, limit)[j]).1 {
                Some(t) => t as int,
                None => 0int,
            }),
{
    law_listing_is_newest_sessions_capped(source, cs, limit);
    let l = listed(source, cs, limit);
    assert forall|i: int, j: int| 0 <= i < j < l.len() implies (match (#[trigger] l[i]).1 {
        Some(t) => t as int,
        None => 0int,
    }) >= (match (#[trigger] l[j]).1 {
        Some(t) => t as int,
        None => 0int,
    }) by {
        assert(age_key(l[i]) >= age_key(l[j]));
    }
}

} // verus!

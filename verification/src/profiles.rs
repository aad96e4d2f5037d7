//! Codex account profiles: one CODEX_HOME per profile so each carries its
//! own auth.json and config.toml; switching accounts is spawning with a
//! different CODEX_HOME. The rules on names, credentials, where a profile
//! lives and what login it needs are here; the program touches the disk.
use vstd::prelude::*;
use crate::config::{Config, join, joined};
use crate::proto::{LoginInstruction, Profile, ProfileNewResult};
use crate::text::{chars_of, same_text};

verus! {

/// What `meta.json` in a profile's directory records.
pub struct ProfileMeta {
    pub name: String,
    pub credential: String,
}

/// Why a profile operation was refused.
pub enum ProfileError {
    /// The name is not 1-64 characters of `[a-zA-Z0-9_-]`.
    BadName,
    /// The credential is neither `chatgpt` nor `api-key`.
    BadCredential,
    /// No profile of that name exists.
    Unknown(String),
}

impl ProfileError {
    pub open spec fn message_spec(&self) -> Seq<char> {
        match self {
            ProfileError::BadName => "profile name must be 1-64 chars of [a-zA-Z0-9_-]"@,
            ProfileError::BadCredential => "credential must be chatgpt|api-key"@,
            ProfileError::Unknown(n) => "unknown profile: "@ + n@,
        }
    }

    /// The error's text, as the caller sees it.
    pub fn message(&self) -> (m: String)
        ensures
            m@ == self.message_spec(),
    {
        match self {
            ProfileError::BadName => "profile name must be 1-64 chars of [a-zA-Z0-9_-]".to_owned(),
            ProfileError::BadCredential => "credential must be chatgpt|api-key".to_owned(),
            ProfileError::Unknown(n) => {
                let mut m = "unknown profile: ".to_owned();
                m.append(n.as_str());
                m
            },
        }
    }
}

/// A character a profile name may hold: ASCII letter or digit, `-`, `_`.
pub open spec fn name_char(c: char) -> bool {
    ('a' <= c && c <= 'z') || ('A' <= c && c <= 'Z') || ('0' <= c && c <= '9') || c == '-' || c == '_'
}

/// A valid profile name: 1 to 64 characters, each a `name_char`.
pub open spec fn valid_name(s: Seq<char>) -> bool {
    &&& 1 <= s.len() <= 64
    &&& forall|i: int| 0 <= i < s.len() ==> name_char(s[i])
}

/// The credentials a profile can log in with.
pub open spec fn valid_credential(s: Seq<char>) -> bool {
    s == "chatgpt"@ || s == "api-key"@
}

/// The login a profile needs, which always happens on the host.
pub open spec fn login_for(credential: Seq<char>, home: Seq<char>) -> (Seq<char>, Seq<char>) {
    if credential == "api-key"@ {
        (
            "api_key_prompt"@,
            "Run on host: printenv OPENAI_API_KEY | CODEX_HOME="@ + home + " codex login --with-api-key"@,
        )
    } else {
        ("url"@, "Run on host: CODEX_HOME="@ + home + " codex login (opens browser)"@)
    }
}

fn login_instruction(credential: &str, home: &str) -> (l: LoginInstruction)
    ensures
        (l.kind@, l.text@) == login_for(credential@, home@),
{
    if same_text(credential, "api-key") {
        let mut text = "Run on host: printenv OPENAI_API_KEY | CODEX_HOME=".to_owned();
        text.append(home);
        text.append(" codex login --with-api-key");
        LoginInstruction { kind: "api_key_prompt".to_owned(), text }
    } else {
        let mut text = "Run on host: CODEX_HOME=".to_owned();
        text.append(home);
        text.append(" codex login (opens browser)");
        LoginInstruction { kind: "url".to_owned(), text }
    }
}

/// Everything the program needs to create a profile on disk.
pub struct ProfilePlan {
    /// The profile's directory, its CODEX_HOME.
    pub dir: String,
    /// What goes into `meta.json`.
    pub meta: ProfileMeta,
    /// The answer to the client.
    pub result: ProfileNewResult,
}

/// The CODEX_HOME of the profile `name` under the profiles root `root`.
pub open spec fn profile_home(root: Seq<char>, name: Seq<char>) -> Seq<char> {
    joined(root, name)
}

/// What listing a profile whose `meta.json` records `name` and
/// `credential` shows: its name, credential and CODEX_HOME.
pub open spec fn listed_view(root: Seq<char>, name: Seq<char>, credential: Seq<char>) -> (Seq<char>, Seq<char>, Seq<char>) {
    (name, credential, profile_home(root, name))
}

/// Law: a profile lives in its own directory directly under the profiles
/// root, and creating, listing and resolving it agree. For a valid name the
/// home is the root, a separator and the name, and the name holds no
/// separator and is neither `.` nor `..`; the `meta.json` that creating it
/// writes lists as the profile created, with the CODEX_HOME creating it
/// reported; and resolving the name finds that same directory.
pub proof fn law_created_profile_lists_and_resolves(root: Seq<char>, name: Seq<char>, credential: Seq<char>)
    requires
        valid_name(name),
    ensures
        profile_home(root, name) == (if root.len() == 0 || root.last() == '/' {
            root
        } else {
            root.push('/')
        }) + name,
        forall|i: int| 0 <= i < name.len() ==> name[i] != '/',
        name != "."@,
        name != ".."@,
        listed_view(root, name, credential) == (name, credential, profile_home(root, name)),
{
    assert(!name_char('/'));
    assert(!name_char('.'));
    reveal_strlit(".");
    reveal_strlit("..");
    assert(name[0] != '/');
    if name == "."@ {
        assert(name[0] == '.');
    }
    if name == ".."@ {
        assert(name[0] == '.');
    }
}

/// Resolves profile names to CODEX_HOME directories under `profiles_root`.
pub struct ProfileManager {
    root: String,
}

impl ProfileManager {
    pub closed spec fn root_spec(&self) -> Seq<char> {
        self.root@
    }

    pub fn new(cfg: &Config) -> (m: ProfileManager)
        ensures
            m.root_spec() == cfg.profiles_root@,
    {
        ProfileManager { root: cfg.profiles_root.clone() }
    }

    /// Checks a profile name.
    pub fn validate_name(name: &str) -> (r: Result<(), ProfileError>)
        ensures
            r is Ok <==> valid_name(name@),
            r matches Err(e) ==> e is BadName,
    {
        let cs = chars_of(name);
        if cs.len() < 1 || cs.len() > 64 {
            return Err(ProfileError::BadName);
        }
        let mut i: usize = 0;
        while i < cs.len()
            invariant
                cs@ == name@,
                1 <= cs@.len() <= 64,
                i <= cs@.len(),
                forall|j: int| 0 <= j < i ==> name_char(cs@[j]),
            decreases cs@.len() - i,
        {
            let c = cs[i];
            if !(('a' <= c && c <= 'z') || ('A' <= c && c <= 'Z') || ('0' <= c && c <= '9') || c == '-'
                || c == '_') {
                return Err(ProfileError::BadName);
            }
            i = i + 1;
        }
        Ok(())
    }

    /// The directory of the profile called `name`.
    pub fn dir(&self, name: &str) -> (d: String)
        ensures
            d@ == joined(self.root_spec(), name@),
    {
        join(self.root.as_str(), name)
    }

    /// Checks a new profile's name, then its credential, and lays out what
    /// to write: the directory, its `meta.json`, and the login instruction
    /// for the client (credentials never cross the wire).
    pub fn plan_create(&self, name: &str, credential: &str) -> (r: Result<ProfilePlan, ProfileError>)
        ensures
            !valid_name(name@) ==> r matches Err(ProfileError::BadName),
            valid_name(name@) && !valid_credential(credential@) ==> r matches Err(ProfileError::BadCredential),
            valid_name(name@) && valid_credential(credential@) ==> (r matches Ok(p) && {
                let home = profile_home(self.root_spec(), name@);
                &&& p.dir@ == home
                &&& p.meta.name@ == name@
                &&& p.meta.credential@ == credential@
                &&& p.result.name@ == name@
                &&& p.result.codex_home@ == home
                &&& (p.result.login.kind@, p.result.login.text@) == login_for(credential@, home)
            }),
    {
        match Self::validate_name(name) {
            Ok(()) => {},
            Err(e) => return Err(e),
        }
        if !same_text(credential, "chatgpt") && !same_text(credential, "api-key") {
            return Err(ProfileError::BadCredential);
        }
        let dir = self.dir(name);
        let login = login_instruction(credential, dir.as_str());
        Ok(ProfilePlan {
            meta: ProfileMeta { name: name.to_owned(), credential: credential.to_owned() },
            result: ProfileNewResult { name: name.to_owned(), codex_home: dir.clone(), login },
            dir,
        })
    }

    /// The profile a listed `meta.json` describes.
    pub fn listed_profile(&self, meta: ProfileMeta) -> (p: Profile)
        ensures
            p.name@ == meta.name@,
            p.credential@ == meta.credential@,
            p.codex_home@ == profile_home(self.root_spec(), meta.name@),
            profile_view(p) == listed_view(self.root_spec(), meta.name@, meta.credential@),
    {
        let codex_home = self.dir(meta.name.as_str());
        Profile { codex_home, name: meta.name, credential: meta.credential }
    }

    /// The CODEX_HOME of a session: the profile asked for, else the default
    /// profile, else none (the agent's own). A named profile must have a
    /// valid name and must exist (`exists` says whether its `meta.json` is
    /// on disk), so the home is always a directory directly under the
    /// profiles root.
    pub fn codex_home(&self, name: Option<String>, exists: bool) -> (r: Result<Option<String>, ProfileError>)
        ensures
            match name {
                None => r matches Ok(None),
                Some(n) => if !valid_name(n@) {
                    r matches Err(ProfileError::BadName)
                } else if exists {
                    r matches Ok(Some(d)) && d@ == profile_home(self.root_spec(), n@)
                } else {
                    r matches Err(ProfileError::Unknown(m)) && m@ == n@
                },
            },
            (r is Ok && name is Some) ==> valid_name(name->0@),
    {
        match name {
            None => Ok(None),
            Some(n) => {
                match Self::validate_name(n.as_str()) {
                    Ok(()) => {},
                    Err(e) => return Err(e),
                }
                if exists {
                    Ok(Some(self.dir(n.as_str())))
                } else {
                    Err(ProfileError::Unknown(n))
                }
            },
        }
    }
}

/// The profile a session runs under: the one asked for, else the default.
pub fn profile_to_use(requested: Option<String>, default: Option<String>) -> (r: Option<String>)
    ensures
        r == (match requested {
            Some(n) => Some(n),
            None => default,
        }),
{
    match requested {
        Some(n) => Some(n),
        None => default,
    }
}

/// Lexicographic order on names, character by character.
pub open spec fn name_le(a: Seq<char>, b: Seq<char>) -> bool
    decreases a.len(),
{
    if a.len() == 0 {
        true
    } else if b.len() == 0 {
        false
    } else if a[0] != b[0] {
        a[0] < b[0]
    } else {
        name_le(a.drop_first(), b.drop_first())
    }
}

fn names_le(a: &[char], b: &[char]) -> (r: bool)
    ensures
        r == name_le(a@, b@),
{
    let mut i: usize = 0;
    assert(a@.skip(0) =~= a@);
    assert(b@.skip(0) =~= b@);
    while i < a.len() && i < b.len() && a[i] == b[i]
        invariant
            i <= a@.len(),
            i <= b@.len(),
            forall|j: int| 0 <= j < i ==> a@[j] == b@[j],
            name_le(a@, b@) == name_le(a@.skip(i as int), b@.skip(i as int)),
        decreases a@.len() - i,
    {
        proof {
            assert(a@.skip(i as int).drop_first() =~= a@.skip(i + 1));
            assert(b@.skip(i as int).drop_first() =~= b@.skip(i + 1));
        }
        i = i + 1;
    }
    if i == a.len() {
        true
    } else if i == b.len() {
        false
    } else {
        assert(a@.skip(i as int)[0] == a@[i as int]);
        assert(b@.skip(i as int)[0] == b@[i as int]);
        a[i] < b[i]
    }
}

/// A listed profile as data: name, credential, CODEX_HOME.
pub open spec fn profile_view(p: Profile) -> (Seq<char>, Seq<char>, Seq<char>) {
    (p.name@, p.credential@, p.codex_home@)
}

pub open spec fn profile_views(v: Seq<Profile>) -> Seq<(Seq<char>, Seq<char>, Seq<char>)> {
    v.map_values(|p: Profile| profile_view(p))
}

/// How many profiles at the front of `s` sort no later than the name `n`.
pub open spec fn le_prefix(s: Seq<(Seq<char>, Seq<char>, Seq<char>)>, n: Seq<char>) -> nat
    decreases s.len(),
{
    if s.len() > 0 && name_le(s[0].0, n) {
        1 + le_prefix(s.drop_first(), n)
    } else {
        0
    }
}

/// Profiles in order of name, ties kept in the order listed: each goes after
/// every profile whose name sorts no later than its own (a stable sort by
/// name).
pub open spec fn by_name(s: Seq<(Seq<char>, Seq<char>, Seq<char>)>) -> Seq<(Seq<char>, Seq<char>, Seq<char>)>
    decreases s.len(),
{
    if s.len() == 0 {
        Seq::empty()
    } else {
        let rest = by_name(s.drop_last());
        rest.insert(le_prefix(rest, s.last().0) as int, s.last())
    }
}

proof fn lemma_le_prefix(s: Seq<(Seq<char>, Seq<char>, Seq<char>)>, n: Seq<char>, i: int)
    requires
        0 <= i <= s.len(),
        forall|j: int| 0 <= j < i ==> name_le(s[j].0, n),
        i < s.len() ==> !name_le(s[i].0, n),
    ensures
        le_prefix(s, n) == i,
    decreases s.len(),
{
    if i > 0 {
        assert forall|j: int| 0 <= j < i - 1 implies name_le(s.drop_first()[j].0, n) by {
            assert(s.drop_first()[j] == s[j + 1]);
        }
        if i - 1 < s.drop_first().len() {
            assert(s.drop_first()[i - 1] == s[i]);
        }
        lemma_le_prefix(s.drop_first(), n, i - 1);
    }
}

/// Orders listed profiles by name, stably.
pub fn sort_profiles(profiles: Vec<Profile>) -> (r: Vec<Profile>)
    ensures
        profile_views(r@) == by_name(profile_views(profiles@)),
{
    let ghost all = profile_views(profiles@);
    let ghost n = profiles@.len();
    let mut rest = profiles;
    let mut r: Vec<Profile> = Vec::new();
    while rest.len() > 0
        invariant
            all.len() == n,
            rest@.len() <= n,
            profile_views(rest@) == all.skip(n - rest@.len()),
            profile_views(r@) == by_name(all.take(n - rest@.len())),
        decreases rest@.len(),
    {
        let ghost i = n - rest@.len();
        let ghost before_rest = rest@;
        let p = rest.remove(0);
        proof {
            assert(profile_views(before_rest)[0] == profile_view(before_rest[0]));
            assert(all.skip(i)[0] == all[i]);
            assert(profile_view(p) == all[i]);
            assert(profile_views(rest@) =~= profile_views(before_rest).drop_first());
            assert(all.skip(i).drop_first() =~= all.skip(i + 1));
            assert(all.take(i + 1).drop_last() =~= all.take(i));
            assert(all.take(i + 1).last() == all[i]);
        }
        let pc = chars_of(p.name.as_str());
        let mut pos: usize = 0;
        while pos < r.len() && names_le(chars_of(r[pos].name.as_str()).as_slice(), pc.as_slice())
            invariant
                pos <= r@.len(),
                pc@ == p.name@,
                forall|j: int| 0 <= j < pos ==> name_le(profile_views(r@)[j].0, p.name@),
            decreases r@.len() - pos,
        {
            pos = pos + 1;
        }
        proof {
            lemma_le_prefix(profile_views(r@), p.name@, pos as int);
        }
        let ghost before = profile_views(r@);
        r.insert(pos, p);
        assert(profile_views(r@) =~= before.insert(pos as int, all[i]));
    }
    assert(all.take(n as int) =~= all);
    r
}

proof fn lemma_name_le_total(a: Seq<char>, b: Seq<char>)
    ensures
        name_le(a, b) || name_le(b, a),
    decreases a.len(),
{
    if a.len() > 0 && b.len() > 0 && a[0] == b[0] {
        lemma_name_le_total(a.drop_first(), b.drop_first());
    }
}

proof fn lemma_name_le_trans(a: Seq<char>, b: Seq<char>, c: Seq<char>)
    requires
        name_le(a, b),
        name_le(b, c),
    ensures
        name_le(a, c),
    decreases a.len(),
{
    if a.len() > 0 && b.len() > 0 && c.len() > 0 && a[0] == b[0] && b[0] == c[0] {
        lemma_name_le_trans(a.drop_first(), b.drop_first(), c.drop_first());
    }
}

proof fn lemma_le_prefix_bounds(s: Seq<(Seq<char>, Seq<char>, Seq<char>)>, n: Seq<char>)
    ensures
        le_prefix(s, n) <= s.len(),
        forall|j: int| 0 <= j < le_prefix(s, n) ==> name_le(s[j].0, n),
        le_prefix(s, n) < s.len() ==> !name_le(s[le_prefix(s, n) as int].0, n),
    decreases s.len(),
{
    if s.len() > 0 && name_le(s[0].0, n) {
        lemma_le_prefix_bounds(s.drop_first(), n);
        assert forall|j: int| 0 <= j < le_prefix(s, n) implies name_le(s[j].0, n) by {
            if j > 0 {
                assert(s[j] == s.drop_first()[j - 1]);
            }
        }
        if le_prefix(s, n) < s.len() {
            assert(s[le_prefix(s, n) as int] == s.drop_first()[le_prefix(s.drop_first(), n) as int]);
        }
    }
}

pub open spec fn in_name_order(s: Seq<(Seq<char>, Seq<char>, Seq<char>)>) -> bool {
    forall|i: int, j: int| 0 <= i < j < s.len() ==> name_le(#[trigger] s[i].0, #[trigger] s[j].0)
}

/// Law: listed profiles come out ordered by name, none lost or added.
pub proof fn law_by_name_sorts(s: Seq<(Seq<char>, Seq<char>, Seq<char>)>)
    ensures
        in_name_order(by_name(s)),
        by_name(s).to_multiset() == s.to_multiset(),
    decreases s.len(),
{
    broadcast use vstd::seq_lib::to_multiset_insert, vstd::seq_lib::to_multiset_build;

    if s.len() > 0 {
        let rest = by_name(s.drop_last());
        law_by_name_sorts(s.drop_last());
        let x = s.last();
        let p = le_prefix(rest, x.0) as int;
        lemma_le_prefix_bounds(rest, x.0);
        let r = rest.insert(p, x);
        assert forall|i: int, j: int| 0 <= i < j < r.len() implies name_le(#[trigger] r[i].0, #[trigger] r[j].0) by {
            if j < p {
                assert(r[i] == rest[i] && r[j] == rest[j]);
            } else if j == p {
                assert(r[i] == rest[i]);
            } else if i < p {
                assert(r[i] == rest[i] && r[j] == rest[j - 1]);
                lemma_name_le_total(rest[p].0, x.0);
                if j - 1 > p {
                    lemma_name_le_trans(rest[i].0, rest[p].0, rest[j - 1].0);
                }
            } else if i == p {
                assert(r[j] == rest[j - 1]);
                lemma_name_le_total(rest[p].0, x.0);
                if j - 1 > p {
                    lemma_name_le_trans(x.0, rest[p].0, rest[j - 1].0);
                }
            } else {
                assert(r[i] == rest[i - 1] && r[j] == rest[j - 1]);
            }
        }
        assert(s =~= s.drop_last().push(x));
        assert(by_name(s) == r);
        assert(r.to_multiset() == rest.to_multiset().insert(x));
        assert(s.drop_last().push(x).to_multiset() == s.drop_last().to_multiset().insert(x));
    } else {
        assert(s =~= Seq::<(Seq<char>, Seq<char>, Seq<char>)>::empty());
    }
}

} // verus!

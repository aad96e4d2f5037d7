//! Persistent server state under `~/.maplayer/`: where each file lives, the
//! allowlist of endpoint ids and the server's own settings. Reading and
//! writing the files is the program's job; the rules are here.
use vstd::prelude::*;
use vstd::utf8::{valid_utf8, decode_utf8};
use iroh::SecretKey;
use crate::text::{chars_of, string_of, replaced, replace_char, push_char, same_text};

verus! {

/// `PathBuf::join`: an absolute `part` (one that starts with `/`) replaces
/// `base`; otherwise a separator goes between unless `base` is empty or
/// already ends with one.
pub open spec fn joined(base: Seq<char>, part: Seq<char>) -> Seq<char> {
    if part.len() > 0 && part[0] == '/' {
        part
    } else if base.len() == 0 || base.last() == '/' {
        base + part
    } else {
        base.push('/') + part
    }
}

pub fn join(base: &str, part: &str) -> (r: String)
    ensures
        r@ == joined(base@, part@),
{
    let p = chars_of(part);
    if p.len() > 0 && p[0] == '/' {
        return string_of(p.as_slice());
    }
    let b = chars_of(base);
    let mut r = string_of(b.as_slice());
    if b.len() > 0 && b[b.len() - 1] != '/' {
        push_char(&mut r, '/');
    }
    let mut i: usize = 0;
    let ghost start = r@;
    while i < p.len()
        invariant
            i <= p@.len(),
            r@ == start + p@.take(i as int),
        decreases p@.len() - i,
    {
        push_char(&mut r, p[i]);
        i = i + 1;
        assert(r@ =~= start + p@.take(i as int));
    }
    assert(p@.take(p@.len() as int) =~= p@);
    r
}

/// Where the server keeps its files.
pub struct Config {
    pub root: String,
    pub allowlist_path: String,
    pub key_path: String,
    pub profiles_root: String,
    pub config_path: String,
    pub local_token_path: String,
}

impl Config {
    /// The layout under `home`: `~/.maplayer/` with `allowlist.json`,
    /// `secret_key`, `profiles/`, `config.json` and `local_token` in it.
    pub fn under_home(home: &str) -> (c: Config)
        ensures
            c.root@ == joined(home@, ".maplayer"@),
            c.allowlist_path@ == joined(c.root@, "allowlist.json"@),
            c.key_path@ == joined(c.root@, "secret_key"@),
            c.profiles_root@ == joined(c.root@, "profiles"@),
            c.config_path@ == joined(c.root@, "config.json"@),
            c.local_token_path@ == joined(c.root@, "local_token"@),
    {
        let root = join(home, ".maplayer");
        Config {
            allowlist_path: join(root.as_str(), "allowlist.json"),
            key_path: join(root.as_str(), "secret_key"),
            profiles_root: join(root.as_str(), "profiles"),
            config_path: join(root.as_str(), "config.json"),
            local_token_path: join(root.as_str(), "local_token"),
            root,
        }
    }
}

/// The endpoints allowed on the control plane (`allowlist.json`, shaped
/// `{ "endpoints": { "<id>": "<label?>" } }`), with the label each paired
/// with, where it gave one. A later entry for an id replaces an earlier one.
pub struct Allowlist {
    pub endpoints: Vec<(String, Option<String>)>,
}

pub open spec fn label_view(l: Option<String>) -> Option<Seq<char>> {
    match l {
        Some(s) => Some(s@),
        None => None,
    }
}

/// The allowlist as a map from endpoint id to label.
pub open spec fn endpoint_map(v: Seq<(String, Option<String>)>) -> Map<Seq<char>, Option<Seq<char>>>
    decreases v.len(),
{
    if v.len() == 0 {
        Map::empty()
    } else {
        endpoint_map(v.drop_last()).insert(v.last().0@, label_view(v.last().1))
    }
}

/// How a label is recorded: newlines become spaces.
pub open spec fn recorded_label(label: Seq<char>) -> Seq<char> {
    replace_char(label, '\n', ' ')
}

/// The allowlist after `allow(id, label)`: the id is on it, with the label
/// where one is given; without a label an id already on it keeps its own.
pub open spec fn after_allow(m: Map<Seq<char>, Option<Seq<char>>>, id: Seq<char>, label: Option<Seq<char>>) -> Map<
    Seq<char>,
    Option<Seq<char>>,
> {
    match label {
        Some(l) => m.insert(id, Some(recorded_label(l))),
        None => if m.dom().contains(id) {
            m
        } else {
            m.insert(id, None)
        },
    }
}

proof fn lemma_endpoint_map_dom(v: Seq<(String, Option<String>)>, id: Seq<char>)
    ensures
        endpoint_map(v).dom().contains(id) <==> exists|i: int| 0 <= i < v.len() && (#[trigger] v[i]).0@ == id,
    decreases v.len(),
{
    if v.len() > 0 {
        lemma_endpoint_map_dom(v.drop_last(), id);
        if exists|i: int| 0 <= i < v.drop_last().len() && (#[trigger] v.drop_last()[i]).0@ == id {
            let i = choose|i: int| 0 <= i < v.drop_last().len() && (#[trigger] v.drop_last()[i]).0@ == id;
            assert(v[i] == v.drop_last()[i]);
        }
        if exists|i: int| 0 <= i < v.len() && (#[trigger] v[i]).0@ == id {
            let i = choose|i: int| 0 <= i < v.len() && (#[trigger] v[i]).0@ == id;
            if i < v.len() - 1 {
                assert(v.drop_last()[i] == v[i]);
            }
        }
    }
}

impl Allowlist {
    pub open spec fn view_map(&self) -> Map<Seq<char>, Option<Seq<char>>> {
        endpoint_map(self.endpoints@)
    }

    /// An empty allowlist (what a missing file reads as).
    pub fn new() -> (a: Allowlist)
        ensures
            a.view_map() == Map::<Seq<char>, Option<Seq<char>>>::empty(),
    {
        Allowlist { endpoints: Vec::new() }
    }

    /// Whether `id` may use the control plane: it is on the allowlist.
    pub fn is_allowed(&self, id: &str) -> (r: bool)
        ensures
            r == self.view_map().dom().contains(id@),
    {
        let mut i: usize = 0;
        while i < self.endpoints.len()
            invariant
                i <= self.endpoints@.len(),
                forall|j: int| 0 <= j < i ==> (#[trigger] self.endpoints@[j]).0@ != id@,
            decreases self.endpoints@.len() - i,
        {
            if same_text(self.endpoints[i].0.as_str(), id) {
                proof {
                    assert(self.endpoints@[i as int].0@ == id@);
                    lemma_endpoint_map_dom(self.endpoints@, id@);
                }
                return true;
            }
            i = i + 1;
        }
        proof {
            lemma_endpoint_map_dom(self.endpoints@, id@);
        }
        false
    }

    /// Records `id`, with `label` (newlines turned into spaces) where one is
    /// given.
    pub fn allow(&mut self, id: &str, label: Option<String>)
        ensures
            final(self).view_map() == after_allow(old(self).view_map(), id@, label_view(label)),
    {
        match label {
            Some(l) => {
                let lc = chars_of(l.as_str());
                let rec = replaced(lc.as_slice(), '\n', ' ');
                let text = string_of(rec.as_slice());
                let ghost before = self.endpoints@;
                self.endpoints.push((id.to_owned(), Some(text)));
                assert(self.endpoints@.drop_last() =~= before);
            },
            None => {
                if !self.is_allowed(id) {
                    let ghost before = self.endpoints@;
                    self.endpoints.push((id.to_owned(), None));
                    assert(self.endpoints@.drop_last() =~= before);
                }
            },
        }
    }
}

/// Law: after `allow(id, label)` exactly one more id is allowed, `id`
/// itself; every id allowed before stays allowed.
pub proof fn law_allow_admits_exactly_id(
    m: Map<Seq<char>, Option<Seq<char>>>,
    id: Seq<char>,
    label: Option<Seq<char>>,
    x: Seq<char>,
)
    ensures
        after_allow(m, id, label).dom().contains(x) <==> (m.dom().contains(x) || x == id),
        label matches Some(l) ==> after_allow(m, id, label)[id] == Some(recorded_label(l)),
{
}

/// The server's own settings (`config.json`).
pub struct ServerConfig {
    pub default_profile: Option<String>,
}

impl ServerConfig {
    /// What a missing or unreadable `config.json` reads as: no default profile.
    pub fn new() -> (c: ServerConfig)
        ensures
            c.default_profile is None,
    {
        ServerConfig { default_profile: None }
    }

    /// Makes `name` the default profile.
    pub fn set_default_profile(&mut self, name: String)
        ensures
            final(self).default_profile == Some(name),
    {
        self.default_profile = Some(name);
    }
}

#[verifier::external_type_specification]
#[verifier::external_body]
pub struct ExSecretKey(iroh::SecretKey);

/// `String::from_utf8`: the text the bytes encode, where they are valid
/// UTF-8.
#[verifier::external_body]
fn utf8_text(bytes: Vec<u8>) -> (r: Option<String>)
    ensures
        r is Some <==> valid_utf8(bytes@),
        r matches Some(t) ==> t@ == decode_utf8(bytes@),
{
    String::from_utf8(bytes).ok()
}

/// What `<iroh::SecretKey as FromStr>::from_str` makes of a text: a key
/// where it is 32 bytes written as 64 lower-case hex digits or as unpadded
/// base32 (either case), nothing otherwise.
pub uninterp spec fn secret_key_from_text(text: Seq<char>) -> Option<SecretKey>;

/// `<iroh::SecretKey as FromStr>::from_str`. Claimed: the outcome depends on
/// the text alone (which texts parse, and to which key, is left to the
/// name).
#[verifier::external_body]
fn parse_secret_key(text: &str) -> (r: Option<SecretKey>)
    ensures
        r == secret_key_from_text(text@),
{
    text.parse::<SecretKey>().ok()
}

/// The key `iroh::SecretKey::from_bytes` makes of 32 bytes.
pub uninterp spec fn secret_key_from_bytes(bytes: Seq<u8>) -> SecretKey;

/// `iroh::SecretKey::from_bytes` on exactly 32 bytes. Claimed: the key
/// depends on the bytes alone (which key is left to the name).
#[verifier::external_body]
fn secret_key_from_raw(bytes: Vec<u8>) -> (k: SecretKey)
    requires
        bytes@.len() == 32,
    ensures
        k == secret_key_from_bytes(bytes@),
{
    let arr: [u8; 32] = bytes.try_into().unwrap();
    SecretKey::from_bytes(&arr)
}

/// Why the stored secret key could not be used.
pub enum KeyFileError {
    /// Not 32 raw bytes, and not UTF-8 text either.
    NotText,
    /// Text, but not a key ("corrupt secret_key file").
    Corrupt,
}

/// The server's identity from the bytes of `secret_key`: 32 bytes are the
/// key itself; anything else must be the key written out as text
/// (surrounding white space ignored).
pub fn secret_key_from_file(bytes: Vec<u8>) -> (r: Result<SecretKey, KeyFileError>)
    ensures
        bytes@.len() == 32 ==> r == Ok::<SecretKey, KeyFileError>(secret_key_from_bytes(bytes@)),
        bytes@.len() != 32 ==> if !valid_utf8(bytes@) {
            r matches Err(KeyFileError::NotText)
        } else {
            match secret_key_from_text(crate::text::trimmed(decode_utf8(bytes@))) {
                Some(k) => r == Ok::<SecretKey, KeyFileError>(k),
                None => r matches Err(KeyFileError::Corrupt),
            }
        },
{
    if bytes.len() == 32 {
        return Ok(secret_key_from_raw(bytes));
    }
    match utf8_text(bytes) {
        None => Err(KeyFileError::NotText),
        Some(t) => {
            let cs = chars_of(t.as_str());
            let tt = crate::text::trim(cs.as_slice());
            let text = string_of(tt.as_slice());
            match parse_secret_key(text.as_str()) {
                Some(k) => Ok(k),
                None => Err(KeyFileError::Corrupt),
            }
        },
    }
}

/// Law: authorization is re-checked per stream, so an endpoint that paired
/// reaches every control-plane method from its next stream on, while its
/// pairing call itself needed no allowlist entry.
pub proof fn law_paired_endpoint_reaches_control_plane(
    es: Map<Seq<char>, Option<Seq<char>>>,
    id: Seq<char>,
    label: Option<Seq<char>>,
    m: crate::rpc::Method,
)
    ensures
        crate::rpc::routed(false, crate::rpc::method_name(crate::rpc::Method::PairHello)) == Ok::<
            crate::rpc::Method,
            (i64, Seq<char>),
        >(crate::rpc::Method::PairHello),
        after_allow(es, id, label).dom().contains(id),
        crate::rpc::routed(after_allow(es, id, label).dom().contains(id), crate::rpc::method_name(m))
            == Ok::<crate::rpc::Method, (i64, Seq<char>)>(m),
{
    law_allow_admits_exactly_id(es, id, label, id);
    crate::rpc::law_unauthorized_reach_pair_hello_only(crate::rpc::method_name(crate::rpc::Method::PairHello));
    crate::rpc::law_allowed_reach_every_method(m, crate::rpc::method_name(m));
}

} // verus!

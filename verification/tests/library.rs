use maplayer::config::{join, secret_key_from_file, Allowlist, Config, KeyFileError};
use maplayer::discovery::{
    codex_sessions, cursor_sessions, describe, discover, external_sessions, is_session_path,
    rank_newest_first, select_session_files, FileCandidate, SessionSource,
};
use maplayer::launcher::{
    cached_client_fits, choose_server_bin, classify_line, launcher_token, pairing_pin,
    rpc_error_text, self_ticket, server_bin_candidates, server_bin_name, ServerProc, ServerLine,
};
use maplayer::pairing::{pin_text, random_pin, PairingState};
use maplayer::profiles::{profile_to_use, sort_profiles, ProfileError, ProfileManager, ProfileMeta};
use maplayer::proto::Profile;
use maplayer::session::{
    created_at_text, new_session_id, recorded_exit, take_complete_lines, unix_now, Backlog,
    BACKLOG_CAP,
};
use maplayer::tail::{check_reference, is_tailable, tail_lines, tail_text, TailError};
use maplayer::text::{decimal_string, replace_in};

fn cand(path: &str, mtime: Option<u64>) -> FileCandidate {
    FileCandidate { path: path.to_string(), mtime }
}

#[test]
fn config_layout_under_home() {
    let c = Config::under_home("/home/u");
    assert_eq!(c.root, "/home/u/.maplayer");
    assert_eq!(c.allowlist_path, "/home/u/.maplayer/allowlist.json");
    assert_eq!(c.key_path, "/home/u/.maplayer/secret_key");
    assert_eq!(c.profiles_root, "/home/u/.maplayer/profiles");
    assert_eq!(c.config_path, "/home/u/.maplayer/config.json");
    assert_eq!(c.local_token_path, "/home/u/.maplayer/local_token");
    assert_eq!(join("/home/u/", "x"), "/home/u/x");
    assert_eq!(join("", "x"), "x");
    assert_eq!(join("/home/u", "/abs"), "/abs");
}

#[test]
fn allowlist_labels_and_ids() {
    let mut a = Allowlist::new();
    assert!(!a.is_allowed("abc"));
    a.allow("abc", Some("my\nphone".to_string()));
    assert!(a.is_allowed("abc"));
    assert_eq!(a.endpoints.last().unwrap().1.as_deref(), Some("my phone"));
    assert!(!a.is_allowed("my phone"));
    assert!(!a.is_allowed("ab"));
    // Without a label an id already on the list keeps its own.
    a.allow("abc", None);
    assert_eq!(a.endpoints.len(), 1);
    a.allow("def", None);
    assert!(a.is_allowed("def"));
    assert!(a.is_allowed("abc"));
    assert_eq!(a.endpoints.len(), 2);
    assert_eq!(a.endpoints[1], ("def".to_string(), None));
    // Ids with a '#' in them are ids like any other.
    a.allow("x#y", None);
    assert!(a.is_allowed("x#y"));
    assert!(!a.is_allowed("x"));
}

#[test]
fn pairing_window_is_one_shot() {
    let mut p = PairingState::new();
    assert!(!p.check("111111"));
    assert!(p.ticket_pin().is_none());
    p.open_pairing("111111".to_string());
    assert_eq!(p.ticket_pin().as_deref(), Some("111111"));
    assert!(!p.try_pin("222222"));
    assert!(p.check("111111"));
    assert!(p.try_pin("111111"));
    assert!(!p.try_pin("111111"));
    assert!(p.ticket_pin().is_none());
    p.open_pairing("333333".to_string());
    p.close();
    assert!(!p.check("333333"));
}

#[test]
fn pins_are_six_digits() {
    assert_eq!(pin_text(0), "000000");
    assert_eq!(pin_text(42), "000042");
    assert_eq!(pin_text(1234567), "234567");
    assert_eq!(pin_text(u32::MAX), "967295");
    let p = random_pin();
    assert_eq!(p.len(), 6);
    assert!(p.chars().all(|c| c.is_ascii_digit()));
}

#[test]
fn profile_names() {
    assert!(ProfileManager::validate_name("work").is_ok());
    assert!(ProfileManager::validate_name("a-b_C9").is_ok());
    assert!(ProfileManager::validate_name("").is_err());
    assert!(ProfileManager::validate_name("bad name").is_err());
    assert!(ProfileManager::validate_name("../x").is_err());
    assert!(ProfileManager::validate_name(&"x".repeat(64)).is_ok());
    assert!(ProfileManager::validate_name(&"x".repeat(65)).is_err());
    assert!(ProfileManager::validate_name("é").is_err());
}

#[test]
fn profile_errors_and_homes() {
    let pm = ProfileManager::new(&Config::under_home("/h"));
    assert_eq!(pm.dir("work"), "/h/.maplayer/profiles/work");
    assert_eq!(pm.dir("/abs"), "/abs");
    match pm.plan_create("bad name", "chatgpt") {
        Err(e) => assert_eq!(e.message(), "profile name must be 1-64 chars of [a-zA-Z0-9_-]"),
        Ok(_) => panic!("accepted a bad name"),
    }
    match pm.plan_create("ok", "password") {
        Err(e) => assert_eq!(e.message(), "credential must be chatgpt|api-key"),
        Ok(_) => panic!("accepted a bad credential"),
    }
    let plan = pm.plan_create("keys", "api-key").ok().unwrap();
    assert_eq!(plan.dir, "/h/.maplayer/profiles/keys");
    assert_eq!(plan.meta.name, "keys");
    assert_eq!(plan.meta.credential, "api-key");
    assert_eq!(plan.result.codex_home, plan.dir);
    assert_eq!(
        plan.result.login.text,
        "Run on host: printenv OPENAI_API_KEY | CODEX_HOME=/h/.maplayer/profiles/keys codex login --with-api-key"
    );
    let plan = pm.plan_create("work", "chatgpt").ok().unwrap();
    assert_eq!(plan.result.login.text, "Run on host: CODEX_HOME=/h/.maplayer/profiles/work codex login (opens browser)");
    // A profile created is the CODEX_HOME its name resolves to.
    assert_eq!(pm.codex_home(Some("work".into()), true).ok().unwrap(), Some(plan.dir));
    match pm.codex_home(Some("ghost".into()), false) {
        Err(ProfileError::Unknown(n)) => assert_eq!(n, "ghost"),
        _ => panic!("unknown profile accepted"),
    }
    assert_eq!(ProfileError::Unknown("ghost".into()).message(), "unknown profile: ghost");
    assert!(pm.codex_home(None, false).ok().unwrap().is_none());
    assert!(matches!(pm.codex_home(Some("/abs".into()), true), Err(ProfileError::BadName)));
    assert!(matches!(pm.codex_home(Some("../x".into()), true), Err(ProfileError::BadName)));
    assert_eq!(profile_to_use(None, Some("d".into())).as_deref(), Some("d"));
    assert_eq!(profile_to_use(Some("x".into()), Some("d".into())).as_deref(), Some("x"));
    assert_eq!(profile_to_use(None, None), None);
}

#[test]
fn profiles_sort_by_name_stably() {
    let p = |n: &str, c: &str| Profile { name: n.into(), credential: c.into(), codex_home: format!("/h/{n}") };
    let sorted = sort_profiles(vec![p("work", "chatgpt"), p("keys", "api-key"), p("Zed", "x"), p("keys", "second"), p("k", "y")]);
    let names: Vec<(&str, &str)> = sorted.iter().map(|q| (q.name.as_str(), q.credential.as_str())).collect();
    assert_eq!(names, vec![("Zed", "x"), ("k", "y"), ("keys", "api-key"), ("keys", "second"), ("work", "chatgpt")]);
}

#[test]
fn session_files_per_provider() {
    assert!(is_session_path(SessionSource::Codex, "/h/.codex/sessions/2026/01/rollout-a.jsonl"));
    assert!(!is_session_path(SessionSource::Codex, "/h/.codex/sessions/2026/01/rollout-a.json"));
    assert!(!is_session_path(SessionSource::Codex, "/h/.codex/sessions/2026/01/other.jsonl"));
    assert!(is_session_path(SessionSource::Codex, "/h/x/rollout-.jsonl"));
    assert!(is_session_path(SessionSource::Cursor, "/h/.cursor/chats/p/c/store.db"));
    assert!(!is_session_path(SessionSource::Cursor, "/h/.cursor/chats/p/c/store.db-wal"));
    assert!(!is_session_path(SessionSource::Cursor, "store.db/"));
}

#[test]
fn discovery_newest_first_and_capped() {
    let files = vec![
        cand("/h/s/rollout-old.jsonl", Some(10)),
        cand("/h/s/notes.txt", Some(99)),
        cand("/h/s/rollout-new.jsonl", Some(30)),
        cand("/h/s/rollout-tie.jsonl", Some(10)),
        cand("/h/s/rollout-unknown.jsonl", None),
    ];
    let out = discover(SessionSource::Codex, files, 3, true);
    let refs: Vec<&str> = out.iter().map(|e| e.reference.as_str()).collect();
    assert_eq!(refs, vec!["/h/s/rollout-new.jsonl", "/h/s/rollout-old.jsonl", "/h/s/rollout-tie.jsonl"]);
    assert_eq!(out[0].title.as_deref(), Some("rollout-new.jsonl"));
    assert_eq!(out[0].last_active.as_deref(), Some("30"));
    assert!(out[0].alive);
    assert_eq!(out[0].provider, "codex");
    assert_eq!(out[0].detail, "rollout jsonl; tail-capable");

    let selected = select_session_files(SessionSource::Codex, vec![cand("/a/rollout-1.jsonl", Some(1)), cand("/a/b", Some(2))]);
    assert_eq!(selected.len(), 1);
    let ranked = rank_newest_first(vec![cand("a", Some(1)), cand("b", Some(3)), cand("c", Some(3)), cand("d", None)]);
    let order: Vec<&str> = ranked.iter().map(|c| c.path.as_str()).collect();
    assert_eq!(order, vec!["b", "c", "a", "d"]);
}

#[test]
fn cursor_chats_are_titled_by_their_directory() {
    let e = describe(SessionSource::Cursor, cand("/h/.cursor/chats/proj/chat42/store.db", None), false);
    assert_eq!(e.title.as_deref(), Some("chat42"));
    assert_eq!(e.last_active, None);
    assert!(!e.alive);
    assert_eq!(e.provider, "cursor");
    assert_eq!(e.detail, "sqlite store.db; list-level");
    let many: Vec<FileCandidate> = (0..60).map(|i| cand(&format!("/c/p/{i}/store.db"), Some(i))).collect();
    let out = cursor_sessions(many, true);
    assert_eq!(out.len(), 50);
    assert_eq!(out[0].last_active.as_deref(), Some("59"));
    let codex = codex_sessions(vec![cand("/x/rollout-1.jsonl", Some(5))], false);
    assert_eq!(codex.len(), 1);
    let all = external_sessions(vec![cand("/x/rollout-1.jsonl", Some(5))], false, vec![cand("/c/p/q/store.db", Some(1))], true);
    assert_eq!(all.len(), 2);
    assert_eq!(all[0].provider, "codex");
    assert_eq!(all[1].provider, "cursor");
    assert!(all[1].alive);
}

#[test]
fn tails_of_rollouts() {
    let (lines, off) = tail_lines(b"a\nbb\nccc", 1);
    assert_eq!(lines, vec![b"ccc".to_vec()]);
    assert_eq!(off, 5);
    // Zero lines asked for: none, at the end of the file.
    let (lines, off) = tail_lines(b"a\nbb\n", 0);
    assert!(lines.is_empty());
    assert_eq!(off, 5);
    let (lines, off) = tail_lines(b"a\nbb", 0);
    assert!(lines.is_empty());
    assert_eq!(off, 4);
    let (lines, off) = tail_lines(b"", 5);
    assert!(lines.is_empty());
    assert_eq!(off, 0);
    let (lines, off) = tail_lines(b"x\n\n", 10);
    assert_eq!(lines, vec![b"x".to_vec(), b"".to_vec()]);
    assert_eq!(off, 0);
    let (text, _) = tail_text(b"ok\n\xff\n", 2);
    assert_eq!(text, vec!["ok".to_string(), "\u{fffd}".to_string()]);
    let (text, off) = tail_text(b"h\xc3\xa9\n", 1);
    assert_eq!(text, vec!["hé".to_string()]);
    assert_eq!(off, 0);
}

#[test]
fn tail_references() {
    let root = "/home/u/.codex/sessions";
    assert!(is_tailable("/home/u/.codex/sessions/2026/rollout-x.jsonl", root));
    assert!(!is_tailable("/home/u/.codex/sessions-other/rollout-x.jsonl", root));
    assert!(!is_tailable("/home/u/.codex/sessions/2026/x.jsonl", root));
    assert!(!is_tailable("home/u/.codex/sessions/rollout-x.jsonl", root));
    assert!(matches!(check_reference(None, Some(root.into())), Err(TailError::NotFound)));
    assert!(matches!(check_reference(Some("/x".into()), None), Err(TailError::NoRoot)));
    assert_eq!(TailError::NotFound.message(), "session file not found");
    assert_eq!(TailError::NoRoot.message(), "no ~/.codex/sessions");
    assert_eq!(TailError::NotRollout.message(), "reference is not a codex rollout file");
}

#[test]
fn backlog_drops_older_half_when_full() {
    let mut b = Backlog::new();
    for i in 0..BACKLOG_CAP {
        let (seq, _) = b.push_line(format!("{i}").into_bytes());
        assert_eq!(seq, i as u64);
    }
    let (lines, last) = b.replay();
    assert_eq!(lines.len(), BACKLOG_CAP);
    assert_eq!(last, Some(3999));
    let (seq, bytes) = b.push_line(b"next".to_vec());
    assert_eq!(seq, 4000);
    assert_eq!(bytes, b"next\n");
    let (lines, last) = b.replay();
    assert_eq!(lines.len(), BACKLOG_CAP / 2 + 1);
    assert_eq!(lines[0], b"2000\n");
    assert_eq!(last, Some(4000));
    let (empty, none) = Backlog::new().replay();
    assert!(empty.is_empty());
    assert_eq!(none, None);
}

#[test]
fn client_bytes_cut_into_lines() {
    let mut pending = b"ab\ncd\n\nrest".to_vec();
    let lines = take_complete_lines(&mut pending);
    assert_eq!(lines, vec![b"ab\n".to_vec(), b"cd\n".to_vec(), b"\n".to_vec()]);
    assert_eq!(pending, b"rest");
    let mut none = b"no newline".to_vec();
    assert!(take_complete_lines(&mut none).is_empty());
    assert_eq!(none, b"no newline");
}

#[test]
fn session_helpers() {
    assert_eq!(recorded_exit(Some(3)), 3);
    assert_eq!(recorded_exit(None), -1);
    assert_eq!(created_at_text(1725029869), "1725029869");
    assert!(unix_now().parse::<u64>().unwrap() > 1_600_000_000);
    let id = new_session_id();
    assert_eq!(id.len(), 36);
    for (i, c) in id.chars().enumerate() {
        if i == 8 || i == 13 || i == 18 || i == 23 {
            assert_eq!(c, '-');
        } else {
            assert!(c.is_ascii_digit() || ('a'..='f').contains(&c), "{id}");
        }
    }
    assert_eq!(id.as_bytes()[14], b'4');
    assert!(matches!(id.as_bytes()[19], b'8' | b'9' | b'a' | b'b'));
    assert_ne!(id, new_session_id());
    assert_eq!(decimal_string(0), "0");
    assert_eq!(decimal_string(u64::MAX), "18446744073709551615");
    assert_eq!(replace_in("a\nb\n", '\n', ' '), "a b ");
}

#[test]
fn key_files() {
    assert!(secret_key_from_file(vec![7u8; 32]).is_ok());
    assert!(matches!(secret_key_from_file(vec![0xff, 0xfe]), Err(KeyFileError::NotText)));
    assert!(matches!(secret_key_from_file(b"not a key\n".to_vec()), Err(KeyFileError::Corrupt)));
    let hex = format!("{}\n", "ab".repeat(32));
    assert!(secret_key_from_file(hex.into_bytes()).is_ok());
}

#[test]
fn launcher_reads_server_stdout() {
    assert!(matches!(classify_line("endpoint id: abc "), ServerLine::EndpointId(v) if v == "abc"));
    assert!(matches!(classify_line("addr:  {\"id\":\"x\"}"), ServerLine::Addr(v) if v == "{\"id\":\"x\"}"));
    assert!(matches!(classify_line("pairing ticket (QR payload): {}"), ServerLine::PairingTicket(v) if v == "{}"));
    assert!(matches!(classify_line("pairing PIN: 123456"), ServerLine::Other));

    let mut s = ServerProc::new();
    assert!(s.start(true).is_ok());
    assert!(s.start(false).is_err());
    assert!(s.pairing);
    s.observe_line(classify_line("endpoint id: abc"), None);
    s.observe_line(classify_line("addr: not json"), Some("tok".into()));
    assert_eq!(s.addr.as_deref(), Some("not json"));
    assert!(s.connected_ticket().is_none());
    s.observe_line(classify_line("addr: {\"id\":\"abc\"}"), Some("tok".into()));
    assert_eq!(s.connected_ticket().as_deref(), Some("{\"addr\":{\"id\":\"abc\"},\"pin\":\"tok\"}"));
    s.observe_line(classify_line("addr: {\"id\":\"abc\"}"), None);
    assert_eq!(s.connected_ticket().as_deref(), Some("{\"addr\":{\"id\":\"abc\"},\"pin\":null}"));
    s.observe_line(classify_line("pairing ticket (QR payload): T"), None);
    let st = s.status();
    assert!(st.running && st.pairing);
    assert_eq!(st.endpoint_id.as_deref(), Some("abc"));
    assert_eq!(st.ticket.as_deref(), Some("T"));
    s.stop();
    let st = s.status();
    assert!(!st.running && !st.pairing);
    assert!(st.ticket.is_none());
    assert!(s.connected_ticket().is_none());
    assert_eq!(st.endpoint_id.as_deref(), Some("abc"));
    assert_eq!(launcher_token(Some("  \n".into())), None);
    assert_eq!(launcher_token(Some(" t \n".into())).as_deref(), Some("t"));
    assert_eq!(launcher_token(None), None);
    assert_eq!(self_ticket("{\"id\":1}", Some("t".into())).as_deref(), Some("{\"addr\":{\"id\":1},\"pin\":\"t\"}"));
    assert!(self_ticket("{", None).is_none());
    assert_eq!(self_ticket("{ \"id\" : 1 }", Some("a\"b".into())).as_deref(), Some("{\"addr\":{\"id\":1},\"pin\":\"a\\\"b\"}"));
}

#[test]
fn launcher_finds_server_binary() {
    let bin = server_bin_name("");
    assert_eq!(bin, "maplayer-server");
    let c = server_bin_candidates(&bin);
    assert_eq!(c, vec!["../target/debug/maplayer-server".to_string(), "../target/release/maplayer-server".to_string()]);
    assert_eq!(choose_server_bin(Some("/x".into()), Some("/y".into()), bin.clone()), "/x");
    assert_eq!(choose_server_bin(Some("".into()), Some("/y".into()), bin.clone()), "/y");
    assert_eq!(choose_server_bin(None, None, bin.clone()), "maplayer-server");
}

#[test]
fn client_decisions() {
    assert_eq!(pairing_pin(Some("123456".into())).ok().as_deref(), Some("123456"));
    assert_eq!(pairing_pin(Some("".into())).err().unwrap().message(), "server rejected us and ticket carries no pin");
    assert!(pairing_pin(None).is_err());
    assert_eq!(rpc_error_text(None), "rpc error");
    assert_eq!(rpc_error_text(Some("boom".into())), "boom");
    assert!(cached_client_fits(Some("t"), "t"));
    assert!(!cached_client_fits(Some("t"), "u"));
    assert!(!cached_client_fits(None, "t"));
}

#[test]
fn tail_offset_resumes_at_returned_lines() {
    let file: &[u8] = b"first\nsecond\nthird\nfourth";
    let (lines, off) = tail_lines(file, 2);
    assert_eq!(lines, vec![b"third".to_vec(), b"fourth".to_vec()]);
    assert_eq!(off, 13);
    let (again, off2) = tail_lines(&file[off as usize..], 10);
    assert_eq!(again, lines);
    assert_eq!(off2, 0);
}

#[test]
fn created_profile_lists_and_resolves() {
    let cfg = Config::under_home("/home/u");
    let pm = ProfileManager::new(&cfg);
    let plan = pm.plan_create("work", "api-key").ok().unwrap();
    let listed = pm.listed_profile(ProfileMeta { name: plan.meta.name.clone(), credential: plan.meta.credential.clone() });
    assert_eq!(listed.name, "work");
    assert_eq!(listed.credential, "api-key");
    assert_eq!(listed.codex_home, plan.result.codex_home);
    assert_eq!(pm.codex_home(Some("work".into()), true).ok().unwrap(), Some(plan.result.codex_home.clone()));
    assert_eq!(plan.result.codex_home, "/home/u/.maplayer/profiles/work");
}

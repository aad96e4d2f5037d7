use maplayer::config::{Allowlist, ServerConfig};
use maplayer::launcher::launcher_token;
use maplayer::pairing::{launcher_token_accepts, pair_refused_message, PairingState};
use maplayer::profiles::{sort_profiles, ProfileManager, ProfileMeta};
use maplayer::config::Config;
use maplayer::proto::SessionNewParams;
use maplayer::rpc::{pair_hello_result, ping_result, route, Method};
use maplayer::session::{
    build_command, session_state, should_forward, take_complete_lines, Backlog, STUB_AGENT_ENV,
};
use maplayer::tail::{check_reference, tail_text};

const PIN: &str = "123456";

fn params(provider: &str, cwd: &str) -> SessionNewParams {
    SessionNewParams { provider: provider.into(), profile: None, cwd: cwd.into() }
}

/// The decisions the daemon takes during the wire walkthrough, in its order.
#[test]
fn wire_end_to_end() {
    let server_id = "server-endpoint".to_string();
    let mut allowlist = Allowlist::new();
    let mut pairing = PairingState::new();

    // Unauthorized outside a pairing window: methods refused.
    let rogue = "rogue-endpoint";
    let e = route(allowlist.is_allowed(rogue), "maplayer/ping").err().unwrap();
    assert_eq!(e.code, -32001, "unauthorized ping accepted (before pairing)");
    // pair_hello with a bad PIN fails too.
    assert_eq!(route(false, "maplayer/pair_hello").ok(), Some(Method::PairHello));
    assert!(!pairing.try_pin("000000"));
    assert!(!launcher_token_accepts("launcher-token", "000000"));
    assert!(pair_refused_message().contains("pin"));

    // Pairing: bad PIN is refused, good PIN pairs.
    pairing.open_pairing(PIN.into());
    assert!(!pairing.try_pin("000000"));
    assert!(pair_refused_message().contains("pin"));
    assert!(pairing.try_pin(PIN));
    allowlist.allow("client-endpoint", Some("test-client".to_string()));
    let r = pair_hello_result(server_id.clone());
    assert_eq!(r.server_id, server_id);
    assert_eq!(r.name, "maplayer-server");

    // The window closed on success: the PIN fails even for the paired client,
    // and a brand-new endpoint is refused again.
    assert!(!pairing.check(PIN));
    assert!(!pairing.try_pin(PIN));
    assert!(pair_refused_message().contains("closed"));
    assert_eq!(route(allowlist.is_allowed("other-endpoint"), "maplayer/ping").err().unwrap().code, -32001);

    // The same-host launcher pairs with the local token while the window is closed.
    let token = launcher_token(Some("launcher-secret\n".to_string())).unwrap();
    assert!(!pairing.try_pin(token.trim()));
    assert!(launcher_token_accepts(&token, token.trim()));
    allowlist.allow("launcher-endpoint", Some("launcher".to_string()));
    assert!(allowlist.is_allowed("launcher-endpoint"));
    assert_eq!(route(allowlist.is_allowed("launcher-endpoint"), "maplayer/ping").ok(), Some(Method::Ping));

    // ping
    assert!(allowlist.is_allowed("client-endpoint"));
    let p = ping_result(server_id.clone(), "0.1.0".to_string());
    assert_eq!(p.server_id, server_id);
    assert!(!p.version.is_empty());

    // unknown method: JSON-RPC standard -32601
    assert_eq!(route(true, "maplayer/nope").err().unwrap().code, -32601);

    // profiles: create both credential kinds, set default
    let cfg = Config::under_home("/home/u");
    let pm = ProfileManager::new(&cfg);
    let work = pm.plan_create("work", "chatgpt").ok().unwrap();
    assert_eq!(work.result.name, "work");
    assert_eq!(work.result.login.kind, "url");
    assert!(work.result.login.text.contains("codex login"));
    let keys = pm.plan_create("keys", "api-key").ok().unwrap();
    assert_eq!(keys.result.login.kind, "api_key_prompt");
    let listed = sort_profiles(vec![
        pm.listed_profile(ProfileMeta { name: "work".into(), credential: "chatgpt".into() }),
        pm.listed_profile(ProfileMeta { name: "keys".into(), credential: "api-key".into() }),
    ]);
    let names: Vec<&str> = listed.iter().map(|p| p.name.as_str()).collect();
    assert!(names.contains(&"work") && names.contains(&"keys"), "{names:?}");
    assert!(pm.codex_home(Some("work".to_string()), true).is_ok());
    let mut sc = ServerConfig::new();
    sc.set_default_profile("work".to_string());
    assert_eq!(sc.default_profile.as_deref(), Some("work"));

    // session_new: unknown provider, then the stub agent
    let e = build_command(&params("not-a-provider", "/tmp"), None, None).err().unwrap();
    assert!(e.message().contains("unknown provider"));
    let c = build_command(&params("codex", "/tmp"), None, Some("maplayer-no-such-binary-xyz".into()))
        .ok()
        .unwrap();
    assert_eq!(c.program, "maplayer-no-such-binary-xyz");
    let c = build_command(&params("codex", "/tmp"), Some("/home/u/.maplayer/profiles/work".into()), Some("cat".into()))
        .ok()
        .unwrap();
    assert_eq!(c.program, "cat");
    assert!(c.args.is_empty());
    assert_eq!(c.codex_home.as_deref(), Some("/home/u/.maplayer/profiles/work"));
    assert_eq!(session_state(false), "running");

    // session_tail: last lines of a codex rollout file
    let root = "/home/u/.codex/sessions";
    let roll = "/home/u/.codex/sessions/2026/09/rollout-test.jsonl";
    assert!(check_reference(Some(roll.into()), Some(root.into())).is_ok());
    let (lines, offset) = tail_text(b"l1\nl2\nl3\nl4\n", 2);
    assert_eq!(lines, vec!["l3".to_string(), "l4".to_string()]);
    assert_eq!(offset, 6);
    let e = check_reference(Some("/etc/passwd".into()), Some(root.into())).err().unwrap();
    assert!(e.message().contains("codex"), "{}", e.message());

    // session_kill: state flips to exited
    assert_eq!(session_state(true), "exited");
}

#[test]
fn unknown_provider_errors() {
    let err = build_command(&params("not-a-provider", "/tmp/noprovider"), None, None).err().unwrap();
    assert!(err.message().contains("unknown provider"));
    assert_eq!(err.message(), "unknown provider: not-a-provider");
    assert_eq!(STUB_AGENT_ENV, "MAPLAYER_STUB_AGENT");
}

/// Backlog, fan-out and replay of a session whose agent echoes its input.
#[test]
fn stub_echo_session_backlog_fanout_stdin_kill() {
    let c = build_command(&params("codex", "/tmp/echo"), None, Some("cat".into())).ok().unwrap();
    assert_eq!(c.program, "cat");

    // stdin forwarding: lines in, the agent echoes, the backlog grows in order.
    let mut pending = b"one\ntwo\n".to_vec();
    let to_agent = take_complete_lines(&mut pending);
    assert_eq!(to_agent, vec![b"one\n".to_vec(), b"two\n".to_vec()]);
    assert!(pending.is_empty());

    let mut backlog = Backlog::new();
    let (s0, l0) = backlog.push_line(b"one".to_vec());
    let (s1, l1) = backlog.push_line(b"two".to_vec());
    assert_eq!(l0, b"one\n");
    assert_eq!(l1, b"two\n");
    assert!(s0 < s1, "seq must be increasing");

    // Fan-out: two subscribers see the same later live line.
    let (_, last_before) = backlog.replay();
    let (s2, l2) = backlog.push_line(b"three".to_vec());
    assert_eq!(l2, b"three\n");
    assert!(should_forward(s2, last_before));
    assert!(should_forward(s2, last_before) == should_forward(s2, last_before));

    // Replay order for a late attacher, then live lines only past the replay.
    let (replayed, last) = backlog.replay();
    let joined: Vec<u8> = replayed.concat();
    assert_eq!(joined, b"one\ntwo\nthree\n");
    assert!(!should_forward(s2, last));
    let mut pending = b"four\n".to_vec();
    let to_agent = take_complete_lines(&mut pending);
    assert_eq!(to_agent, vec![b"four\n".to_vec()]);
    let (s3, l3) = backlog.push_line(b"four".to_vec());
    assert!(should_forward(s3, last));
    let mut got = joined.clone();
    got.extend_from_slice(&l3);
    assert_eq!(got, b"one\ntwo\nthree\nfour\n");

    // Kill: the session lists as exited.
    assert_eq!(session_state(true), "exited");
}

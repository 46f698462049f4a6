use herdr_agent_quota::codex_accounts::{
    allowed_homes, allowlist_decision, auth_digest, auth_file_admissible, header_matches,
    is_rollout_file_name, is_rollout_name, is_session_id, resolve, resolve_in, AllowlistDecision, AllowlistFile,
    CodexAccount, DirectoryEntry, DirectoryListing, ResolveAction, ResolveEvent, SessionHeader,
    AUTH_MAX_BYTES,
};
use herdr_agent_quota::model::ProviderSnapshot;
use herdr_agent_quota::model::Provider;
use sha2::{Digest, Sha256};
use std::collections::HashMap;

const A: &str = "11111111-1111-4111-8111-111111111111";
const B: &str = "22222222-2222-4222-8222-222222222222";

fn b(s: &str) -> Vec<u8> {
    s.as_bytes().to_vec()
}

/// A synthetic file system answering a resolver's actions.
#[derive(Default)]
struct Fake {
    canonical: HashMap<Vec<u8>, Vec<u8>>,
    dirs: HashMap<Vec<u8>, Vec<(Vec<u8>, bool, bool)>>,
    failing_dirs: Vec<Vec<u8>>,
    headers: HashMap<Vec<u8>, (String, String)>,
    auth: HashMap<Vec<u8>, Vec<u8>>,
    auth_after: HashMap<Vec<u8>, Vec<u8>>,
    accounts: HashMap<Vec<u8>, String>,
    log: Vec<String>,
}

impl Fake {
    fn path(&mut self, p: &str) {
        self.canonical.insert(b(p), b(p));
    }

    fn home(&mut self, home: &str, account: &str, sessions: &[&str]) {
        self.path(home);
        self.path(&format!("{home}/sessions"));
        let entries = sessions
            .iter()
            .map(|s| (b(&format!("rollout-2099-01-01-{s}.jsonl")), false, true))
            .collect::<Vec<_>>();
        for s in sessions {
            let path = format!("{home}/sessions/rollout-2099-01-01-{s}.jsonl");
            self.path(&path);
            self.headers.insert(b(&path), ("session_meta".to_string(), s.to_string()));
        }
        self.dirs.insert(b(&format!("{home}/sessions")), entries);
        self.auth.insert(b(&format!("{home}/auth.json")), format!("{{\"tokens\":{{\"account_id\":\"{account}\"}}}}").into_bytes());
        self.accounts.insert(b(&format!("{home}/auth.json")), account.to_string());
    }

    fn run(&mut self, session: Option<&str>, homes: Option<Vec<&str>>) -> Option<CodexAccount> {
        let (mut resolver, mut action) = resolve(
            session.map(|s| s.to_string()),
            homes.map(|h| h.iter().map(|s| b(s)).collect()),
        );
        let mut listing: Vec<(Vec<u8>, bool, bool)> = Vec::new();
        let mut digest_reads: HashMap<Vec<u8>, usize> = HashMap::new();
        loop {
            let event = match action {
                ResolveAction::Finish(account) => return account,
                ResolveAction::CanonicalizeHome(p) | ResolveAction::CanonicalizeDirectory(p) | ResolveAction::CanonicalizeEntry(p) => {
                    self.log.push(format!("canonicalize {}", String::from_utf8_lossy(&p)));
                    ResolveEvent::Canonical(self.canonical.get(&p).cloned())
                }
                ResolveAction::ListDirectory(p) => {
                    self.log.push(format!("list {}", String::from_utf8_lossy(&p)));
                    if self.failing_dirs.contains(&p) {
                        ResolveEvent::Listing(DirectoryListing::Failed)
                    } else {
                        match self.dirs.get(&p) {
                            Some(entries) => {
                                listing = entries.iter().rev().cloned().collect();
                                ResolveEvent::Listing(DirectoryListing::Opened)
                            }
                            None => ResolveEvent::Listing(DirectoryListing::NotFound),
                        }
                    }
                }
                ResolveAction::NextEntry => match listing.pop() {
                    Some((name, is_dir, is_file)) => ResolveEvent::Entry(DirectoryEntry::Item { name, is_dir, is_file }),
                    None => ResolveEvent::Entry(DirectoryEntry::End),
                },
                ResolveAction::ReadSessionHeader(p) => {
                    self.log.push(format!("header {}", String::from_utf8_lossy(&p)));
                    ResolveEvent::Header(self.headers.get(&p).map(|(kind, id)| SessionHeader { kind: kind.clone(), id: id.clone() }))
                }
                ResolveAction::ReadAuthDigest(p) => {
                    let n = digest_reads.entry(p.clone()).or_insert(0);
                    *n += 1;
                    let contents = if *n > 1 { self.auth_after.get(&p).or(self.auth.get(&p)) } else { self.auth.get(&p) };
                    ResolveEvent::AuthDigest(contents.and_then(|c| auth_digest(c)))
                }
                ResolveAction::ReadAccountId(p) => ResolveEvent::AccountId(self.accounts.get(&p).cloned()),
            };
            action = resolver.step(event);
        }
    }
}

fn two_homes() -> Fake {
    let mut fake = Fake::default();
    fake.home("/h/a", "account-a", &[A]);
    fake.home("/h/b", "account-b", &[B]);
    fake
}

fn sha_hex(data: &[u8]) -> String {
    Sha256::digest(data).iter().map(|b| format!("{b:02x}")).collect()
}

#[test]
fn resolves_the_single_home_holding_the_session() {
    let mut fake = two_homes();
    let account = fake.run(Some(A), Some(vec!["/h/a", "/h/b"])).expect("attributed");
    assert_eq!(account.home, b("/h/a"));
    assert_eq!(account.account_id, "account-a");
    let account = fake.run(Some(B), Some(vec!["/h/a", "/h/b"])).expect("attributed");
    assert_eq!(account.home, b("/h/b"));
    assert_eq!(account.account_id, "account-b");
}

#[test]
fn missing_session_or_allowlist_resolves_nothing() {
    let mut fake = two_homes();
    assert!(fake.run(None, Some(vec!["/h/a"])).is_none());
    assert!(fake.run(Some(A), None).is_none());
    assert!(fake.run(Some("33333333-3333-4333-8333-333333333333"), Some(vec!["/h/a", "/h/b"])).is_none());
}

#[test]
fn path_shaped_ids_never_touch_files() {
    let mut fake = two_homes();
    for id in ["../a", "*", "11111111-1111-4111-8111-11111111111", "11111111-1111-4111-8111-11111111111g", "111111111-111-4111-8111-111111111111"] {
        assert!(fake.run(Some(id), Some(vec!["/h/a"])).is_none());
    }
    assert!(fake.log.is_empty());
    let (_, action) = resolve_in("*", vec![b("/h/a")]);
    assert!(matches!(action, ResolveAction::Finish(None)));
}

#[test]
fn duplicate_session_matches_across_homes_fail_closed() {
    let mut fake = two_homes();
    fake.home("/h/c", "account-c", &[A]);
    assert!(fake.run(Some(A), Some(vec!["/h/a", "/h/c"])).is_none());
}

#[test]
fn the_same_home_listed_twice_is_one_home() {
    let mut fake = two_homes();
    fake.canonical.insert(b("/h/link-to-a"), b("/h/a"));
    let account = fake.run(Some(A), Some(vec!["/h/a", "/h/link-to-a"])).expect("one canonical home");
    assert_eq!(account.home, b("/h/a"));
}

#[test]
fn relative_or_unreadable_homes_fail_closed() {
    let mut fake = two_homes();
    assert!(fake.run(Some(A), Some(vec!["/h/a", "relative"])).is_none());
    assert!(fake.run(Some(A), Some(vec!["/h/a", "/nonexistent"])).is_none());
    assert!(fake.run(Some(A), Some(vec![])).is_none());
}

#[test]
fn mismatched_headers_and_escaping_links_fail_closed() {
    let mut fake = two_homes();
    fake.headers.insert(
        b(&format!("/h/a/sessions/rollout-2099-01-01-{A}.jsonl")),
        ("session_meta".to_string(), B.to_string()),
    );
    assert!(fake.run(Some(A), Some(vec!["/h/a"])).is_none());

    let mut fake = two_homes();
    fake.canonical.insert(b("/h/a/sessions"), b("/outside-sessions"));
    assert!(fake.run(Some(A), Some(vec!["/h/a"])).is_none());

    let mut fake = two_homes();
    fake.canonical.insert(b(&format!("/h/a/sessions/rollout-2099-01-01-{A}.jsonl")), b("/h/ab/x.jsonl"));
    assert!(fake.run(Some(A), Some(vec!["/h/a"])).is_none());
}

#[test]
fn a_symlinked_rollout_or_unlistable_directory_fails_closed() {
    let mut fake = two_homes();
    fake.dirs.insert(b("/h/a/sessions"), vec![(b(&format!("rollout-x-{A}.jsonl")), false, false)]);
    assert!(fake.run(Some(A), Some(vec!["/h/a"])).is_none());
    let mut fake = two_homes();
    fake.failing_dirs.push(b("/h/a/archived_sessions"));
    assert!(fake.run(Some(A), Some(vec!["/h/a"])).is_none());
}

#[test]
fn nested_session_directories_are_searched_archived_first() {
    let mut fake = Fake::default();
    fake.home("/h/a", "account-a", &[]);
    fake.dirs.insert(b("/h/a/sessions"), vec![(b("2099"), true, false)]);
    fake.path("/h/a/sessions/2099");
    fake.dirs.insert(b("/h/a/sessions/2099"), vec![
        (b("notes.txt"), false, true),
        (b(&format!("rollout-2099-01-01-{A}.jsonl")), false, true),
    ]);
    let path = format!("/h/a/sessions/2099/rollout-2099-01-01-{A}.jsonl");
    fake.path(&path);
    fake.headers.insert(b(&path), ("session_meta".to_string(), A.to_string()));
    let account = fake.run(Some(A), Some(vec!["/h/a"])).expect("nested rollout found");
    assert_eq!(account.account_id, "account-a");
    assert_eq!(fake.log[1], "list /h/a/archived_sessions");
    assert!(fake.log.contains(&format!("header {path}")));
    assert!(!fake.log.iter().any(|l| l.contains("notes.txt")));
}

#[test]
fn directories_deeper_than_eight_levels_fail_closed() {
    let mut fake = Fake::default();
    fake.home("/h/a", "account-a", &[]);
    let mut dir = "/h/a/sessions".to_string();
    for level in 0..9 {
        let child = format!("{dir}/d{level}");
        fake.dirs.insert(b(&dir), vec![(b(&format!("d{level}")), true, false)]);
        fake.path(&child);
        dir = child;
    }
    fake.dirs.insert(b(&dir), vec![]);
    assert!(fake.run(Some(A), Some(vec!["/h/a"])).is_none());
}

#[test]
fn credentials_changed_during_resolution_fail_closed() {
    let mut fake = two_homes();
    fake.auth_after.insert(b("/h/a/auth.json"), b"rotated".to_vec());
    assert!(fake.run(Some(A), Some(vec!["/h/a"])).is_none());
    let mut fake = two_homes();
    fake.accounts.remove(&b("/h/a/auth.json"));
    assert!(fake.run(Some(A), Some(vec!["/h/a"])).is_none());
    let mut fake = two_homes();
    fake.auth.insert(b("/h/a/auth.json"), vec![b'x'; AUTH_MAX_BYTES as usize + 1]);
    assert!(fake.run(Some(A), Some(vec!["/h/a"])).is_none());
}

#[test]
fn warning_identity_and_generation_have_their_exact_values() {
    let mut fake = two_homes();
    let account = fake.run(Some(A), Some(vec!["/h/a"])).unwrap();
    let auth = fake.auth[&b("/h/a/auth.json")].clone();
    let warning = format!("codex-account:{}", sha_hex(b"codex:/h/a\0account-a"));
    assert_eq!(account.warning_identity(), warning);
    let mut input = warning.clone().into_bytes();
    input.push(0);
    input.extend_from_slice(&Sha256::digest(&auth));
    assert_eq!(account.generation(), sha_hex(&input));
    assert_eq!(account.generation().len(), 64);
}

#[test]
fn token_rotation_keeps_warning_identity_but_changes_generation() {
    let mut fake = two_homes();
    let before = fake.run(Some(A), Some(vec!["/h/a"])).unwrap();
    fake.auth.insert(b("/h/a/auth.json"), b"{\"tokens\":{\"account_id\":\"account-a\"},\"rotated\":1}".to_vec());
    let after = fake.run(Some(A), Some(vec!["/h/a"])).unwrap();
    assert_eq!(before.warning_identity(), after.warning_identity());
    assert_ne!(before.generation(), after.generation());
    let other = fake.run(Some(B), Some(vec!["/h/b"])).unwrap();
    assert_ne!(before.warning_identity(), other.warning_identity());
}

#[test]
fn current_credentials_and_snapshot_matching() {
    let mut fake = two_homes();
    let account = fake.run(Some(A), Some(vec!["/h/a"])).unwrap();
    let auth = fake.auth[&b("/h/a/auth.json")].clone();
    assert!(account.is_current(auth_digest(&auth)));
    assert!(!account.is_current(auth_digest(b"changed")));
    assert!(!account.is_current(None));
    assert_eq!(account.target().cache_identity(), b("codex:/h/a"));

    let mut snapshot = ProviderSnapshot::new(Provider::Codex, vec![], 10);
    assert!(!account.matches_snapshot(&snapshot));
    snapshot.account_id = Some("account-a".to_string());
    assert!(!account.matches_snapshot(&snapshot));
    snapshot.credential_generation = Some(account.generation());
    assert!(account.matches_snapshot(&snapshot));
    snapshot.account_id = Some("account-b".to_string());
    assert!(!account.matches_snapshot(&snapshot));
}

#[test]
fn session_ids_are_uuid_shaped() {
    assert!(is_session_id(A));
    assert!(is_session_id("ABCDEF01-2345-6789-abcd-ef0123456789"));
    assert!(!is_session_id(""));
    assert!(!is_session_id("11111111_1111-4111-8111-111111111111"));
    assert!(!is_session_id("1111111-11111-4111-8111-111111111111"));
    assert!(!is_session_id("11111111-1111-4111-8111-1111111111é"));
}

#[test]
fn rollout_names_and_headers() {
    assert!(is_rollout_name(&format!("rollout-2099-01-01-{A}.jsonl"), A));
    assert!(!is_rollout_name(&format!("rollout-2099-01-01{A}.jsonl"), A));
    assert!(!is_rollout_name(&format!("session-{A}.jsonl"), A));
    assert!(!is_rollout_name(&format!("rollout-{A}.json"), A));
    let header = |kind: &str, id: &str| Some(SessionHeader { kind: kind.to_string(), id: id.to_string() });
    assert!(header_matches(&header("session_meta", A), A));
    assert!(!header_matches(&header("event_msg", A), A));
    assert!(!header_matches(&header("session_meta", B), A));
    assert!(!header_matches(&None, A));
}

#[test]
fn allowlist_decisions() {
    assert_eq!(allowlist_decision(AllowlistFile::Unconfigured), AllowlistDecision::UseDefault);
    assert_eq!(allowlist_decision(AllowlistFile::Missing), AllowlistDecision::UseDefault);
    assert_eq!(allowlist_decision(AllowlistFile::Unreadable), AllowlistDecision::Reject);
    assert_eq!(allowlist_decision(AllowlistFile::Present { is_file: false, len: 2 }), AllowlistDecision::Reject);
    assert_eq!(allowlist_decision(AllowlistFile::Present { is_file: true, len: 65537 }), AllowlistDecision::Reject);
    assert_eq!(allowlist_decision(AllowlistFile::Present { is_file: true, len: 65536 }), AllowlistDecision::Read);
}

#[test]
fn invalid_allowlists_never_fall_back_to_the_default_home() {
    let file = AllowlistFile::Present { is_file: true, len: 10 };
    let default = Some(b("/default"));
    assert_eq!(allowed_homes(file, Some(b"not json".to_vec()), default.clone()), None);
    assert_eq!(allowed_homes(file, Some(b"{\"a\":1}".to_vec()), default.clone()), None);
    assert_eq!(allowed_homes(file, None, default.clone()), None);
    let many: Vec<String> = (0..33).map(|i| format!("/h/{i}")).collect();
    let json = serde_json::to_vec(&many).unwrap();
    assert_eq!(allowed_homes(file, Some(json), default.clone()), None);
    assert_eq!(
        allowed_homes(file, Some(b"[\"/h/a\", \"/h/b\"]".to_vec()), default.clone()),
        Some(vec![b("/h/a"), b("/h/b")])
    );
    assert_eq!(allowed_homes(AllowlistFile::Unreadable, None, default.clone()), None);
    assert_eq!(allowed_homes(AllowlistFile::Missing, None, default.clone()), Some(vec![b("/default")]));
    assert_eq!(allowed_homes(AllowlistFile::Unconfigured, None, None), None);
}

#[test]
fn credential_files_are_bounded_regular_files() {
    assert!(auth_file_admissible(true, true, AUTH_MAX_BYTES));
    assert!(!auth_file_admissible(false, true, 10));
    assert!(!auth_file_admissible(true, false, 10));
    assert!(!auth_file_admissible(true, true, AUTH_MAX_BYTES + 1));
    let expected: [u8; 32] = Sha256::digest(b"abc").into();
    assert_eq!(auth_digest(b"abc"), Some(expected));
    assert_eq!(
        sha_hex(b"abc"),
        "ba7816bf8f01cfea414140de5dae2223b00361a396177a9cb410ff61f20015ad"
    );
    assert_eq!(auth_digest(&vec![0u8; AUTH_MAX_BYTES as usize + 1]), None);
    assert!(auth_digest(&vec![0u8; AUTH_MAX_BYTES as usize]).is_some());
}

#[test]
fn homes_are_scanned_in_path_order() {
    let mut fake = two_homes();
    assert!(fake.run(Some(B), Some(vec!["/h/b", "/h/a"])).is_some());
    let lists: Vec<&String> = fake.log.iter().filter(|l| l.starts_with("list")).collect();
    assert_eq!(lists[0], "list /h/a/archived_sessions");
    assert_eq!(lists[2], "list /h/b/archived_sessions");
    let canonicalized: Vec<&String> = fake.log.iter().filter(|l| l.starts_with("canonicalize /h/")).take(2).collect();
    assert_eq!(canonicalized, vec!["canonicalize /h/b", "canonicalize /h/a"]);
}

#[test]
fn a_finished_resolution_stays_finished() {
    let (mut resolver, action) = resolve_in("*", vec![b("/h/a")]);
    assert!(matches!(action, ResolveAction::Finish(None)));
    let next = resolver.step(ResolveEvent::AuthDigest(Some([0; 32])));
    assert!(matches!(next, ResolveAction::Finish(None)));
    let (mut resolver, action) = resolve_in(A, vec![b("/h/a")]);
    assert!(matches!(action, ResolveAction::CanonicalizeHome(ref p) if p == b"/h/a"));
    // An outcome the resolver did not ask for ends it without an account.
    let next = resolver.step(ResolveEvent::AccountId(Some("account-a".to_string())));
    assert!(matches!(next, ResolveAction::Finish(None)));
    assert!(matches!(resolver.step(ResolveEvent::Canonical(Some(b("/h/a")))), ResolveAction::Finish(None)));
}

#[test]
fn directories_with_non_utf8_names_are_searched() {
    let mut fake = Fake::default();
    fake.home("/h/a", "account-a", &[]);
    let dir: Vec<u8> = b"/h/a/sessions/\xff\xfe".to_vec();
    fake.dirs.insert(b("/h/a/sessions"), vec![(b"\xff\xfe".to_vec(), true, false)]);
    fake.canonical.insert(dir.clone(), dir.clone());
    let mut rollout = dir.clone();
    rollout.extend_from_slice(format!("/rollout-2099-01-01-{A}.jsonl").as_bytes());
    fake.dirs.insert(dir.clone(), vec![
        (b"rollout-\xff-11111111-1111-4111-8111-111111111111.jsonl".to_vec(), false, true),
        (b(&format!("rollout-2099-01-01-{A}.jsonl")), false, true),
    ]);
    fake.canonical.insert(rollout.clone(), rollout.clone());
    fake.headers.insert(rollout, ("session_meta".to_string(), A.to_string()));
    let account = fake.run(Some(A), Some(vec!["/h/a"])).expect("found below a non-UTF-8 directory");
    assert_eq!(account.account_id, "account-a");
    // The non-UTF-8 file name is no rollout name, so it was never canonicalized.
    assert_eq!(fake.log.iter().filter(|l| l.starts_with("header")).count(), 1);
}

#[test]
fn raw_rollout_file_names() {
    assert!(is_rollout_file_name(format!("rollout-x-{A}.jsonl").as_bytes(), A));
    assert!(!is_rollout_file_name(b"rollout-\xff-11111111-1111-4111-8111-111111111111.jsonl", A));
    assert!(!is_rollout_file_name(b"notes.txt", A));
}

#[test]
fn stamp_lengths() {
    let mut fake = two_homes();
    let account = fake.run(Some(A), Some(vec!["/h/a"])).unwrap();
    assert_eq!(account.generation().chars().count(), 64);
    assert_eq!(account.warning_identity().chars().count(), 78);
    assert_eq!(account.account_id(), "account-a");
    assert_eq!(account.home(), &b("/h/a"));
}

#[test]
fn allowlist_order_and_spellings_do_not_change_the_resolution() {
    let allowlists: Vec<Vec<&str>> = vec![
        vec!["/h/a", "/h/b"],
        vec!["/h/b", "/h/a"],
        vec!["/h/link-to-a", "/h/b", "/h/a"],
        vec!["/h/b", "/h/a", "/h/b"],
    ];
    for session in [A, B] {
        let mut outcomes = Vec::new();
        for homes in &allowlists {
            let mut fake = two_homes();
            fake.canonical.insert(b("/h/link-to-a"), b("/h/a"));
            let n = homes.len();
            let account = fake.run(Some(session), Some(homes.clone())).map(|a| (a.home, a.account_id));
            let after_canonicalizing: Vec<String> = fake.log[n..].to_vec();
            outcomes.push((account, after_canonicalizing));
        }
        assert!(outcomes[0].0.is_some());
        for outcome in &outcomes[1..] {
            assert_eq!(outcome, &outcomes[0]);
        }
    }
}

#[test]
fn an_unresolvable_home_anywhere_in_the_allowlist_grants_nothing() {
    for homes in [vec!["relative", "/h/a"], vec!["/h/a", "/nonexistent", "/h/b"], vec!["/nonexistent", "/h/a"]] {
        let mut fake = two_homes();
        let n = homes.len();
        assert!(fake.run(Some(A), Some(homes)).is_none());
        assert!(fake.log.len() <= n);
    }
}

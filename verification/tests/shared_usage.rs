use herdr_agent_quota::codex_accounts::{
    auth_digest, resolve, CodexAccount, DirectoryEntry, DirectoryListing, ResolveAction, ResolveEvent,
    SessionHeader,
};
use herdr_agent_quota::model::{
    AgentPane, ContextUsage, Harness, MetadataTokens, PaneIdentity, PercentStyle, Provider,
    ProviderSnapshot, QuotaWindow, ResolvedPane,
};
use herdr_agent_quota::shared_usage::{
    attach_accounts, enabled, local_source, output_accepted, owns, request_texts, shared_request, tokens, Entry,
    LocalSource, PaneAccounts, SharedRequest,
};

const A: &str = "11111111-1111-4111-8111-111111111111";
const NOW: u64 = 1_000_000;

/// Resolves session A in a synthetic home whose credential file holds `auth`.
fn account(home: &str, auth: &[u8]) -> CodexAccount {
    let rollout = format!("{home}/sessions/rollout-x-{A}.jsonl").into_bytes();
    let (mut resolver, mut action) = resolve(Some(A.to_string()), Some(vec![home.as_bytes().to_vec()]));
    let mut listing: Vec<DirectoryEntry> = Vec::new();
    loop {
        let event = match action {
            ResolveAction::Finish(account) => return account.expect("resolved"),
            ResolveAction::CanonicalizeHome(p) | ResolveAction::CanonicalizeDirectory(p) | ResolveAction::CanonicalizeEntry(p) => {
                ResolveEvent::Canonical(Some(p))
            }
            ResolveAction::ListDirectory(p) => {
                if p.ends_with(b"/sessions") {
                    listing = vec![DirectoryEntry::Item { name: format!("rollout-x-{A}.jsonl").into_bytes(), is_dir: false, is_file: true }];
                    ResolveEvent::Listing(DirectoryListing::Opened)
                } else {
                    ResolveEvent::Listing(DirectoryListing::NotFound)
                }
            }
            ResolveAction::NextEntry => ResolveEvent::Entry(listing.pop().unwrap_or(DirectoryEntry::End)),
            ResolveAction::ReadSessionHeader(p) => {
                assert_eq!(p, rollout);
                ResolveEvent::Header(Some(SessionHeader { kind: "session_meta".to_string(), id: A.to_string() }))
            }
            ResolveAction::ReadAuthDigest(_) => ResolveEvent::AuthDigest(auth_digest(auth)),
            ResolveAction::ReadAccountId(_) => ResolveEvent::AccountId(Some("account-a".to_string())),
        };
        action = resolver.step(event);
    }
}

fn window(resets_at_unix: u64) -> QuotaWindow {
    QuotaWindow { window_minutes: 300, used_percent: 12, resets_at_unix }
}

fn reading(provider: Provider, fetched_at_unix: u64) -> ProviderSnapshot {
    let mut s = ProviderSnapshot::new(provider, vec![window(NOW + 100), window(NOW + 1000)], fetched_at_unix);
    s.session_models = vec![("other".to_string(), "remote-model".to_string())];
    s
}

fn pane(harness: Harness, session: Option<&str>) -> AgentPane {
    AgentPane { pane_id: "w1:p1".to_string(), harness, session_id: session.map(|s| s.to_string()) }
}

fn resolved(codex: Option<CodexAccount>) -> ResolvedPane {
    ResolvedPane { codex, context: None, identity: None }
}

fn attach(entry: Entry, account: Option<CodexAccount>) -> Entry {
    let mut accounts = PaneAccounts::new();
    accounts.insert("w1:p1".to_string(), account);
    attach_accounts(vec![("w1:p1".to_string(), entry)], &mut accounts).pop().unwrap().1
}

fn unavailable_reason(t: &MetadataTokens) -> Option<&str> {
    match t {
        MetadataTokens::Unavailable { reason, .. } => Some(reason.as_str()),
        _ => None,
    }
}

#[test]
fn enabled_only_with_a_shared_usage_command() {
    let command = Some("usage-cache".to_string());
    assert!(enabled(&command));
    assert!(!enabled(&None));
    assert!(owns(&pane(Harness::Anthropic, None), &command));
    assert!(owns(&pane(Harness::Codex, None), &command));
    assert!(!owns(&pane(Harness::Grok, None), &command));
    assert!(!owns(&pane(Harness::Codex, None), &None));
}

#[test]
fn a_fresh_anthropic_reading_is_shown_with_local_session_data() {
    let entry = Entry::new(Some(reading(Provider::Anthropic, NOW - 300)), String::new(), Some("k1".to_string()));
    let mut local = ProviderSnapshot::new(Provider::Anthropic, vec![], NOW);
    local.session_contexts = vec![(A.to_string(), ContextUsage { used_tokens: 10, window_tokens: 200 })];
    local.session_models = vec![(A.to_string(), "opus".to_string())];
    let t = tokens(&pane(Harness::Anthropic, Some(A)), resolved(None), Some(&entry), NOW, PercentStyle::Used, Some(local), None);
    assert_eq!(t.pane_id, "w1:p1");
    assert_eq!(t.context, Some(ContextUsage { used_tokens: 10, window_tokens: 200 }));
    let identity = t.identity.expect("model known");
    assert_eq!((identity.provider.as_str(), identity.model.as_str()), ("Anthropic", "opus"));
    assert_eq!(t.notification_key.as_deref(), Some("harkness:k1"));
    match t.quota {
        MetadataTokens::FromSnapshot { snapshot, now, session_id, style } => {
            assert_eq!(now, NOW);
            assert_eq!(session_id.as_deref(), Some(A));
            assert_eq!(style, PercentStyle::Used);
            assert_eq!(snapshot.windows.len(), 2);
            assert_eq!(snapshot.session_models, vec![(A.to_string(), "opus".to_string())]);
            assert_eq!(snapshot.session_contexts.len(), 1);
        }
        other => panic!("expected a reading, got {other:?}"),
    }
}

#[test]
fn stale_foreign_or_expired_readings_are_unavailable() {
    let p = pane(Harness::Anthropic, Some(A));
    let cases = [
        reading(Provider::Anthropic, NOW - 301),
        reading(Provider::Anthropic, NOW + 1),
        reading(Provider::Codex, NOW),
        ProviderSnapshot::new(Provider::Anthropic, vec![], NOW),
        ProviderSnapshot::new(Provider::Anthropic, vec![window(NOW + 5), window(NOW)], NOW),
    ];
    for snapshot in cases {
        let entry = Entry::new(Some(snapshot), String::new(), None);
        let t = tokens(&p, resolved(None), Some(&entry), NOW, PercentStyle::Remaining, None, None);
        assert_eq!(unavailable_reason(&t.quota), Some("Shared usage unavailable"));
        assert_eq!(t.notification_key, None);
    }
}

#[test]
fn the_entry_reason_explains_a_missing_reading() {
    let entry = Entry::new(None, "signed-in account changed".to_string(), None);
    let t = tokens(&pane(Harness::Anthropic, None), resolved(None), Some(&entry), NOW, PercentStyle::Remaining, None, None);
    assert_eq!(unavailable_reason(&t.quota), Some("signed-in account changed"));
    let t = tokens(&pane(Harness::Anthropic, None), resolved(None), None, NOW, PercentStyle::Remaining, None, None);
    assert_eq!(unavailable_reason(&t.quota), Some("Shared usage unavailable"));
    let t = tokens(&pane(Harness::Anthropic, None), resolved(None), Some(&Entry::default()), NOW, PercentStyle::Remaining, None, None);
    assert_eq!(unavailable_reason(&t.quota), Some("Shared usage unavailable"));
    match t.quota {
        MetadataTokens::Unavailable { provider, .. } => assert_eq!(provider, Provider::Anthropic),
        _ => unreachable!(),
    }
}

#[test]
fn codex_readings_need_the_panes_own_current_account() {
    let auth = b"{\"tokens\":{\"account_id\":\"account-a\"}}";
    let p = pane(Harness::Codex, Some(A));
    let digest = auth_digest(auth);

    let entry = attach(Entry::new(Some(reading(Provider::Codex, NOW)), String::new(), None), Some(account("/h/a", auth)));
    let t = tokens(&p, resolved(Some(account("/h/a", auth))), Some(&entry), NOW, PercentStyle::Remaining, None, digest);
    assert!(matches!(t.quota, MetadataTokens::FromSnapshot { .. }));

    // Unknown pane identity.
    let t = tokens(&p, resolved(None), Some(&entry), NOW, PercentStyle::Remaining, None, digest);
    assert!(unavailable_reason(&t.quota).is_some());
    // Credentials changed since the entry's account was resolved.
    let t = tokens(&p, resolved(Some(account("/h/a", auth))), Some(&entry), NOW, PercentStyle::Remaining, None, auth_digest(b"new"));
    assert!(unavailable_reason(&t.quota).is_some());
    // Another home.
    let t = tokens(&p, resolved(Some(account("/h/b", auth))), Some(&entry), NOW, PercentStyle::Remaining, None, digest);
    assert!(unavailable_reason(&t.quota).is_some());
    // Another credential generation of the same home.
    let t = tokens(&p, resolved(Some(account("/h/a", b"rotated"))), Some(&entry), NOW, PercentStyle::Remaining, None, digest);
    assert!(unavailable_reason(&t.quota).is_some());
    // An entry without an account.
    let bare = Entry::new(Some(reading(Provider::Codex, NOW)), String::new(), None);
    let t = tokens(&p, resolved(Some(account("/h/a", auth))), Some(&bare), NOW, PercentStyle::Remaining, None, digest);
    assert!(unavailable_reason(&t.quota).is_some());
}

#[test]
fn routed_identity_stays_without_a_local_model() {
    let identity = PaneIdentity { provider: "Codex".to_string(), model: "gpt".to_string() };
    let r = ResolvedPane { codex: None, context: Some(ContextUsage { used_tokens: 1, window_tokens: 2 }), identity: Some(identity) };
    let t = tokens(&pane(Harness::Codex, None), r, None, NOW, PercentStyle::Remaining, None, None);
    assert_eq!(t.identity.unwrap().model, "gpt");
    assert_eq!(t.context, Some(ContextUsage { used_tokens: 1, window_tokens: 2 }));
    let r = ResolvedPane { codex: None, context: Some(ContextUsage { used_tokens: 1, window_tokens: 2 }), identity: None };
    let t = tokens(&pane(Harness::Codex, Some(A)), r, None, NOW, PercentStyle::Remaining, None, None);
    assert_eq!(t.context, None);
    match t.quota {
        MetadataTokens::Unavailable { provider, .. } => assert_eq!(provider, Provider::Codex),
        _ => unreachable!(),
    }
}

#[test]
fn local_sources_follow_current_accounts_then_statusline() {
    let auth = b"auth";
    let p = pane(Harness::Codex, Some(A));
    match local_source(&p, &resolved(Some(account("/h/a", auth))), auth_digest(auth)) {
        LocalSource::CodexSessions { home, session } => {
            assert_eq!(home, b"/h/a".to_vec());
            assert_eq!(session, A);
        }
        other => panic!("{other:?}"),
    }
    assert!(matches!(local_source(&p, &resolved(Some(account("/h/a", auth))), auth_digest(b"x")), LocalSource::Nothing));
    assert!(matches!(local_source(&pane(Harness::Anthropic, Some(A)), &resolved(None), None), LocalSource::AnthropicStatusline));
    assert!(matches!(local_source(&pane(Harness::Anthropic, None), &resolved(None), None), LocalSource::Nothing));
}

#[test]
fn command_output_limits() {
    assert!(output_accepted(false, Some(0), 1024 * 1024));
    assert!(!output_accepted(true, Some(0), 10));
    assert!(!output_accepted(false, Some(1), 10));
    assert!(!output_accepted(false, None, 10));
    assert!(!output_accepted(false, Some(0), 1024 * 1024 + 1));
}

#[test]
fn accounts_attach_by_pane_id_last_insert_wins() {
    let auth = b"auth";
    let mut accounts = PaneAccounts::new();
    accounts.insert("w1:p1".to_string(), Some(account("/h/a", auth)));
    accounts.insert("w1:p2".to_string(), Some(account("/h/b", auth)));
    accounts.insert("w1:p1".to_string(), None);
    let entries = vec![
        ("w1:p1".to_string(), Entry::new(None, String::new(), None)),
        ("w1:p2".to_string(), Entry::new(None, String::new(), None)),
        ("w1:p3".to_string(), Entry::new(None, String::new(), None)),
    ];
    let out = attach_accounts(entries, &mut accounts);
    assert_eq!(out.len(), 3);
    assert_eq!(out[0].0, "w1:p1");
    assert_eq!(out[1].0, "w1:p2");
    assert_eq!(out[2].0, "w1:p3");
    let p2 = pane(Harness::Codex, Some(A));
    let mut entry = out.into_iter().nth(1).unwrap().1;
    // The attached account is the one resolved for that pane.
    entry = attach(entry, None);
    let t = tokens(&p2, resolved(Some(account("/h/b", auth))), Some(&entry), NOW, PercentStyle::Remaining, None, auth_digest(auth));
    assert!(unavailable_reason(&t.quota).is_some());
    assert!(accounts.remove(&"w1:p1".to_string()).is_none());
}

#[test]
fn requests_name_the_pane_provider_and_home() {
    let r = shared_request(&pane(Harness::Codex, Some(A)), &Some(account("/h/a", b"auth")));
    assert_eq!(r.pane_id, "w1:p1");
    assert_eq!(r.provider, Some(Provider::Codex));
    assert_eq!(r.home, Some(b"/h/a".to_vec()));
    let r = shared_request(&pane(Harness::Omp, None), &None);
    assert_eq!(r.provider, None);
    assert_eq!(r.home, None);
}

#[test]
fn requests_are_sent_as_text_or_not_at_all() {
    let requests = vec![
        shared_request(&pane(Harness::Codex, Some(A)), &Some(account("/h/a", b"auth"))),
        shared_request(&pane(Harness::Anthropic, None), &None),
        shared_request(&pane(Harness::Omp, None), &None),
    ];
    let texts = request_texts(&requests).expect("every home is UTF-8");
    assert_eq!(texts.len(), 3);
    assert_eq!(texts[0].pane_id, "w1:p1");
    assert_eq!(texts[0].provider.as_deref(), Some("codex"));
    assert_eq!(texts[0].home.as_deref(), Some("/h/a"));
    assert_eq!(texts[1].provider.as_deref(), Some("anthropic"));
    assert_eq!(texts[1].home, None);
    assert_eq!(texts[2].provider, None);
    let mut with_raw_home = requests;
    with_raw_home.push(SharedRequest { pane_id: "w1:p2".to_string(), provider: Some(Provider::Codex), home: Some(b"/h/\xff".to_vec()) });
    assert!(request_texts(&with_raw_home).is_none());
    assert_eq!(request_texts(&Vec::new()).map(|t| t.len()), Some(0));
}

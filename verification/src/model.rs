//! The data that attribution and shared-usage decisions read: providers,
//! harnesses, quota snapshots, panes and the tokens published for a pane.
use crate::codex_accounts::{AccountView, CodexAccount};
use vstd::prelude::*;
use vstd::string::*;
use vstd::utf8::encode_utf8;
use crate::digest::append_bytes;

verus! {

/// A billing provider whose quota can be shown.
#[derive(Clone, Copy, Debug, PartialEq, Eq, Structural)]
pub enum Provider {
    Anthropic,
    Codex,
    Grok,
    Agy,
    OpenCode,
    Devin,
}

/// The name shown for a provider.
pub open spec fn spec_display_name(p: Provider) -> Seq<char> {
    match p {
        Provider::Anthropic => "Anthropic"@,
        Provider::Codex => "Codex"@,
        Provider::Grok => "Grok"@,
        Provider::Agy => "Agy"@,
        Provider::OpenCode => "OpenCode"@,
        Provider::Devin => "Devin"@,
    }
}

impl Provider {
    /// The name shown for this provider.
    pub fn display_name(&self) -> (r: &'static str)
        ensures
            r@ == spec_display_name(*self),
    {
        match self {
            Provider::Anthropic => "Anthropic",
            Provider::Codex => "Codex",
            Provider::Grok => "Grok",
            Provider::Agy => "Agy",
            Provider::OpenCode => "OpenCode",
            Provider::Devin => "Devin",
        }
    }
}

/// How a provider is named to the shared usage cache.
pub open spec fn spec_wire_name(p: Provider) -> Seq<char> {
    match p {
        Provider::Anthropic => "anthropic"@,
        Provider::Codex => "codex"@,
        Provider::Grok => "grok"@,
        Provider::Agy => "agy"@,
        Provider::OpenCode => "opencode"@,
        Provider::Devin => "devin"@,
    }
}

impl Provider {
    /// How this provider is named to the shared usage cache.
    pub fn wire_name(&self) -> (r: &'static str)
        ensures
            r@ == spec_wire_name(*self),
    {
        match self {
            Provider::Anthropic => "anthropic",
            Provider::Codex => "codex",
            Provider::Grok => "grok",
            Provider::Agy => "agy",
            Provider::OpenCode => "opencode",
            Provider::Devin => "devin",
        }
    }
}

/// The agent CLI running in a pane.
#[derive(Clone, Copy, Debug, PartialEq, Eq, Structural)]
pub enum Harness {
    Anthropic,
    Codex,
    Grok,
    Agy,
    OpenCode,
    Pi,
    Omp,
    Devin,
}

/// The provider that bills a harness's quota, when there is a single one.
pub open spec fn spec_billing(h: Harness) -> Option<Provider> {
    match h {
        Harness::Anthropic => Some(Provider::Anthropic),
        Harness::Codex => Some(Provider::Codex),
        Harness::Pi => Some(Provider::Codex),
        Harness::Grok => Some(Provider::Grok),
        Harness::Agy => Some(Provider::Agy),
        Harness::OpenCode => Some(Provider::OpenCode),
        Harness::Devin => Some(Provider::Devin),
        Harness::Omp => None,
    }
}

impl Harness {
    /// The provider that bills this harness's quota, when there is a single one.
    pub fn billing(&self) -> (r: Option<Provider>)
        ensures
            r == spec_billing(*self),
    {
        match self {
            Harness::Anthropic => Some(Provider::Anthropic),
            Harness::Codex => Some(Provider::Codex),
            Harness::Pi => Some(Provider::Codex),
            Harness::Grok => Some(Provider::Grok),
            Harness::Agy => Some(Provider::Agy),
            Harness::OpenCode => Some(Provider::OpenCode),
            Harness::Devin => Some(Provider::Devin),
            Harness::Omp => None,
        }
    }
}

/// Where a provider's quota is collected and cached.
#[derive(Debug)]
pub enum BillingTarget {
    /// One native Codex account home.
    CodexAccount { home: Vec<u8> },
}

/// The cache identity of the Codex account home `home`.
pub open spec fn spec_codex_cache_identity(home: Seq<u8>) -> Seq<u8> {
    encode_utf8("codex:"@) + home
}

impl BillingTarget {
    /// The home this target is for.
    pub open spec fn home_view(&self) -> Seq<u8> {
        match self {
            BillingTarget::CodexAccount { home } => home@,
        }
    }

    /// The target of the native Codex account in `home`.
    pub fn codex_account(home: &[u8]) -> (r: BillingTarget)
        ensures
            r.home_view() == home@,
    {
        let mut h: Vec<u8> = Vec::new();
        append_bytes(&mut h, home);
        BillingTarget::CodexAccount { home: h }
    }

    /// The identity under which this target's cache is stored.
    pub fn cache_identity(&self) -> (r: Vec<u8>)
        ensures
            r@ == spec_codex_cache_identity(self.home_view()),
    {
        match self {
            BillingTarget::CodexAccount { home } => {
                let mut r: Vec<u8> = Vec::new();
                append_bytes(&mut r, "codex:".as_bytes());
                append_bytes(&mut r, home.as_slice());
                r
            },
        }
    }
}

/// One quota window of a provider reading.
#[derive(Clone, Copy, Debug, PartialEq, Eq, Structural)]
pub struct QuotaWindow {
    pub window_minutes: u64,
    pub used_percent: u64,
    pub resets_at_unix: u64,
}

impl QuotaWindow {
    /// A window is current until its reset time.
    pub open spec fn spec_is_current(self, now: u64) -> bool {
        now < self.resets_at_unix
    }

    /// Whether this window has not reset yet at `now`.
    pub fn is_current(&self, now: u64) -> (r: bool)
        ensures
            r == self.spec_is_current(now),
    {
        now < self.resets_at_unix
    }
}

/// Context-window usage of one session.
#[derive(Clone, Copy, Debug, PartialEq, Eq, Structural)]
pub struct ContextUsage {
    pub used_tokens: u64,
    pub window_tokens: u64,
}

/// The first value stored under `key`.
pub open spec fn lookup<V>(entries: Seq<(Seq<char>, V)>, key: Seq<char>) -> Option<V>
    decreases entries.len(),
{
    if entries.len() == 0 {
        None
    } else if entries[0].0 == key {
        Some(entries[0].1)
    } else {
        lookup(entries.drop_first(), key)
    }
}

/// A provider reading: quota windows plus per-session diagnostics.
#[derive(Debug)]
pub struct ProviderSnapshot {
    pub provider: Provider,
    pub windows: Vec<QuotaWindow>,
    pub fetched_at_unix: u64,
    pub account_id: Option<String>,
    pub credential_generation: Option<String>,
    pub session_contexts: Vec<(String, ContextUsage)>,
    pub session_models: Vec<(String, String)>,
}

/// A provider reading over mathematical values.
#[verifier::ext_equal]
pub struct SnapshotView {
    pub provider: Provider,
    pub windows: Seq<QuotaWindow>,
    pub fetched_at_unix: u64,
    pub account_id: Option<Seq<char>>,
    pub credential_generation: Option<Seq<char>>,
    pub session_contexts: Seq<(Seq<char>, ContextUsage)>,
    pub session_models: Seq<(Seq<char>, Seq<char>)>,
}

/// An optional string as a character sequence.
pub open spec fn opt_view(s: Option<String>) -> Option<Seq<char>> {
    match s {
        Some(s) => Some(s@),
        None => None,
    }
}

impl View for ProviderSnapshot {
    type V = SnapshotView;

    open spec fn view(&self) -> SnapshotView {
        SnapshotView {
            provider: self.provider,
            windows: self.windows@,
            fetched_at_unix: self.fetched_at_unix,
            account_id: opt_view(self.account_id),
            credential_generation: opt_view(self.credential_generation),
            session_contexts: self.session_contexts@.map_values(|e: (String, ContextUsage)| (e.0@, e.1)),
            session_models: self.session_models@.map_values(|e: (String, String)| (e.0@, e.1@)),
        }
    }
}

/// Copies an optional string.
pub fn copy_opt(s: &Option<String>) -> (r: Option<String>)
    ensures
        opt_view(r) == opt_view(*s),
{
    match s {
        Some(s) => Some(s.clone()),
        None => None,
    }
}

impl ProviderSnapshot {
    /// A reading of `provider` at `now` with the given windows and no account,
    /// generation or session diagnostics.
    pub fn new(provider: Provider, windows: Vec<QuotaWindow>, now: u64) -> (r: ProviderSnapshot)
        ensures
            r@.provider == provider,
            r@.windows == windows@,
            r@.fetched_at_unix == now,
            r@.account_id is None,
            r@.credential_generation is None,
            r@.session_contexts.len() == 0,
            r@.session_models.len() == 0,
    {
        ProviderSnapshot {
            provider,
            windows,
            fetched_at_unix: now,
            account_id: None,
            credential_generation: None,
            session_contexts: Vec::new(),
            session_models: Vec::new(),
        }
    }

    /// A copy of the per-session context usage.
    pub fn copy_contexts(&self) -> (r: Vec<(String, ContextUsage)>)
        ensures
            r@.map_values(|e: (String, ContextUsage)| (e.0@, e.1)) == self@.session_contexts,
    {
        let mut r: Vec<(String, ContextUsage)> = Vec::new();
        let n = self.session_contexts.len();
        for i in 0..n
            invariant
                n == self.session_contexts@.len(),
                r@.len() == i,
                forall|j: int| 0 <= j < i ==> (#[trigger] r@[j]).0@ == self.session_contexts@[j].0@
                    && r@[j].1 == self.session_contexts@[j].1,
        {
            let e = &self.session_contexts[i];
            r.push((e.0.clone(), e.1));
        }
        assert(r@.map_values(|e: (String, ContextUsage)| (e.0@, e.1)) =~= self@.session_contexts);
        r
    }

    /// A copy of the per-session models.
    pub fn copy_models(&self) -> (r: Vec<(String, String)>)
        ensures
            r@.map_values(|e: (String, String)| (e.0@, e.1@)) == self@.session_models,
    {
        let mut r: Vec<(String, String)> = Vec::new();
        let n = self.session_models.len();
        for i in 0..n
            invariant
                n == self.session_models@.len(),
                r@.len() == i,
                forall|j: int| 0 <= j < i ==> (#[trigger] r@[j]).0@ == self.session_models@[j].0@
                    && r@[j].1@ == self.session_models@[j].1@,
        {
            let e = &self.session_models[i];
            r.push((e.0.clone(), e.1.clone()));
        }
        assert(r@.map_values(|e: (String, String)| (e.0@, e.1@)) =~= self@.session_models);
        r
    }

    /// A copy of this reading.
    pub fn duplicate(&self) -> (r: ProviderSnapshot)
        ensures
            r@ == self@,
    {
        let mut windows: Vec<QuotaWindow> = Vec::new();
        let n = self.windows.len();
        for i in 0..n
            invariant
                n == self.windows@.len(),
                windows@ == self.windows@.take(i as int),
        {
            windows.push(self.windows[i]);
            assert(windows@ =~= self.windows@.take(i + 1));
        }
        assert(windows@ =~= self.windows@);
        ProviderSnapshot {
            provider: self.provider,
            windows,
            fetched_at_unix: self.fetched_at_unix,
            account_id: copy_opt(&self.account_id),
            credential_generation: copy_opt(&self.credential_generation),
            session_contexts: self.copy_contexts(),
            session_models: self.copy_models(),
        }
    }

    /// The context usage recorded for `session`.
    pub fn context_for(&self, session: &String) -> (r: Option<ContextUsage>)
        ensures
            r == lookup(self@.session_contexts, session@),
    {
        let n = self.session_contexts.len();
        let ghost m = self@.session_contexts;
        assert(m.skip(0) =~= m);
        for i in 0..n
            invariant
                n == self.session_contexts@.len(),
                m == self@.session_contexts,
                lookup(m, session@) == lookup(m.skip(i as int), session@),
        {
            assert(m.skip(i as int).drop_first() =~= m.skip(i + 1));
            if self.session_contexts[i].0 == *session {
                return Some(self.session_contexts[i].1);
            }
        }
        None
    }

    /// The model recorded for `session`.
    pub fn model_for(&self, session: &String) -> (r: Option<String>)
        ensures
            opt_view(r) == lookup(self@.session_models, session@),
    {
        let n = self.session_models.len();
        let ghost m = self@.session_models;
        assert(m.skip(0) =~= m);
        for i in 0..n
            invariant
                n == self.session_models@.len(),
                m == self@.session_models,
                lookup(m, session@) == lookup(m.skip(i as int), session@),
        {
            assert(m.skip(i as int).drop_first() =~= m.skip(i + 1));
            if self.session_models[i].0 == *session {
                return Some(self.session_models[i].1.clone());
            }
        }
        None
    }
}

/// An agent pane in the Herdr inventory.
#[derive(Debug)]
pub struct AgentPane {
    pub pane_id: String,
    pub harness: Harness,
    /// The agent's session id, when the pane reports one.
    pub session_id: Option<String>,
}

/// The branded provider/model line shown for a pane.
#[derive(Debug)]
pub struct PaneIdentity {
    pub provider: String,
    pub model: String,
}

/// An optional identity over mathematical values.
pub open spec fn identity_view(i: Option<PaneIdentity>) -> Option<(Seq<char>, Seq<char>)> {
    match i {
        Some(i) => Some((i.provider@, i.model@)),
        None => None,
    }
}

/// An optional account over mathematical values.
pub open spec fn account_view(a: Option<CodexAccount>) -> Option<AccountView> {
    match a {
        Some(a) => Some(a@),
        None => None,
    }
}

/// What routing established for a pane before quota is attached.
#[derive(Debug)]
pub struct ResolvedPane {
    /// The native Codex account home of the pane's session.
    pub codex: Option<CodexAccount>,
    pub context: Option<ContextUsage>,
    pub identity: Option<PaneIdentity>,
}

/// Whether percentages show remaining or used quota.
#[derive(Clone, Copy, Debug, PartialEq, Eq, Structural)]
pub enum PercentStyle {
    Remaining,
    Used,
}

/// The quota fields published for a pane.
#[derive(Debug)]
pub enum MetadataTokens {
    /// Rendered from a reading for the pane's session.
    FromSnapshot { snapshot: ProviderSnapshot, now: u64, session_id: Option<String>, style: PercentStyle },
    /// No quota is shown, for the given reason.
    Unavailable { provider: Provider, reason: String },
}

/// Published quota fields over mathematical values.
pub enum MetadataView {
    FromSnapshot { snapshot: SnapshotView, now: u64, session_id: Option<Seq<char>>, style: PercentStyle },
    Unavailable { provider: Provider, reason: Seq<char> },
}

impl View for MetadataTokens {
    type V = MetadataView;

    open spec fn view(&self) -> MetadataView {
        match self {
            MetadataTokens::FromSnapshot { snapshot, now, session_id, style } => MetadataView::FromSnapshot {
                snapshot: snapshot@,
                now: *now,
                session_id: opt_view(*session_id),
                style: *style,
            },
            MetadataTokens::Unavailable { provider, reason } => MetadataView::Unavailable {
                provider: *provider,
                reason: reason@,
            },
        }
    }
}

/// Everything published for one pane in one pass.
#[derive(Debug)]
pub struct PaneTokens {
    pub pane_id: String,
    pub quota: MetadataTokens,
    pub identity: Option<PaneIdentity>,
    pub context: Option<ContextUsage>,
    pub notification_key: Option<String>,
}

} // verus!

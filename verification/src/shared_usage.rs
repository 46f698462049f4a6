//! Optional consumer adapter for one shared account-usage cache.
use crate::codex_accounts::{copy_bytes, opt_bytes_view, spec_generation, utf8_text, AccountView, CodexAccount};
use crate::paths::same_bytes;
use crate::model::{
    account_view, identity_view, lookup, opt_view, spec_billing, spec_display_name, spec_wire_name, AgentPane,
    Harness, MetadataTokens, MetadataView, PaneIdentity, PaneTokens, PercentStyle,
    Provider, ProviderSnapshot, ResolvedPane, SnapshotView,
};
use vstd::prelude::*;
use vstd::string::*;
use vstd::utf8::{encode_utf8, valid_utf8};

verus! {

/// The shared cache's answer for one pane.
#[derive(Debug)]
pub struct Entry {
    snapshot: Option<ProviderSnapshot>,
    reason: String,
    key: Option<String>,
    codex: Option<CodexAccount>,
}

/// An answer over mathematical values.
pub struct EntryView {
    pub snapshot: Option<SnapshotView>,
    pub reason: Seq<char>,
    pub key: Option<Seq<char>>,
    pub codex: Option<AccountView>,
}

/// An optional reading over mathematical values.
pub open spec fn snapshot_view(s: Option<ProviderSnapshot>) -> Option<SnapshotView> {
    match s {
        Some(s) => Some(s@),
        None => None,
    }
}

impl View for Entry {
    type V = EntryView;

    closed spec fn view(&self) -> EntryView {
        EntryView {
            snapshot: snapshot_view(self.snapshot),
            reason: self.reason@,
            key: opt_view(self.key),
            codex: account_view(self.codex),
        }
    }
}

impl Entry {
    /// An answer as the shared cache gives it; its account is attached later.
    pub fn new(snapshot: Option<ProviderSnapshot>, reason: String, key: Option<String>) -> (r: Entry)
        ensures
            r@ == (EntryView {
                snapshot: snapshot_view(snapshot),
                reason: reason@,
                key: opt_view(key),
                codex: None,
            }),
    {
        Entry { snapshot, reason, key, codex: None }
    }

    /// The account resolved for the entry's pane.
    pub fn codex(&self) -> (r: Option<&CodexAccount>)
        ensures
            match r {
                Some(a) => self@.codex == Some(a@),
                None => self@.codex is None,
            },
    {
        match &self.codex {
            Some(a) => Some(a),
            None => None,
        }
    }
}

impl Default for Entry {
    /// An answer with no reading, reason, key or account.
    fn default() -> (r: Entry)
        ensures
            r@ == (EntryView { snapshot: None, reason: Seq::empty(), key: None, codex: None }),
    {
        Entry { snapshot: None, reason: String::new(), key: None, codex: None }
    }
}

/// Shared usage is on when a shared-usage command is configured.
pub fn enabled(shared_usage_command: &Option<String>) -> (r: bool)
    ensures
        r == shared_usage_command is Some,
{
    shared_usage_command.is_some()
}

/// The shared cache answers for Anthropic and Codex panes when it is on.
pub fn owns(pane: &AgentPane, shared_usage_command: &Option<String>) -> (r: bool)
    ensures
        r == (shared_usage_command is Some && (pane.harness == Harness::Anthropic || pane.harness == Harness::Codex)),
{
    enabled(shared_usage_command) && (pane.harness == Harness::Anthropic || pane.harness == Harness::Codex)
}

/// The provider a pane's quota is shown for.
pub open spec fn pane_provider(h: Harness) -> Provider {
    match spec_billing(h) {
        Some(p) => p,
        None => Provider::Codex,
    }
}

/// Where a pane's local session diagnostics come from.
#[derive(Debug)]
pub enum LocalSource {
    /// The rollouts of `session` in a current native Codex home.
    CodexSessions { home: Vec<u8>, session: String },
    /// The StatusLine observation in the cache.
    AnthropicStatusline,
    /// No local diagnostics.
    Nothing,
}

/// Whether an account's credential file still has the digest it was resolved with.
pub open spec fn account_current(a: AccountView, digest: Option<[u8; 32]>) -> bool {
    digest matches Some(d) && d@ == a.auth_digest
}

/// The local source for a pane: only a session's own rollouts in a current
/// account home, else a StatusLine observation.
pub fn local_source(pane: &AgentPane, resolved: &ResolvedPane, resolved_digest: Option<[u8; 32]>) -> (r: LocalSource)
    ensures
        match pane.session_id {
            None => r is Nothing,
            Some(s) => if resolved.codex is Some && account_current(resolved.codex.unwrap()@, resolved_digest) {
                r matches LocalSource::CodexSessions { home, session } && home@ == resolved.codex.unwrap()@.home && session@ == s@
            } else if pane.harness == Harness::Anthropic {
                r is AnthropicStatusline
            } else {
                r is Nothing
            },
        },
{
    match &pane.session_id {
        None => LocalSource::Nothing,
        Some(s) => {
            match &resolved.codex {
                Some(a) => {
                    if a.is_current(resolved_digest) {
                        return LocalSource::CodexSessions { home: copy_bytes(a.home().as_slice()), session: s.clone() };
                    }
                },
                None => {},
            }
            if pane.harness == Harness::Anthropic {
                LocalSource::AnthropicStatusline
            } else {
                LocalSource::Nothing
            }
        },
    }
}

/// A shared reading may be shown for a pane when it is for the pane's
/// provider, at most five minutes old, has windows that are all still
/// current, and, for native Codex panes, was collected for the pane's own
/// current account home and credential generation.
pub open spec fn snapshot_accepted(
    s: SnapshotView,
    harness: Harness,
    now: u64,
    entry_codex: Option<AccountView>,
    entry_digest: Option<[u8; 32]>,
    resolved_codex: Option<AccountView>,
) -> bool {
    &&& s.provider == pane_provider(harness)
    &&& s.fetched_at_unix <= now
    &&& now - s.fetched_at_unix <= 300
    &&& s.windows.len() > 0
    &&& forall|i: int| 0 <= i < s.windows.len() ==> (#[trigger] s.windows[i]).spec_is_current(now)
    &&& harness != Harness::Codex || {
        &&& entry_codex matches Some(a)
        &&& account_current(a, entry_digest)
        &&& resolved_codex matches Some(c)
        &&& c.home == a.home
        &&& spec_generation(c) == spec_generation(a)
    }
}

/// An optional answer over mathematical values.
pub open spec fn entry_view(e: Option<&Entry>) -> Option<EntryView> {
    match e {
        Some(e) => Some(e@),
        None => None,
    }
}

/// The local reading used for a pane: the one obtained from its local
/// source, or an empty reading of its provider at `now`.
pub open spec fn local_view(local: Option<SnapshotView>, harness: Harness, now: u64) -> SnapshotView {
    match local {
        Some(l) => l,
        None => SnapshotView {
            provider: pane_provider(harness),
            windows: Seq::empty(),
            fetched_at_unix: now,
            account_id: None,
            credential_generation: None,
            session_contexts: Seq::empty(),
            session_models: Seq::empty(),
        },
    }
}

/// Whether the pane's entry carries a reading that may be shown.
pub open spec fn entry_accepted(
    entry: Option<EntryView>,
    harness: Harness,
    now: u64,
    entry_digest: Option<[u8; 32]>,
    resolved_codex: Option<AccountView>,
) -> bool {
    &&& entry matches Some(e)
    &&& e.snapshot matches Some(s)
    &&& snapshot_accepted(s, harness, now, e.codex, entry_digest, resolved_codex)
}

/// Why no quota is shown: the entry's own reason when it gives one.
pub open spec fn unavailable_reason(entry: Option<EntryView>) -> Seq<char> {
    if entry is Some && entry.unwrap().reason.len() > 0 {
        entry.unwrap().reason
    } else {
        "Shared usage unavailable"@
    }
}

/// The notification key of an entry's key.
pub open spec fn notification_key(entry: Option<EntryView>) -> Option<Seq<char>> {
    match entry {
        Some(e) => match e.key {
            Some(k) => Some("harkness:"@ + k),
            None => None,
        },
        None => None,
    }
}

fn windows_current(s: &ProviderSnapshot, now: u64) -> (r: bool)
    ensures
        r == forall|i: int| 0 <= i < s@.windows.len() ==> (#[trigger] s@.windows[i]).spec_is_current(now),
{
    let n = s.windows.len();
    for i in 0..n
        invariant
            n == s.windows@.len(),
            forall|j: int| 0 <= j < i ==> (#[trigger] s@.windows[j]).spec_is_current(now),
    {
        if !s.windows[i].is_current(now) {
            assert(!s@.windows[i as int].spec_is_current(now));
            return false;
        }
    }
    true
}

fn same_scope(entry_codex: &Option<CodexAccount>, entry_digest: Option<[u8; 32]>, resolved_codex: &Option<CodexAccount>) -> (r: bool)
    ensures
        r == {
            &&& account_view(*entry_codex) matches Some(a)
            &&& account_current(a, entry_digest)
            &&& account_view(*resolved_codex) matches Some(c)
            &&& c.home == a.home
            &&& spec_generation(c) == spec_generation(a)
        },
{
    match entry_codex {
        Some(a) => {
            if !a.is_current(entry_digest) {
                return false;
            }
            match resolved_codex {
                Some(c) => same_bytes(c.home().as_slice(), a.home().as_slice()) && c.generation() == a.generation(),
                None => false,
            }
        },
        None => false,
    }
}

fn accepted_snapshot<'a>(
    entry: Option<&'a Entry>,
    harness: Harness,
    now: u64,
    entry_digest: Option<[u8; 32]>,
    resolved_codex: &Option<CodexAccount>,
) -> (r: Option<&'a ProviderSnapshot>)
    ensures
        r is Some == entry_accepted(entry_view(entry), harness, now, entry_digest, account_view(*resolved_codex)),
        r matches Some(s) ==> s@ == entry.unwrap()@.snapshot.unwrap(),
{
    let e = match entry {
        Some(e) => e,
        None => {
            return None;
        },
    };
    let s = match &e.snapshot {
        Some(s) => s,
        None => {
            return None;
        },
    };
    let provider = match harness.billing() {
        Some(p) => p,
        None => Provider::Codex,
    };
    let ok = s.provider == provider && s.fetched_at_unix <= now && now - s.fetched_at_unix <= 300
        && s.windows.len() > 0 && windows_current(s, now) && (harness != Harness::Codex || same_scope(
        &e.codex,
        entry_digest,
        resolved_codex,
    ));
    if ok {
        Some(s)
    } else {
        None
    }
}

/// The tokens published for a pane: the shared reading when it may be shown
/// (with the pane's local session diagnostics), otherwise an unavailable
/// reason; the pane's context and model come from its local reading.
/// `local` is the reading from the pane's `local_source`, if any;
/// `entry_digest` is the current credential digest of the entry's account home.
pub fn tokens(
    pane: &AgentPane,
    resolved: ResolvedPane,
    entry: Option<&Entry>,
    now: u64,
    style: PercentStyle,
    local: Option<ProviderSnapshot>,
    entry_digest: Option<[u8; 32]>,
) -> (r: PaneTokens)
    ensures
        r.pane_id@ == pane.pane_id@,
        ({
            let l = local_view(snapshot_view(local), pane.harness, now);
            match pane.session_id {
                Some(s) => {
                    &&& r.context == lookup(l.session_contexts, s@)
                    &&& identity_view(r.identity) == match lookup(l.session_models, s@) {
                        Some(m) => Some((spec_display_name(pane_provider(pane.harness)), m)),
                        None => identity_view(resolved.identity),
                    }
                },
                None => r.context == resolved.context && identity_view(r.identity) == identity_view(resolved.identity),
            }
        }),
        entry_accepted(entry_view(entry), pane.harness, now, entry_digest, account_view(resolved.codex)) ==> {
            let l = local_view(snapshot_view(local), pane.harness, now);
            r.quota@ == MetadataView::FromSnapshot {
                snapshot: SnapshotView {
                    session_contexts: l.session_contexts,
                    session_models: l.session_models,
                    ..entry.unwrap()@.snapshot.unwrap()
                },
                now,
                session_id: opt_view(pane.session_id),
                style,
            }
        },
        !entry_accepted(entry_view(entry), pane.harness, now, entry_digest, account_view(resolved.codex))
            ==> r.quota@ == (MetadataView::Unavailable {
                provider: pane_provider(pane.harness),
                reason: unavailable_reason(entry_view(entry)),
            }),
        opt_view(r.notification_key) == notification_key(entry_view(entry)),
{
    let provider = match pane.harness.billing() {
        Some(p) => p,
        None => Provider::Codex,
    };
    let ghost given = snapshot_view(local);
    let local = match local {
        Some(l) => l,
        None => ProviderSnapshot::new(provider, Vec::new(), now),
    };
    assert(local@ =~= local_view(given, pane.harness, now));
    let mut context = resolved.context;
    let mut identity = resolved.identity;
    match &pane.session_id {
        Some(s) => {
            context = local.context_for(s);
            match local.model_for(s) {
                Some(m) => {
                    identity = Some(PaneIdentity { provider: String::from_str(provider.display_name()), model: m });
                },
                None => {},
            }
        },
        None => {},
    }
    let quota = match accepted_snapshot(entry, pane.harness, now, entry_digest, &resolved.codex) {
        Some(s) => {
            let mut combined = s.duplicate();
            combined.session_contexts = local.copy_contexts();
            combined.session_models = local.copy_models();
            assert(combined@ =~= SnapshotView {
                session_contexts: local@.session_contexts,
                session_models: local@.session_models,
                ..s@
            });
            MetadataTokens::FromSnapshot {
                snapshot: combined,
                now,
                session_id: crate::model::copy_opt(&pane.session_id),
                style,
            }
        },
        None => {
            let reason = match entry {
                Some(e) => {
                    if e.reason.as_str().is_empty() {
                        String::from_str("Shared usage unavailable")
                    } else {
                        e.reason.clone()
                    }
                },
                None => String::from_str("Shared usage unavailable"),
            };
            MetadataTokens::Unavailable { provider, reason }
        },
    };
    let notification_key = match entry {
        Some(e) => match &e.key {
            Some(k) => {
                let mut key = String::from_str("harkness:");
                key.append(k.as_str());
                Some(key)
            },
            None => None,
        },
        None => None,
    };
    PaneTokens { pane_id: pane.pane_id.clone(), quota, identity, context, notification_key }
}

/// What the shared cache is asked about one pane.
#[derive(Debug)]
pub struct SharedRequest {
    pub pane_id: String,
    /// The provider billing the pane's harness.
    pub provider: Option<Provider>,
    /// The pane's native Codex account home, when it has one.
    pub home: Option<Vec<u8>>,
}

/// The request for `pane`, whose resolved native Codex account is `account`.
pub fn shared_request(pane: &AgentPane, account: &Option<CodexAccount>) -> (r: SharedRequest)
    ensures
        r.pane_id@ == pane.pane_id@,
        r.provider == spec_billing(pane.harness),
        opt_bytes_view(r.home) == match account_view(*account) {
            Some(a) => Some(a.home),
            None => None,
        },
{
    let home = match account {
        Some(a) => Some(copy_bytes(a.home().as_slice())),
        None => None,
    };
    SharedRequest { pane_id: pane.pane_id.clone(), provider: pane.harness.billing(), home }
}

/// A request as the text sent to the shared cache.
#[derive(Debug)]
pub struct RequestText {
    pub pane_id: String,
    pub provider: Option<String>,
    pub home: Option<String>,
}

/// Every account home among `requests` can be written as text.
pub open spec fn homes_are_text(requests: Seq<SharedRequest>) -> bool {
    forall|i: int| 0 <= i < requests.len() ==> ((#[trigger] requests[i]).home matches Some(h) ==> valid_utf8(h@))
}

/// `t` is `r` written as text.
pub open spec fn writes_request(t: RequestText, r: SharedRequest) -> bool {
    &&& t.pane_id@ == r.pane_id@
    &&& opt_view(t.provider) == match r.provider {
        Some(p) => Some(spec_wire_name(p)),
        None => None,
    }
    &&& match r.home {
        Some(h) => t.home matches Some(s) && encode_utf8(s@) == h@,
        None => t.home is None,
    }
}

/// The requests as text, all or none: a home that is not UTF-8 cannot be sent,
/// and then the shared cache is not asked at all.
pub fn request_texts(requests: &Vec<SharedRequest>) -> (r: Option<Vec<RequestText>>)
    ensures
        r is Some <==> homes_are_text(requests@),
        r matches Some(t) ==> t.len() == requests.len() && forall|i: int|
            0 <= i < requests.len() ==> writes_request(#[trigger] t@[i], requests@[i]),
{
    let mut out: Vec<RequestText> = Vec::new();
    let n = requests.len();
    for i in 0..n
        invariant
            n == requests.len(),
            out.len() == i,
            forall|j: int| 0 <= j < i ==> writes_request(#[trigger] out@[j], requests@[j]),
            forall|j: int| 0 <= j < i ==> ((#[trigger] requests@[j]).home matches Some(h) ==> valid_utf8(h@)),
    {
        let r = &requests[i];
        let home = match &r.home {
            Some(h) => match utf8_text(h.as_slice()) {
                Some(s) => Some(String::from_str(s)),
                None => {
                    assert(!homes_are_text(requests@)) by {
                        assert(requests@[i as int].home matches Some(h) && !valid_utf8(h@));
                    }
                    return None;
                },
            },
            None => None,
        };
        let provider = match r.provider {
            Some(p) => Some(String::from_str(p.wire_name())),
            None => None,
        };
        out.push(RequestText { pane_id: r.pane_id.clone(), provider, home });
        proof {
            assert(writes_request(out@[i as int], requests@[i as int]));
        }
    }
    Some(out)
}

/// A shared answer is used only from a command that finished in time,
/// exited with status 0 and wrote at most 1 MiB.
pub fn output_accepted(timed_out: bool, exit_code: Option<i32>, stdout_len: usize) -> (r: bool)
    ensures
        r == (!timed_out && exit_code == Some(0i32) && stdout_len <= 1048576),
{
    !timed_out && exit_code == Some(0i32) && stdout_len <= 1048576
}

/// Keys occur at most once.
pub open spec fn keys_distinct<V>(s: Seq<(Seq<char>, V)>) -> bool {
    forall|i: int, j: int| 0 <= i < j < s.len() ==> #[trigger] s[i].0 != #[trigger] s[j].0
}

proof fn lemma_lookup_at<V>(s: Seq<(Seq<char>, V)>, k: Seq<char>, i: int)
    requires
        0 <= i < s.len(),
        s[i].0 == k,
        forall|j: int| 0 <= j < i ==> s[j].0 != k,
    ensures
        lookup(s, k) == Some(s[i].1),
    decreases i,
{
    if i > 0 {
        lemma_lookup_at(s.drop_first(), k, i - 1);
    }
}

proof fn lemma_lookup_absent<V>(s: Seq<(Seq<char>, V)>, k: Seq<char>)
    requires
        forall|j: int| 0 <= j < s.len() ==> s[j].0 != k,
    ensures
        lookup(s, k) is None,
    decreases s.len(),
{
    if s.len() > 0 {
        lemma_lookup_absent(s.drop_first(), k);
    }
}

/// Looking a key up in a sequence with distinct keys finds the value stored
/// under it, or nothing when it is absent.
proof fn lemma_lookup_distinct<V>(s: Seq<(Seq<char>, V)>, k: Seq<char>)
    requires
        keys_distinct(s),
    ensures
        forall|i: int| 0 <= i < s.len() && s[i].0 == k ==> lookup(s, k) == Some(s[i].1),
        (forall|j: int| 0 <= j < s.len() ==> s[j].0 != k) ==> lookup(s, k) is None,
{
    assert forall|i: int| 0 <= i < s.len() && s[i].0 == k implies lookup(s, k) == Some(s[i].1) by {
        assert forall|j: int| 0 <= j < i implies s[j].0 != k by {
            assert(s[j].0 != s[i].0);
        }
        lemma_lookup_at(s, k, i);
    }
    if forall|j: int| 0 <= j < s.len() ==> s[j].0 != k {
        lemma_lookup_absent(s, k);
    }
}

/// The account resolved for each requested pane, by pane id.
pub struct PaneAccounts {
    entries: Vec<(String, Option<CodexAccount>)>,
}

/// Stored accounts over mathematical values.
pub open spec fn accounts_seq_view(s: Seq<(String, Option<CodexAccount>)>) -> Seq<(Seq<char>, Option<AccountView>)> {
    s.map_values(|e: (String, Option<CodexAccount>)| (e.0@, account_view(e.1)))
}

impl PaneAccounts {
    /// The stored pairs, pane ids distinct.
    pub closed spec fn pairs(&self) -> Seq<(Seq<char>, Option<AccountView>)> {
        accounts_seq_view(self.entries@)
    }

    /// The account stored for `pane_id`.
    pub open spec fn get(&self, pane_id: Seq<char>) -> Option<Option<AccountView>> {
        lookup(self.pairs(), pane_id)
    }

    /// Pane ids occur at most once.
    pub open spec fn wf(&self) -> bool {
        keys_distinct(self.pairs())
    }

    /// No pane has an account yet.
    pub fn new() -> (r: PaneAccounts)
        ensures
            r.wf(),
            forall|k: Seq<char>| r.get(k) is None,
    {
        let r = PaneAccounts { entries: Vec::new() };
        assert forall|k: Seq<char>| r.get(k) is None by {
            lemma_lookup_absent(r.pairs(), k);
        }
        r
    }

    fn find(&self, pane_id: &String) -> (r: Option<usize>)
        ensures
            match r {
                Some(i) => i < self.pairs().len() && self.pairs()[i as int].0 == pane_id@,
                None => forall|j: int| 0 <= j < self.pairs().len() ==> self.pairs()[j].0 != pane_id@,
            },
    {
        let n = self.entries.len();
        for i in 0..n
            invariant
                n == self.entries@.len(),
                forall|j: int| 0 <= j < i ==> self.pairs()[j].0 != pane_id@,
        {
            if self.entries[i].0 == *pane_id {
                return Some(i);
            }
        }
        None
    }

    /// Stores `account` for `pane_id`, replacing what was stored before.
    pub fn insert(&mut self, pane_id: String, account: Option<CodexAccount>)
        requires
            old(self).wf(),
        ensures
            final(self).wf(),
            final(self).get(pane_id@) == Some(account_view(account)),
            forall|k: Seq<char>| k != pane_id@ ==> final(self).get(k) == old(self).get(k),
    {
        let ghost key = pane_id@;
        let ghost acc = account_view(account);
        let ghost before = self.pairs();
        let ghost at: int;
        match self.find(&pane_id) {
            Some(i) => {
                self.entries.set(i, (pane_id, account));
                proof {
                    at = i as int;
                    assert(self.pairs() =~= before.update(i as int, (key, acc)));
                }
            },
            None => {
                self.entries.push((pane_id, account));
                proof {
                    at = before.len() as int;
                    assert(self.pairs() =~= before.push((key, acc)));
                }
            },
        }
        proof {
            let after = self.pairs();
            assert forall|j: int| 0 <= j < after.len() && j != at implies after[j] == before[j] by {}
            assert(keys_distinct(after)) by {
                assert forall|x: int, y: int| 0 <= x < y < after.len() implies #[trigger] after[x].0 != #[trigger] after[y].0 by {
                    if x != at && y != at {
                        assert(before[x].0 != before[y].0);
                    } else if x == at {
                        assert(after[y] == before[y]);
                    } else {
                        assert(after[x] == before[x]);
                    }
                }
            }
            assert(after[at].0 == key);
            lemma_lookup_distinct(after, key);
            assert forall|k: Seq<char>| k != key implies self.get(k) == lookup(before, k) by {
                lemma_lookup_distinct(after, k);
                lemma_lookup_distinct(before, k);
                if exists|j: int| 0 <= j < before.len() && before[j].0 == k {
                    let j = choose|j: int| 0 <= j < before.len() && before[j].0 == k;
                    assert(after[j] == before[j]);
                } else {
                    assert forall|j: int| 0 <= j < after.len() implies after[j].0 != k by {
                        if j != at {
                            assert(after[j] == before[j]);
                        }
                    }
                }
            }
        }
    }

    /// Takes out what is stored for `pane_id`.
    pub fn remove(&mut self, pane_id: &String) -> (r: Option<Option<CodexAccount>>)
        requires
            old(self).wf(),
        ensures
            final(self).wf(),
            match r {
                Some(a) => old(self).get(pane_id@) == Some(account_view(a)),
                None => old(self).get(pane_id@) is None,
            },
            final(self).get(pane_id@) is None,
            forall|k: Seq<char>| k != pane_id@ ==> final(self).get(k) == old(self).get(k),
    {
        let ghost key = pane_id@;
        let ghost before = self.pairs();
        proof {
            lemma_lookup_distinct(before, key);
        }
        match self.find(pane_id) {
            Some(i) => {
                let (_, account) = self.entries.remove(i);
                proof {
                    assert(self.pairs() =~= before.remove(i as int));
                    lemma_lookup_distinct(self.pairs(), key);
                    assert forall|j: int| 0 <= j < self.pairs().len() implies self.pairs()[j].0 != key by {
                        if j < i {
                            assert(before[j].0 != before[i as int].0);
                        } else {
                            assert(before[j + 1].0 != before[i as int].0);
                        }
                    }
                    assert forall|k: Seq<char>| k != key implies self.get(k) == lookup(before, k) by {
                        lemma_lookup_distinct(self.pairs(), k);
                        lemma_lookup_distinct(before, k);
                        if exists|j: int| 0 <= j < before.len() && before[j].0 == k {
                            let j = choose|j: int| 0 <= j < before.len() && before[j].0 == k;
                            if j < i {
                                assert(self.pairs()[j] == before[j]);
                            } else {
                                assert(self.pairs()[j - 1] == before[j]);
                            }
                        } else {
                            assert forall|j: int| 0 <= j < self.pairs().len() implies self.pairs()[j].0 != k by {
                                if j < i {
                                    assert(self.pairs()[j] == before[j]);
                                } else {
                                    assert(self.pairs()[j] == before[j + 1]);
                                }
                            }
                        }
                    }
                }
                Some(account)
            },
            None => None,
        }
    }
}

/// The account stored for a pane, if one was resolved.
pub open spec fn flatten_account(a: Option<Option<AccountView>>) -> Option<AccountView> {
    match a {
        Some(Some(a)) => Some(a),
        _ => None,
    }
}

/// Answers by pane id over mathematical values.
pub open spec fn entries_view(s: Seq<(String, Entry)>) -> Seq<(Seq<char>, EntryView)> {
    s.map_values(|e: (String, Entry)| (e.0@, e.1@))
}

/// Gives every shared answer the account resolved for its pane.
pub fn attach_accounts(entries: Vec<(String, Entry)>, accounts: &mut PaneAccounts) -> (r: Vec<(String, Entry)>)
    requires
        old(accounts).wf(),
        keys_distinct(entries_view(entries@)),
    ensures
        r@.len() == entries@.len(),
        forall|i: int|
            0 <= i < r@.len() ==> {
                let (k, e) = #[trigger] entries_view(r@)[i];
                &&& k == entries_view(entries@)[i].0
                &&& e == EntryView { codex: flatten_account(old(accounts).get(k)), ..entries_view(entries@)[i].1 }
            },
{
    let ghost input = entries_view(entries@);
    let mut entries = entries;
    let mut out: Vec<(String, Entry)> = Vec::new();
    let n = entries.len();
    let mut i: usize = 0;
    while i < n
        invariant
            accounts.wf(),
            input.len() == n,
            keys_distinct(input),
            i <= n,
            entries_view(entries@) == input.skip(i as int),
            out@.len() == i,
            forall|j: int|
                0 <= j < i ==> {
                    let (k, e) = #[trigger] entries_view(out@)[j];
                    &&& k == input[j].0
                    &&& e == EntryView { codex: flatten_account(old(accounts).get(k)), ..input[j].1 }
                },
            forall|j: int| i <= j < n ==> accounts.get(#[trigger] input[j].0) == old(accounts).get(input[j].0),
        decreases n - i,
    {
        assert(entries@.len() == entries_view(entries@).len());
        let ghost before = entries@;
        let (key, entry) = entries.remove(0);
        proof {
            assert(input.skip(i as int)[0] == input[i as int]);
            assert(entries_view(before)[0] == (key@, entry@));
            assert(entries_view(entries@) =~= entries_view(before).drop_first());
            assert(entries_view(entries@) =~= input.skip(i + 1));
        }
        let codex = match accounts.remove(&key) {
            Some(Some(a)) => Some(a),
            _ => None,
        };
        let updated = Entry { snapshot: entry.snapshot, reason: entry.reason, key: entry.key, codex };
        let ghost prev_out = out@;
        out.push((key, updated));
        proof {
            assert(entries_view(out@) =~= entries_view(prev_out).push((input[i as int].0, updated@)));
            assert forall|j: int| i + 1 <= j < n implies accounts.get(#[trigger] input[j].0) == old(accounts).get(input[j].0) by {
                assert(input[j].0 != input[i as int].0);
            }
        }
        i = i + 1;
    }
    out
}

/// A native Codex pane whose own account home is unknown, or whose entry was
/// collected for another home or credential generation, shows no shared
/// quota.
pub proof fn lemma_codex_quota_needs_same_account(
    entry: Option<EntryView>,
    now: u64,
    entry_digest: Option<[u8; 32]>,
    resolved_codex: Option<AccountView>,
)
    requires
        entry matches Some(e) && (e.codex is None || resolved_codex is None || e.codex.unwrap().home != resolved_codex.unwrap().home
            || spec_generation(e.codex.unwrap()) != spec_generation(resolved_codex.unwrap())
            || !account_current(e.codex.unwrap(), entry_digest)),
    ensures
        !entry_accepted(entry, Harness::Codex, now, entry_digest, resolved_codex),
{
}

/// A reading older than five minutes, for another provider, or with an
/// expired or no window is never shown.
pub proof fn lemma_stale_reading_not_shown(
    s: SnapshotView,
    harness: Harness,
    now: u64,
    entry_codex: Option<AccountView>,
    entry_digest: Option<[u8; 32]>,
    resolved_codex: Option<AccountView>,
)
    requires
        s.provider != pane_provider(harness) || now < s.fetched_at_unix || now - s.fetched_at_unix > 300
            || s.windows.len() == 0 || exists|i: int| 0 <= i < s.windows.len() && !(#[trigger] s.windows[i]).spec_is_current(now),
    ensures
        !snapshot_accepted(s, harness, now, entry_codex, entry_digest, resolved_codex),
{
}

/// A reading for the pane's provider, taken at most five minutes ago, with at
/// least one window and every window not yet reset, is shown; for a native
/// Codex pane the entry must also carry the pane's own home and credential
/// generation with credentials still current. How much of a window is used
/// plays no part: an exhausted window is shown as such.
pub proof fn lemma_fresh_reading_shown(
    s: SnapshotView,
    harness: Harness,
    now: u64,
    entry_codex: Option<AccountView>,
    entry_digest: Option<[u8; 32]>,
    resolved_codex: Option<AccountView>,
)
    ensures
        snapshot_accepted(s, harness, now, entry_codex, entry_digest, resolved_codex) <==> {
            &&& s.provider == pane_provider(harness)
            &&& s.fetched_at_unix <= now <= s.fetched_at_unix + 300
            &&& s.windows.len() > 0
            &&& forall|i: int| 0 <= i < s.windows.len() ==> now < (#[trigger] s.windows[i]).resets_at_unix
            &&& harness == Harness::Codex ==> {
                &&& entry_codex matches Some(a)
                &&& entry_digest matches Some(d)
                &&& d@ == a.auth_digest
                &&& resolved_codex matches Some(c)
                &&& c.home == a.home
                &&& spec_generation(c) == spec_generation(a)
            }
        },
{
}

/// Two readings that differ only in how much of each window is used, or in
/// the windows' lengths, are shown or withheld alike.
pub proof fn lemma_usage_levels_do_not_decide(
    s: SnapshotView,
    t: SnapshotView,
    harness: Harness,
    now: u64,
    entry_codex: Option<AccountView>,
    entry_digest: Option<[u8; 32]>,
    resolved_codex: Option<AccountView>,
)
    requires
        s.provider == t.provider,
        s.fetched_at_unix == t.fetched_at_unix,
        s.windows.len() == t.windows.len(),
        forall|i: int| 0 <= i < s.windows.len() ==> (#[trigger] s.windows[i]).resets_at_unix == t.windows[i].resets_at_unix,
    ensures
        snapshot_accepted(s, harness, now, entry_codex, entry_digest, resolved_codex)
            == snapshot_accepted(t, harness, now, entry_codex, entry_digest, resolved_codex),
{
    assert((forall|i: int| 0 <= i < s.windows.len() ==> (#[trigger] s.windows[i]).spec_is_current(now))
        == (forall|i: int| 0 <= i < t.windows.len() ==> (#[trigger] t.windows[i]).spec_is_current(now))) by {
        if forall|i: int| 0 <= i < s.windows.len() ==> (#[trigger] s.windows[i]).spec_is_current(now) {
            assert forall|i: int| 0 <= i < t.windows.len() implies (#[trigger] t.windows[i]).spec_is_current(now) by {
                assert(s.windows[i].spec_is_current(now));
            }
        }
        if forall|i: int| 0 <= i < t.windows.len() ==> (#[trigger] t.windows[i]).spec_is_current(now) {
            assert forall|i: int| 0 <= i < s.windows.len() implies (#[trigger] s.windows[i]).spec_is_current(now) by {
                assert(t.windows[i].spec_is_current(now));
            }
        }
    }
}

} // verus!

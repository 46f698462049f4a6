//! Native Codex pane attribution from exact session ids in explicitly allowed homes.
use crate::digest::{append_bytes, hex_lower, lemma_hex_lower_len, push_hex_lower, sha256, sha256_of};
use crate::paths::{
    chars_of, is_absolute, join, lemma_path_lt_order, path_less, path_lt, spec_is_absolute, spec_join,
    spec_within, within, same_bytes,
};
use crate::model::{opt_view, spec_codex_cache_identity, BillingTarget, ProviderSnapshot};
use vstd::prelude::*;
use vstd::string::*;
use vstd::utf8::{decode_utf8, encode_scalar, encode_utf8, encode_utf8_decode_utf8, valid_utf8};

verus! {

/// A native Codex account home, the account it is signed in to, and the
/// digest of its credential file at resolution time.
#[derive(Clone, Debug)]
pub struct CodexAccount {
    pub home: Vec<u8>,
    pub account_id: String,
    auth_digest: [u8; 32],
}

/// An account over mathematical values.
pub struct AccountView {
    pub home: Seq<u8>,
    pub account_id: Seq<char>,
    pub auth_digest: Seq<u8>,
}

impl View for CodexAccount {
    type V = AccountView;

    closed spec fn view(&self) -> AccountView {
        AccountView { home: self.home@, account_id: self.account_id@, auth_digest: self.auth_digest@ }
    }
}

/// The bytes hashed into a warning identity: the cache identity of the home,
/// a zero byte, and the account id.
pub open spec fn warning_identity_input(a: AccountView) -> Seq<u8> {
    spec_codex_cache_identity(a.home) + seq![0u8] + encode_utf8(a.account_id)
}

/// The published warning identity of an account.
pub open spec fn spec_warning_identity(a: AccountView) -> Seq<char> {
    "codex-account:"@ + hex_lower(sha256_of(warning_identity_input(a)))
}

/// The bytes hashed into a credential generation: the warning identity, a
/// zero byte, and the credential-file digest.
pub open spec fn generation_input(a: AccountView) -> Seq<u8> {
    encode_utf8(spec_warning_identity(a)) + seq![0u8] + a.auth_digest
}

/// The opaque credential-generation stamp of an account.
pub open spec fn spec_generation(a: AccountView) -> Seq<char> {
    hex_lower(sha256_of(generation_input(a)))
}

impl CodexAccount {
    /// The billing target of this account's home.
    pub fn target(&self) -> (r: BillingTarget)
        ensures
            r.home_view() == self@.home,
    {
        BillingTarget::codex_account(self.home.as_slice())
    }

    /// The home of this account.
    pub fn home(&self) -> (r: &Vec<u8>)
        ensures
            r@ == self@.home,
    {
        &self.home
    }

    /// The account id of this account.
    pub fn account_id(&self) -> (r: &String)
        ensures
            r@ == self@.account_id,
    {
        &self.account_id
    }

    /// A credential-generation stamp: it changes with the credential file and
    /// publishes neither the account id nor the digest.
    pub fn generation(&self) -> (r: String)
        ensures
            r@ == spec_generation(self@),
            r@.len() == 64,
    {
        let identity = self.warning_identity();
        let mut data: Vec<u8> = Vec::new();
        append_bytes(&mut data, identity.as_str().as_bytes());
        data.push(0);
        append_bytes(&mut data, &self.auth_digest);
        assert(data@ =~= generation_input(self@));
        let digest = sha256(data.as_slice());
        let mut r = String::new();
        push_hex_lower(&mut r, &digest);
        proof {
            lemma_hex_lower_len(digest@);
        }
        r
    }

    /// A different home/account cannot rearm this account's warning. Token
    /// rotation leaves this identity unchanged; no raw identity is published.
    pub fn warning_identity(&self) -> (r: String)
        ensures
            r@ == spec_warning_identity(self@),
            r@.len() == 78,
    {
        let identity = self.target().cache_identity();
        let mut data: Vec<u8> = Vec::new();
        append_bytes(&mut data, identity.as_slice());
        data.push(0);
        append_bytes(&mut data, self.account_id.as_str().as_bytes());
        assert(data@ =~= warning_identity_input(self@));
        let digest = sha256(data.as_slice());
        let mut r = String::from_str("codex-account:");
        push_hex_lower(&mut r, &digest);
        proof {
            reveal_strlit("codex-account:");
            lemma_hex_lower_len(digest@);
        }
        r
    }

    /// Whether a snapshot was collected for this account and credential generation.
    pub fn matches_snapshot(&self, snapshot: &ProviderSnapshot) -> (r: bool)
        ensures
            r == (snapshot@.account_id == Some(self@.account_id)
                && snapshot@.credential_generation == Some(spec_generation(self@))),
    {
        match (&snapshot.account_id, &snapshot.credential_generation) {
            (Some(account_id), Some(generation)) => {
                *account_id == self.account_id && *generation == self.generation()
            },
            _ => false,
        }
    }
}

/// Whether two digests are equal.
pub fn same_digest(a: &[u8; 32], b: &[u8; 32]) -> (r: bool)
    ensures
        r == (a@ == b@),
{
    let mut i: usize = 0;
    while i < 32
        invariant
            i <= 32,
            a@.len() == 32,
            b@.len() == 32,
            forall|j: int| 0 <= j < i ==> a@[j] == b@[j],
        decreases 32 - i,
    {
        if a[i] != b[i] {
            return false;
        }
        i = i + 1;
    }
    assert(a@ =~= b@);
    true
}

impl CodexAccount {
    /// Whether the credential file still has the digest taken at resolution.
    /// `current_digest` is the digest of the home's `auth.json` read now
    /// (`None` when it is missing, not a regular file, or unreadable).
    pub fn is_current(&self, current_digest: Option<[u8; 32]>) -> (r: bool)
        ensures
            r == (current_digest matches Some(d) && d@ == self@.auth_digest),
    {
        match current_digest {
            Some(d) => same_digest(&d, &self.auth_digest),
            None => false,
        }
    }
}

/// An ASCII hexadecimal digit, either case.
pub open spec fn is_hex_digit_byte(b: u8) -> bool {
    (48 <= b <= 57) || (65 <= b <= 70) || (97 <= b <= 102)
}

/// Native thread ids are UUIDs: 36 bytes, dashes at 8, 13, 18 and 23, hex
/// digits elsewhere.
pub open spec fn is_session_uuid(bytes: Seq<u8>) -> bool {
    &&& bytes.len() == 36
    &&& forall|i: int|
        0 <= i < 36 ==> if i == 8 || i == 13 || i == 18 || i == 23 {
            #[trigger] bytes[i] == 45
        } else {
            is_hex_digit_byte(bytes[i])
        }
}

/// Whether `id` has the shape of a native thread id. This also keeps glob- or
/// path-shaped and short substring ids from opening an unrelated rollout.
pub fn is_session_id(id: &str) -> (r: bool)
    ensures
        r == is_session_uuid(encode_utf8(id@)),
{
    let bytes = id.as_bytes();
    if bytes.len() != 36 {
        return false;
    }
    let mut i: usize = 0;
    while i < 36
        invariant
            bytes@ == encode_utf8(id@),
            bytes@.len() == 36,
            i <= 36,
            forall|j: int|
                0 <= j < i ==> if j == 8 || j == 13 || j == 18 || j == 23 {
                    #[trigger] bytes@[j] == 45
                } else {
                    is_hex_digit_byte(bytes@[j])
                },
        decreases 36 - i,
    {
        let b = bytes[i];
        let ok = if i == 8 || i == 13 || i == 18 || i == 23 {
            b == 45
        } else {
            (48 <= b && b <= 57) || (65 <= b && b <= 70) || (97 <= b && b <= 102)
        };
        if !ok {
            return false;
        }
        i = i + 1;
    }
    true
}

/// The first line of a rollout: its record type and its session id.
#[derive(Debug)]
pub struct SessionHeader {
    pub kind: String,
    pub id: String,
}

/// A rollout belongs to session `id` when its first line is a
/// `session_meta` record whose payload id is `id`.
pub open spec fn spec_header_matches(header: Option<(Seq<char>, Seq<char>)>, id: Seq<char>) -> bool {
    header matches Some(h) && h.0 == "session_meta"@ && h.1 == id
}

/// A parsed header over mathematical values.
pub open spec fn header_view(header: Option<SessionHeader>) -> Option<(Seq<char>, Seq<char>)> {
    match header {
        Some(h) => Some((h.kind@, h.id@)),
        None => None,
    }
}

/// Whether a parsed rollout header names session `id`; `None` stands for a
/// first line that could not be read or parsed.
pub fn header_matches(header: &Option<SessionHeader>, id: &str) -> (r: bool)
    ensures
        r == spec_header_matches(header_view(*header), id@),
{
    match header {
        Some(h) => {
            let kind = String::from_str("session_meta");
            let id = String::from_str(id);
            h.kind == kind && h.id == id
        },
        None => false,
    }
}

/// `p` is a prefix of `s`.
pub open spec fn spec_starts_with(s: Seq<char>, p: Seq<char>) -> bool {
    p.len() <= s.len() && s.take(p.len() as int) == p
}

/// `p` is a suffix of `s`.
pub open spec fn spec_ends_with(s: Seq<char>, p: Seq<char>) -> bool {
    p.len() <= s.len() && s.skip(s.len() - p.len()) == p
}

/// Rollout files of session `id` are named `rollout-*-{id}.jsonl`.
pub open spec fn spec_is_rollout_name(name: Seq<char>, id: Seq<char>) -> bool {
    spec_starts_with(name, "rollout-"@) && spec_ends_with(name, "-"@ + id + ".jsonl"@)
}

fn starts_with(s: &Vec<char>, p: &Vec<char>) -> (r: bool)
    ensures
        r == spec_starts_with(s@, p@),
{
    if p.len() > s.len() {
        return false;
    }
    let n = p.len();
    let mut i: usize = 0;
    while i < n
        invariant
            n == p@.len(),
            n <= s@.len(),
            i <= n,
            forall|j: int| 0 <= j < i ==> s@[j] == p@[j],
        decreases n - i,
    {
        if s[i] != p[i] {
            assert(s@.take(n as int)[i as int] != p@[i as int]);
            return false;
        }
        i = i + 1;
    }
    assert(s@.take(n as int) =~= p@);
    true
}

fn ends_with(s: &Vec<char>, p: &Vec<char>) -> (r: bool)
    ensures
        r == spec_ends_with(s@, p@),
{
    if p.len() > s.len() {
        return false;
    }
    let n = p.len();
    let off = s.len() - n;
    let mut i: usize = 0;
    while i < n
        invariant
            n == p@.len(),
            off + n == s@.len(),
            s@.len() <= usize::MAX,
            i <= n,
            forall|j: int| 0 <= j < i ==> s@[off + j] == p@[j],
        decreases n - i,
    {
        if s[off + i] != p[i] {
            assert(s@.skip(off as int)[i as int] != p@[i as int]);
            return false;
        }
        i = i + 1;
    }
    assert(s@.skip(off as int) =~= p@);
    true
}

/// Whether `name` is a rollout file name of session `id`.
pub fn is_rollout_name(name: &str, id: &str) -> (r: bool)
    ensures
        r == spec_is_rollout_name(name@, id@),
{
    let mut suffix = String::from_str("-");
    suffix.append(id);
    suffix.append(".jsonl");
    let n = chars_of(name);
    starts_with(&n, &chars_of("rollout-")) && ends_with(&n, &chars_of(suffix.as_str()))
}

/// A file name that is valid UTF-8 and, read as text, a rollout name of
/// session `id`.
pub open spec fn spec_is_rollout_file_name(name: Seq<u8>, id: Seq<char>) -> bool {
    valid_utf8(name) && spec_is_rollout_name(decode_utf8(name), id)
}

/// Calls `std::str::from_utf8`. Trusted: std documents that it succeeds
/// exactly on valid UTF-8 and then gives the string with these bytes.
#[verifier::external_body]
pub(crate) fn utf8_text(bytes: &[u8]) -> (r: Option<&str>)
    ensures
        r is Some <==> valid_utf8(bytes@),
        r matches Some(s) ==> encode_utf8(s@) == bytes@,
{
    std::str::from_utf8(bytes).ok()
}

/// Whether a raw file name is a rollout name of session `id`.
pub fn is_rollout_file_name(name: &[u8], id: &str) -> (r: bool)
    ensures
        r == spec_is_rollout_file_name(name@, id@),
{
    match utf8_text(name) {
        Some(text) => {
            proof {
                encode_utf8_decode_utf8(text@);
            }
            is_rollout_name(text, id)
        },
        None => false,
    }
}

/// A copy of a byte string.
pub fn copy_bytes(b: &[u8]) -> (r: Vec<u8>)
    ensures
        r@ == b@,
{
    let mut r: Vec<u8> = Vec::new();
    append_bytes(&mut r, b);
    r
}

/// Entries examined per home before the scan gives up.
pub const SCAN_BUDGET: usize = 100_000;

/// Deepest directory level below `sessions`/`archived_sessions` that is listed.
pub const MAX_SCAN_DEPTH: usize = 8;

/// What opening a session directory for listing gave.
#[derive(Clone, Copy, Debug, PartialEq, Eq, Structural)]
pub enum DirectoryListing {
    NotFound,
    Failed,
    Opened,
}

/// The next entry of the directory being listed, with its own file type
/// (symlinks are not followed) and its name when that is valid UTF-8.
#[derive(Debug)]
pub enum DirectoryEntry {
    End,
    Failed,
    Item { name: Vec<u8>, is_dir: bool, is_file: bool },
}

/// A directory entry over mathematical values.
pub enum EntryView {
    End,
    Failed,
    Item { name: Seq<u8>, is_dir: bool, is_file: bool },
}

/// The outcome of the action last requested by a [`Resolver`].
#[derive(Debug)]
pub enum ResolveEvent {
    /// A canonicalized path, `None` when canonicalization failed.
    Canonical(Option<Vec<u8>>),
    Listing(DirectoryListing),
    Entry(DirectoryEntry),
    /// The parsed first line of a rollout, `None` when unreadable or malformed.
    Header(Option<SessionHeader>),
    /// The digest of a credential file, `None` when it was refused or unreadable.
    AuthDigest(Option<[u8; 32]>),
    /// The account id recorded in a credential file.
    AccountId(Option<String>),
}

/// An outcome over mathematical values.
pub enum EventView {
    Canonical(Option<Seq<u8>>),
    Listing(DirectoryListing),
    Entry(EntryView),
    Header(Option<(Seq<char>, Seq<char>)>),
    AuthDigest(Option<Seq<u8>>),
    AccountId(Option<Seq<char>>),
}

impl View for ResolveEvent {
    type V = EventView;

    open spec fn view(&self) -> EventView {
        match self {
            ResolveEvent::Canonical(c) => EventView::Canonical(opt_bytes_view(*c)),
            ResolveEvent::Listing(l) => EventView::Listing(*l),
            ResolveEvent::Entry(DirectoryEntry::End) => EventView::Entry(EntryView::End),
            ResolveEvent::Entry(DirectoryEntry::Failed) => EventView::Entry(EntryView::Failed),
            ResolveEvent::Entry(DirectoryEntry::Item { name, is_dir, is_file }) => EventView::Entry(
                EntryView::Item { name: name@, is_dir: *is_dir, is_file: *is_file },
            ),
            ResolveEvent::Header(h) => EventView::Header(header_view(*h)),
            ResolveEvent::AuthDigest(Some(d)) => EventView::AuthDigest(Some(d@)),
            ResolveEvent::AuthDigest(None) => EventView::AuthDigest(None),
            ResolveEvent::AccountId(a) => EventView::AccountId(opt_view(*a)),
        }
    }
}

/// The next piece of outside work a [`Resolver`] needs, or its result.
#[derive(Debug)]
pub enum ResolveAction {
    CanonicalizeHome(Vec<u8>),
    ListDirectory(Vec<u8>),
    CanonicalizeDirectory(Vec<u8>),
    NextEntry,
    CanonicalizeEntry(Vec<u8>),
    ReadSessionHeader(Vec<u8>),
    /// Digest the credential file at this path (see `auth_digest`).
    ReadAuthDigest(Vec<u8>),
    ReadAccountId(Vec<u8>),
    Finish(Option<CodexAccount>),
}

/// An action over mathematical values.
pub enum ActionView {
    CanonicalizeHome(Seq<u8>),
    ListDirectory(Seq<u8>),
    CanonicalizeDirectory(Seq<u8>),
    NextEntry,
    CanonicalizeEntry(Seq<u8>),
    ReadSessionHeader(Seq<u8>),
    ReadAuthDigest(Seq<u8>),
    ReadAccountId(Seq<u8>),
    Finish(Option<AccountView>),
}

impl View for ResolveAction {
    type V = ActionView;

    open spec fn view(&self) -> ActionView {
        match self {
            ResolveAction::CanonicalizeHome(p) => ActionView::CanonicalizeHome(p@),
            ResolveAction::ListDirectory(p) => ActionView::ListDirectory(p@),
            ResolveAction::CanonicalizeDirectory(p) => ActionView::CanonicalizeDirectory(p@),
            ResolveAction::NextEntry => ActionView::NextEntry,
            ResolveAction::CanonicalizeEntry(p) => ActionView::CanonicalizeEntry(p@),
            ResolveAction::ReadSessionHeader(p) => ActionView::ReadSessionHeader(p@),
            ResolveAction::ReadAuthDigest(p) => ActionView::ReadAuthDigest(p@),
            ResolveAction::ReadAccountId(p) => ActionView::ReadAccountId(p@),
            ResolveAction::Finish(Some(a)) => ActionView::Finish(Some(a@)),
            ResolveAction::Finish(None) => ActionView::Finish(None),
        }
    }
}

/// The point a resolution has reached.
#[derive(Clone, Copy, Debug, PartialEq, Eq, Structural)]
pub enum Stage {
    Canonicalizing,
    Listing,
    CheckingDirectory,
    Iterating,
    CheckingCandidate,
    ReadingHeader,
    ReadingDigest,
    ReadingAccount,
    Rechecking,
    Done,
}

/// The stages of scanning one home for the session.
pub open spec fn is_scanning(s: Stage) -> bool {
    s == Stage::Listing || s == Stage::CheckingDirectory || s == Stage::Iterating
        || s == Stage::CheckingCandidate || s == Stage::ReadingHeader
}

/// The stages of reading the matched home's credentials.
pub open spec fn is_reading_auth(s: Stage) -> bool {
    s == Stage::ReadingDigest || s == Stage::ReadingAccount || s == Stage::Rechecking
}

/// The number of `true` values.
pub open spec fn count_true(s: Seq<bool>) -> nat
    decreases s.len(),
{
    if s.len() == 0 {
        0
    } else {
        count_true(s.drop_last()) + if s.last() { 1nat } else { 0nat }
    }
}

/// Canonical homes are kept in path order without repetition; adding one that
/// is already present changes nothing.
pub open spec fn insert_path(s: Seq<Seq<u8>>, c: Seq<u8>) -> Seq<Seq<u8>>
    decreases s.len(),
{
    if s.len() == 0 {
        seq![c]
    } else if s[0] == c {
        s
    } else if path_lt(c, s[0]) {
        seq![c] + s
    } else {
        seq![s[0]] + insert_path(s.drop_first(), c)
    }
}

/// Strictly increasing in path order.
pub open spec fn path_sorted(s: Seq<Seq<u8>>) -> bool {
    forall|i: int, j: int| 0 <= i < j < s.len() ==> path_lt(#[trigger] s[i], #[trigger] s[j])
}

/// Resolution of a native Codex session to its account home, over
/// mathematical values. `results[k]` records whether the scan of
/// `canonical[k]` found the session.
#[verifier::ext_equal]
pub struct ResolverView {
    pub session_id: Seq<char>,
    pub homes: Seq<Seq<u8>>,
    pub next_home: nat,
    pub canonical: Seq<Seq<u8>>,
    pub scan_index: nat,
    pub matched: Option<Seq<u8>>,
    pub pending: Seq<(Seq<u8>, nat)>,
    pub remaining: nat,
    pub found: bool,
    pub dir: Seq<u8>,
    pub depth: nat,
    pub candidate: Seq<u8>,
    pub digest: Seq<u8>,
    pub account_id: Seq<char>,
    pub stage: Stage,
    pub results: Seq<bool>,
}

impl ResolverView {
    /// Resolution ends without an account.
    pub open spec fn fail(self) -> (ResolverView, ActionView) {
        (ResolverView { stage: Stage::Done, ..self }, ActionView::Finish(None))
    }

    /// The canonical home being scanned.
    pub open spec fn home(self) -> Seq<u8> {
        self.canonical[self.scan_index as int]
    }

    /// After every scan: the single matching home's credentials are read.
    pub open spec fn finish_scans(self) -> (ResolverView, ActionView) {
        match self.matched {
            None => self.fail(),
            Some(h) => (
                ResolverView { stage: Stage::ReadingDigest, ..self },
                ActionView::ReadAuthDigest(spec_join(h, encode_utf8("auth.json"@))),
            ),
        }
    }

    /// Starts scanning canonical home `k`: `sessions` and `archived_sessions`
    /// are pending, and the latter is listed first.
    pub open spec fn begin_scan(self, k: nat) -> (ResolverView, ActionView) {
        if k >= self.canonical.len() {
            ResolverView { scan_index: k, ..self }.finish_scans()
        } else {
            let h = self.canonical[k as int];
            (
                ResolverView {
                    stage: Stage::Listing,
                    scan_index: k,
                    pending: seq![(spec_join(h, encode_utf8("sessions"@)), 0nat)],
                    remaining: SCAN_BUDGET as nat,
                    found: false,
                    dir: spec_join(h, encode_utf8("archived_sessions"@)),
                    depth: 0,
                    ..self
                },
                ActionView::ListDirectory(spec_join(h, encode_utf8("archived_sessions"@))),
            )
        }
    }

    /// Canonicalizes allowlisted home `i`, after checking that it is absolute.
    pub open spec fn begin_canonical(self, i: nat) -> (ResolverView, ActionView) {
        if i >= self.homes.len() {
            ResolverView { next_home: i, ..self }.begin_scan(0)
        } else if !spec_is_absolute(self.homes[i as int]) {
            self.fail()
        } else {
            (
                ResolverView { stage: Stage::Canonicalizing, next_home: i, ..self },
                ActionView::CanonicalizeHome(self.homes[i as int]),
            )
        }
    }

    /// The scan of the current home has ended; a second home with the
    /// session makes the resolution ambiguous.
    pub open spec fn end_scan(self) -> (ResolverView, ActionView) {
        if self.found && self.matched is Some {
            self.fail()
        } else {
            ResolverView {
                results: self.results.push(self.found),
                matched: if self.found { Some(self.home()) } else { self.matched },
                ..self
            }.begin_scan(self.scan_index + 1)
        }
    }

    /// Lists the most recently pushed pending directory.
    pub open spec fn pop_next(self) -> (ResolverView, ActionView) {
        if self.pending.len() == 0 {
            self.end_scan()
        } else {
            let (d, depth) = self.pending.last();
            if depth > MAX_SCAN_DEPTH {
                self.fail()
            } else {
                (
                    ResolverView {
                        stage: Stage::Listing,
                        pending: self.pending.drop_last(),
                        dir: d,
                        depth: depth,
                        ..self
                    },
                    ActionView::ListDirectory(d),
                )
            }
        }
    }

    /// One entry of the directory being listed.
    pub open spec fn on_entry(self, name: Seq<u8>, is_dir: bool, is_file: bool) -> (ResolverView, ActionView) {
        let s = ResolverView { remaining: (self.remaining - 1) as nat, ..self };
        if is_dir {
            (
                ResolverView { pending: s.pending.push((spec_join(s.dir, name), s.depth + 1)), ..s },
                ActionView::NextEntry,
            )
        } else if spec_is_rollout_file_name(name, s.session_id) {
            if is_file {
                (
                    ResolverView { stage: Stage::CheckingCandidate, candidate: spec_join(s.dir, name), ..s },
                    ActionView::CanonicalizeEntry(spec_join(s.dir, name)),
                )
            } else {
                s.fail()
            }
        } else {
            (s, ActionView::NextEntry)
        }
    }

    /// The transition taken on `event`; any event the stage does not expect
    /// ends the resolution without an account.
    pub open spec fn next(self, event: EventView) -> (ResolverView, ActionView) {
        match self.stage {
            Stage::Canonicalizing => match event {
                EventView::Canonical(Some(c)) => ResolverView {
                    canonical: insert_path(self.canonical, c),
                    ..self
                }.begin_canonical(self.next_home + 1),
                _ => self.fail(),
            },
            Stage::Listing => match event {
                EventView::Listing(DirectoryListing::NotFound) => self.pop_next(),
                EventView::Listing(DirectoryListing::Opened) => (
                    ResolverView { stage: Stage::CheckingDirectory, ..self },
                    ActionView::CanonicalizeDirectory(self.dir),
                ),
                _ => self.fail(),
            },
            Stage::CheckingDirectory => match event {
                EventView::Canonical(Some(c)) => if spec_within(c, self.home()) {
                    (ResolverView { stage: Stage::Iterating, ..self }, ActionView::NextEntry)
                } else {
                    self.fail()
                },
                _ => self.fail(),
            },
            Stage::Iterating => match event {
                EventView::Entry(EntryView::End) => self.pop_next(),
                EventView::Entry(EntryView::Item { name, is_dir, is_file }) => if self.remaining > 0 {
                    self.on_entry(name, is_dir, is_file)
                } else {
                    self.fail()
                },
                _ => self.fail(),
            },
            Stage::CheckingCandidate => match event {
                EventView::Canonical(Some(c)) => if spec_within(c, self.home()) {
                    (
                        ResolverView { stage: Stage::ReadingHeader, ..self },
                        ActionView::ReadSessionHeader(self.candidate),
                    )
                } else {
                    self.fail()
                },
                _ => self.fail(),
            },
            Stage::ReadingHeader => match event {
                EventView::Header(h) => if spec_header_matches(h, self.session_id) {
                    (ResolverView { stage: Stage::Iterating, found: true, ..self }, ActionView::NextEntry)
                } else {
                    self.fail()
                },
                _ => self.fail(),
            },
            Stage::ReadingDigest => match event {
                EventView::AuthDigest(Some(d)) => (
                    ResolverView { stage: Stage::ReadingAccount, digest: d, ..self },
                    ActionView::ReadAccountId(spec_join(self.matched.unwrap(), encode_utf8("auth.json"@))),
                ),
                _ => self.fail(),
            },
            Stage::ReadingAccount => match event {
                EventView::AccountId(Some(a)) => (
                    ResolverView { stage: Stage::Rechecking, account_id: a, ..self },
                    ActionView::ReadAuthDigest(spec_join(self.matched.unwrap(), encode_utf8("auth.json"@))),
                ),
                _ => self.fail(),
            },
            Stage::Rechecking => match event {
                EventView::AuthDigest(d) => (
                    ResolverView { stage: Stage::Done, ..self },
                    ActionView::Finish(
                        if d == Some(self.digest) {
                            Some(AccountView {
                                home: self.matched.unwrap(),
                                account_id: self.account_id,
                                auth_digest: self.digest,
                            })
                        } else {
                            None
                        },
                    ),
                ),
                _ => self.fail(),
            },
            Stage::Done => self.fail(),
        }
    }

    /// What every reachable state satisfies.
    pub open spec fn inv(self) -> bool {
        &&& self.stage != Stage::Done ==> is_session_uuid(encode_utf8(self.session_id))
        &&& path_sorted(self.canonical)
        &&& self.stage == Stage::Canonicalizing ==> {
            &&& self.next_home < self.homes.len()
            &&& forall|i: int| 0 <= i <= self.next_home ==> spec_is_absolute(#[trigger] self.homes[i])
            &&& self.results.len() == 0
            &&& self.matched is None
        }
        &&& (is_scanning(self.stage) || is_reading_auth(self.stage)) ==> {
            &&& forall|i: int| 0 <= i < self.homes.len() ==> spec_is_absolute(#[trigger] self.homes[i])
            &&& (self.matched is None <==> count_true(self.results) == 0)
            &&& self.matched matches Some(h) ==> {
                &&& count_true(self.results) == 1
                &&& exists|k: int| 0 <= k < self.results.len() && #[trigger] self.results[k] && self.canonical[k] == h
            }
        }
        &&& is_scanning(self.stage) ==> {
            &&& self.scan_index < self.canonical.len()
            &&& self.results.len() == self.scan_index
            &&& self.depth <= MAX_SCAN_DEPTH
            &&& self.remaining <= SCAN_BUDGET
        }
        &&& is_reading_auth(self.stage) ==> {
            &&& self.results.len() == self.canonical.len()
            &&& self.matched is Some
        }
    }
}

/// Adding a home keeps the canonical homes sorted and holds exactly the old
/// homes and the new one.
pub proof fn lemma_insert_path(s: Seq<Seq<u8>>, c: Seq<u8>)
    requires
        path_sorted(s),
    ensures
        path_sorted(insert_path(s, c)),
        forall|x: Seq<u8>| #[trigger] insert_path(s, c).contains(x) <==> (s.contains(x) || x == c),
    decreases s.len(),
{
    if s.len() > 0 && s[0] != c {
        lemma_path_lt_order(c, s[0], c);
        let rest = s.drop_first();
        if path_lt(c, s[0]) {
            let r = seq![c] + s;
            assert forall|i: int, j: int| 0 <= i < j < r.len() implies path_lt(#[trigger] r[i], #[trigger] r[j]) by {
                if i == 0 && j > 1 {
                    lemma_path_lt_order(c, s[0], s[j - 1]);
                }
            }
            assert forall|x: Seq<u8>| #[trigger] r.contains(x) <==> (s.contains(x) || x == c) by {
                if x == c {
                    assert(r[0] == x);
                }
                if s.contains(x) {
                    let k = choose|k: int| 0 <= k < s.len() && s[k] == x;
                    assert(r[k + 1] == x);
                }
                if r.contains(x) && x != c {
                    let k = choose|k: int| 0 <= k < r.len() && r[k] == x;
                    assert(s[k - 1] == x);
                }
            }
        } else {
            assert(path_sorted(rest)) by {
                assert forall|i: int, j: int| 0 <= i < j < rest.len() implies path_lt(#[trigger] rest[i], #[trigger] rest[j]) by {
                    assert(rest[i] == s[i + 1] && rest[j] == s[j + 1]);
                }
            }
            lemma_insert_path(rest, c);
            let t = insert_path(rest, c);
            let r = seq![s[0]] + t;
            assert(path_lt(s[0], c));
            assert forall|x: Seq<u8>| t.contains(x) implies path_lt(s[0], x) by {
                if rest.contains(x) {
                    let k = choose|k: int| 0 <= k < rest.len() && rest[k] == x;
                    assert(s[k + 1] == x);
                }
            }
            assert forall|i: int, j: int| 0 <= i < j < r.len() implies path_lt(#[trigger] r[i], #[trigger] r[j]) by {
                if i == 0 {
                    assert(t.contains(r[j]));
                } else {
                    assert(r[i] == t[i - 1] && r[j] == t[j - 1]);
                }
            }
            assert forall|x: Seq<u8>| #[trigger] r.contains(x) <==> (s.contains(x) || x == c) by {
                if s.contains(x) && x != s[0] {
                    let k = choose|k: int| 0 <= k < s.len() && s[k] == x;
                    assert(rest[k - 1] == x);
                    assert(t.contains(x));
                    let m = choose|m: int| 0 <= m < t.len() && t[m] == x;
                    assert(r[m + 1] == x);
                }
                if x == c && x != s[0] {
                    assert(t.contains(x));
                    let m = choose|m: int| 0 <= m < t.len() && t[m] == x;
                    assert(r[m + 1] == x);
                }
                if x == s[0] {
                    assert(r[0] == x);
                    assert(s[0] == x);
                }
                if r.contains(x) && x != s[0] {
                    let k = choose|k: int| 0 <= k < r.len() && r[k] == x;
                    assert(t[k - 1] == x);
                    assert(t.contains(x));
                    if rest.contains(x) {
                        let m = choose|m: int| 0 <= m < rest.len() && rest[m] == x;
                        assert(s[m + 1] == x);
                    }
                }
            }
        }
    } else if s.len() > 0 {
        assert(s[0] == c);
    } else {
        assert forall|x: Seq<u8>| #[trigger] insert_path(s, c).contains(x) <==> (s.contains(x) || x == c) by {
            if x == c {
                assert(insert_path(s, c)[0] == x);
            }
        }
    }
}

/// Inserting at the first position not below `c` is `insert_path`.
proof fn lemma_insert_path_at(s: Seq<Seq<u8>>, c: Seq<u8>, p: int)
    requires
        0 <= p <= s.len(),
        forall|i: int| 0 <= i < p ==> path_lt(#[trigger] s[i], c),
        p == s.len() || !path_lt(s[p], c),
    ensures
        insert_path(s, c) == if p < s.len() && s[p] == c { s } else { s.insert(p, c) },
    decreases p,
{
    if p > 0 {
        lemma_path_lt_order(s[0], c, s[0]);
        lemma_insert_path_at(s.drop_first(), c, p - 1);
        if p < s.len() && s[p] == c {
            assert(s =~= seq![s[0]] + s.drop_first());
        } else {
            assert(s.insert(p, c) =~= seq![s[0]] + s.drop_first().insert(p - 1, c));
        }
    } else if s.len() > 0 {
        lemma_path_lt_order(s[0], c, s[0]);
        if s[0] != c {
            assert(s.insert(0, c) =~= seq![c] + s);
        }
    } else {
        assert(s.insert(0, c) =~= seq![c]);
    }
}

proof fn lemma_count_push(s: Seq<bool>, b: bool)
    ensures
        count_true(s.push(b)) == count_true(s) + if b { 1nat } else { 0nat },
{
    assert(s.push(b).drop_last() =~= s);
}

#[verifier::spinoff_prover]
proof fn lemma_begin_scan_inv(v: ResolverView, k: nat)
    requires
        is_session_uuid(encode_utf8(v.session_id)),
        path_sorted(v.canonical),
        forall|i: int| 0 <= i < v.homes.len() ==> spec_is_absolute(#[trigger] v.homes[i]),
        v.results.len() == k,
        k <= v.canonical.len(),
        v.matched is None <==> count_true(v.results) == 0,
        v.matched matches Some(h) ==> {
            &&& count_true(v.results) == 1
            &&& exists|j: int| 0 <= j < v.results.len() && #[trigger] v.results[j] && v.canonical[j] == h
        },
    ensures
        v.begin_scan(k).0.inv(),
{
}

proof fn lemma_end_scan_inv(v: ResolverView)
    requires
        v.inv(),
        is_scanning(v.stage),
    ensures
        v.end_scan().0.inv(),
{
    lemma_count_push(v.results, v.found);
    if !(v.found && v.matched is Some) {
        let w = ResolverView {
            results: v.results.push(v.found),
            matched: if v.found { Some(v.home()) } else { v.matched },
            ..v
        };
        if v.found {
            assert(w.results[v.scan_index as int]);
        } else if let Some(h) = v.matched {
            let j = choose|j: int| 0 <= j < v.results.len() && #[trigger] v.results[j] && v.canonical[j] == h;
            assert(w.results[j]);
        }
        lemma_begin_scan_inv(w, v.scan_index + 1);
    }
}

#[verifier::spinoff_prover]
proof fn lemma_canonicalizing_keeps_inv(v: ResolverView, e: EventView)
    requires
        v.inv(),
        v.stage == Stage::Canonicalizing,
    ensures
        v.next(e).0.inv(),
{
    if let EventView::Canonical(Some(c)) = e {
        let w = ResolverView { canonical: insert_path(v.canonical, c), ..v };
        lemma_insert_path(v.canonical, c);
        if v.next_home + 1 >= v.homes.len() {
            assert(count_true(w.results) == 0);
            lemma_begin_scan_inv(ResolverView { next_home: v.next_home + 1, ..w }, 0);
        } else if spec_is_absolute(v.homes[v.next_home + 1 as int]) {
            let x = w.begin_canonical(v.next_home + 1).0;
            assert forall|i: int| 0 <= i <= x.next_home implies spec_is_absolute(#[trigger] x.homes[i]) by {
                if i <= v.next_home {
                    assert(spec_is_absolute(v.homes[i]));
                }
            }
        }
    }
}

/// Every transition keeps the resolver's invariant.
#[verifier::spinoff_prover]
pub proof fn lemma_next_keeps_inv(v: ResolverView, e: EventView)
    requires
        v.inv(),
    ensures
        v.next(e).0.inv(),
{
    match v.stage {
        Stage::Canonicalizing => lemma_canonicalizing_keeps_inv(v, e),
        Stage::Listing | Stage::Iterating => {
            if v.pending.len() == 0 {
                lemma_end_scan_inv(v);
            }
            if v.remaining > 0 {
                let s = ResolverView { remaining: (v.remaining - 1) as nat, ..v };
                if v.pending.len() == 0 {
                    lemma_end_scan_inv(s);
                }
            }
        },
        _ => {},
    }
}

/// A resolution ends with an account only when the session id has UUID shape,
/// every allowlisted home is absolute, every distinct canonical home was
/// scanned, exactly one of them holds the session (the account's home), and
/// the credential digest read before the account id is read again unchanged.
pub proof fn lemma_account_only_for_unique_match(v: ResolverView, e: EventView, a: AccountView)
    requires
        v.inv(),
        v.next(e).1 == ActionView::Finish(Some(a)),
    ensures
        is_session_uuid(encode_utf8(v.session_id)),
        forall|i: int| 0 <= i < v.homes.len() ==> spec_is_absolute(#[trigger] v.homes[i]),
        path_sorted(v.canonical),
        v.results.len() == v.canonical.len(),
        count_true(v.results) == 1,
        exists|k: int| 0 <= k < v.canonical.len() && #[trigger] v.results[k] && v.canonical[k] == a.home,
        e == EventView::AuthDigest(Some(a.auth_digest)),
        a.auth_digest == v.digest,
        a.account_id == v.account_id,
{
}

/// A native Codex session being resolved to its account home. Each call of
/// [`Resolver::step`] takes the outcome of the action last returned and
/// returns the next one, until `Finish`.
pub struct Resolver {
    session_id: String,
    homes: Vec<Vec<u8>>,
    next_home: usize,
    canonical: Vec<Vec<u8>>,
    scan_index: usize,
    matched: Option<Vec<u8>>,
    pending: Vec<(Vec<u8>, usize)>,
    remaining: usize,
    found: bool,
    dir: Vec<u8>,
    depth: usize,
    candidate: Vec<u8>,
    digest: [u8; 32],
    account_id: String,
    stage: Stage,
    results: Ghost<Seq<bool>>,
}

/// Paths as byte sequences.
pub open spec fn paths_view(v: Seq<Vec<u8>>) -> Seq<Seq<u8>> {
    v.map_values(|s: Vec<u8>| s@)
}

/// Pending directories and their depths over mathematical values.
pub open spec fn pending_view(v: Seq<(Vec<u8>, usize)>) -> Seq<(Seq<u8>, nat)> {
    v.map_values(|p: (Vec<u8>, usize)| (p.0@, p.1 as nat))
}

/// The state before any home is canonicalized.
pub open spec fn initial_view(session_id: Seq<char>, homes: Seq<Seq<u8>>) -> ResolverView {
    ResolverView {
        session_id,
        homes,
        next_home: 0,
        canonical: Seq::empty(),
        scan_index: 0,
        matched: None,
        pending: Seq::empty(),
        remaining: 0,
        found: false,
        dir: Seq::empty(),
        depth: 0,
        candidate: Seq::empty(),
        digest: Seq::new(32, |i: int| 0u8),
        account_id: Seq::empty(),
        stage: Stage::Canonicalizing,
        results: Seq::empty(),
    }
}

impl View for Resolver {
    type V = ResolverView;

    closed spec fn view(&self) -> ResolverView {
        ResolverView {
            session_id: self.session_id@,
            homes: paths_view(self.homes@),
            next_home: self.next_home as nat,
            canonical: paths_view(self.canonical@),
            scan_index: self.scan_index as nat,
            matched: opt_bytes_view(self.matched),
            pending: pending_view(self.pending@),
            remaining: self.remaining as nat,
            found: self.found,
            dir: self.dir@,
            depth: self.depth as nat,
            candidate: self.candidate@,
            digest: self.digest@,
            account_id: self.account_id@,
            stage: self.stage,
            results: self.results@,
        }
    }
}

impl Resolver {
    /// Reachable states only.
    pub closed spec fn wf(&self) -> bool {
        self@.inv()
    }

    fn fail(&mut self) -> (r: ResolveAction)
        ensures
            (final(self)@, r@) == old(self)@.fail(),
    {
        self.stage = Stage::Done;
        ResolveAction::Finish(None)
    }

    fn finish_scans(&mut self) -> (r: ResolveAction)
        ensures
            (final(self)@, r@) == old(self)@.finish_scans(),
    {
        let path = match &self.matched {
            None => {
                return self.fail();
            },
            Some(h) => join(h.as_slice(), "auth.json".as_bytes()),
        };
        self.stage = Stage::ReadingDigest;
        ResolveAction::ReadAuthDigest(path)
    }

    fn begin_scan(&mut self, k: usize) -> (r: ResolveAction)
        ensures
            (final(self)@, r@) == old(self)@.begin_scan(k as nat),
    {
        if k >= self.canonical.len() {
            self.scan_index = k;
            return self.finish_scans();
        }
        let sessions = join(self.canonical[k].as_slice(), "sessions".as_bytes());
        let archived = join(self.canonical[k].as_slice(), "archived_sessions".as_bytes());
        let mut pending: Vec<(Vec<u8>, usize)> = Vec::new();
        pending.push((sessions, 0));
        self.stage = Stage::Listing;
        self.scan_index = k;
        self.pending = pending;
        self.remaining = SCAN_BUDGET;
        self.found = false;
        self.dir = copy_bytes(archived.as_slice());
        self.depth = 0;
        proof {
            assert(pending_view(self.pending@) =~= seq![(spec_join(old(self)@.canonical[k as int], encode_utf8("sessions"@)), 0nat)]);
        }
        ResolveAction::ListDirectory(archived)
    }

    fn begin_canonical(&mut self, i: usize) -> (r: ResolveAction)
        ensures
            (final(self)@, r@) == old(self)@.begin_canonical(i as nat),
    {
        if i >= self.homes.len() {
            self.next_home = i;
            return self.begin_scan(0);
        }
        if !is_absolute(self.homes[i].as_slice()) {
            return self.fail();
        }
        self.stage = Stage::Canonicalizing;
        self.next_home = i;
        ResolveAction::CanonicalizeHome(copy_bytes(self.homes[i].as_slice()))
    }

    fn end_scan(&mut self) -> (r: ResolveAction)
        requires
            old(self)@.scan_index < old(self)@.canonical.len(),
        ensures
            (final(self)@, r@) == old(self)@.end_scan(),
    {
        if self.found && self.matched.is_some() {
            return self.fail();
        }
        self.results = Ghost(self.results@.push(self.found));
        if self.found {
            self.matched = Some(copy_bytes(self.canonical[self.scan_index].as_slice()));
        }
        let n = self.canonical.len();
        assert(self.scan_index < n);
        let k = self.scan_index + 1;
        self.begin_scan(k)
    }

    fn pop_next(&mut self) -> (r: ResolveAction)
        requires
            old(self)@.scan_index < old(self)@.canonical.len(),
        ensures
            (final(self)@, r@) == old(self)@.pop_next(),
    {
        let n = self.pending.len();
        if n == 0 {
            return self.end_scan();
        }
        if self.pending[n - 1].1 > MAX_SCAN_DEPTH {
            return self.fail();
        }
        let ghost before = self.pending@;
        let (d, depth) = self.pending.pop().unwrap();
        proof {
            assert(pending_view(self.pending@) =~= pending_view(before).drop_last());
        }
        self.stage = Stage::Listing;
        self.dir = copy_bytes(d.as_slice());
        self.depth = depth;
        ResolveAction::ListDirectory(d)
    }

    fn on_entry(&mut self, name: Vec<u8>, is_dir: bool, is_file: bool) -> (r: ResolveAction)
        requires
            old(self)@.remaining > 0,
            old(self)@.depth <= MAX_SCAN_DEPTH,
        ensures
            (final(self)@, r@) == old(self)@.on_entry(name@, is_dir, is_file),
    {
        self.remaining = self.remaining - 1;
        if is_dir {
            let path = join(self.dir.as_slice(), name.as_slice());
            let ghost before = self.pending@;
            self.pending.push((path, self.depth + 1));
            proof {
                assert(pending_view(self.pending@) =~= pending_view(before).push(
                    (spec_join(self.dir@, name@), (self.depth + 1) as nat),
                ));
            }
            ResolveAction::NextEntry
        } else if is_rollout_file_name(name.as_slice(), self.session_id.as_str()) {
            if is_file {
                let path = join(self.dir.as_slice(), name.as_slice());
                self.stage = Stage::CheckingCandidate;
                self.candidate = copy_bytes(path.as_slice());
                ResolveAction::CanonicalizeEntry(path)
            } else {
                self.fail()
            }
        } else {
            ResolveAction::NextEntry
        }
    }

    /// Takes the outcome of the last action and returns the next action.
    pub fn step(&mut self, event: ResolveEvent) -> (action: ResolveAction)
        requires
            old(self).wf(),
        ensures
            final(self).wf(),
            final(self)@.inv(),
            (final(self)@, action@) == old(self)@.next(event@),
    {
        proof {
            lemma_next_keeps_inv(self@, event@);
        }
        match self.stage {
            Stage::Canonicalizing => match event {
                ResolveEvent::Canonical(Some(c)) => {
                    let n = self.canonical.len();
                    let mut p: usize = 0;
                    while p < n && path_less(self.canonical[p].as_slice(), c.as_slice())
                        invariant
                            n == self.canonical@.len(),
                            p <= n,
                            forall|i: int| 0 <= i < p ==> path_lt(#[trigger] paths_view(self.canonical@)[i], c@),
                        decreases n - p,
                    {
                        p = p + 1;
                    }
                    proof {
                        lemma_insert_path_at(paths_view(self.canonical@), c@, p as int);
                    }
                    if !(p < n && same_bytes(self.canonical[p].as_slice(), c.as_slice())) {
                        let ghost before = self.canonical@;
                        self.canonical.insert(p, c);
                        proof {
                            assert(paths_view(self.canonical@) =~= paths_view(before).insert(p as int, c@));
                        }
                    }
                    let n = self.homes.len();
                    assert(self.next_home < n);
                    let i = self.next_home + 1;
                    self.begin_canonical(i)
                },
                _ => self.fail(),
            },
            Stage::Listing => match event {
                ResolveEvent::Listing(DirectoryListing::NotFound) => self.pop_next(),
                ResolveEvent::Listing(DirectoryListing::Opened) => {
                    self.stage = Stage::CheckingDirectory;
                    ResolveAction::CanonicalizeDirectory(copy_bytes(self.dir.as_slice()))
                },
                _ => self.fail(),
            },
            Stage::CheckingDirectory => match event {
                ResolveEvent::Canonical(Some(c)) => {
                    if within(c.as_slice(), self.canonical[self.scan_index].as_slice()) {
                        self.stage = Stage::Iterating;
                        ResolveAction::NextEntry
                    } else {
                        self.fail()
                    }
                },
                _ => self.fail(),
            },
            Stage::Iterating => match event {
                ResolveEvent::Entry(DirectoryEntry::End) => self.pop_next(),
                ResolveEvent::Entry(DirectoryEntry::Item { name, is_dir, is_file }) => {
                    if self.remaining > 0 {
                        self.on_entry(name, is_dir, is_file)
                    } else {
                        self.fail()
                    }
                },
                _ => self.fail(),
            },
            Stage::CheckingCandidate => match event {
                ResolveEvent::Canonical(Some(c)) => {
                    if within(c.as_slice(), self.canonical[self.scan_index].as_slice()) {
                        self.stage = Stage::ReadingHeader;
                        ResolveAction::ReadSessionHeader(copy_bytes(self.candidate.as_slice()))
                    } else {
                        self.fail()
                    }
                },
                _ => self.fail(),
            },
            Stage::ReadingHeader => match event {
                ResolveEvent::Header(h) => {
                    if header_matches(&h, self.session_id.as_str()) {
                        self.stage = Stage::Iterating;
                        self.found = true;
                        ResolveAction::NextEntry
                    } else {
                        self.fail()
                    }
                },
                _ => self.fail(),
            },
            Stage::ReadingDigest => match event {
                ResolveEvent::AuthDigest(Some(d)) => {
                    let path = match &self.matched {
                        Some(h) => join(h.as_slice(), "auth.json".as_bytes()),
                        None => {
                            return self.fail();
                        },
                    };
                    self.stage = Stage::ReadingAccount;
                    self.digest = d;
                    ResolveAction::ReadAccountId(path)
                },
                _ => self.fail(),
            },
            Stage::ReadingAccount => match event {
                ResolveEvent::AccountId(Some(a)) => {
                    let path = match &self.matched {
                        Some(h) => join(h.as_slice(), "auth.json".as_bytes()),
                        None => {
                            return self.fail();
                        },
                    };
                    self.stage = Stage::Rechecking;
                    self.account_id = a;
                    ResolveAction::ReadAuthDigest(path)
                },
                _ => self.fail(),
            },
            Stage::Rechecking => match event {
                ResolveEvent::AuthDigest(d) => {
                    self.stage = Stage::Done;
                    let home = match &self.matched {
                        Some(h) => copy_bytes(h.as_slice()),
                        None => {
                            return self.fail();
                        },
                    };
                    let current = match d {
                        Some(d) => same_digest(&d, &self.digest),
                        None => false,
                    };
                    if current {
                        ResolveAction::Finish(
                            Some(
                                CodexAccount {
                                    home,
                                    account_id: self.account_id.clone(),
                                    auth_digest: self.digest,
                                },
                            ),
                        )
                    } else {
                        ResolveAction::Finish(None)
                    }
                },
                _ => self.fail(),
            },
            Stage::Done => self.fail(),
        }
    }
}

impl Resolver {
    /// A resolution that has already ended.
    fn finished(session_id: String, homes: Vec<Vec<u8>>) -> (r: Resolver)
        ensures
            r.wf(),
            r@ == (ResolverView { stage: Stage::Done, ..initial_view(session_id@, paths_view(homes@)) }),
    {
        let r = Resolver {
            session_id,
            homes,
            next_home: 0,
            canonical: Vec::new(),
            scan_index: 0,
            matched: None,
            pending: Vec::new(),
            remaining: 0,
            found: false,
            dir: Vec::new(),
            depth: 0,
            candidate: Vec::new(),
            digest: [0u8; 32],
            account_id: String::new(),
            stage: Stage::Done,
            results: Ghost(Seq::empty()),
        };
        proof {
            assert(r@ =~= (ResolverView { stage: Stage::Done, ..initial_view(session_id@, paths_view(homes@)) }));
        }
        r
    }
}

/// Where a resolution of `session_id` against `homes` starts: an id that is
/// not UUID-shaped ends it at once, otherwise the first home is canonicalized.
pub open spec fn spec_resolve_in(session_id: Seq<char>, homes: Seq<Seq<u8>>) -> (ResolverView, ActionView) {
    if is_session_uuid(encode_utf8(session_id)) {
        initial_view(session_id, homes).begin_canonical(0)
    } else {
        (ResolverView { stage: Stage::Done, ..initial_view(session_id, homes) }, ActionView::Finish(None))
    }
}

/// Starts resolving native session `session_id` against the allowlisted
/// homes. An id that is not UUID-shaped ends the resolution before any file
/// is touched.
pub fn resolve_in(session_id: &str, homes: Vec<Vec<u8>>) -> (r: (Resolver, ResolveAction))
    ensures
        r.0.wf(),
        r.0@.inv(),
        !is_session_uuid(encode_utf8(session_id@)) ==> r.0@.stage == Stage::Done && r.1@ == ActionView::Finish(None),
        is_session_uuid(encode_utf8(session_id@)) ==> (r.0@, r.1@) == initial_view(session_id@, paths_view(homes@)).begin_canonical(0),
        (r.0@, r.1@) == spec_resolve_in(session_id@, paths_view(homes@)),
{
    if !is_session_id(session_id) {
        return (Resolver::finished(String::from_str(session_id), homes), ResolveAction::Finish(None));
    }
    let mut resolver = Resolver {
        session_id: String::from_str(session_id),
        homes,
        next_home: 0,
        canonical: Vec::new(),
        scan_index: 0,
        matched: None,
        pending: Vec::new(),
        remaining: 0,
        found: false,
        dir: Vec::new(),
        depth: 0,
        candidate: Vec::new(),
        digest: [0u8; 32],
        account_id: String::new(),
        stage: Stage::Canonicalizing,
        results: Ghost(Seq::empty()),
    };
    proof {
        assert(resolver@ =~= initial_view(session_id@, paths_view(resolver.homes@)));
    }
    let action = resolver.begin_canonical(0);
    (resolver, action)
}

/// Starts resolving a pane's native session against the allowlisted homes.
/// Without a session id or a usable allowlist nothing is resolved.
pub fn resolve(session_id: Option<String>, homes: Option<Vec<Vec<u8>>>) -> (r: (Resolver, ResolveAction))
    ensures
        r.0.wf(),
        r.0@.inv(),
        (session_id is None || homes is None) ==> r.0@.stage == Stage::Done && r.1@ == ActionView::Finish(None),
        (session_id is Some && homes is Some && !is_session_uuid(encode_utf8(session_id.unwrap()@)))
            ==> r.0@.stage == Stage::Done && r.1@ == ActionView::Finish(None),
        (session_id is Some && homes is Some && is_session_uuid(encode_utf8(session_id.unwrap()@)))
            ==> (r.0@, r.1@) == initial_view(session_id.unwrap()@, paths_view(homes.unwrap()@)).begin_canonical(0),
{
    match (session_id, homes) {
        (Some(id), Some(h)) => resolve_in(id.as_str(), h),
        _ => (Resolver::finished(String::new(), Vec::new()), ResolveAction::Finish(None)),
    }
}

/// The allowlist file may hold at most this many bytes of JSON.
pub const ALLOWLIST_MAX_BYTES: u64 = 65536;

/// The allowlist may name at most this many homes.
pub const ALLOWLIST_MAX_HOMES: usize = 32;

/// What is known of the `codex-homes` allowlist before reading it.
#[derive(Clone, Copy, Debug, PartialEq, Eq, Structural)]
pub enum AllowlistFile {
    /// No plugin configuration directory is set.
    Unconfigured,
    /// The configuration directory has no allowlist.
    Missing,
    /// Its metadata could not be read for another reason.
    Unreadable,
    Present { is_file: bool, len: u64 },
}

/// What to do about the allowlist.
#[derive(Clone, Copy, Debug, PartialEq, Eq, Structural)]
pub enum AllowlistDecision {
    /// Use the single default home.
    UseDefault,
    /// Grant no home at all.
    Reject,
    /// Read and parse the allowlist.
    Read,
}

/// What to do about an allowlist, given what is known of it.
pub open spec fn spec_allowlist_decision(file: AllowlistFile) -> AllowlistDecision {
    match file {
        AllowlistFile::Unconfigured | AllowlistFile::Missing => AllowlistDecision::UseDefault,
        AllowlistFile::Unreadable => AllowlistDecision::Reject,
        AllowlistFile::Present { is_file, len } => if is_file && len <= ALLOWLIST_MAX_BYTES {
            AllowlistDecision::Read
        } else {
            AllowlistDecision::Reject
        },
    }
}

/// An explicit allowlist replaces the default home; one that is not a regular
/// file of at most 64 KiB grants nothing.
pub fn allowlist_decision(file: AllowlistFile) -> (r: AllowlistDecision)
    ensures
        r == spec_allowlist_decision(file),
{
    match file {
        AllowlistFile::Unconfigured | AllowlistFile::Missing => AllowlistDecision::UseDefault,
        AllowlistFile::Unreadable => AllowlistDecision::Reject,
        AllowlistFile::Present { is_file, len } => if is_file && len <= ALLOWLIST_MAX_BYTES {
            AllowlistDecision::Read
        } else {
            AllowlistDecision::Reject
        },
    }
}

/// The JSON array of strings that `serde_json` parses from `bytes`, if any.
pub uninterp spec fn json_string_array(bytes: Seq<u8>) -> Option<Seq<Seq<char>>>;

/// Strings as character sequences.
pub open spec fn strings_view(v: Seq<String>) -> Seq<Seq<char>> {
    v.map_values(|s: String| s@)
}

/// An optional list of strings as character sequences.
pub open spec fn opt_strings_view(v: Option<Vec<String>>) -> Option<Seq<Seq<char>>> {
    match v {
        Some(v) => Some(strings_view(v@)),
        None => None,
    }
}

/// An optional list of paths as byte sequences.
pub open spec fn opt_paths_view(v: Option<Vec<Vec<u8>>>) -> Option<Seq<Seq<u8>>> {
    match v {
        Some(v) => Some(paths_view(v@)),
        None => None,
    }
}

/// Calls `serde_json::from_slice::<Vec<String>>`. Trusted: the result is the
/// parse of `bytes` as a JSON array of strings (named by
/// `json_string_array`), `None` when they are not one.
#[verifier::external_body]
fn parse_string_array(bytes: &[u8]) -> (r: Option<Vec<String>>)
    ensures
        opt_strings_view(r) == json_string_array(bytes@),
{
    serde_json::from_slice::<Vec<String>>(bytes).ok()
}

/// The paths named by JSON strings: their UTF-8 bytes.
pub open spec fn encoded_paths(homes: Seq<Seq<char>>) -> Seq<Seq<u8>> {
    homes.map_values(|h: Seq<char>| encode_utf8(h))
}

/// The homes granted by an allowlist and the process's default home.
pub open spec fn spec_allowed_homes(
    file: AllowlistFile,
    contents: Option<Seq<u8>>,
    default_home: Option<Seq<u8>>,
) -> Option<Seq<Seq<u8>>> {
    match spec_allowlist_decision(file) {
        AllowlistDecision::UseDefault => match default_home {
            Some(h) => Some(seq![h]),
            None => None,
        },
        AllowlistDecision::Reject => None,
        AllowlistDecision::Read => match contents {
            Some(b) => match json_string_array(b) {
                Some(homes) => if homes.len() <= ALLOWLIST_MAX_HOMES {
                    Some(encoded_paths(homes))
                } else {
                    None
                },
                None => None,
            },
            None => None,
        },
    }
}

/// Optional bytes as a sequence.
pub open spec fn opt_bytes_view(v: Option<Vec<u8>>) -> Option<Seq<u8>> {
    match v {
        Some(v) => Some(v@),
        None => None,
    }
}

fn encode_paths(homes: &Vec<String>) -> (r: Vec<Vec<u8>>)
    ensures
        paths_view(r@) == encoded_paths(strings_view(homes@)),
{
    let mut r: Vec<Vec<u8>> = Vec::new();
    let n = homes.len();
    for i in 0..n
        invariant
            n == homes@.len(),
            r@.len() == i,
            forall|j: int| 0 <= j < i ==> (#[trigger] r@[j])@ == encode_utf8(homes@[j]@),
    {
        r.push(copy_bytes(homes[i].as_str().as_bytes()));
    }
    assert(paths_view(r@) =~= encoded_paths(strings_view(homes@)));
    r
}

/// The homes whose native sessions may be attributed. `contents` is the
/// allowlist as read (at most 64 KiB), `None` when it could not be opened;
/// `default_home` is the process's Codex home. A malformed allowlist, or one
/// naming more than 32 homes, grants no fallback.
pub fn allowed_homes(file: AllowlistFile, contents: Option<Vec<u8>>, default_home: Option<Vec<u8>>) -> (r: Option<Vec<Vec<u8>>>)
    ensures
        opt_paths_view(r) == spec_allowed_homes(file, opt_bytes_view(contents), opt_bytes_view(default_home)),
{
    match allowlist_decision(file) {
        AllowlistDecision::UseDefault => match default_home {
            Some(h) => {
                let mut v: Vec<Vec<u8>> = Vec::new();
                v.push(h);
                proof {
                    assert(paths_view(v@) =~= seq![v@[0]@]);
                }
                Some(v)
            },
            None => None,
        },
        AllowlistDecision::Reject => None,
        AllowlistDecision::Read => match contents {
            Some(b) => match parse_string_array(b.as_slice()) {
                Some(homes) => {
                    if homes.len() <= ALLOWLIST_MAX_HOMES {
                        Some(encode_paths(&homes))
                    } else {
                        None
                    }
                },
                None => None,
            },
            None => None,
        },
    }
}

/// A credential file may hold at most this many bytes.
pub const AUTH_MAX_BYTES: u64 = 1048576;

/// Credentials are read only from a regular file that is not a symlink (even
/// one pointing inside the home) and holds at most 1 MiB.
pub fn auth_file_admissible(link_is_file: bool, is_file: bool, len: u64) -> (r: bool)
    ensures
        r == (link_is_file && is_file && len <= AUTH_MAX_BYTES),
{
    link_is_file && is_file && len <= AUTH_MAX_BYTES
}

/// The digest identifying a credential file's contents; contents longer
/// than 1 MiB are refused.
pub fn auth_digest(contents: &[u8]) -> (r: Option<[u8; 32]>)
    ensures
        match r {
            Some(d) => contents@.len() <= AUTH_MAX_BYTES && d@ == sha256_of(contents@),
            None => contents@.len() > AUTH_MAX_BYTES,
        },
{
    if contents.len() as u64 > AUTH_MAX_BYTES {
        None
    } else {
        Some(sha256(contents))
    }
}

/// Token rotation leaves the warning identity unchanged: it depends only on
/// the home and the account id, never on the credential digest.
pub proof fn lemma_warning_identity_ignores_credentials(a: AccountView, b: AccountView)
    requires
        a.home == b.home,
        a.account_id == b.account_id,
    ensures
        spec_warning_identity(a) == spec_warning_identity(b),
{
}

/// Any change of the credential digest changes what the generation stamp is
/// computed from, even for an unchanged home and account id.
pub proof fn lemma_generation_input_tracks_credentials(a: AccountView, b: AccountView)
    requires
        a.auth_digest.len() == 32,
        b.auth_digest.len() == 32,
        a.auth_digest != b.auth_digest,
    ensures
        generation_input(a) != generation_input(b),
{
    let ia = generation_input(a);
    let ib = generation_input(b);
    if ia == ib {
        assert(ia.subrange(ia.len() - 32, ia.len() as int) =~= a.auth_digest);
        assert(ib.subrange(ib.len() - 32, ib.len() as int) =~= b.auth_digest);
    }
}

/// A finished resolution stays finished and yields no further account.
pub proof fn lemma_done_is_final(v: ResolverView, e: EventView)
    requires
        v.stage == Stage::Done,
    ensures
        v.next(e).0.stage == Stage::Done,
        v.next(e).1 == ActionView::Finish(None),
{
}

/// A malformed or oversized allowlist grants no home, not even the default.
pub proof fn lemma_bad_allowlist_grants_nothing(file: AllowlistFile, contents: Option<Seq<u8>>, default_home: Option<Seq<u8>>)
    requires
        spec_allowlist_decision(file) == AllowlistDecision::Read,
        contents is None || json_string_array(contents.unwrap()) is None
            || json_string_array(contents.unwrap()).unwrap().len() > ALLOWLIST_MAX_HOMES,
    ensures
        spec_allowed_homes(file, contents, default_home) is None,
{
}

/// Without an allowlist the process's own Codex home is the single allowed home.
pub proof fn lemma_no_allowlist_uses_default_home(file: AllowlistFile, contents: Option<Seq<u8>>, home: Seq<u8>)
    requires
        file == AllowlistFile::Unconfigured || file == AllowlistFile::Missing,
    ensures
        spec_allowed_homes(file, contents, Some(home)) == Some(seq![home]),
{
}

proof fn lemma_scalar_width_1_nonzero(c: u32)
    by (bit_vector)
    requires
        0 < c <= 0x7F,
    ensures
        (c & 0x7F) as u8 != 0,
{
}

proof fn lemma_scalar_high_bytes_nonzero(c: u32)
    by (bit_vector)
    ensures
        0xC0 | ((c >> 6) & 0x1F) as u8 != 0,
        0xE0 | ((c >> 12) & 0x0F) as u8 != 0,
        0xF0 | ((c >> 18) & 0x7) as u8 != 0,
        0x80 | (c & 0x3F) as u8 != 0,
        0x80 | ((c >> 6) & 0x3F) as u8 != 0,
        0x80 | ((c >> 12) & 0x3F) as u8 != 0,
{
}

/// Only the NUL character encodes to a zero byte.
proof fn lemma_encode_without_nul(chars: Seq<char>)
    requires
        forall|i: int| 0 <= i < chars.len() ==> chars[i] != '\0',
    ensures
        forall|j: int| 0 <= j < encode_utf8(chars).len() ==> encode_utf8(chars)[j] != 0,
    decreases chars.len(),
{
    if chars.len() > 0 {
        let c = chars[0] as u32;
        lemma_scalar_high_bytes_nonzero(c);
        vstd::utf8::char_u32_cast(chars[0], c);
        if c <= 0x7F {
            assert(c != 0) by {
                if c == 0 {
                    assert((0u32 as char) == '\0');
                }
            }
            lemma_scalar_width_1_nonzero(c);
        }
        lemma_encode_without_nul(chars.drop_first());
        let head = encode_scalar(c);
        let tail = encode_utf8(chars.drop_first());
        assert(encode_utf8(chars) == head + tail);
        assert forall|j: int| 0 <= j < encode_utf8(chars).len() implies encode_utf8(chars)[j] != 0 by {
            if j >= head.len() {
                assert(encode_utf8(chars)[j] == tail[j - head.len()]);
            }
        }
    }
}

/// A zero byte after a zero-free prefix marks where the prefix ends.
proof fn lemma_split_at_zero(x: Seq<u8>, y: Seq<u8>, x2: Seq<u8>, y2: Seq<u8>)
    requires
        forall|j: int| 0 <= j < x.len() ==> x[j] != 0,
        forall|j: int| 0 <= j < x2.len() ==> x2[j] != 0,
        x + seq![0u8] + y == x2 + seq![0u8] + y2,
    ensures
        x == x2,
        y == y2,
{
    let s = x + seq![0u8] + y;
    if x.len() < x2.len() {
        assert(s[x.len() as int] == 0);
        assert((x2 + seq![0u8] + y2)[x.len() as int] == x2[x.len() as int]);
    } else if x2.len() < x.len() {
        assert((x2 + seq![0u8] + y2)[x2.len() as int] == 0);
        assert(s[x2.len() as int] == x[x2.len() as int]);
    }
    assert(x =~= s.take(x.len() as int));
    assert(x2 =~= (x2 + seq![0u8] + y2).take(x2.len() as int));
    assert(y =~= s.skip(x.len() + 1int));
    assert(y2 =~= (x2 + seq![0u8] + y2).skip(x2.len() + 1int));
}

/// Different homes or account ids hash different warning-identity inputs,
/// so another home or account can share this account's warning identity
/// only through a SHA-256 collision. Paths hold no NUL character.
pub proof fn lemma_warning_input_separates_accounts(a: AccountView, b: AccountView)
    requires
        a.home != b.home || a.account_id != b.account_id,
        forall|i: int| 0 <= i < a.home.len() ==> a.home[i] != 0,
        forall|i: int| 0 <= i < b.home.len() ==> b.home[i] != 0,
    ensures
        warning_identity_input(a) != warning_identity_input(b),
{
    reveal_strlit("codex:");
    let prefix = encode_utf8("codex:"@);
    lemma_encode_without_nul("codex:"@);
    let ca = spec_codex_cache_identity(a.home);
    let cb = spec_codex_cache_identity(b.home);
    assert forall|i: int| 0 <= i < ca.len() implies ca[i] != 0 by {
        if i >= prefix.len() {
            assert(ca[i] == a.home[i - prefix.len()]);
        } else {
            assert(ca[i] == prefix[i]);
        }
    }
    assert forall|i: int| 0 <= i < cb.len() implies cb[i] != 0 by {
        if i >= prefix.len() {
            assert(cb[i] == b.home[i - prefix.len()]);
        } else {
            assert(cb[i] == prefix[i]);
        }
    }
    if warning_identity_input(a) == warning_identity_input(b) {
        lemma_split_at_zero(ca, encode_utf8(a.account_id), cb, encode_utf8(b.account_id));
        encode_utf8_decode_utf8(a.account_id);
        encode_utf8_decode_utf8(b.account_id);
        assert(a.home =~= ca.skip(prefix.len() as int));
        assert(b.home =~= cb.skip(prefix.len() as int));
    }
}

/// A scan counts the session as found only on a rollout header that names it.
pub proof fn lemma_found_needs_matching_header(v: ResolverView, e: EventView)
    requires
        !v.found,
        v.next(e).0.found,
    ensures
        v.stage == Stage::ReadingHeader,
        e matches EventView::Header(h) && spec_header_matches(h, v.session_id),
{
}

/// A rollout header is read only after the rollout's canonical path was
/// found within the home being scanned.
pub proof fn lemma_header_read_needs_contained_rollout(v: ResolverView, e: EventView, p: Seq<u8>)
    requires
        v.next(e).1 == ActionView::ReadSessionHeader(p),
    ensures
        v.stage == Stage::CheckingCandidate,
        p == v.candidate,
        e matches EventView::Canonical(Some(c)) && spec_within(c, v.home()),
{
}

/// Only regular files named for the session become candidates.
pub proof fn lemma_candidate_is_rollout_file(v: ResolverView, e: EventView, p: Seq<u8>)
    requires
        v.next(e).1 == ActionView::CanonicalizeEntry(p),
    ensures
        v.stage == Stage::Iterating,
        e matches EventView::Entry(EntryView::Item { name: n, is_dir, is_file }) && !is_dir && is_file
            && spec_is_rollout_file_name(n, v.session_id) && p == spec_join(v.dir, n),
{
}

/// Entries of a directory are read only after its canonical path was found
/// within the home, and no directory deeper than eight levels is listed.
pub proof fn lemma_listing_stays_in_home(v: ResolverView, e: EventView)
    requires
        v.inv(),
    ensures
        v.next(e).1 == ActionView::NextEntry && v.stage == Stage::CheckingDirectory
            ==> (e matches EventView::Canonical(Some(c)) && spec_within(c, v.home())),
        v.next(e).1 is ListDirectory ==> v.next(e).0.depth <= MAX_SCAN_DEPTH,
{
    lemma_next_keeps_inv(v, e);
}

/// Two path-sorted sequences with the same elements are equal. So the
/// canonical homes a resolution scans are fixed by which directories the
/// allowlist names, whatever their order in it and however often a directory
/// is named under another spelling (see `lemma_insert_path`).
pub proof fn lemma_sorted_paths_unique(s1: Seq<Seq<u8>>, s2: Seq<Seq<u8>>)
    requires
        path_sorted(s1),
        path_sorted(s2),
        forall|x: Seq<u8>| s1.contains(x) <==> s2.contains(x),
    ensures
        s1 == s2,
    decreases s1.len(),
{
    if s1.len() == 0 {
        if s2.len() > 0 {
            assert(s2.contains(s2[0]));
        }
        assert(s1 =~= s2);
    } else {
        assert(s1.contains(s1[0]));
        assert(s2.contains(s1[0]));
        let a = s1[0];
        let b = s2[0];
        assert(s2.contains(b));
        assert(s1.contains(b));
        let i = choose|i: int| 0 <= i < s2.len() && s2[i] == a;
        let j = choose|j: int| 0 <= j < s1.len() && s1[j] == b;
        lemma_path_lt_order(a, b, a);
        if a != b {
            assert(i > 0 && path_lt(b, a));
            assert(j > 0 && path_lt(a, b));
        }
        let t1 = s1.drop_first();
        let t2 = s2.drop_first();
        assert forall|x: int, y: int| 0 <= x < y < t1.len() implies path_lt(#[trigger] t1[x], #[trigger] t1[y]) by {
            assert(t1[x] == s1[x + 1] && t1[y] == s1[y + 1]);
        }
        assert forall|x: int, y: int| 0 <= x < y < t2.len() implies path_lt(#[trigger] t2[x], #[trigger] t2[y]) by {
            assert(t2[x] == s2[x + 1] && t2[y] == s2[y + 1]);
        }
        assert forall|x: Seq<u8>| t1.contains(x) <==> t2.contains(x) by {
            if t1.contains(x) {
                let k = choose|k: int| 0 <= k < t1.len() && t1[k] == x;
                assert(s1[k + 1] == x);
                assert(path_lt(s1[0], s1[k + 1]));
                lemma_path_lt_order(a, x, a);
                assert(s2.contains(x));
                let m = choose|m: int| 0 <= m < s2.len() && s2[m] == x;
                assert(m != 0);
                assert(t2[m - 1] == x);
            }
            if t2.contains(x) {
                let k = choose|k: int| 0 <= k < t2.len() && t2[k] == x;
                assert(s2[k + 1] == x);
                assert(path_lt(s2[0], s2[k + 1]));
                lemma_path_lt_order(b, x, b);
                assert(s1.contains(x));
                let m = choose|m: int| 0 <= m < s1.len() && s1[m] == x;
                assert(m != 0);
                assert(t1[m - 1] == x);
            }
        }
        lemma_sorted_paths_unique(t1, t2);
        assert(s1 =~= seq![a] + t1);
        assert(s2 =~= seq![b] + t2);
    }
}

/// Two resolutions that differ at most in their allowlist.
pub open spec fn same_but_allowlist(v: ResolverView, w: ResolverView) -> bool {
    ResolverView { homes: w.homes, next_home: w.next_home, ..v } == w
}

/// Once every allowlisted home is canonicalized, the allowlist plays no
/// further part: resolutions that differ only in it take the same actions
/// on the same outcomes, and end with the same account.
pub proof fn lemma_scan_ignores_allowlist(v: ResolverView, w: ResolverView, e: EventView)
    requires
        same_but_allowlist(v, w),
        v.stage != Stage::Canonicalizing,
    ensures
        v.next(e).1 == w.next(e).1,
        same_but_allowlist(v.next(e).0, w.next(e).0),
{
    assert(v.stage == w.stage);
}


/// One step of a resolution driven by a file system that answers each request
/// in the same way every time (`env`): a finished resolution stays finished.
pub open spec fn step_with(s: (ResolverView, ActionView), env: spec_fn(ActionView) -> EventView) -> (ResolverView, ActionView) {
    if s.1 is Finish {
        s
    } else {
        s.0.next(env(s.1))
    }
}

/// The resolution after `steps` requests have been answered by `env`.
pub open spec fn run_with(s: (ResolverView, ActionView), env: spec_fn(ActionView) -> EventView, steps: nat) -> (ResolverView, ActionView)
    decreases steps,
{
    if steps == 0 {
        s
    } else {
        step_with(run_with(s, env, (steps - 1) as nat), env)
    }
}

/// What canonicalizing home `h` gives in `env`.
pub open spec fn canonical_of(env: spec_fn(ActionView) -> EventView, h: Seq<u8>) -> Option<Seq<u8>> {
    match env(ActionView::CanonicalizeHome(h)) {
        EventView::Canonical(c) => c,
        _ => None,
    }
}

/// An allowlisted home that is absolute and canonicalizes in `env`.
pub open spec fn home_resolvable(env: spec_fn(ActionView) -> EventView, h: Seq<u8>) -> bool {
    spec_is_absolute(h) && canonical_of(env, h) is Some
}

/// Some allowlisted home canonicalizes to directory `c` in `env`.
pub open spec fn names_directory(env: spec_fn(ActionView) -> EventView, homes: Seq<Seq<u8>>, c: Seq<u8>) -> bool {
    exists|i: int| 0 <= i < homes.len() && canonical_of(env, #[trigger] homes[i]) == Some(c)
}

/// The canonical homes gathered from the first `k` allowlisted homes.
pub open spec fn canonical_homes(env: spec_fn(ActionView) -> EventView, homes: Seq<Seq<u8>>, k: nat) -> Seq<Seq<u8>>
    decreases k,
{
    if k == 0 {
        Seq::empty()
    } else {
        insert_path(canonical_homes(env, homes, (k - 1) as nat), canonical_of(env, homes[k - 1]).unwrap())
    }
}

/// The resolver once the first `k` allowlisted homes are canonicalized.
spec fn canonical_phase(id: Seq<char>, homes: Seq<Seq<u8>>, env: spec_fn(ActionView) -> EventView, k: nat) -> ResolverView {
    ResolverView {
        canonical: canonical_homes(env, homes, k),
        next_home: if k == 0 { 0 } else { (k - 1) as nat },
        ..initial_view(id, homes)
    }
}

proof fn lemma_finish_stays(s: (ResolverView, ActionView), env: spec_fn(ActionView) -> EventView, steps: nat)
    requires
        s.1 is Finish,
    ensures
        run_with(s, env, steps) == s,
    decreases steps,
{
    if steps > 0 {
        lemma_finish_stays(s, env, (steps - 1) as nat);
    }
}

proof fn lemma_canonical_homes(env: spec_fn(ActionView) -> EventView, homes: Seq<Seq<u8>>, k: nat)
    requires
        k <= homes.len(),
        forall|i: int| 0 <= i < k ==> home_resolvable(env, #[trigger] homes[i]),
    ensures
        path_sorted(canonical_homes(env, homes, k)),
        forall|c: Seq<u8>| #[trigger] canonical_homes(env, homes, k).contains(c)
            <==> exists|i: int| 0 <= i < k && canonical_of(env, #[trigger] homes[i]) == Some(c),
    decreases k,
{
    if k > 0 {
        let prev = canonical_homes(env, homes, (k - 1) as nat);
        lemma_canonical_homes(env, homes, (k - 1) as nat);
        let last = canonical_of(env, homes[k - 1]).unwrap();
        assert(home_resolvable(env, homes[k - 1]));
        lemma_insert_path(prev, last);
        assert forall|c: Seq<u8>| #[trigger] canonical_homes(env, homes, k).contains(c)
            <==> exists|i: int| 0 <= i < k && canonical_of(env, #[trigger] homes[i]) == Some(c) by {
            if canonical_homes(env, homes, k).contains(c) && c == last {
                assert(canonical_of(env, homes[k - 1]) == Some(c));
            }
            if exists|i: int| 0 <= i < k && canonical_of(env, #[trigger] homes[i]) == Some(c) {
                let i = choose|i: int| 0 <= i < k && canonical_of(env, #[trigger] homes[i]) == Some(c);
                if i < k - 1 {
                    assert(prev.contains(c));
                }
            }
        }
    } else {
        assert forall|c: Seq<u8>| !#[trigger] canonical_homes(env, homes, k).contains(c) by {}
    }
}

proof fn lemma_canonical_phase(id: Seq<char>, homes: Seq<Seq<u8>>, env: spec_fn(ActionView) -> EventView, k: nat)
    requires
        k <= homes.len(),
    ensures
        (forall|i: int| 0 <= i < k ==> home_resolvable(env, #[trigger] homes[i]))
            ==> run_with(initial_view(id, homes).begin_canonical(0), env, k) == canonical_phase(id, homes, env, k).begin_canonical(k),
        !(forall|i: int| 0 <= i < k ==> home_resolvable(env, #[trigger] homes[i]))
            ==> run_with(initial_view(id, homes).begin_canonical(0), env, k).1 == ActionView::Finish(None),
    decreases k,
{
    let s = initial_view(id, homes).begin_canonical(0);
    if k == 0 {
        assert(canonical_phase(id, homes, env, 0) =~= initial_view(id, homes));
    } else {
        let j = (k - 1) as nat;
        lemma_canonical_phase(id, homes, env, j);
        let p = run_with(s, env, j);
        if forall|i: int| 0 <= i < j ==> home_resolvable(env, #[trigger] homes[i]) {
            let b = canonical_phase(id, homes, env, j);
            if spec_is_absolute(homes[j as int]) {
                let q = ResolverView { stage: Stage::Canonicalizing, next_home: j, ..b };
                assert(p == (q, ActionView::CanonicalizeHome(homes[j as int])));
                if canonical_of(env, homes[j as int]) is Some {
                    let c = canonical_of(env, homes[j as int]).unwrap();
                    assert(env(ActionView::CanonicalizeHome(homes[j as int])) == EventView::Canonical(Some(c)));
                    assert(ResolverView { canonical: insert_path(q.canonical, c), ..q } =~= canonical_phase(id, homes, env, k));
                } else {
                    assert(!home_resolvable(env, homes[j as int]));
                }
            } else {
                assert(!home_resolvable(env, homes[j as int]));
            }
        }
    }
}

/// An allowlisted home that is relative or cannot be canonicalized ends the
/// resolution without an account, at the latest once every allowlisted home
/// has had its one request.
pub proof fn lemma_unresolvable_home_grants_nothing(
    id: Seq<char>,
    homes: Seq<Seq<u8>>,
    env: spec_fn(ActionView) -> EventView,
    i: int,
    n: nat,
)
    requires
        0 <= i < homes.len(),
        !home_resolvable(env, homes[i]),
    ensures
        run_with(spec_resolve_in(id, homes), env, homes.len() + n).1 == ActionView::Finish(None),
{
    let s = spec_resolve_in(id, homes);
    if is_session_uuid(encode_utf8(id)) {
        lemma_canonical_phase(id, homes, env, homes.len());
        let p = run_with(s, env, homes.len());
        lemma_finish_stays(p, env, n);
        lemma_run_split(s, env, homes.len(), n);
    } else {
        lemma_finish_stays(s, env, homes.len() + n);
    }
}

proof fn lemma_run_split(s: (ResolverView, ActionView), env: spec_fn(ActionView) -> EventView, a: nat, b: nat)
    ensures
        run_with(s, env, a + b) == run_with(run_with(s, env, a), env, b),
    decreases b,
{
    if b > 0 {
        lemma_run_split(s, env, a, (b - 1) as nat);
        assert((a + b - 1) as nat == a + (b - 1) as nat);
    }
}

proof fn lemma_scan_never_canonicalizes(v: ResolverView, e: EventView)
    requires
        v.stage != Stage::Canonicalizing,
    ensures
        v.next(e).0.stage != Stage::Canonicalizing,
{
}

/// From a point where two resolutions differ only in their allowlist and are
/// past canonicalizing, they stay so under the same file system.
proof fn lemma_runs_stay_alike(
    s1: (ResolverView, ActionView),
    s2: (ResolverView, ActionView),
    env: spec_fn(ActionView) -> EventView,
    n: nat,
)
    requires
        s1.1 == s2.1,
        same_but_allowlist(s1.0, s2.0),
        s1.0.stage != Stage::Canonicalizing,
    ensures
        run_with(s1, env, n).1 == run_with(s2, env, n).1,
        same_but_allowlist(run_with(s1, env, n).0, run_with(s2, env, n).0),
        run_with(s1, env, n).0.stage != Stage::Canonicalizing,
    decreases n,
{
    if n > 0 {
        let m = (n - 1) as nat;
        lemma_runs_stay_alike(s1, s2, env, m);
        let p1 = run_with(s1, env, m);
        let p2 = run_with(s2, env, m);
        if !(p1.1 is Finish) {
            lemma_scan_ignores_allowlist(p1.0, p2.0, env(p1.1));
            lemma_scan_never_canonicalizes(p1.0, env(p1.1));
        }
    }
}

/// Allowlists that name the same directories, in any order and under any
/// spellings, resolve alike. Once every allowlisted home of each has had its
/// one canonicalization request, the two resolutions make the same requests,
/// answer the same outcomes in the same way, and end with the same account or
/// both without one.
pub proof fn lemma_allowlist_order_and_spelling_irrelevant(
    id: Seq<char>,
    homes1: Seq<Seq<u8>>,
    homes2: Seq<Seq<u8>>,
    env: spec_fn(ActionView) -> EventView,
    n: nat,
)
    requires
        forall|i: int| 0 <= i < homes1.len() ==> home_resolvable(env, #[trigger] homes1[i]),
        forall|i: int| 0 <= i < homes2.len() ==> home_resolvable(env, #[trigger] homes2[i]),
        forall|c: Seq<u8>| names_directory(env, homes1, c) <==> names_directory(env, homes2, c),
    ensures
        run_with(spec_resolve_in(id, homes1), env, homes1.len() + n).1
            == run_with(spec_resolve_in(id, homes2), env, homes2.len() + n).1,
        same_but_allowlist(
            run_with(spec_resolve_in(id, homes1), env, homes1.len() + n).0,
            run_with(spec_resolve_in(id, homes2), env, homes2.len() + n).0,
        ),
{
    let s1 = spec_resolve_in(id, homes1);
    let s2 = spec_resolve_in(id, homes2);
    if is_session_uuid(encode_utf8(id)) {
        let (l1, l2) = (homes1.len(), homes2.len());
        lemma_canonical_phase(id, homes1, env, l1);
        lemma_canonical_phase(id, homes2, env, l2);
        lemma_canonical_homes(env, homes1, l1);
        lemma_canonical_homes(env, homes2, l2);
        let c1 = canonical_homes(env, homes1, l1);
        let c2 = canonical_homes(env, homes2, l2);
        assert forall|x: Seq<u8>| c1.contains(x) <==> c2.contains(x) by {
            assert(c1.contains(x) <==> names_directory(env, homes1, x));
            assert(c2.contains(x) <==> names_directory(env, homes2, x));
        }
        lemma_sorted_paths_unique(c1, c2);
        let x1 = ResolverView { next_home: l1, ..canonical_phase(id, homes1, env, l1) };
        let x2 = ResolverView { next_home: l2, ..canonical_phase(id, homes2, env, l2) };
        assert(same_but_allowlist(x1, x2));
        let p1 = run_with(s1, env, l1);
        let p2 = run_with(s2, env, l2);
        assert(p1 == x1.begin_scan(0));
        assert(p2 == x2.begin_scan(0));
        lemma_runs_stay_alike(p1, p2, env, n);
        lemma_run_split(s1, env, l1, n);
        lemma_run_split(s2, env, l2, n);
    } else {
        lemma_finish_stays(s1, env, homes1.len() + n);
        lemma_finish_stays(s2, env, homes2.len() + n);
    }
}


/// A session id is accepted exactly when it is 36 bytes long, has a dash at
/// bytes 8, 13, 18 and 23, and an ASCII hex digit of either case everywhere
/// else; so every UUID written in the usual 8-4-4-4-12 form is accepted.
pub proof fn lemma_session_id_shape(bytes: Seq<u8>)
    ensures
        is_session_uuid(bytes) <==> {
            &&& bytes.len() == 36
            &&& forall|i: int| #![trigger bytes[i]] 0 <= i < 36 && (i == 8 || i == 13 || i == 18 || i == 23) ==> bytes[i] == 45
            &&& forall|i: int| #![trigger bytes[i]] 0 <= i < 36 && !(i == 8 || i == 13 || i == 18 || i == 23) ==> {
                ||| 48 <= bytes[i] <= 57
                ||| 65 <= bytes[i] <= 70
                ||| 97 <= bytes[i] <= 102
            }
        },
{
}

/// Every name `rollout-{m}-{id}.jsonl` is a rollout name of session `id`,
/// whatever the part `m` in the middle.
pub proof fn lemma_rollout_names_accepted(m: Seq<char>, id: Seq<char>)
    ensures
        spec_is_rollout_name("rollout-"@ + m + "-"@ + id + ".jsonl"@, id),
{
    let prefix = "rollout-"@;
    let suffix = "-"@ + id + ".jsonl"@;
    let name = "rollout-"@ + m + "-"@ + id + ".jsonl"@;
    assert(name =~= prefix + (m + suffix));
    assert(name.take(prefix.len() as int) =~= prefix);
    assert(name =~= (prefix + m) + suffix);
    assert(name.skip(name.len() - suffix.len()) =~= suffix);
    assert(spec_starts_with(name, prefix));
    assert(spec_ends_with(name, suffix));
}

/// A name is a rollout name of session `id` exactly when its first eight
/// characters are `rollout-` and it ends with `-{id}.jsonl`.
pub proof fn lemma_rollout_name_shape(name: Seq<char>, id: Seq<char>)
    ensures
        spec_is_rollout_name(name, id) <==> {
            let suffix = "-"@ + id + ".jsonl"@;
            &&& 8 <= name.len()
            &&& name.subrange(0, 8) == "rollout-"@
            &&& suffix.len() <= name.len()
            &&& name.subrange(name.len() - suffix.len(), name.len() as int) == suffix
        },
{
    reveal_strlit("rollout-");
    let suffix = "-"@ + id + ".jsonl"@;
    assert(name.take(8) =~= name.subrange(0, 8));
    if suffix.len() <= name.len() {
        assert(name.skip(name.len() - suffix.len()) =~= name.subrange(name.len() - suffix.len(), name.len() as int));
    }
}

/// A valid allowlist gives its homes in order, each home the UTF-8 bytes of
/// the string the allowlist names (on Unix a path holds exactly those bytes).
pub proof fn lemma_allowlist_homes_are_utf8_paths(len: u64, contents: Seq<u8>, default_home: Option<Seq<u8>>, homes: Seq<Seq<char>>)
    requires
        len <= 65536,
        json_string_array(contents) == Some(homes),
        homes.len() <= 32,
    ensures
        spec_allowed_homes(AllowlistFile::Present { is_file: true, len }, Some(contents), default_home) matches Some(r) && {
            &&& r.len() == homes.len()
            &&& forall|i: int| 0 <= i < homes.len() ==> #[trigger] r[i] == encode_utf8(homes[i])
            &&& forall|i: int| 0 <= i < homes.len() ==> valid_utf8(r[i]) && decode_utf8(#[trigger] r[i]) == homes[i]
        },
{
    let r = encoded_paths(homes);
    assert forall|i: int| 0 <= i < homes.len() implies valid_utf8(r[i]) && decode_utf8(#[trigger] r[i]) == homes[i] by {
        vstd::utf8::encode_utf8_valid_utf8(homes[i]);
        encode_utf8_decode_utf8(homes[i]);
    }
}

/// The next pending directory is listed whenever it lies at most eight levels
/// below `sessions`/`archived_sessions`; only a deeper one ends the
/// resolution, and with no directory left the scan of this home ends.
pub proof fn lemma_pending_directories_listed_to_depth_eight(v: ResolverView)
    ensures
        v.pending.len() > 0 && v.pending.last().1 <= 8 ==> {
            &&& v.pop_next().1 == ActionView::ListDirectory(v.pending.last().0)
            &&& v.pop_next().0.stage == Stage::Listing
            &&& v.pop_next().0.dir == v.pending.last().0
            &&& v.pop_next().0.depth == v.pending.last().1
            &&& v.pop_next().0.pending == v.pending.drop_last()
        },
        v.pending.len() > 0 && v.pending.last().1 > 8 ==> v.pop_next().1 == ActionView::Finish(None),
        v.pending.len() == 0 ==> v.pop_next() == v.end_scan(),
{
}

/// While iterating, a subdirectory entry is queued one level deeper than the
/// directory being listed, a regular rollout file of the session becomes the
/// candidate checked next, and any other file is skipped; each entry uses one
/// unit of the budget.
pub proof fn lemma_entries_queue_subdirectories_one_level_deeper(v: ResolverView, name: Seq<u8>, is_dir: bool, is_file: bool)
    requires
        v.stage == Stage::Iterating,
        v.remaining > 0,
    ensures
        ({
            let (w, a) = v.next(EventView::Entry(EntryView::Item { name, is_dir, is_file }));
            &&& w.remaining == v.remaining - 1
            &&& is_dir ==> {
                &&& a == ActionView::NextEntry
                &&& w.stage == Stage::Iterating
                &&& w.pending == v.pending.push((spec_join(v.dir, name), v.depth + 1))
            }
            &&& !is_dir && is_file && spec_is_rollout_file_name(name, v.session_id) ==> {
                &&& a == ActionView::CanonicalizeEntry(spec_join(v.dir, name))
                &&& w.candidate == spec_join(v.dir, name)
                &&& w.pending == v.pending
            }
            &&& !is_dir && !spec_is_rollout_file_name(name, v.session_id) ==> {
                &&& a == ActionView::NextEntry
                &&& w.stage == Stage::Iterating
                &&& w.pending == v.pending
            }
        }),
{
}

/// A rollout header matches exactly when it is a `session_meta` record whose
/// id is the session's.
pub proof fn lemma_header_match_exact(header: Option<(Seq<char>, Seq<char>)>, id: Seq<char>)
    ensures
        spec_header_matches(header, id) <==> header == Some(("session_meta"@, id)),
{
}

/// Scanning a canonical home starts by listing its `archived_sessions`, with
/// its `sessions` directory pending at depth 0 and the full entry budget.
pub proof fn lemma_scan_starts_with_both_session_roots(v: ResolverView, k: nat)
    requires
        k < v.canonical.len(),
    ensures
        ({
            let h = v.canonical[k as int];
            let (w, a) = v.begin_scan(k);
            &&& a == ActionView::ListDirectory(spec_join(h, encode_utf8("archived_sessions"@)))
            &&& w.stage == Stage::Listing
            &&& w.home() == h
            &&& w.depth == 0
            &&& w.pending == seq![(spec_join(h, encode_utf8("sessions"@)), 0nat)]
            &&& w.remaining == 100000
            &&& !w.found
        }),
{
}

/// A finished scan that found the session records its home as the match when
/// no earlier home had it, and moves on to the next home; a second home with
/// the session ends the resolution without an account; a scan that found
/// nothing keeps the earlier match.
pub proof fn lemma_scan_end_records_match(v: ResolverView)
    ensures
        v.found && v.matched is None ==> v.end_scan() == (ResolverView {
            results: v.results.push(true),
            matched: Some(v.home()),
            ..v
        }).begin_scan(v.scan_index + 1),
        v.found && v.matched is Some ==> v.end_scan().1 == ActionView::Finish(None),
        !v.found ==> v.end_scan() == (ResolverView { results: v.results.push(false), ..v }).begin_scan(v.scan_index + 1),
{
}

/// After every home is scanned, the single matching home's `auth.json` is
/// digested, its account id read, and the digest read again; when it is
/// unchanged the resolution ends with that home, account id and digest.
pub proof fn lemma_matched_home_yields_its_account(v: ResolverView, d: Seq<u8>, id: Seq<char>, h: Seq<u8>)
    requires
        v.matched == Some(h),
    ensures
        v.finish_scans().1 == ActionView::ReadAuthDigest(spec_join(h, encode_utf8("auth.json"@))),
        v.finish_scans().0.stage == Stage::ReadingDigest,
        v.stage == Stage::ReadingDigest ==> v.next(EventView::AuthDigest(Some(d))) == (
            ResolverView { stage: Stage::ReadingAccount, digest: d, ..v },
            ActionView::ReadAccountId(spec_join(h, encode_utf8("auth.json"@))),
        ),
        v.stage == Stage::ReadingAccount ==> v.next(EventView::AccountId(Some(id))) == (
            ResolverView { stage: Stage::Rechecking, account_id: id, ..v },
            ActionView::ReadAuthDigest(spec_join(h, encode_utf8("auth.json"@))),
        ),
        v.stage == Stage::Rechecking ==> v.next(EventView::AuthDigest(Some(v.digest))).1
            == ActionView::Finish(Some(AccountView { home: h, account_id: v.account_id, auth_digest: v.digest })),
        v.stage == Stage::Rechecking && d != v.digest ==> v.next(EventView::AuthDigest(Some(d))).1 == ActionView::Finish(None),
{
}

/// A rollout candidate whose canonical path stays in the home has its first
/// line read, and a matching header marks the home as holding the session.
pub proof fn lemma_contained_candidate_header_found(v: ResolverView, c: Seq<u8>)
    ensures
        v.stage == Stage::CheckingCandidate && spec_within(c, v.home()) ==> v.next(EventView::Canonical(Some(c))) == (
            ResolverView { stage: Stage::ReadingHeader, ..v },
            ActionView::ReadSessionHeader(v.candidate),
        ),
        v.stage == Stage::ReadingHeader ==> v.next(EventView::Header(Some(("session_meta"@, v.session_id)))) == (
            ResolverView { stage: Stage::Iterating, found: true, ..v },
            ActionView::NextEntry,
        ),
        v.stage == Stage::CheckingDirectory && spec_within(c, v.home()) ==> v.next(EventView::Canonical(Some(c))) == (
            ResolverView { stage: Stage::Iterating, ..v },
            ActionView::NextEntry,
        ),
{
}

/// A session directory that does not exist is skipped for the next pending
/// one; one that opens is first checked to stay within the home.
pub proof fn lemma_missing_directories_skipped(v: ResolverView)
    requires
        v.stage == Stage::Listing,
    ensures
        v.next(EventView::Listing(DirectoryListing::NotFound)) == v.pop_next(),
        v.next(EventView::Listing(DirectoryListing::Opened)) == (
            ResolverView { stage: Stage::CheckingDirectory, ..v },
            ActionView::CanonicalizeDirectory(v.dir),
        ),
        v.next(EventView::Listing(DirectoryListing::Failed)).1 == ActionView::Finish(None),
{
}

} // verus!

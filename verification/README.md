# herdr-agent-quota: attribution and shared-usage decisions

A verified library for the agent quota sidebar.

- `src/codex_accounts.rs`: native Codex session attribution. `resolve` starts a
  `Resolver`, a state machine that asks for one piece of file-system work at a
  time (canonicalize a home, list a session directory, read a rollout header,
  digest the credential file) and decides from each outcome. Its transition
  function `ResolverView::next` is the contract; the invariant `inv` and the
  `lemma_*` proof functions state what every resolution guarantees (UUID-shaped
  ids only, absolute homes only, exactly one matching canonical home, bounded
  depth and entry budget, unchanged credentials). Whole resolutions are modelled
  by `run_with`, which answers each request from a fixed file system `env`; over
  it, `lemma_allowlist_order_and_spelling_irrelevant` proves that allowlists
  naming the same directories, in any order and under any spellings, make the
  same requests and end with the same account, and
  `lemma_unresolvable_home_grants_nothing` that a relative or uncanonicalizable
  home anywhere in the allowlist ends the resolution without one. Also the
  allowlist rules, credential-file limits, warning identity and credential
  generation.
- Ordered sets and maps are kept in `Vec`s: the canonical homes sorted and
  without repetition (`insert_path`, `path_sorted`), the accounts by pane with
  distinct pane ids (`PaneAccounts`, read by key only). Their keys are byte paths and
  strings, and vstd's `BTreeSet`/`BTreeMap` specifications only say what
  `insert` or iteration do for key types whose comparison obeys vstd's `cmp`
  specification, which it gives for integers, tuples and `Option`, not for
  `Vec<u8>` or `String`; a `Vec` with a stated order says more.
- `src/shared_usage.rs`: when a shared reading may be shown for a pane, what is
  published instead, and attaching resolved accounts to the shared answers.
- `src/model.rs`: providers, harnesses, readings, panes and published tokens.
- `src/digest.rs`, `src/paths.rs`: SHA-256 (through `sha2`), lowercase hex, and
  Unix paths as byte strings (joining, containment, component order).
- `app/`: the file-system, environment and process work that drives the
  library.

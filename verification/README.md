# comet

The local engine rules of the Comet backend, written in Verus: every rule is
a function over plain values with a proved contract.

- `src/profile.rs`: the single local profile (data layout under the data
  directory, the profile id's text, the local scope).
- `src/registry.rs`: the workspace registry rules of this device: boot-time
  device row, chat and space creation, host checks, activity times, the
  space a directory belongs to, linked-worktree detection, and the merged
  session list watchers see.
- `src/chat_doc.rs`: chat document rules: user messages, stream recovery,
  the command queue and its drain, the fallbacks when no live run is left,
  pinning and residency.
- `src/eviction.rs`: which open documents leave memory.
- `src/doc_cache.rs`: the table of open documents.
- `src/mirror.rs`: the transcript mirror kept for watchers.
- `src/debounce.rs`: one snapshot save per burst of changes.
- `src/archived.rs`: the archived-sessions list and its project groups.
- `src/laws.rs`: properties across calls (stable boot names, the ledger
  never re-running a claimed command, drain passes ending, live sessions
  winning merges, evictions sparing pinned and recent documents, reopened
  chats keeping their first document, bursts of changes not postponing the
  snapshot).
- `app/`: the host side: the profile file, the `.git` file of worktrees,
  the session watch task and the debounced save loop.

The document store, the registry and chat documents and the sessions engine
that a running host builds on are not part of this project, so nothing in
`app/` drives `DocHost` or `WorkspaceHost`: those types hand back the rows to
write and the actions to take, for such a host to carry out.

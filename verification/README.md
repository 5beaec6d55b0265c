# kibo_agent

The decisions of a coding agent's tool layer, verified with Verus: what each
tool refuses, what it returns, and how the agent loop spends its rounds.

`src/` is the verified library. Every function there has a contract over a
mathematical model of its inputs (sequences of characters, maps, sets), and
the properties that span several calls are stated and proved as `law_*`
proof functions beside the code they are about.

- `read_file`, `guards`, `edit_file`, `listing`, `file_tree`, `directories`,
  `resolve`: reading, writing, editing and listing files inside a workspace,
  with the registry of what the agent has read that guards every change.
- `grep`, `code_search`, `index`: line search, the selection and hints of a
  code search, and what an index sync embeds.
- `git`: status, blame and diff decisions over what the repository reports.
- `todo`, `tools`, `arguments`, `tool_defs`, `model_text`: the checklist,
  the smaller tools, argument errors, the advertised schemas, and the text
  the model reads for each result.
- `llm_chat`: the agent loop's decisions — the turn as a step from event
  to action (stop first, ceilings, pausing for approval, a resumed round
  charged again), round and budget ceilings,
  repeated results, steering notes, and how a stopped or resumed turn leaves
  its history.

Outside crates are called from `src/` through a few small trusted wrappers
(`regex`, `globset`, `blake3`, and two parts of `std`), each documented with
what its contract claims.

`app/` is the unverified edge: the disk, the repository through `git2`, the
argument parser through `serde`, and the shell. It hands the library plain
values for the file tools, grep, listing, git status and blame, and
`runCommand`, and acts on their answers; the agent loop itself, which
drives `llm_chat::TurnState` through a provider, is not part of it.

# ideal-harness

A harness around a language model, written in Verus: an agent loop that samples a chat
model, runs its tool calls and leaves a complete, replayable record of what happened.

`src/` is the verified library. Every function in it carries a contract, and Verus proves
the contracts. `app/` is the program around it: files, sockets, processes, the key store
and the terminal. `tests/` runs the library on concrete values.

## The library

| Area | Modules |
| --- | --- |
| Events and sessions | `protocol`, `session`, `session_rpc`, `usage`, `usage_id`, `budget_ledger`, `token_meter` |
| The loop | `agent_loop`, `chat_turn`, `sampling`, `turn_trace`, `turn_records`, `steer`, `inbox`, `loop_guard`, `hooks`, `result_guard`, `tools`, `mcp_bridge` |
| Conversations | `model_provider`, `history`, `compaction`, `context` |
| Subagents and teams | `subagent`, `subagent_policy`, `subagent_lifecycle`, `role_config`, `team` |
| Sandbox and approval | `sandbox_policy`, `sandbox_exec`, `exec_tool`, `approval`, `terminal`, `paths` |
| Network | `network_proxy`, `fetch`, `url`, `http`, `readonly_server` |
| Host, desktop, command line | `host`, `desktop_bridge`, `commands`, `settings`, `secret_store`, `cli` |
| Texts and values | `text`, `scan`, `names`, `json`, `held` |

## How contracts speak

A store is what was handed to it, event by event, with what it answered
(`SessionStore::handed`); the events it took are its stream (`events`), and it is `intact`
while it took everything. The contracts of the loop say exactly what is handed to the
session and what comes of each answer: `turn_trace` describes a turn event by event,
`sampling` the tries of one sample, `hooks` a round of hooks, `mcp_bridge` a call of a
server, `subagent_lifecycle` the life of a subagent. So they hold of a store that fails as
well. Where a record decides something, nothing goes through that is not on record: a hook
point that is required stays closed, a server is not asked, a report does not count. Where
it decides nothing, the loop goes on: a model's answer is in the conversation whether the
session took it or not.

`MemorySession` takes everything. `LoggedSession` writes records to a log first, those that
belong together all at once, and counts what the log took. A turn on such a session is begun
by `start_turn`, which reports a log that does not take the beginning, and ended by
`finish_turn`. What a stream that lost nothing looks like (calls nest and have their
results, turns have their ends, the budget replays) is said of intact stores.

What a model, a tool, a hook, an approver or a summarizer gave back is a value that the
call which asked for it could return, for the very arguments that it was given. A trace
holds no other answers.

Properties of the library as a whole are public proof functions beside the functions they
are about, among them: every started subagent stops once, a delegation never widens what
its parent may do, compaction never parts a call from its result, the remaining budget
never grows and a budget once set stays, no two samples of a session are recorded under one
name, input that is queued between two turns is heard by the second one, a summary of
memories is injected once, a required hook point is closed by default, and the pages of a timeline cover
it without a gap.

## What is trusted

A few items state facts about code outside the library: `json_node` and `json_quote`
(serde_json, with floats that survive being printed), `parse_url` (the URL parser of reqwest), the wait status macros of libc in
`sandbox_exec`, and text functions of the standard library in `text`. Each names the
function that it stands for.

# thclaws_core

The core of thClaws, an agent workspace for the terminal: the agent's turns,
the providers it talks to, the schedules it keeps, the keys it holds and the
settings it deploys. `src/` is a library written in Verus; every function in it
states what it does in `requires` and `ensures`, and Verus proves it. `app/` is
the program around it, in ordinary Rust: files, processes, the network, the
terminal.

## The library

| Module | What it holds |
|---|---|
| `text`, `json`, `keyed`, `paths`, `ansi` | texts, JSON documents, maps that keep their order, paths, terminal escapes |
| `types`, `history` | conversations, and what is redacted or cut in them |
| `plan` | plans, todo lists, and the reminders made of them |
| `turn`, `agent`, `conversation` | a turn of the agent as a state machine; agents, requests, outcomes; what a whole turn leaves behind |
| `opencode_go`, `content`, `opencode_stream`, `assemble` | request bodies in three wire formats; reading the streams that come back |
| `event_render` | what the chat window and the terminal show |
| `clock`, `calendar` | moments, dates, cron expressions |
| `schedule`, `scheduler`, `schedule_cli`, `schedule_presets`, `preset_language`, `daemon` | jobs, when they run, the commands about them, the service that runs them |
| `deploy_client`, `deploy_run`, `archive` | what is shipped to a pod, and the steps of shipping it |
| `catalogue`, `seed` | the model catalogue, and how it is filled |
| `secrets`, `remote_agent` | keys, and where they are kept |
| `launch` | what the switches of the command line choose |

Work that only the outside can do is left to the caller. `turn::Turn`,
`deploy_run::Deploy`, `scheduler::InProcessScheduler` and `scheduler::WatchGate`
are state machines: they are told what happened and say what is to be done
next.

Calls into other crates stand behind small functions whose contracts are
trusted: `serde_json` in `json`, `chrono` and `cron` in `clock`, `sha2` and
`tar` in `archive`, `base64` in `event_render`. Their doc comments say what is
claimed of the call.

Next to the functions stand laws, as public proof functions: what holds of
several functions together, such as that every tool call of a turn is
answered exactly once, that a pod is sent nothing that was not bundled, or that chunking makes
no difference to what a stream says.

## The program

`app/main.rs` is the command line; the other files in `app/` each do one kind
of input and output and hand plain values to the library.

## Tests

`tests/` runs the compiled library on concrete values, with the real outside
crates linked.

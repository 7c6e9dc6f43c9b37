# nekotrans

The core of a tool that moves files between a PC and an Android device, over ADB, over Wi-Fi, or
over both lanes at once. Transfers are cut into chunks, kept in a checkpoint, and taken up again
after a pause or a crash.

`src/` is the library. It is written in Verus: its functions carry contracts, and the contracts are
proved. It does no input or output of its own. A transfer is a state machine that says what to do
next (ask the agent on the phone, run a device command, read a stretch of a file) and takes in what
came back.

`app/` is the desktop program around it: sockets, processes, files, threads and the window's
commands. `tests/` runs the library, with a phone that is played in memory where one is needed.

## Where things are

| Subject | Modules |
| --- | --- |
| Tasks, chunks and the scheduler | `models`, `scheduler`, `engine_task`, `engine`, `task_calls` |
| What holds of them over many calls | `scheduler_laws`, `engine_laws`, `engine_life` |
| Checkpoints | `checkpoint`, `checkpoint_text`, `checkpoint_store`, `checkpoint_laws` |
| Files on the PC | `inventory`, `manifest`, `order`, `paths`, `sizing` |
| Devices and ADB commands | `adb_device`, `adb_probe`, `adb_command` |
| The agent on the phone | `protocol`, `agent`, `agent_ask`, `agent_log`, `codec`, `json` |
| Transfers over ADB | `adb_push`, `adb_run`, `adb_pull_run` |
| Transfers over Wi-Fi | `wifi_chunk`, `wifi_run`, `pull_run`, `bundle`, `dual_wifi_run` |
| One file over both lanes | `same_file`, `same_file_lane`, `same_file_run` |
| Checks of what arrived | `digest`, `remote_verify` |
| What the window shows | `cards`, `dashboard`, `labels`, `notes`, `records` |
| Logs | `logging` |
| Self-test on a device | `smoke` |
| Text and numbers | `text`, `decimal`, `fields` |

Public proof functions named `lemma_..` state what holds over several calls: that a checkpoint reads
back as it was written, that no chunk of a plan is handed out twice, that a task comes back from its
checkpoint whatever became of it, that a file counts as done only after its check.

## What is taken on trust

BLAKE3 digests come from the `blake3` crate and JSON is read by `serde_json`; `digest` and `json`
hold the few functions that call them. The clock and `String::push` are std's. Everything else is
proved from there.

# local-mcp

`local-mcp` offers what a local machine can do as MCP tools: reading files and images, listing
directories, writing files and running commands in a sandbox, and running commands on the host
after the user of the session has agreed.

The rules of the server are a library whose behaviour is stated in contracts and proved with Verus.
What reads, writes, waits or starts a process stands around it.

## Layout

- `src/`: the verified library.
  - `requests`, `tools`, `tool_args`, `answers`: the protocol, the tools that are offered, the checks
    on their arguments, and the shape of answers.
  - `command_output`, `command_result`, `command_answers`, `kept_outcomes`, `command_logs`: what is
    shown of the output of a command, the outcome of a command, how it is answered and kept, and which
    logs are kept and read.
  - `jobs`, `job_journal`, `journal_store`, `stored_records`, `snapshots`, `storage`: background
    commands, and what is kept of them over a restart.
  - `workflow`, `workflow_journal`: steps that are run at most once, however often they are asked for.
  - `heartbeat`: named heartbeats and their schedule.
  - `sandbox`, `supervision`, `launch`: how a command is started, watched and ended.
  - `activity`, `diff`, `files`, `images`, `image_viewer`, `permissions`, `cli`, `config`: what the
    user sees and types, and what the tools do with files.
  - `json`, `json_size`, `text`, `lines`, `paths`, `encoding`, `order`, `job_id`: what the others
    build on.
- `tests/`: tests of the library.
- `app/`: the program.

Public proof functions whose names start with `law_` state what holds of several functions together.
Functions marked `external_body`, and the `assume_specification` items, are the calls into other
crates and the standard library; their contracts are believed, not proved.

## Use

```sh
local-mcp mcp                       # serve the tools on standard input and output
local-mcp start my-project          # start a session in the current directory
local-mcp start my-project --yolo   # start one that allows every command on the host
```

In a session, `/permission ask`, `yolo`, `allow DIR`, `revoke DIR`, `list` and `status` change and
show what is permitted. `/permissions` is read in the same way.

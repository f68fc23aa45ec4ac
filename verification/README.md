# evix

Evix evaluates the attribute tree of a Nix expression, file or flake in parallel. A master hands
attribute paths to worker processes, on this machine or on others, and streams what they find. A
daemon keeps the results of an evaluation warm, so that they can be queried, compared with a new
evaluation, and watched.

The library in `src/` is written in Verus. It holds what these programs decide and compute, each
function with a contract that Verus proves:

- `scheduler`, `master`: which attribute path goes to which worker, and when an evaluation ends.
- `eval`, `worker`, `lines`: what a worker makes of what it finds at an attribute path.
- `session`, `state`, `watch`: evaluations, their graphs of derivations, and their differences.
- `remote_worker`, `worker_process`, `messages`, `wire`, `message_fields`, `layout`: talking to
  workers.
- `daemon`, `session_cache`, `session_key`, `connection_limit`, `request_line`, `request_json`,
  `protocol`: the daemon.
- `cli`, `config`, `flake_ref`, `unix_path`: command lines, configurations and paths.
- `model`, `error`, `json`, `json_build`, `json_frame`, `ordered_map`, `text`: the data they
  share.

Functions whose names begin with `law_` state what holds across several of these.

`app/` is the program around the library: it talks to Nix, to processes, to sockets and to the
file system. `tests/` runs the library on given values.

# multiraft

A Multi-Raft runtime: one Raft group per key (per trading symbol), peer links
shared per node so that they grow with nodes rather than groups, a pluggable
state machine, a file-backed Raft log and resumable snapshot transfer.

The library under `src/` holds the runtime's data structures and most of its
decisions, verified with Verus against contracts stated over mathematical
models. The program under `app/` drives it: the Raft engine (openraft) and its
configuration check, the async runtime, sockets, files, the demo's admin HTTP
surface, and the loops that pause and poll (running the group-creation
retries that `demo` decides, waiting for leaders).

## Library layout

| Module | Role |
|--------|------|
| `fsm`, `counter_fsm`, `cmd_json` | The state machine trait, the idempotent per-group counter and the JSON wire form of its commands |
| `sm_store` | Applying committed entries, building, installing and serving snapshots |
| `raft_log`, `log_frames` | The per-group log and its length-prefixed on-disk framing |
| `cluster` | Group creation, one-time membership initialization, engine results, leader watching |
| `router`, `conn_metrics`, `standby_throttle` | Shared peer links, RPC dispatch, standby throttling |
| `snapshot`, `snapshot_fetch` | The standby snapshot trigger and ranged, resumable snapshot download |
| `demo` | Port layout, argument checks, idempotency keys, admin request handling, group-creation retries and the background propose loop's choices |
| `config`, `error`, `text`, `json`, `digest` | Configuration, errors, text rendering, JSON and SHA-256 |

Public proof functions named `law_*` state the properties the runtime keeps
across calls (idempotency, snapshot round trips, log framing round trips,
link counting, one-time initialization, batch composition, and more).

## Running

The program in `app/` takes `--mode`, `--node-id`, `--nodes`, `--base-port`,
`--groups`, `--data-dir` and `--no-auto-propose`. With one process holding
three logical nodes (`--mode cluster`, the default), the admin surface
listens at the base port:

```bash
curl -s http://127.0.0.1:21000/groups/0/value
curl -s -X POST http://127.0.0.1:21000/groups/0/inc \
  -H 'content-type: application/json' -d '{"delta":1}'
```

In `--mode node`, each process runs one node; node `N` serves Raft traffic on
`127.0.0.1:(base_port + N - 1)` and admin HTTP on
`127.0.0.1:(base_port + 100 + N - 1)`.

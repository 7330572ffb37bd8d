# SeaTunnel engine

A data-integration engine: a cluster of masters plans jobs, hands their tasks to
workers and coordinates checkpoints; formats and transforms move rows. The decisions
are a library verified with Verus; the program around it does the input and output.

## Layout

- `src/`: the verified library.
  - `job_config`, `job_coordinator`, `dispatch`, `placement`, `task_reports`,
    `recovery`, `checkpoint_coordination`, `replication`, `snapshot_json`, `command`:
    jobs from their configuration to their end, as changes of one state.
  - `master`, `heartbeat`, `master_service`, `client_handler`, `client_queries`,
    `node`: what a master answers workers and clients.
  - `raft`: the log, the state machine and the leader of a cluster of masters.
  - `worker`, `pipeline`, `checkpoint_forwarder`, `admission`: what a worker does.
  - `checkpoint_store`, `state_store`, `retention`: where checkpoints are kept and for
    how long.
  - `formats`, `transforms`, `row`, `json`, `factory_attrs`: rows, messages and
    connectors.
  - `*_laws`: what holds across functions; other laws stand beside what they speak of,
    in proof functions named `law_*`.
- `tests/`: tests of the library.
- `app/`: the server program: command line, configuration file, sockets, disk, object
  store and the consensus engine.

## How to read it

Every type has a mathematical value, written `@`. A function's contract says how the
value after a call follows from the value before it. What is believed of outside
crates stands in the functions marked `external_body`, each with a comment that names
the function it calls and what is claimed of it.

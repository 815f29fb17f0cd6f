# recipes_simulation

Leader election, run under a deterministic simulator and judged by what it left behind.

A client of a run follows a script, every operation it performs writes a record in the
same transaction, and when the run is over the records are read back in commit order
and held against the properties an election owes. The scripts, the records and the
judgement are this library, verified with Verus. What talks to the database, the clock
and the trace log is in `app/`.

## What is where

| Part | Modules |
| --- | --- |
| The operation log and its wire format | `log_schema`, `journal`, `stamps` |
| Replaying a log and judging it | `replay`, `report`, `invariants`, `elector_invariants`, `verdicts` |
| Scripts of election clients | `roles`, `role_script`, `elector_role`, `elector_script`, `liveness` |
| Leases polled by participants: plan, script, log, oracle | `lease_types`, `lease_plan`, `lease_driver`, `lease_records`, `lease_wire`, `lease_oracle`, `lease_check` |
| Candidates that register and send heartbeats | `candidacy`, `operations` |
| What a seed draws | `swarm`, `clock` |
| Forwarding trace events | `trace_events` |
| Spans of time, text, sets of names | `duration`, `text`, `name_set` |

A script never waits and never reads a clock. It is told what came of its last action
and what time it is, and answers with the next action; the runner in `app/` performs it.

## What is proved

Every executable function carries the contract that pins its result down, and the laws
that span functions are public proof functions beside them. `verdicts` says of each
check which runs pass it.

## What is trusted

The tuple encoding is `foundationdb_tuple`'s. The functions that call it, in
`log_schema`, `lease_wire`, `lease_driver`, `journal`, `candidacy` and `operations`, are
marked `external_body`, and so are the two that call `Debug` of the standard library, in
`text` and `duration`. Each says above it what it takes for granted.

//! Leader election under simulation: what clients do, what they write down, and how a
//! run is judged by what it left behind.

pub mod candidacy;
pub mod candidacy_laws;
pub mod clock;
pub mod driver_laws;
pub mod duration;
pub mod elector_invariants;
pub mod elector_laws;
pub mod elector_role;
pub mod elector_script;
pub mod elector_script_laws;
pub mod invariants;
pub mod journal;
pub mod judgement_laws;
pub mod lease_check;
pub mod lease_driver;
pub mod lease_laws;
pub mod lease_oracle;
pub mod lease_plan;
pub mod lease_records;
pub mod lease_types;
pub mod lease_wire;
pub mod liveness;
pub mod log_schema;
pub mod name_set;
pub mod operations;
pub mod plan_laws;
pub mod record_laws;
pub mod replay;
pub mod replay_laws;
pub mod report;
pub mod role_laws;
pub mod role_script;
pub mod roles;
pub mod stamps;
pub mod swarm;
pub mod swarm_laws;
pub mod text;
pub mod trace_events;
pub mod trace_laws;
pub mod verdicts;
pub mod wire_laws;

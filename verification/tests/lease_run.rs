//! Whole runs of several clients against an election kept in memory, and the
//! judgement of what they logged.

use std::collections::HashMap;

use recipes_simulation::duration::Duration;
use recipes_simulation::lease_check::{conclude, joined, Conclusion};
use recipes_simulation::lease_driver::{
    Action, Barrier, Driver, Event, Note, PollRun, Status,
};
use recipes_simulation::lease_oracle::{is_coherent, replay};
use recipes_simulation::lease_plan::{Plan, SwarmProfile};
use recipes_simulation::lease_records::{
    adoption_instant, planned_follower_adoption_delay, record_observer, record_poll,
    record_resign, record_stale_write, FencedWrite, Occasion, PollOutcome, PollTransition,
};
use recipes_simulation::lease_types::{DurableState, LocalInput, LogEntry, Snapshot};
use recipes_simulation::lease_wire::{
    decode_log_entry, entry_key, entry_value, protected_payload, stale_payload,
};
use recipes_simulation::log_schema::named_space;
use recipes_simulation::swarm::SwarmRng;

/// How long a transaction takes
const LATENCY: u64 = 1_000_000;

/// What a client is waiting for
enum Pending {
    Act(Action),
    Resume { at: u64, event: Event },
    Finished,
}

struct World {
    now: u64,
    election: DurableState,
    protected_rank: u64,
    protected_value: Option<Vec<u8>>,
    stored: Vec<(Vec<u8>, Vec<u8>)>,
    marks: HashMap<(&'static str, i32), Status>,
    clients: i32,
    rng: SwarmRng,
    /// How many of a hundred transactions fail
    failing: u64,
}

impl World {
    fn new(clients: i32, seed: u64, failing: u64) -> World {
        World {
            now: 5_000_000_000,
            election: DurableState::default(),
            protected_rank: 0,
            protected_value: None,
            stored: Vec::new(),
            marks: HashMap::new(),
            clients,
            rng: SwarmRng::lane(seed, 99),
            failing,
        }
    }

    fn clock(&self) -> Duration {
        Duration::from_nanos(self.now)
    }

    /// Stores an entry the way a commit would: the stamp is filled in.
    fn store(&mut self, entry: &LogEntry) {
        let space = named_space("lease_log");
        let mut key = entry_key(&space, entry.client_id, entry.incarnation, entry.op_num);
        let offset = key.len() - 4;
        key.truncate(offset);
        let place = space.prefix.len() + 1;
        let number = self.stored.len() as u64 + 1;
        key[place..place + 8].copy_from_slice(&number.to_be_bytes());
        key[place + 8..place + 10].copy_from_slice(&[0, 0]);
        self.stored.push((key, entry_value(entry)));
    }

    fn entries(&self) -> Vec<LogEntry> {
        let space = named_space("lease_log");
        self.stored
            .iter()
            .map(|(key, value)| decode_log_entry(&space, key, value).expect("a stored entry"))
            .collect()
    }

    fn snapshot(&self) -> Snapshot {
        Snapshot {
            election: self.election.clone(),
            protected_rank: self.protected_rank,
            protected_value: self.protected_value.clone(),
        }
    }

    fn write(&mut self, rank: u64, payload: Vec<u8>) -> bool {
        if rank < self.protected_rank || rank < self.election.rank {
            return false;
        }
        self.protected_rank = rank;
        self.protected_value = Some(payload);
        true
    }

    /// What polling does to the election, and the outcome.
    fn poll(
        &mut self,
        participant: &str,
        brings: &LocalInput,
        lease: Duration,
    ) -> (PollOutcome, PollTransition) {
        let now = self.clock();
        let transition = match (&self.election.owner, brings) {
            (None, _) => PollTransition::Acquired,
            (
                Some(owner),
                LocalInput::Leadership { participant: holder, rank, lease_duration, renewed_at },
            ) if owner == participant
                && holder == participant
                && self.election.rank == *rank
                && self.election.lease_duration == Some(*lease_duration)
                && now.saturating_sub(*renewed_at).shorter_than(lease_duration) =>
            {
                PollTransition::Renewed
            }
            (
                Some(owner),
                LocalInput::Observation { owner: seen, rank, lease_duration, observed_at },
            ) if owner == seen
                && self.election.rank == *rank
                && self.election.lease_duration == Some(*lease_duration)
                && !now.saturating_sub(*observed_at).shorter_than(lease_duration) =>
            {
                if owner == participant {
                    PollTransition::Reacquired
                } else {
                    PollTransition::TookOver
                }
            }
            _ => PollTransition::Followed,
        };
        if transition == PollTransition::Followed {
            let outcome = PollOutcome::Follower {
                owner: self.election.owner.clone().unwrap(),
                rank: self.election.rank,
                lease_duration: self.election.lease_duration.unwrap(),
            };
            (outcome, transition)
        } else {
            self.election = DurableState {
                rank: self.election.rank + 1,
                owner: Some(participant.to_owned()),
                lease_duration: Some(lease),
            };
            (PollOutcome::Leader { rank: self.election.rank }, transition)
        }
    }

    /// Performs an action, unless its transaction fails; of those that do, every
    /// other one has committed all the same.
    fn attempt(&mut self, client_id: i32, action: Action) -> Pending {
        if matches!(
            action,
            Action::Draw | Action::Wait { .. } | Action::Yield | Action::Finish
        ) || self.rng.pick(100) >= self.failing
        {
            return self.perform(client_id, action);
        }
        // A lease nobody can wait out must not be left to nobody.
        let endless =
            matches!(&action, Action::Poll { lease_duration, .. } if lease_duration.as_secs() > 3_600);
        if self.rng.pick(2) == 0 && !endless {
            self.perform(client_id, action);
        }
        Pending::Resume { at: self.now + LATENCY, event: Event::Failed }
    }

    fn perform(&mut self, client_id: i32, action: Action) -> Pending {
        let now = self.clock();
        let occasion = |incarnation, op_num, tracks, lease| Occasion {
            client_id,
            incarnation,
            op_num,
            tracks_local_state: tracks,
            attempt_started_at: now,
            configured_lease_duration: lease,
        };
        let after = |event| Pending::Resume { at: self.now + LATENCY, event };
        match action {
            Action::Draw => Pending::Resume {
                at: self.now,
                event: Event::Drawn((self.rng.next() >> 32) as u32),
            },
            Action::Poll { participant, brings, tracks, lease_duration, incarnation, op_num, delay } => {
                let prior = self.election.clone();
                let before = (self.protected_rank, self.protected_value.clone());
                let (outcome, transition) = self.poll(&participant, &brings, lease_duration);
                let write = match &outcome {
                    PollOutcome::Leader { rank } => Some(FencedWrite {
                        rank: *rank,
                        observed_rank: before.0,
                        observed_value: before.1,
                        committed: self.write(*rank, protected_payload(&participant, op_num)),
                    }),
                    PollOutcome::Follower { .. } => None,
                };
                let planned = planned_follower_adoption_delay(&outcome, &brings, delay);
                let waited = planned.map_or(0, |span| span.as_nanos() as u64) + LATENCY;
                let adopted = adoption_instant(Duration::from_nanos(self.now + waited), now);
                let next_state = match &outcome {
                    PollOutcome::Leader { rank } => LocalInput::Leadership {
                        participant: participant.clone(),
                        rank: *rank,
                        lease_duration,
                        renewed_at: now,
                    },
                    PollOutcome::Follower { owner, rank, lease_duration } => match &brings {
                        LocalInput::Observation { owner: o, rank: r, lease_duration: l, .. }
                            if o == owner && r == rank && l == lease_duration =>
                        {
                            brings.clone()
                        }
                        _ => LocalInput::Observation {
                            owner: owner.clone(),
                            rank: *rank,
                            lease_duration: *lease_duration,
                            observed_at: adopted,
                        },
                    },
                };
                let entry = record_poll(
                    occasion(incarnation, op_num, tracks, lease_duration),
                    participant,
                    prior,
                    self.election.clone(),
                    brings,
                    planned,
                    transition,
                    write,
                );
                self.store(&entry);
                let run = PollRun {
                    next_state,
                    transition,
                    adoption_delay: if planned.is_some() { delay } else { None },
                };
                Pending::Resume { at: self.now + waited, event: Event::Polled(run) }
            }
            Action::Resign { token, tracks, lease_duration, incarnation, op_num } => {
                let prior = self.election.clone();
                let released = prior.owned_by(&token.participant)
                    && prior.rank == token.rank
                    && prior.leased_for(&token.lease_duration);
                if released {
                    self.election.owner = None;
                }
                let entry = record_resign(
                    occasion(incarnation, op_num, tracks, lease_duration),
                    token,
                    prior,
                    self.election.clone(),
                    released,
                );
                self.store(&entry);
                Pending::Resume { at: self.now + LATENCY, event: Event::Settled(released) }
            }
            Action::StaleWrite { actor, rank, lease_duration, incarnation, op_num } => {
                let committed = self.write(rank, stale_payload(&actor, op_num));
                let entry = record_stale_write(
                    occasion(incarnation, op_num, false, lease_duration),
                    actor,
                    self.election.clone(),
                    FencedWrite {
                        rank,
                        observed_rank: self.protected_rank,
                        observed_value: self.protected_value.clone(),
                        committed,
                    },
                );
                self.store(&entry);
                Pending::Resume { at: self.now + LATENCY, event: Event::Settled(committed) }
            }
            Action::Observe { actor, lease_duration, incarnation, op_num } => {
                let entry = record_observer(
                    occasion(incarnation, op_num, false, lease_duration),
                    actor,
                    self.election.clone(),
                );
                self.store(&entry);
                Pending::Resume { at: self.now + LATENCY, event: Event::Elapsed }
            }
            Action::Snapshot => {
                if is_coherent(&self.snapshot()) {
                    after(Event::Elapsed)
                } else {
                    after(Event::Incoherent)
                }
            }
            Action::Wait { until } => Pending::Resume {
                at: self.now.max(until.as_nanos() as u64),
                event: Event::Elapsed,
            },
            Action::Yield => after(Event::Elapsed),
            Action::Mark { barrier, status, again } => {
                self.marks.insert((barrier.name(), client_id), status);
                self.tried(again, Event::Elapsed)
            }
            Action::Await { barrier, again } => {
                let there = self.everybody_marked(barrier);
                self.tried(again, Event::Settled(there))
            }
            Action::Collect { barrier, again } => {
                let statuses = (0..self.clients)
                    .map(|client| self.marks[&(barrier.name(), client)].bytes())
                    .collect();
                self.tried(again, Event::Collected(statuses))
            }
            Action::Finish => Pending::Finished,
        }
    }

    fn tried(&self, again: bool, event: Event) -> Pending {
        Pending::Resume { at: self.now + if again { 2 * LATENCY } else { LATENCY }, event }
    }

    fn everybody_marked(&self, barrier: Barrier) -> bool {
        (0..self.clients).all(|client| self.marks.contains_key(&(barrier.name(), client)))
    }
}

/// Runs every client to its end, and gives back what they left.
fn run(
    clients: i32,
    seed: u64,
    profile: SwarmProfile,
    failing: u64,
) -> (World, Vec<Driver>, Vec<Note>) {
    let mut world = World::new(clients, seed, failing);
    let mut notes: Vec<Note> = Vec::new();
    let mut drivers: Vec<Driver> = Vec::new();
    for client_id in 0..clients {
        let mut draw = || (world.rng.next() >> 32) as u32;
        let plan = Plan::settled(
            client_id,
            u64::from(draw()),
            profile,
            None,
            None,
            draw(),
            draw(),
            draw(),
            draw(),
        );
        drivers.push(Driver::new(plan, draw()));
    }
    let mut pending: Vec<Pending> =
        drivers.iter_mut().map(|driver| Pending::Act(driver.start())).collect();
    let mut turns = 0;
    loop {
        let mut moved = false;
        turns += 1;
        assert!(
            turns < 2_000_000,
            "seed {seed} does not end: {:?}",
            drivers.iter().map(|driver| driver.place).collect::<Vec<_>>()
        );
        for client in 0..drivers.len() {
            let next = match std::mem::replace(&mut pending[client], Pending::Finished) {
                Pending::Act(action) => {
                    moved = true;
                    world.attempt(client as i32, action)
                }
                Pending::Resume { at, event } if at <= world.now => {
                    moved = true;
                    assert!(drivers[client].can_step(), "a client ran out of numbers");
                    let action = drivers[client].step(event, world.clock());
                    notes.extend(drivers[client].notes.iter().copied());
                    Pending::Act(action)
                }
                other => other,
            };
            pending[client] = next;
        }
        if !moved {
            let due = pending.iter().filter_map(|pending| match pending {
                Pending::Resume { at, .. } => Some(*at),
                _ => None,
            });
            match due.min() {
                Some(at) => world.now = at,
                None => break,
            }
        }
    }
    assert!(pending.iter().all(|pending| matches!(pending, Pending::Finished)));
    (world, drivers, notes)
}

#[test]
fn a_run_against_an_honest_election_is_accepted() {
    for profile in [SwarmProfile::Standard, SwarmProfile::Contention, SwarmProfile::Suspicion] {
        for seed in 0..12 {
            let (world, drivers, notes) = run(3, seed, profile, 0);
            for note in notes {
                assert!(
                    !matches!(note, Note::Broken { .. } | Note::Failure { .. }),
                    "seed {seed} noted {note:?}"
                );
            }
            let coverage = replay(&world.entries(), &world.snapshot())
                .unwrap_or_else(|error| panic!("seed {seed}, {profile:?}: {error}"));
            assert_eq!(joined(&coverage.forced_missing), "", "seed {seed}, {profile:?}");
            assert!(coverage.saw_coordinated_race, "seed {seed}, {profile:?}");
            let tally = &drivers[0].tally;
            let complete = coverage.probabilistic_missing.is_empty();
            assert_eq!(
                conclude(
                    &coverage,
                    tally.completion_run_errors,
                    tally.coordinated_race_completed,
                    tally.coordinated_race_contenders,
                ),
                if complete { Conclusion::Passed } else { Conclusion::CoverageIncomplete }
            );
        }
    }
}

#[test]
fn a_run_whose_transactions_fail_is_still_honest() {
    let mut failures = 0;
    for seed in 0..12 {
        let (world, drivers, notes) = run(3, seed, SwarmProfile::Standard, 10);
        for note in notes {
            match note {
                Note::Broken { .. } => panic!("seed {seed} noted {note:?}"),
                Note::Failure { .. } => failures += 1,
                _ => {}
            }
        }
        assert!(drivers.iter().any(|driver| driver.tally.run_errors > 0));
        let tried = replay(&world.entries(), &world.snapshot());
        assert!(tried.is_ok(), "seed {seed}: {:?}", tried.err());
    }
    assert!(failures > 0);
}

//! What the plans, clocks, roles and operations of the simulations come to, in plain
//! nanoseconds and counts.

use crate::clock;
use crate::clock::{ClockStep, SkewMode};
use crate::duration;
use crate::elector_role;
use crate::elector_role::{BeliefBookkeeping, ElectorCounters};
use crate::lease_check;
use crate::lease_check::Conclusion;
use crate::lease_oracle;
use crate::lease_oracle::CoverageReport;
use crate::lease_plan;
use crate::lease_plan::{AdoptionDelay, Plan};
use crate::lease_types::LocalView;
use crate::liveness;
use crate::operations;
use crate::operations::{ProcessView, TimeAnomaly};
use crate::roles;
use crate::roles::{ClaimReply, Counters, Role, Timing, Verdict, Work};
use vstd::prelude::*;

verus! {

// ---------------------------------------------------------------------------
// Spans
// ---------------------------------------------------------------------------

/// The longest span is as many seconds as a word counts, and one nanosecond short of
/// another.
pub proof fn the_longest_span_is_a_word_of_seconds()
    ensures
        duration::longest() + 1 == 0x1_0000_0000_0000_0000 * 1_000_000_000,
{
}

/// Two spans add up, as far as a span goes: the sum is never more than theirs, and less
/// only where it is the longest span there is.
pub proof fn spans_add_up_as_far_as_a_span_goes(a: nat, b: nat)
    ensures
        a + b <= duration::longest() ==> lease_oracle::span_sum(a, b) == a + b,
        a + b > duration::longest() ==> lease_oracle::span_sum(a, b) == duration::longest(),
        lease_oracle::span_sum(a, b) == lease_oracle::span_sum(b, a),
{
}

/// What has elapsed is what lies between two instants, and nothing where the second does
/// not lie behind the first.
pub proof fn what_elapsed_lies_between(from: nat, to: nat)
    ensures
        from <= to ==> from + lease_oracle::elapsed(from, to) == to,
        to <= from ==> lease_oracle::elapsed(from, to) == 0,
{
}

/// The low bits of a number differ from it by whole words.
pub proof fn low_bits_are_what_a_word_keeps(n: nat)
    ensures
        (n - duration::low_bits(n)) % 0x1_0000_0000_0000_0000 == 0,
        n <= u64::MAX ==> duration::low_bits(n) == n,
{
}

// ---------------------------------------------------------------------------
// The plan of a client
// ---------------------------------------------------------------------------

/// A part of a lease is half of it, the whole, or a millisecond more than the whole.
pub proof fn a_part_of_a_lease_is_half_whole_or_a_bit_more(delay: AdoptionDelay, lease: nat)
    requires
        lease + 1_000_000 <= duration::longest(),
    ensures
        ({
            let part = lease_plan::lease_part(delay.part(), lease);
            match delay {
                AdoptionDelay::Shorter => 2 * part <= lease < 2 * part + 2,
                AdoptionDelay::Exact => part == lease,
                AdoptionDelay::Longer => part == lease + 1_000_000,
            }
        }),
{
}

/// The delays take turns: three in a row are shorter, exact and longer, and the fourth is
/// the first again.
pub proof fn the_delays_take_turns(n: int)
    requires
        n >= 0,
    ensures
        AdoptionDelay::numbered(3 * n) == AdoptionDelay::Shorter,
        AdoptionDelay::numbered(3 * n + 1) == AdoptionDelay::Exact,
        AdoptionDelay::numbered(3 * n + 2) == AdoptionDelay::Longer,
        AdoptionDelay::numbered(n + 3) == AdoptionDelay::numbered(n),
{
    assert((3 * n) % 3 == 0 && (3 * n + 1) % 3 == 1 && (3 * n + 2) % 3 == 2);
    assert((n + 3) % 3 == n % 3);
}

/// The weights beyond the normal ones are dealt out in order: a third to observing, a third
/// to resigning, then up to four fifths to stale tokens, and the rest to another lease;
/// whatever lies beyond them drops its state.
pub proof fn weights_are_dealt_out_in_order(plan: Plan, weight: u32)
    ensures
        ({
            let n = plan.normal_weight as int;
            let a = plan.adversarial_weight as int;
            let w = weight as int;
            &&& plan.observes(weight) <==> n <= w < n + a / 3
            &&& plan.resigns(weight) <==> n + a / 3 <= w < n + 2 * a / 3
            &&& plan.goes_stale(weight) <==> n + 2 * a / 3 <= w < n + 4 * a / 5
            &&& plan.changes_lease(weight) <==> n + 4 * a / 5 <= w < n + a
            &&& plan.drops(weight) <==> n + a <= w
        }),
{
    let a = plan.adversarial_weight as int;
    assert(1 * a == a && 0 * a == 0);
    assert(a / 1 == a && 0int / 1 == 0);
}

/// A round polls where it is the first, where its weight is a normal one, and where it
/// changes its lease.
pub proof fn a_round_polls_at_first_and_at_normal_weights(plan: Plan, round: usize, weight: u32)
    ensures
        round == 0 ==> plan.polls(round, weight),
        weight < plan.normal_weight ==> plan.polls(round, weight),
        round > 0 && weight >= plan.normal_weight ==> (plan.polls(round, weight)
            <==> plan.normal_weight + 4 * plan.adversarial_weight / 5 <= weight
            < plan.normal_weight + plan.adversarial_weight),
{
    let a = plan.adversarial_weight as int;
    assert(1 * a == a);
    assert(a / 1 == a);
}

/// A round's lease is the plan's own, or a second or two longer, as the swarm and the round
/// add up.
pub proof fn a_rounds_lease_is_up_to_two_seconds_longer(plan: Plan, round: usize)
    requires
        round <= u32::MAX,
        plan.lease_duration@ + 2_000_000_000 <= duration::longest(),
    ensures
        plan.lease_duration@ <= plan.round_lease(round) <= plan.lease_duration@ + 2_000_000_000,
        (plan.round_lease(round) - plan.lease_duration@) % 1_000_000_000 == 0,
        plan.swarm + round <= u32::MAX ==> plan.round_lease(round) == plan.lease_duration@ + ((
        plan.swarm + round) % 3) * 1_000_000_000,
        plan.swarm + round > u32::MAX ==> plan.round_lease(round) == plan.lease_duration@ + ((
        plan.swarm + round - 0x1_0000_0000) % 3) * 1_000_000_000,
{
    assert(round as u32 == round);
    let sum = plan.swarm + (round as u32);
    let m = sum % 0x1_0000_0000;
    assert(sum <= u32::MAX ==> m == sum);
    assert(sum > u32::MAX ==> m == sum - 0x1_0000_0000);
    assert(0 <= m % 3 <= 2);
}

/// What a caller counts its next round from, and under which lease: its last sighting or
/// renewal, or now where it knows of neither.
pub open spec fn anchored(local: LocalView, now: nat, own: nat, anchor: nat, lease: nat) -> bool {
    match local {
        LocalView::Unknown => anchor == now && lease == own,
        LocalView::Observation { lease_duration, observed_at, .. } => anchor == observed_at && lease
            == lease_duration,
        LocalView::Leadership { lease_duration, renewed_at, .. } => anchor == renewed_at && lease
            == lease_duration,
    }
}

/// The next round is due half a lease, a lease, or a millisecond more behind what the caller
/// last saw or renewed, in turns.
pub proof fn the_next_round_is_due_about_a_lease_later(
    plan: Plan,
    round: usize,
    local: LocalView,
    now: nat,
    anchor: nat,
    lease: nat,
)
    requires
        anchored(local, now, plan.lease_duration@, anchor, lease),
        anchor + lease + 1_000_000 <= duration::longest(),
    ensures
        ({
            let turn = (plan.swarm + round) % 3;
            let due = plan.next_round_at(round, local, now);
            &&& turn == 0 ==> 2 * (due - anchor) <= lease < 2 * (due - anchor) + 2
            &&& turn == 1 ==> due == anchor + lease
            &&& turn == 2 ==> due == anchor + lease + 1_000_000
        }),
{
}

/// The boundary lies a millisecond behind the end of the lease that was last seen or
/// renewed, or a millisecond from now where there is none.
pub proof fn the_boundary_lies_just_behind_the_lease(local: LocalView, now: nat)
    ensures
        match local {
            LocalView::Unknown => now + 1_000_000 <= duration::longest() ==> Plan::boundary_at(
                local,
                now,
            ) == now + 1_000_000,
            LocalView::Observation { lease_duration, observed_at, .. } => observed_at
                + lease_duration + 1_000_000 <= duration::longest() ==> Plan::boundary_at(
                local,
                now,
            ) == observed_at + lease_duration + 1_000_000,
            LocalView::Leadership { lease_duration, renewed_at, .. } => renewed_at + lease_duration
                + 1_000_000 <= duration::longest() ==> Plan::boundary_at(local, now) == renewed_at
                + lease_duration + 1_000_000,
        },
{
}

// ---------------------------------------------------------------------------
// Clocks
// ---------------------------------------------------------------------------

/// A step is taken from its instant on.
pub proof fn a_step_is_taken_from_its_instant_on(step: Option<ClockStep>, sim: nat)
    ensures
        step is None ==> !clock::step_taken(step, sim),
        step matches Some(s) ==> (clock::step_taken(step, sim) <==> s.at@ <= sim),
{
}

/// A distorted reading is the offset and the scaled time together, further on by the jump
/// from its instant on, and further back by the regression from its own, never below zero.
pub proof fn a_reading_is_offset_scaled_and_stepped(
    offset: nat,
    scaled: nat,
    jump: Option<ClockStep>,
    regression: Option<ClockStep>,
    sim: nat,
)
    requires
        offset + scaled <= u64::MAX,
        jump matches Some(j) ==> offset + scaled + j.by@ <= u64::MAX,
        regression matches Some(r) ==> r.by@ <= u64::MAX,
    ensures
        ({
            let on: int = if jump is Some && jump->Some_0.at@ <= sim {
                jump->Some_0.by@ as int
            } else {
                0
            };
            let back: int = if regression is Some && regression->Some_0.at@ <= sim {
                regression->Some_0.by@ as int
            } else {
                0
            };
            let r = clock::distorted_nanos(offset, scaled, jump, regression, sim);
            &&& offset + scaled + on >= back ==> r == offset + scaled + on - back
            &&& offset + scaled + on < back ==> r == 0
        }),
{
    low_bits_are_what_a_word_keeps(offset);
    low_bits_are_what_a_word_keeps(scaled);
    if let Some(j) = jump {
        low_bits_are_what_a_word_keeps(j.by@);
    }
    if let Some(r) = regression {
        low_bits_are_what_a_word_keeps(r.by@);
    }
}

/// The skews go by their names.
pub proof fn skews_go_by_their_names()
    ensures
        clock::skew_name(SkewMode::Unskewed) == "none"@,
        clock::skew_name(SkewMode::Random) == "random"@,
        clock::skew_name(SkewMode::Extreme) == "extreme"@,
{
}

// ---------------------------------------------------------------------------
// Liveness
// ---------------------------------------------------------------------------

/// The stalls are how often the last reading has come again without another between: that
/// many readings before it are the same, and the one before those, if there is one, is not.
pub proof fn stalls_are_repeats_of_the_last_reading(readings: Seq<nat>)
    requires
        readings.len() > 0,
    ensures
        ({
            let n = readings.len() as int;
            let stalls = liveness::stalls_in(readings) as int;
            &&& stalls < n
            &&& forall|i: int|
                n - 1 - stalls <= i < n ==> #[trigger] readings[i] == readings[n - 1]
            &&& stalls < n - 1 ==> readings[n - 2 - stalls] != readings[n - 1]
        }),
    decreases readings.len(),
{
    let n = readings.len() as int;
    if n >= 2 && readings[n - 1] == readings[n - 2] {
        let before = readings.drop_last();
        stalls_are_repeats_of_the_last_reading(before);
        let stalls = liveness::stalls_in(before) as int;
        assert forall|i: int| n - 2 - stalls <= i < n implies #[trigger] readings[i] == readings[n
            - 1] by {
            if i < n - 1 {
                assert(before[i] == readings[i]);
            }
        }
        if stalls < n - 2 {
            assert(before[n - 3 - stalls] == readings[n - 3 - stalls]);
        }
    }
}

/// The cursor moves on by the step, as far as a span goes.
pub proof fn the_cursor_moves_on_by_the_step(cursor: nat, step: nat)
    ensures
        cursor + step <= duration::longest() ==> liveness::next_cursor(cursor, step) == cursor
            + step,
        cursor + step > duration::longest() ==> liveness::next_cursor(cursor, step)
            == duration::longest(),
{
}

/// One waits exactly until what is due is due.
pub proof fn one_waits_until_it_is_due(due: nat, now: nat)
    ensures
        now <= due ==> now + liveness::wait_until(due, now) == due,
        due <= now ==> liveness::wait_until(due, now) == 0,
{
}

// ---------------------------------------------------------------------------
// The leader-lease check
// ---------------------------------------------------------------------------

/// A run fails for want of a forced path where one is missing and no error of the completion
/// phase explains it, or where the coordinated race did not go to its end with as many
/// contenders as were sent. Otherwise it passes where nothing is missing at all.
pub proof fn a_run_passes_when_every_path_was_taken(
    coverage: CoverageReport,
    completion_run_errors: u64,
    completed: bool,
    contenders: usize,
)
    ensures
        ({
            let forced = coverage.forced_missing@.len();
            let chance = coverage.probabilistic_missing@.len();
            let raced = completed && coverage.saw_coordinated_race
                && coverage.coordinated_race_contenders == contenders;
            let r = lease_check::conclusion(coverage, completion_run_errors, completed, contenders);
            &&& r == Conclusion::Passed <==> raced && forced == 0 && chance == 0
            &&& r == Conclusion::ForcedWitnessMissing <==> !raced || (forced > 0
                && completion_run_errors == 0)
            &&& r == Conclusion::CoverageIncomplete <==> raced && (forced > 0 || chance > 0) && (
            forced > 0 ==> completion_run_errors > 0)
        }),
{
}

/// Where name `k` begins in the joined text: behind those before it, each with its comma and
/// space.
pub open spec fn listed_from(names: Seq<Seq<char>>, k: int) -> int
    decreases k,
{
    if k <= 0 {
        0
    } else {
        listed_from(names, k - 1) + names[k - 1].len() + 2
    }
}

/// The joined text holds every name, each behind the ones before it, with a comma and a
/// space between two; and nothing else.
pub proof fn joining_keeps_every_name_in_its_place(names: Seq<Seq<char>>, n: int, k: int)
    requires
        0 <= k < n <= names.len(),
    ensures
        lease_check::joined_text(names, n).len() == listed_from(names, n) - 2,
        0 <= listed_from(names, k),
        listed_from(names, k) + names[k].len() <= lease_check::joined_text(names, n).len(),
        lease_check::joined_text(names, n).subrange(
            listed_from(names, k),
            listed_from(names, k) + names[k].len(),
        ) == names[k],
        k > 0 ==> 2 <= listed_from(names, k) && lease_check::joined_text(names, n)[listed_from(
            names,
            k,
        ) - 2] == ',' && lease_check::joined_text(names, n)[listed_from(names, k) - 1] == ' ',
    decreases n,
{
    reveal_strlit(", ");
    let whole = lease_check::joined_text(names, n);
    let at = listed_from(names, k);
    if n == 1 {
        assert(listed_from(names, 0) == 0);
        assert(listed_from(names, 1) == listed_from(names, 0) + names[0].len() + 2);
        assert(whole.subrange(0, whole.len() as int) =~= whole);
    } else {
        let before = lease_check::joined_text(names, n - 1);
        let last = if k < n - 1 {
            k
        } else {
            n - 2
        };
        joining_keeps_every_name_in_its_place(names, n - 1, last);
        if k < n - 1 {
            assert(whole.subrange(at, at + names[k].len()) =~= before.subrange(
                at,
                at + names[k].len(),
            ));
        } else {
            assert(at == before.len() + 2);
            assert(whole.subrange(at, at + names[k].len()) =~= names[k]);
        }
    }
}

// ---------------------------------------------------------------------------
// Roles
// ---------------------------------------------------------------------------

/// The first client sleeps where there are three and sleepers are wanted, the second watches
/// where there are four and watchers are wanted, and everybody else contends.
pub proof fn roles_go_to_the_first_and_second_client(
    client_id: i32,
    client_count: i32,
    sleeper_enabled: bool,
    watcher_enabled: bool,
)
    ensures
        ({
            let role = Role::assigned(client_id, client_count, sleeper_enabled, watcher_enabled);
            &&& role == Role::Sleeper <==> client_id == 1 && client_count >= 3 && sleeper_enabled
            &&& role == Role::Watcher <==> client_id == 2 && client_count >= 4 && watcher_enabled
            &&& role == Role::Contender <==> !(client_id == 1 && client_count >= 3
                && sleeper_enabled) && !(client_id == 2 && client_count >= 4 && watcher_enabled)
        }),
{
}

/// A belief ends a safety margin before its lease does, and is renewed after a third of it.
pub proof fn a_belief_ends_a_margin_before_its_lease(timing: Timing, acquired_at: nat)
    requires
        acquired_at + timing.lease@ <= duration::longest(),
    ensures
        timing.safety_margin@ <= acquired_at + timing.lease@ ==> timing.horizon(acquired_at)
            + timing.safety_margin@ == acquired_at + timing.lease@,
        timing.safety_margin@ > acquired_at + timing.lease@ ==> timing.horizon(acquired_at) == 0,
        3 * (timing.renewal(acquired_at) - acquired_at) <= timing.lease@,
        timing.lease@ < 3 * (timing.renewal(acquired_at) - acquired_at) + 3,
{
}

/// Whether two counts differ in nothing but what a claim moves.
pub open spec fn only_a_claim_between(a: Counters, b: Counters) -> bool {
    &&& a.renewals == b.renewals
    &&& a.resigns == b.resigns
    &&& a.injected_unknowns == b.injected_unknowns
    &&& a.lost == b.lost
    &&& a.crashes == b.crashes
    &&& a.fenced_applied == b.fenced_applied
    &&& a.fenced_rejected == b.fenced_rejected
    &&& a.sightings == b.sightings
    &&& a.work_abandoned == b.work_abandoned
    &&& a.errors == b.errors
}

/// A claim counts as what came of it, once: denied, superseded or won, adopted too where it
/// had been lost track of, and stopped by its horizon where that has passed. Who won and
/// whose horizon lies ahead may lead.
pub proof fn a_claim_counts_as_what_came_of_it(
    counters: Counters,
    timing: Timing,
    reply: ClaimReply,
    resumed: bool,
    now: nat,
)
    requires
        counters.denials < u64::MAX,
        counters.superseded < u64::MAX,
        counters.acquisitions < u64::MAX,
        counters.recoveries_adopted < u64::MAX,
        counters.horizon_stops < u64::MAX,
    ensures
        ({
            let (after, verdict) = roles::after_claim(counters, timing, reply, resumed, now);
            let won = reply is Won;
            let late = won && now >= timing.horizon(reply->Won_acquired_at@);
            let denied: int = if reply is Denied {
                1
            } else {
                0
            };
            let superseded: int = if reply is Superseded {
                1
            } else {
                0
            };
            let acquired: int = if won {
                1
            } else {
                0
            };
            let adopted: int = if won && resumed {
                1
            } else {
                0
            };
            let stopped: int = if late {
                1
            } else {
                0
            };
            &&& only_a_claim_between(after, counters)
            &&& after.denials == counters.denials + denied
            &&& after.superseded == counters.superseded + superseded
            &&& after.acquisitions == counters.acquisitions + acquired
            &&& after.recoveries_adopted == counters.recoveries_adopted + adopted
            &&& after.horizon_stops == counters.horizon_stops + stopped
            &&& verdict == Verdict::MayLead <==> won && !late
            &&& verdict == Verdict::Outlived <==> late
            &&& verdict == Verdict::Nothing <==> reply is Denied
            &&& verdict == Verdict::Retired <==> reply is Superseded
        }),
{
}

/// A count goes up by one until it is full.
pub proof fn a_count_goes_up_until_it_is_full(n: u64)
    ensures
        n < u64::MAX ==> roles::one_more(n) == n + 1,
        roles::one_more(u64::MAX) == u64::MAX,
{
}

/// Four bytes, the most telling first, stand for the number they were made of.
pub proof fn four_bytes_stand_for_their_number(n: u32)
    ensures
        ({
            let b = roles::big_endian(n);
            &&& b.len() == 4
            &&& n == b[0] * 0x100_0000 + b[1] * 0x1_0000 + b[2] * 0x100 + b[3]
        }),
{
    let b = roles::big_endian(n);
    assert(n / 0x100_0000 < 0x100);
    assert(b[0] == n / 0x100_0000);
    assert(b[1] == n / 0x1_0000 % 0x100);
    assert(b[2] == n / 0x100 % 0x100);
    assert(b[3] == n % 0x100);
    assert(n == (n / 0x100_0000) * 0x100_0000 + (n / 0x1_0000 % 0x100) * 0x1_0000 + (n / 0x100
        % 0x100) * 0x100 + n % 0x100) by (bit_vector);
}

/// A token is its four draws, one after the other; where all four are zero its first byte is
/// one instead.
pub proof fn a_token_is_its_four_draws(a: u32, b: u32, c: u32, d: u32)
    ensures
        roles::token_bytes(a, b, c, d).len() == 16,
        roles::token_bytes(a, b, c, d).subrange(4, 8) == roles::big_endian(b),
        roles::token_bytes(a, b, c, d).subrange(8, 12) == roles::big_endian(c),
        roles::token_bytes(a, b, c, d).subrange(12, 16) == roles::big_endian(d),
        a != 0 || b != 0 || c != 0 || d != 0 ==> roles::token_bytes(a, b, c, d).subrange(0, 4)
            == roles::big_endian(a),
        a == 0 && b == 0 && c == 0 && d == 0 ==> roles::token_bytes(a, b, c, d).subrange(0, 4)
            == seq![1u8, 0, 0, 0],
{
    let t = roles::token_bytes(a, b, c, d);
    assert(t.subrange(4, 8) =~= roles::big_endian(b));
    assert(t.subrange(8, 12) =~= roles::big_endian(c));
    assert(t.subrange(12, 16) =~= roles::big_endian(d));
    if a != 0 || b != 0 || c != 0 || d != 0 {
        assert(t.subrange(0, 4) =~= roles::big_endian(a));
    } else {
        assert(t.subrange(0, 4) =~= seq![1u8, 0, 0, 0]);
    }
}

/// A belief is to be closed exactly where its horizon was logged, it has not been ended, and
/// the horizon still lies ahead; at the ballot it was begun at.
pub proof fn a_belief_is_closed_while_its_horizon_lies_ahead(book: BeliefBookkeeping, now: nat)
    ensures
        match elector_role::belief_to_close(book, now) {
            Some(ballot) => ballot == book.ballot && !book.ended && book.logged_horizon is Some
                && now < book.logged_horizon->Some_0@,
            None => book.ended || book.logged_horizon is None || now
                >= book.logged_horizon->Some_0@,
        },
        elector_role::blank_book().ballot == 0,
        elector_role::blank_book().logged_horizon is None,
        !elector_role::blank_book().ended,
{
}

/// Work that committed counts as applied, work that was refused as rejected, and neither
/// touches another count.
pub proof fn work_counts_as_what_came_of_it(counters: ElectorCounters, work: Work)
    requires
        counters.fenced_applied < u64::MAX,
        counters.fenced_rejected < u64::MAX,
    ensures
        ({
            let r = elector_role::with_work(counters, work);
            let applied: int = if work is Committed {
                1
            } else {
                0
            };
            let rejected: int = if work is Refused {
                1
            } else {
                0
            };
            &&& r.fenced_applied == counters.fenced_applied + applied
            &&& r.fenced_rejected == counters.fenced_rejected + rejected
            &&& r.acquisitions == counters.acquisitions
            &&& r.lease_losses == counters.lease_losses
            &&& r.resigns == counters.resigns
            &&& r.errors == counters.errors
        }),
{
}

// ---------------------------------------------------------------------------
// Operations
// ---------------------------------------------------------------------------

/// Of a thousand rolls seven hundred are normal, a hundred and twenty are stale, eighty lie
/// ahead, thirty each lie at, before and behind the timeout, and five each are zero and
/// reversed; in this order.
pub proof fn rolls_are_dealt_out_in_order(roll: u32)
    requires
        roll < 1000,
    ensures
        operations::anomaly_at(roll) == TimeAnomaly::Normal <==> roll < 700,
        operations::anomaly_at(roll) == TimeAnomaly::Stale <==> 700 <= roll < 820,
        operations::anomaly_at(roll) == TimeAnomaly::Future <==> 820 <= roll < 900,
        operations::anomaly_at(roll) == TimeAnomaly::ExactlyAtTimeout <==> 900 <= roll < 930,
        operations::anomaly_at(roll) == TimeAnomaly::JustBeforeTimeout <==> 930 <= roll < 960,
        operations::anomaly_at(roll) == TimeAnomaly::JustAfterTimeout <==> 960 <= roll < 990,
        operations::anomaly_at(roll) == TimeAnomaly::Zero <==> 990 <= roll < 995,
        operations::anomaly_at(roll) == TimeAnomaly::TimeReversal <==> 995 <= roll,
{
}

/// A bent instant lies whole seconds before or behind the true one, at the timeout or a
/// nanosecond off it, at zero, or a second before the last heartbeat, as the anomaly says;
/// without a heartbeat to go by it is the true one, or one second.
pub proof fn a_bent_instant_lies_where_its_anomaly_says(
    base: nat,
    anomaly: TimeAnomaly,
    last: Option<nat>,
    timeout: nat,
    roll: u32,
)
    requires
        timeout > 0,
        (roll + 1) * 1_000_000_000 <= base,
        last matches Some(l) ==> l >= 1_000_000_000,
    ensures
        ({
            let bent = operations::bent(base, anomaly, last, timeout, roll);
            let seconds = (roll + 1) * 1_000_000_000;
            match anomaly {
                TimeAnomaly::Normal => bent == base,
                TimeAnomaly::Stale => bent + seconds == base,
                TimeAnomaly::Future => bent == base + seconds,
                TimeAnomaly::Zero => bent == 0,
                _ => match last {
                    Some(l) => match anomaly {
                        TimeAnomaly::ExactlyAtTimeout => bent - l == timeout,
                        TimeAnomaly::JustBeforeTimeout => bent - l == timeout - 1,
                        TimeAnomaly::JustAfterTimeout => bent - l == timeout + 1,
                        _ => bent + 1_000_000_000 == l,
                    },
                    None => if anomaly == TimeAnomaly::TimeReversal {
                        bent == 1_000_000_000
                    } else {
                        bent == base
                    },
                },
            }
        }),
{
}

/// What would lie before the beginning of time lies at it.
pub proof fn no_instant_lies_before_zero(
    base: nat,
    last: nat,
    timeout: nat,
    roll: u32,
)
    ensures
        base <= (roll + 1) * 1_000_000_000 ==> operations::bent(
            base,
            TimeAnomaly::Stale,
            Some(last),
            timeout,
            roll,
        ) == 0,
        last <= 1_000_000_000 ==> operations::bent(
            base,
            TimeAnomaly::TimeReversal,
            Some(last),
            timeout,
            roll,
        ) == 0,
{
}

/// A process is found at the first place it stands at.
pub proof fn a_process_is_found_where_it_first_stands(
    list: Seq<ProcessView>,
    uuid: Seq<char>,
    from: int,
)
    requires
        0 <= from <= list.len(),
    ensures
        match operations::place_of(list, uuid, from) {
            Some(i) => from <= i < list.len() && list[i].uuid == uuid && forall|k: int|
                from <= k < i ==> (#[trigger] list[k]).uuid != uuid,
            None => forall|k: int| from <= k < list.len() ==> (#[trigger] list[k]).uuid != uuid,
        },
    decreases list.len() - from,
{
    if from < list.len() && list[from].uuid != uuid {
        a_process_is_found_where_it_first_stands(list, uuid, from + 1);
    }
}

/// The living are the places of those that are alive, each once and in order.
pub proof fn the_living_are_those_that_are_alive(list: Seq<ProcessView>, n: int)
    requires
        0 <= n <= list.len(),
    ensures
        forall|i: int|
            #![trigger operations::living(list, n)[i]]
            0 <= i < operations::living(list, n).len() ==> 0 <= operations::living(list, n)[i] < n
                && list[operations::living(list, n)[i]].is_alive,
        forall|i: int, j: int|
            0 <= i < j < operations::living(list, n).len() ==> operations::living(list, n)[i]
                < operations::living(list, n)[j],
        forall|k: int|
            0 <= k < n && (#[trigger] list[k]).is_alive ==> operations::living(list, n).contains(k),
    decreases n,
{
    if n > 0 {
        the_living_are_those_that_are_alive(list, n - 1);
        let before = operations::living(list, n - 1);
        let now = operations::living(list, n);
        assert forall|k: int| 0 <= k < n && (#[trigger] list[k]).is_alive implies now.contains(k) by {
            if k < n - 1 {
                assert(before.contains(k));
                let i = choose|i: int| 0 <= i < before.len() && before[i] == k;
                assert(now[i] == k);
            } else {
                assert(now[now.len() - 1] == k);
            }
        }
    }
}

} // verus!

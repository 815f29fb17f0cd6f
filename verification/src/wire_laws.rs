//! What goes into the database and what is taken out of it, place by place, and the texts
//! and reports that are made of it.

use crate::duration;
use crate::lease_types;
use crate::lease_types::{DurableView, EntryView, LocalView};
use crate::lease_wire;
use crate::lease_wire::{DurableTuple, EntryTuple, LocalTuple};
use crate::log_schema;
use crate::log_schema::{LogRecord, OpKind, RecordTuple};
use crate::report;
use crate::report::Finding;
use crate::stamps;
use crate::text;
use vstd::prelude::*;

verus! {

// ---------------------------------------------------------------------------
// The lease recipe's log
// ---------------------------------------------------------------------------

/// Claims, steals, renewals and resignations write the leader record, and nothing else does.
pub proof fn four_operations_write_the_leader_record(op: OpKind)
    ensures
        log_schema::may_write_leader_record(op) <==> op == OpKind::Claim || op == OpKind::Steal
            || op == OpKind::Renew || op == OpKind::Resign,
{
}

/// Operations are stored under their names.
pub proof fn operations_are_stored_under_their_names()
    ensures
        log_schema::wire_name(OpKind::Claim) == "claim"@,
        log_schema::wire_name(OpKind::Steal) == "steal"@,
        log_schema::wire_name(OpKind::Renew) == "renew"@,
        log_schema::wire_name(OpKind::Resign) == "resign"@,
        log_schema::wire_name(OpKind::FencedWrite) == "fenced_write"@,
        log_schema::wire_name(OpKind::Observe) == "observe"@,
        log_schema::wire_name(OpKind::BeliefBegin) == "belief_begin"@,
        log_schema::wire_name(OpKind::BeliefEnd) == "belief_end"@,
        log_schema::wire_name(OpKind::InjectedUnknown) == "injected_unknown"@,
        log_schema::wire_name(OpKind::SleeperWoke) == "sleeper_woke"@,
{
}

/// A record's places: version, name, whether it applied, attempt, token, then its term, what
/// it saw, its marks and its instants, each in its own group; what it did not see or note is
/// stored as zeroes.
pub proof fn a_record_has_its_places(record: LogRecord)
    ensures
        ({
            let t = log_schema::tuple_of(record);
            &&& t.0 == log_schema::LOG_SCHEMA_VERSION
            &&& t.1 == log_schema::wire_name(record.op)
            &&& t.2 <==> record.outcome is Applied
            &&& t.3 == record.attempt_id
            &&& t.4 == record.token@
            &&& t.5.0 == record.ballot
            &&& t.5.1 == record.generation
            &&& t.5.2 == record.lease_nanos
            &&& t.5.3 == record.horizon_nanos
            &&& t.6.0 <==> record.observed is Some
            &&& record.observed matches Some(seen) ==> t.6.1 == seen.ballot && t.6.2
                == seen.generation && t.6.3 == seen.vacant
            &&& record.observed is None ==> t.6.1 == 0 && t.6.2 == 0 && !t.6.3
            &&& t.7.0 == record.leader_record_written
            &&& t.7.1 == record.recovery_noop
            &&& t.7.2 == record.maybe_committed
            &&& t.7.3 == record.superseded
            &&& t.8.0 == record.local_nanos
            &&& t.8.1 == record.sim_nanos
            &&& t.8.2 <==> record.observation_start_nanos is Some
            &&& record.observation_start_nanos matches Some(start) ==> t.8.3 == start
            &&& record.observation_start_nanos is None ==> t.8.3 == 0
        }),
{
}

/// What a stored tuple says of a record, place by place.
pub proof fn a_tuple_says_what_stands_in_its_places(t: RecordTuple, record: LogRecord)
    requires
        log_schema::tuple_says(t, record),
    ensures
        t.1 == log_schema::wire_name(record.op),
        t.2 <==> record.outcome is Applied,
        t.3 == record.attempt_id,
        t.4 == record.token@,
        t.5.0 == record.ballot,
        t.5.1 == record.generation,
        t.5.2 == record.lease_nanos,
        t.5.3 == record.horizon_nanos,
        t.6.0 <==> record.observed is Some,
        record.observed matches Some(seen) ==> t.6.1 == seen.ballot && t.6.2 == seen.generation
            && t.6.3 == seen.vacant,
        t.7.0 == record.leader_record_written,
        t.7.1 == record.recovery_noop,
        t.7.2 == record.maybe_committed,
        t.7.3 == record.superseded,
        t.8.0 == record.local_nanos,
        t.8.1 == record.sim_nanos,
        t.8.2 <==> record.observation_start_nanos is Some,
        record.observation_start_nanos matches Some(start) ==> t.8.3 == start,
{
}

/// A tuple is turned down exactly where its version is another, its name is no operation's,
/// or its token is not sixteen bytes.
pub proof fn a_tuple_is_turned_down_for_version_name_or_token(t: RecordTuple)
    ensures
        log_schema::tuple_error(t) is None <==> {
            &&& t.0 == log_schema::LOG_SCHEMA_VERSION
            &&& exists|op: OpKind| #[trigger] log_schema::wire_name(op) == t.1
            &&& t.4.len() == 16
        },
{
}

/// Escaping goes byte by byte: a zero is followed by a full byte, any other stands as it is.
pub proof fn escaping_goes_byte_by_byte(a: Seq<u8>, b: Seq<u8>, byte: u8)
    ensures
        log_schema::escaped(a + b) == log_schema::escaped(a) + log_schema::escaped(b),
        log_schema::escaped(seq![byte]) == if byte == 0 {
            seq![0u8, 255u8]
        } else {
            seq![byte]
        },
        log_schema::escaped(Seq::empty()) == Seq::<u8>::empty(),
    decreases a.len(),
{
    let one = seq![byte];
    assert(one.skip(1) =~= Seq::<u8>::empty());
    assert(log_schema::escaped(one.skip(1)) =~= Seq::<u8>::empty());
    assert(seq![0u8, 0xffu8] + Seq::<u8>::empty() =~= seq![0u8, 255u8]);
    assert(seq![byte] + Seq::<u8>::empty() =~= seq![byte]);
    if a.len() == 0 {
        assert(a + b =~= b);
        assert(log_schema::escaped(a) + log_schema::escaped(b) =~= log_schema::escaped(b));
    } else {
        escaping_goes_byte_by_byte(a.skip(1), b, byte);
        assert((a + b).skip(1) =~= a.skip(1) + b);
        assert(log_schema::escaped(a + b) =~= log_schema::escaped(a) + log_schema::escaped(b));
    }
}

/// A region's prefix is its escaped name, between the mark of a text and a zero; and a key
/// lies in the region exactly where it begins with that prefix.
pub proof fn a_region_is_what_begins_with_its_name(name: Seq<u8>, prefix: Seq<u8>, key: Seq<u8>)
    ensures
        ({
            let p = log_schema::name_prefix(name);
            &&& p.len() == log_schema::escaped(name).len() + 2
            &&& p[0] == 2
            &&& p[p.len() - 1] == 0
            &&& p.subrange(1, p.len() - 1) == log_schema::escaped(name)
        }),
        log_schema::in_region(prefix, key) <==> prefix.len() <= key.len() && forall|i: int|
            0 <= i < prefix.len() ==> #[trigger] prefix[i] == key[i],
{
    let p = log_schema::name_prefix(name);
    assert(p.subrange(1, p.len() - 1) =~= log_schema::escaped(name));
    if log_schema::in_region(prefix, key) {
        assert forall|i: int| 0 <= i < prefix.len() implies #[trigger] prefix[i] == key[i] by {
            assert(key.take(prefix.len() as int)[i] == key[i]);
        }
    }
    if prefix.len() <= key.len() && forall|i: int|
        0 <= i < prefix.len() ==> #[trigger] prefix[i] == key[i] {
        assert(key.take(prefix.len() as int) =~= prefix);
    }
}

/// A committed key is the filed one with the commit version in its ten places and without
/// the four bytes that said where they are.
pub proof fn a_commit_fills_its_ten_places_in(key: Seq<u8>, at: int, commit: Seq<u8>)
    requires
        0 <= at,
        at + 14 <= key.len(),
        commit.len() == 10,
    ensures
        ({
            let r = log_schema::committed_key(key, at, commit);
            &&& r.len() == key.len() - 4
            &&& forall|i: int| 0 <= i < r.len() && !(at <= i < at + 10) ==> #[trigger] r[i] == key[i]
            &&& forall|i: int| at <= i < at + 10 ==> #[trigger] r[i] == commit[i - at]
        }),
{
}

// ---------------------------------------------------------------------------
// The leader-lease log
// ---------------------------------------------------------------------------

/// A span is its whole seconds and the nanoseconds beyond them.
pub proof fn a_span_is_its_seconds_and_what_is_beyond(span: nat)
    requires
        span <= duration::longest(),
    ensures
        lease_wire::nanos_of(span) < 1_000_000_000,
        span == lease_wire::secs_of(span) * 1_000_000_000 + lease_wire::nanos_of(span),
        lease_wire::span_of(lease_wire::secs_of(span), lease_wire::nanos_of(span)) == span,
{
    assert(span / 1_000_000_000 <= u64::MAX);
}

/// A stored span is read where its nanoseconds are less than a second, and is then its
/// seconds and they together.
pub proof fn a_span_is_read_where_its_nanoseconds_are_few(secs: u64, nanos: u32)
    ensures
        lease_wire::read_span((secs, nanos)) is Ok <==> nanos < 1_000_000_000,
        nanos < 1_000_000_000 ==> lease_wire::read_span((secs, nanos))->Ok_0 == secs
            * 1_000_000_000 + nanos,
{
}

/// An absent span is stored as zeroes, and read as absent only from zeroes; what is stored
/// of a span that is there is read back, and nothing else is read as it.
pub proof fn an_optional_span_is_stored_in_one_way(present: bool, secs: u64, nanos: u32)
    ensures
        lease_wire::read_optional_span(present, secs, nanos) is Ok <==> if present {
            nanos < 1_000_000_000
        } else {
            secs == 0 && nanos == 0
        },
        lease_wire::read_optional_span(present, secs, nanos) matches Ok(span) ==> {
            &&& span is Some <==> present
            &&& lease_wire::stored_span(span) == (present, secs, nanos)
        },
        lease_wire::stored_span(None) == (false, 0u64, 0u32),
{
    if present && nanos < 1_000_000_000 {
        let span = lease_wire::span_of(secs, nanos);
        assert(span / 1_000_000_000 == secs && span % 1_000_000_000 == nanos);
    }
}

/// An owner is read as there exactly where it is marked so and has a name, and as absent
/// exactly where it is not and has none; anything else is turned down.
pub proof fn an_owner_is_there_with_a_name_or_not_at_all(present: bool, owner: Seq<char>)
    ensures
        lease_wire::read_owner(present, owner) is Ok <==> (present <==> owner.len() > 0),
        present && owner.len() > 0 ==> lease_wire::read_owner(present, owner)->Ok_0 == Some(owner),
        !present && owner.len() == 0 ==> lease_wire::read_owner(present, owner)->Ok_0 is None,
{
}

/// A value is read as there where it is marked so, empty or not, and as absent exactly where
/// it is not and is empty.
pub proof fn a_value_is_there_or_empty(present: bool, value: Seq<u8>)
    ensures
        lease_wire::read_value(present, value) is Ok <==> present || value.len() == 0,
        present ==> lease_wire::read_value(present, value)->Ok_0 == Some(value),
        !present && value.len() == 0 ==> lease_wire::read_value(present, value)->Ok_0 is None,
{
}

/// A state's places: its rank, its owner and its lease.
pub proof fn a_state_has_its_places(state: DurableView)
    ensures
        ({
            let t = lease_wire::stored_durable(state);
            &&& t.0 == state.rank
            &&& t.1 <==> state.owner is Some
            &&& state.owner matches Some(owner) ==> t.2 == owner
            &&& state.owner is None ==> t.2.len() == 0
            &&& (t.3, t.4, t.5) == lease_wire::stored_span(state.lease_duration)
        }),
{
}

/// A state is read exactly from what it is stored as: whatever can be read is stored in that
/// very way.
pub proof fn a_state_is_stored_in_one_way(t: DurableTuple)
    ensures
        lease_wire::read_durable(t) is Ok <==> (t.1 <==> t.2.len() > 0) && (if t.3 {
            t.5 < 1_000_000_000
        } else {
            t.4 == 0 && t.5 == 0
        }),
        lease_wire::read_durable(t) matches Ok(state) ==> state.rank == t.0
            && lease_wire::stored_durable(state) == t,
{
    an_owner_is_there_with_a_name_or_not_at_all(t.1, t.2);
    an_optional_span_is_stored_in_one_way(t.3, t.4, t.5);
    if let Ok(state) = lease_wire::read_durable(t) {
        let s = lease_wire::stored_durable(state);
        assert(s.2 =~= t.2);
        assert(s == t);
    }
}

/// What a caller knows has its places: what kind of knowledge it is, whom it concerns, the
/// rank, the lease and the instant. Knowing nothing is zeroes throughout.
pub proof fn what_a_caller_knows_has_its_places(local: LocalView)
    ensures
        ({
            let t = lease_wire::stored_local(local);
            match local {
                LocalView::Unknown => {
                    &&& t.0 == lease_types::LOCAL_UNKNOWN
                    &&& !t.1 && t.2.len() == 0 && t.3 == 0 && !t.4 && t.5 == 0 && t.6 == 0 && t.7
                        == 0 && t.8 == 0
                },
                LocalView::Observation { owner, rank, lease_duration, observed_at } => {
                    &&& t.0 == lease_types::LOCAL_OBSERVATION
                    &&& t.1 && t.2 == owner && t.3 == rank
                    &&& (t.4, t.5, t.6) == lease_wire::stored_span(Some(lease_duration))
                    &&& (true, t.7, t.8) == lease_wire::stored_span(Some(observed_at))
                },
                LocalView::Leadership { participant, rank, lease_duration, renewed_at } => {
                    &&& t.0 == lease_types::LOCAL_LEADERSHIP
                    &&& t.1 && t.2 == participant && t.3 == rank
                    &&& (t.4, t.5, t.6) == lease_wire::stored_span(Some(lease_duration))
                    &&& (true, t.7, t.8) == lease_wire::stored_span(Some(renewed_at))
                },
            }
        }),
{
}

/// What a caller knows is read exactly from what it is stored as: whatever can be read is
/// stored in that very way, as the kind of knowledge it is marked as.
pub proof fn what_a_caller_knows_is_stored_in_one_way(t: LocalTuple)
    ensures
        lease_wire::read_local(t) matches Ok(local) ==> {
            &&& lease_wire::stored_local(local) == t
            &&& local is Unknown <==> t.0 == lease_types::LOCAL_UNKNOWN
            &&& local is Observation <==> t.0 == lease_types::LOCAL_OBSERVATION
            &&& local is Leadership <==> t.0 == lease_types::LOCAL_LEADERSHIP
        },
{
    an_owner_is_there_with_a_name_or_not_at_all(t.1, t.2);
    an_optional_span_is_stored_in_one_way(t.4, t.5, t.6);
    an_optional_span_is_stored_in_one_way(true, t.7, t.8);
    if let Ok(local) = lease_wire::read_local(t) {
        let s = lease_wire::stored_local(local);
        if local is Unknown {
            let at = lease_wire::span_of(t.7, t.8);
            assert(at == 0 ==> t.7 == 0 && t.8 == 0);
        }
        assert(s.2 =~= t.2);
        assert(s == t);
    }
}

/// An entry's places: kind, actor, the states before and after, what the caller knew, whether
/// it adopts, when it started, the configured lease, the planned delay, the transition, the
/// result, and last the write with its ranks, what it found, whether it committed and its
/// payload.
pub proof fn an_entry_has_its_places(e: EntryView)
    ensures
        ({
            let t = lease_wire::stored_entry(e);
            &&& t.0 == e.kind
            &&& t.1 == e.actor
            &&& t.2 == lease_wire::stored_durable(e.prior)
            &&& t.3 == lease_wire::stored_durable(e.current)
            &&& t.4 == lease_wire::stored_local(e.local_input)
            &&& t.5 == e.tracks_local_state
            &&& (true, t.6.0, t.6.1) == lease_wire::stored_span(Some(e.attempt_started_at))
            &&& (true, t.7.0, t.7.1) == lease_wire::stored_span(Some(e.configured_lease_duration))
            &&& t.8 == lease_wire::stored_span(e.planned_adoption_delay)
            &&& t.9 == e.transition
            &&& t.10 == e.result
            &&& t.11.0 == e.requested_write_rank
            &&& t.11.1 == e.observed_write_rank
            &&& t.11.2 <==> e.observed_value is Some
            &&& e.observed_value matches Some(value) ==> t.11.3 == value
            &&& e.observed_value is None ==> t.11.3.len() == 0
            &&& t.11.4 == e.protected_write_committed
            &&& t.11.5 == e.payload
        }),
{
}

/// An entry is read exactly from what it is stored as, under the stamp, client, incarnation
/// and number of its key: whatever can be read is stored in that very way.
pub proof fn an_entry_is_stored_in_one_way(fields: (Seq<u8>, i32, u64, u64), t: EntryTuple)
    ensures
        lease_wire::read_entry(fields, t) matches Ok(e) ==> {
            &&& lease_wire::stored_entry(e) == t
            &&& e.versionstamp == fields.0
            &&& e.client_id == fields.1
            &&& e.incarnation == fields.2
            &&& e.op_num == fields.3
        },
        lease_wire::read_entry(fields, t) is Ok <==> {
            &&& lease_wire::read_durable(t.2) is Ok
            &&& lease_wire::read_durable(t.3) is Ok
            &&& lease_wire::read_local(t.4) is Ok
            &&& t.6.1 < 1_000_000_000
            &&& t.7.1 < 1_000_000_000
            &&& if t.8.0 {
                t.8.2 < 1_000_000_000
            } else {
                t.8.1 == 0 && t.8.2 == 0
            }
            &&& t.11.2 || t.11.3.len() == 0
        },
{
    a_state_is_stored_in_one_way(t.2);
    a_state_is_stored_in_one_way(t.3);
    what_a_caller_knows_is_stored_in_one_way(t.4);
    an_optional_span_is_stored_in_one_way(true, t.6.0, t.6.1);
    an_optional_span_is_stored_in_one_way(true, t.7.0, t.7.1);
    an_optional_span_is_stored_in_one_way(t.8.0, t.8.1, t.8.2);
    a_value_is_there_or_empty(t.11.2, t.11.3);
    if let Ok(e) = lease_wire::read_entry(fields, t) {
        let s = lease_wire::stored_entry(e);
        assert(s.11.3 =~= t.11.3);
        assert(s.6 == t.6);
        assert(s.7 == t.7);
        assert(s.11 == t.11);
        assert(s == t);
    }
}

// ---------------------------------------------------------------------------
// Texts
// ---------------------------------------------------------------------------

/// What a row of digits stands for.
pub open spec fn stands_for(digits: Seq<char>) -> int
    decreases digits.len(),
{
    if digits.len() == 0 {
        0
    } else {
        stands_for(digits.drop_last()) * 10 + (digits.last() as int - '0' as int)
    }
}

proof fn a_digit_is_one_character(digit: nat)
    requires
        digit < 10,
    ensures
        text::digit_text(digit).len() == 1,
        text::digit_text(digit)[0] as int == '0' as int + digit,
{
    reveal_strlit("0");
    reveal_strlit("1");
    reveal_strlit("2");
    reveal_strlit("3");
    reveal_strlit("4");
    reveal_strlit("5");
    reveal_strlit("6");
    reveal_strlit("7");
    reveal_strlit("8");
    reveal_strlit("9");
}

/// A number's text is made of digits alone, stands for the number, and does not begin with
/// a zero unless the number is zero.
pub proof fn a_numbers_text_stands_for_it(n: nat)
    ensures
        text::nat_text(n).len() > 0,
        forall|i: int|
            0 <= i < text::nat_text(n).len() ==> '0' as int <= #[trigger] text::nat_text(n)[i] as int
                <= '9' as int,
        stands_for(text::nat_text(n)) == n,
        n > 0 ==> text::nat_text(n)[0] != '0',
    decreases n,
{
    if n < 10 {
        a_digit_is_one_character(n);
        let t = text::nat_text(n);
        assert(t.drop_last() =~= Seq::<char>::empty());
        assert(stands_for(t.drop_last()) == 0);
    } else {
        a_numbers_text_stands_for_it(n / 10);
        a_digit_is_one_character(n % 10);
        let t = text::nat_text(n);
        let front = text::nat_text(n / 10);
        assert(t.drop_last() =~= front);
        assert(t.last() == text::digit_text(n % 10)[0]);
        assert(t[0] == front[0]);
    }
}

/// Two numbers with the same text are the same number.
pub proof fn texts_tell_numbers_apart(a: nat, b: nat)
    ensures
        text::nat_text(a) == text::nat_text(b) ==> a == b,
{
    a_numbers_text_stands_for_it(a);
    a_numbers_text_stands_for_it(b);
}

/// A negative number's text is that of its amount with a minus in front, any other's is that
/// of the number itself.
pub proof fn a_minus_stands_in_front_of_what_is_negative(n: int)
    ensures
        n >= 0 ==> text::int_text(n) == text::nat_text(n as nat),
        n < 0 ==> text::int_text(n).len() > 1 && text::int_text(n)[0] == '-' && text::int_text(
            n,
        ).skip(1) == text::nat_text((-n) as nat),
{
    reveal_strlit("-");
    if n < 0 {
        a_numbers_text_stands_for_it((-n) as nat);
        assert(text::int_text(n).skip(1) =~= text::nat_text((-n) as nat));
    }
}

/// A truth value's text says which it is.
pub proof fn a_truth_value_says_which_it_is(b: bool)
    ensures
        b ==> text::bool_text(b) == "true"@,
        !b ==> text::bool_text(b) == "false"@,
{
}

/// The text of the bytes from `from` on, as they stand behind others.
pub open spec fn listed_bytes(bytes: Seq<u8>, from: int) -> Seq<char>
    decreases bytes.len() - from,
{
    if from >= bytes.len() {
        Seq::empty()
    } else {
        seq![',', ' '] + text::nat_text(bytes[from] as nat) + listed_bytes(bytes, from + 1)
    }
}

proof fn a_tail_lists_its_bytes(bytes: Seq<u8>, from: int)
    requires
        0 < from <= bytes.len(),
    ensures
        text::bytes_tail_text(bytes, from) == listed_bytes(bytes, from) + seq![']'],
    decreases bytes.len() - from,
{
    reveal_strlit("]");
    reveal_strlit(", ");
    if from < bytes.len() {
        a_tail_lists_its_bytes(bytes, from + 1);
        assert(", "@ =~= seq![',', ' ']);
        assert(text::bytes_tail_text(bytes, from) =~= listed_bytes(bytes, from) + seq![']']);
    } else {
        assert("]"@ =~= seq![']']);
        assert(listed_bytes(bytes, from) + seq![']'] =~= seq![']']);
    }
}

/// Bytes are listed as numbers between brackets, with a comma and a space between two.
pub proof fn bytes_are_listed_between_brackets(bytes: Seq<u8>)
    ensures
        bytes.len() == 0 ==> text::bytes_text(bytes) == seq!['[', ']'],
        bytes.len() > 0 ==> text::bytes_text(bytes) == seq!['['] + text::nat_text(bytes[0] as nat)
            + listed_bytes(bytes, 1) + seq![']'],
{
    reveal_strlit("[");
    reveal_strlit("]");
    if bytes.len() > 0 {
        a_tail_lists_its_bytes(bytes, 1);
        assert(text::bytes_text(bytes) =~= seq!['['] + text::nat_text(bytes[0] as nat)
            + listed_bytes(bytes, 1) + seq![']']);
    } else {
        assert(text::bytes_text(bytes) =~= seq!['[', ']']);
    }
}

// ---------------------------------------------------------------------------
// Stamps and reports
// ---------------------------------------------------------------------------

/// Stamps of one length tell commits apart: none but the same bytes have the same value.
pub proof fn stamps_tell_commits_apart(a: Seq<u8>, b: Seq<u8>)
    requires
        a.len() == b.len(),
        stamps::stamp_value(a) == stamps::stamp_value(b),
    ensures
        a == b,
    decreases a.len(),
{
    if a.len() > 0 {
        assert(a.last() == b.last());
        stamps_tell_commits_apart(a.drop_last(), b.drop_last());
        assert(a =~= a.drop_last().push(a.last()));
        assert(b =~= b.drop_last().push(b.last()));
    } else {
        assert(a =~= b);
    }
}

/// A stamp's value is that of its bytes as one number, the most telling byte first.
pub proof fn a_stamp_counts_its_first_bytes_most(front: Seq<u8>, byte: u8)
    ensures
        stamps::stamp_value(front.push(byte)) == stamps::stamp_value(front) * 256 + byte,
        stamps::stamp_value(Seq::empty()) == 0,
{
    assert(front.push(byte).drop_last() =~= front);
}

/// Findings are gathered from the items in order: what a rule finds in an item stands behind
/// what it finds in the items before, all of it and as it was found.
pub proof fn findings_are_gathered_in_order<A>(
    items: Seq<A>,
    n: int,
    rule: spec_fn(int, A) -> Seq<Finding>,
    i: int,
    k: int,
)
    requires
        0 <= i < n <= items.len(),
        0 <= k < rule(i, items[i]).len(),
    ensures
        report::gathered(items, i, rule).len() + k < report::gathered(items, n, rule).len(),
        report::gathered(items, n, rule)[report::gathered(items, i, rule).len() + k] == rule(
            i,
            items[i],
        )[k],
    decreases n,
{
    if i < n - 1 {
        findings_are_gathered_in_order(items, n - 1, rule, i, k);
    }
}

/// A finding is reported exactly where its condition is met.
pub proof fn a_finding_is_reported_where_it_applies(broken: bool, finding: Finding)
    ensures
        broken ==> report::when(broken, finding) == seq![finding],
        !broken ==> report::when(broken, finding).len() == 0,
{
}

/// A finding names the entries it is about.
pub proof fn a_finding_names_its_entries(first: usize, second: usize, detail: Seq<char>)
    ensures
        report::found_at(first, detail).indices == seq![first],
        report::found_between(first, second, detail).indices == seq![first, second],
        report::found_overall(detail).indices.len() == 0,
        report::found_at(first, detail).detail == detail,
        report::found_between(first, second, detail).detail == detail,
        report::found_overall(detail).detail == detail,
{
}

/// A capped report keeps the first findings as they are, up to its cap, and where there were
/// more it ends with one finding more, which is about no entry.
pub proof fn a_cap_keeps_the_first_findings(found: Seq<Finding>)
    ensures
        ({
            let cap = report::MAX_VIOLATIONS_KEPT as int;
            let r = report::capped(found);
            &&& found.len() <= cap ==> r == found
            &&& found.len() > cap ==> r.len() == cap + 1 && r.take(cap) == found.take(cap)
                && r.last().indices.len() == 0
        }),
{
    let cap = report::MAX_VIOLATIONS_KEPT as int;
    if found.len() > cap {
        assert(report::capped(found).take(cap) =~= found.take(cap));
    }
}

/// A bounded list keeps its first indices, up to its bound.
pub proof fn a_bound_keeps_the_first_indices(indices: Seq<usize>)
    ensures
        ({
            let bound = report::MAX_INDICES_KEPT as int;
            let r = report::bounded(indices);
            &&& indices.len() <= bound ==> r == indices
            &&& indices.len() > bound ==> r == indices.take(bound)
        }),
{
}

} // verus!

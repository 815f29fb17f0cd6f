//! How the leader-lease simulation stores what it logs: plain tuples, packed
//! with the FoundationDB tuple layer, with every absent field zeroed behind a
//! flag.

use crate::duration::{Duration, NANOS_PER_SEC};
use crate::lease_types;
use crate::lease_types::{
    copy_bytes, DurableState, DurableView, EntryView, LocalInput, LocalView, LogEntry,
    LOCAL_LEADERSHIP, LOCAL_OBSERVATION, LOCAL_UNKNOWN,
};
use crate::log_schema;
use crate::log_schema::KeySpace;
use crate::text::number_text;
use foundationdb_tuple::{Subspace, Versionstamp};
use vstd::prelude::*;
use vstd::string::*;
use vstd::utf8::*;

verus! {

/// Why stored bytes are no log entry.
#[derive(Debug, PartialEq, Eq)]
pub enum LogError {
    /// The tuple layer refused them; its error, printed.
    Pack(String),
    /// They are a tuple of the right shape that says nothing sensible.
    Invalid(String),
}

/// What a [`LogError`] says.
#[verifier::ext_equal]
pub enum ErrorView {
    Pack(Seq<char>),
    Invalid(Seq<char>),
}

impl View for LogError {
    type V = ErrorView;

    open spec fn view(&self) -> ErrorView {
        match *self {
            LogError::Pack(text) => ErrorView::Pack(text@),
            LogError::Invalid(text) => ErrorView::Invalid(text@),
        }
    }
}

fn invalid(message: &str) -> (r: LogError)
    ensures
        r@ == ErrorView::Invalid(message@),
{
    LogError::Invalid(message.to_owned())
}

/// A span as seconds and nanoseconds.
pub type DurationWire = (u64, u32);

/// An optional span behind its presence flag.
pub type OptionalDurationWire = (bool, u64, u32);

/// A durable state: rank, owner behind its flag, lease behind its flag.
pub type DurableWire = (u64, bool, String, bool, u64, u32);

/// A local input: kind, actor behind its flag, rank, lease behind its flag, and
/// the time it was observed or renewed.
pub type LocalWire = (i64, bool, String, u64, bool, u64, u32, u64, u32);

/// The protected write: requested rank, observed rank, observed value behind its
/// flag, committed, payload.
pub type ProtectedWire = (u64, u64, bool, Vec<u8>, bool, Vec<u8>);

/// A [`DurableWire`] in specifications.
pub type DurableTuple = (u64, bool, Seq<char>, bool, u64, u32);

/// A [`LocalWire`] in specifications.
pub type LocalTuple = (i64, bool, Seq<char>, u64, bool, u64, u32, u64, u32);

/// A [`ProtectedWire`] in specifications.
pub type ProtectedTuple = (u64, u64, bool, Seq<u8>, bool, Seq<u8>);

/// A whole entry as the tuple layer stores it.
pub type EntryTuple = (
    i64,
    Seq<char>,
    DurableTuple,
    DurableTuple,
    LocalTuple,
    bool,
    DurationWire,
    DurationWire,
    OptionalDurationWire,
    i64,
    bool,
    ProtectedTuple,
);

/// The tuple of a stored durable state.
pub open spec fn durable_tuple(wire: DurableWire) -> DurableTuple {
    (wire.0, wire.1, wire.2@, wire.3, wire.4, wire.5)
}

/// The tuple of a stored local input.
pub open spec fn local_tuple(wire: LocalWire) -> LocalTuple {
    (wire.0, wire.1, wire.2@, wire.3, wire.4, wire.5, wire.6, wire.7, wire.8)
}

/// The tuple of a stored protected write.
pub open spec fn protected_tuple(wire: ProtectedWire) -> ProtectedTuple {
    (wire.0, wire.1, wire.2, wire.3@, wire.4, wire.5@)
}

/// Whole seconds of a span in nanoseconds.
pub open spec fn secs_of(span: nat) -> u64 {
    (span / 1_000_000_000) as u64
}

/// Nanoseconds of a span beyond its whole seconds.
pub open spec fn nanos_of(span: nat) -> u32 {
    (span % 1_000_000_000) as u32
}

/// A span of seconds and nanoseconds.
pub open spec fn span_of(secs: u64, nanos: u32) -> nat {
    (secs as nat) * 1_000_000_000 + nanos as nat
}

// ---------------------------------------------------------------------------
// Spans
// ---------------------------------------------------------------------------

/// A span as it is stored.
pub fn duration_wire(duration: Duration) -> (r: DurationWire)
    ensures
        r == (secs_of(duration@), nanos_of(duration@)),
        r.1 < NANOS_PER_SEC,
{
    (duration.as_secs(), duration.subsec_nanos())
}

/// What a stored span says.
pub open spec fn read_span(wire: DurationWire) -> Result<nat, ErrorView> {
    if wire.1 >= NANOS_PER_SEC {
        Err(ErrorView::Invalid("duration nanoseconds out of range"@))
    } else {
        Ok(span_of(wire.0, wire.1))
    }
}

/// The span a stored one says, or why it says none.
pub fn duration_from_wire(wire: DurationWire) -> (r: Result<Duration, LogError>)
    ensures
        match r {
            Ok(span) => read_span(wire) == Ok::<nat, ErrorView>(span@),
            Err(error) => read_span(wire) == Err::<nat, ErrorView>(error@),
        },
{
    if wire.1 >= NANOS_PER_SEC {
        return Err(invalid("duration nanoseconds out of range"));
    }
    Ok(Duration::new(wire.0, wire.1))
}

/// An optional span as it is stored.
pub open spec fn stored_span(span: Option<nat>) -> OptionalDurationWire {
    match span {
        Some(span) => (true, secs_of(span), nanos_of(span)),
        None => (false, 0, 0),
    }
}

/// An optional span as it is stored.
pub fn optional_duration_wire(duration: Option<Duration>) -> (r: OptionalDurationWire)
    ensures
        r == stored_span(lease_types::span_view(duration)),
{
    match duration {
        Some(duration) => (true, duration.as_secs(), duration.subsec_nanos()),
        None => (false, 0, 0),
    }
}

/// What a stored optional span says.
pub open spec fn read_optional_span(present: bool, secs: u64, nanos: u32) -> Result<
    Option<nat>,
    ErrorView,
> {
    if present {
        match read_span((secs, nanos)) {
            Ok(span) => Ok(Some(span)),
            Err(error) => Err(error),
        }
    } else if secs == 0 && nanos == 0 {
        Ok(None)
    } else {
        Err(ErrorView::Invalid("absent duration has non-zero fields"@))
    }
}

/// The optional span three stored fields say, or why they say none.
pub fn optional_duration(present: bool, secs: u64, nanos: u32) -> (r: Result<
    Option<Duration>,
    LogError,
>)
    ensures
        match r {
            Ok(span) => read_optional_span(present, secs, nanos) == Ok::<Option<nat>, ErrorView>(
                lease_types::span_view(span),
            ),
            Err(error) => read_optional_span(present, secs, nanos)
                == Err::<Option<nat>, ErrorView>(error@),
        },
{
    if present {
        match duration_from_wire((secs, nanos)) {
            Ok(span) => Ok(Some(span)),
            Err(error) => Err(error),
        }
    } else if secs == 0 && nanos == 0 {
        Ok(None)
    } else {
        Err(invalid("absent duration has non-zero fields"))
    }
}

/// The optional span a stored one says, or why it says none.
pub fn optional_duration_from_wire(wire: OptionalDurationWire) -> (r: Result<
    Option<Duration>,
    LogError,
>)
    ensures
        match r {
            Ok(span) => read_optional_span(wire.0, wire.1, wire.2) == Ok::<Option<nat>, ErrorView>(
                lease_types::span_view(span),
            ),
            Err(error) => read_optional_span(wire.0, wire.1, wire.2)
                == Err::<Option<nat>, ErrorView>(error@),
        },
{
    optional_duration(wire.0, wire.1, wire.2)
}

// ---------------------------------------------------------------------------
// Owners and values
// ---------------------------------------------------------------------------

/// What a stored owner says: an owner is never empty, and an absent one always
/// is.
pub open spec fn read_owner(present: bool, owner: Seq<char>) -> Result<Option<Seq<char>>, ErrorView> {
    if present && owner.len() > 0 {
        Ok(Some(owner))
    } else if !present && owner.len() == 0 {
        Ok(None)
    } else {
        Err(ErrorView::Invalid("invalid optional owner in operation log"@))
    }
}

fn is_empty_text(text: &str) -> (r: bool)
    ensures
        r == (text@.len() == 0),
{
    text.unicode_len() == 0
}

/// The optional owner two stored fields say, or why they say none.
pub fn optional_owner(present: bool, owner: String) -> (r: Result<Option<String>, LogError>)
    ensures
        match r {
            Ok(found) => read_owner(present, owner@) == Ok::<Option<Seq<char>>, ErrorView>(
                lease_types::text_view(found),
            ),
            Err(error) => read_owner(present, owner@) == Err::<Option<Seq<char>>, ErrorView>(
                error@,
            ),
        },
{
    let empty = is_empty_text(owner.as_str());
    if present && !empty {
        Ok(Some(owner))
    } else if !present && empty {
        Ok(None)
    } else {
        Err(invalid("invalid optional owner in operation log"))
    }
}

/// What a stored value says: an absent one is empty.
pub open spec fn read_value(present: bool, value: Seq<u8>) -> Result<Option<Seq<u8>>, ErrorView> {
    if present {
        Ok(Some(value))
    } else if value.len() == 0 {
        Ok(None)
    } else {
        Err(ErrorView::Invalid("invalid optional value in operation log"@))
    }
}

/// The optional value two stored fields say, or why they say none.
pub fn optional_value(present: bool, value: Vec<u8>) -> (r: Result<Option<Vec<u8>>, LogError>)
    ensures
        match r {
            Ok(found) => read_value(present, value@) == Ok::<Option<Seq<u8>>, ErrorView>(
                lease_types::value_view(found),
            ),
            Err(error) => read_value(present, value@) == Err::<Option<Seq<u8>>, ErrorView>(error@),
        },
{
    if present {
        Ok(Some(value))
    } else if value.len() == 0 {
        Ok(None)
    } else {
        Err(invalid("invalid optional value in operation log"))
    }
}

// ---------------------------------------------------------------------------
// Durable state
// ---------------------------------------------------------------------------

/// A durable state as it is stored.
pub open spec fn stored_durable(state: DurableView) -> DurableTuple {
    let lease = stored_span(state.lease_duration);
    (
        state.rank,
        state.owner is Some,
        match state.owner {
            Some(owner) => owner,
            None => Seq::empty(),
        },
        lease.0,
        lease.1,
        lease.2,
    )
}

/// A durable state as it is stored.
pub fn durable_wire(state: &DurableState) -> (r: DurableWire)
    ensures
        durable_tuple(r) == stored_durable(state@),
{
    let (has_lease, secs, nanos): OptionalDurationWire = optional_duration_wire(
        state.lease_duration,
    );
    let owner = match &state.owner {
        Some(owner) => owner.clone(),
        None => String::new(),
    };
    (state.rank, state.owner.is_some(), owner, has_lease, secs, nanos)
}

/// What a stored durable state says.
pub open spec fn read_durable(t: DurableTuple) -> Result<DurableView, ErrorView> {
    match read_owner(t.1, t.2) {
        Err(error) => Err(error),
        Ok(owner) => match read_optional_span(t.3, t.4, t.5) {
            Err(error) => Err(error),
            Ok(lease_duration) => Ok(DurableView { rank: t.0, owner, lease_duration }),
        },
    }
}

/// The durable state a stored one says, or why it says none.
pub fn durable_from_wire(wire: DurableWire) -> (r: Result<DurableState, LogError>)
    ensures
        match r {
            Ok(state) => read_durable(durable_tuple(wire)) == Ok::<DurableView, ErrorView>(state@),
            Err(error) => read_durable(durable_tuple(wire)) == Err::<DurableView, ErrorView>(
                error@,
            ),
        },
{
    let (rank, has_owner, owner, has_lease, secs, nanos): DurableWire = wire;
    let owner = match optional_owner(has_owner, owner) {
        Ok(owner) => owner,
        Err(error) => {
            return Err(error);
        },
    };
    let lease_duration = match optional_duration(has_lease, secs, nanos) {
        Ok(lease) => lease,
        Err(error) => {
            return Err(error);
        },
    };
    Ok(DurableState { rank, owner, lease_duration })
}

// ---------------------------------------------------------------------------
// Local input
// ---------------------------------------------------------------------------

/// A local input as it is stored.
pub open spec fn stored_local(local: LocalView) -> LocalTuple {
    match local {
        LocalView::Unknown => (LOCAL_UNKNOWN, false, Seq::empty(), 0, false, 0, 0, 0, 0),
        LocalView::Observation { owner, rank, lease_duration, observed_at } => (
            LOCAL_OBSERVATION,
            true,
            owner,
            rank,
            true,
            secs_of(lease_duration),
            nanos_of(lease_duration),
            secs_of(observed_at),
            nanos_of(observed_at),
        ),
        LocalView::Leadership { participant, rank, lease_duration, renewed_at } => (
            LOCAL_LEADERSHIP,
            true,
            participant,
            rank,
            true,
            secs_of(lease_duration),
            nanos_of(lease_duration),
            secs_of(renewed_at),
            nanos_of(renewed_at),
        ),
    }
}

/// A local input as it is stored.
pub fn local_wire(local: &LocalInput) -> (r: LocalWire)
    ensures
        local_tuple(r) == stored_local(local@),
{
    match local {
        LocalInput::Unknown => (LOCAL_UNKNOWN, false, String::new(), 0, false, 0, 0, 0, 0),
        LocalInput::Observation { owner, rank, lease_duration, observed_at } => (
            LOCAL_OBSERVATION,
            true,
            owner.clone(),
            *rank,
            true,
            lease_duration.as_secs(),
            lease_duration.subsec_nanos(),
            observed_at.as_secs(),
            observed_at.subsec_nanos(),
        ),
        LocalInput::Leadership { participant, rank, lease_duration, renewed_at } => (
            LOCAL_LEADERSHIP,
            true,
            participant.clone(),
            *rank,
            true,
            lease_duration.as_secs(),
            lease_duration.subsec_nanos(),
            renewed_at.as_secs(),
            renewed_at.subsec_nanos(),
        ),
    }
}

/// What a stored local input says.
pub open spec fn read_local(t: LocalTuple) -> Result<LocalView, ErrorView> {
    match (read_owner(t.1, t.2), read_optional_span(t.4, t.5, t.6), read_span((t.7, t.8))) {
        (Err(error), _, _) => Err(error),
        (_, Err(error), _) => Err(error),
        (_, _, Err(error)) => Err(error),
        (Ok(actor), Ok(lease), Ok(at)) => if t.0 == LOCAL_UNKNOWN && actor is None && t.3 == 0
            && lease is None && at == 0 {
            Ok(LocalView::Unknown)
        } else if t.0 == LOCAL_OBSERVATION {
            if actor is None {
                Err(ErrorView::Invalid("observation has no owner"@))
            } else if lease is None {
                Err(ErrorView::Invalid("observation has no lease"@))
            } else {
                Ok(
                    LocalView::Observation {
                        owner: actor->Some_0,
                        rank: t.3,
                        lease_duration: lease->Some_0,
                        observed_at: at,
                    },
                )
            }
        } else if t.0 == LOCAL_LEADERSHIP {
            if actor is None {
                Err(ErrorView::Invalid("leadership has no participant"@))
            } else if lease is None {
                Err(ErrorView::Invalid("leadership has no lease"@))
            } else {
                Ok(
                    LocalView::Leadership {
                        participant: actor->Some_0,
                        rank: t.3,
                        lease_duration: lease->Some_0,
                        renewed_at: at,
                    },
                )
            }
        } else {
            Err(ErrorView::Invalid("invalid caller-local input in operation log"@))
        },
    }
}

/// The local input a stored one says, or why it says none.
pub fn local_from_wire(wire: LocalWire) -> (r: Result<LocalInput, LogError>)
    ensures
        match r {
            Ok(local) => read_local(local_tuple(wire)) == Ok::<LocalView, ErrorView>(local@),
            Err(error) => read_local(local_tuple(wire)) == Err::<LocalView, ErrorView>(error@),
        },
{
    let (kind, has_actor, actor, rank, has_lease, secs, nanos, at_secs, at_nanos): LocalWire = wire;
    let actor = match optional_owner(has_actor, actor) {
        Ok(actor) => actor,
        Err(error) => {
            return Err(error);
        },
    };
    let lease = match optional_duration(has_lease, secs, nanos) {
        Ok(lease) => lease,
        Err(error) => {
            return Err(error);
        },
    };
    let at = match duration_from_wire((at_secs, at_nanos)) {
        Ok(at) => at,
        Err(error) => {
            return Err(error);
        },
    };
    if kind == LOCAL_UNKNOWN && actor.is_none() && rank == 0 && lease.is_none() && at.is_zero() {
        Ok(LocalInput::Unknown)
    } else if kind == LOCAL_OBSERVATION {
        match (actor, lease) {
            (None, _) => Err(invalid("observation has no owner")),
            (Some(_), None) => Err(invalid("observation has no lease")),
            (Some(owner), Some(lease_duration)) => Ok(
                LocalInput::Observation { owner, rank, lease_duration, observed_at: at },
            ),
        }
    } else if kind == LOCAL_LEADERSHIP {
        match (actor, lease) {
            (None, _) => Err(invalid("leadership has no participant")),
            (Some(_), None) => Err(invalid("leadership has no lease")),
            (Some(participant), Some(lease_duration)) => Ok(
                LocalInput::Leadership { participant, rank, lease_duration, renewed_at: at },
            ),
        }
    } else {
        Err(invalid("invalid caller-local input in operation log"))
    }
}

// ---------------------------------------------------------------------------
// Laws of the stored forms
// ---------------------------------------------------------------------------

proof fn span_round_trips(span: nat)
    requires
        span <= crate::duration::longest(),
    ensures
        read_span((secs_of(span), nanos_of(span))) == Ok::<nat, ErrorView>(span),
{
    assert(span / 1_000_000_000 <= u64::MAX as nat) by {
        assert(span < (u64::MAX as nat + 1) * 1_000_000_000);
    }
}

/// Whether an owner, if there is one, has a name. The log stores no other.
pub open spec fn named(owner: Option<Seq<char>>) -> bool {
    owner matches Some(name) ==> name.len() > 0
}

/// Whether a span fits a `Duration`.
pub open spec fn fits(span: nat) -> bool {
    span <= crate::duration::longest()
}

/// A durable state is read back as it was stored, provided its owner has a name.
pub proof fn durable_round_trips(state: DurableView)
    requires
        named(state.owner),
        state.lease_duration matches Some(lease) ==> fits(lease),
    ensures
        read_durable(stored_durable(state)) == Ok::<DurableView, ErrorView>(state),
{
    if let Some(lease) = state.lease_duration {
        span_round_trips(lease);
    }
    assert(read_durable(stored_durable(state))->Ok_0 =~= state);
}

/// The parts of a local input that the log can store.
pub open spec fn storable(local: LocalView) -> bool {
    match local {
        LocalView::Unknown => true,
        LocalView::Observation { owner, lease_duration, observed_at, .. } => owner.len() > 0
            && fits(lease_duration) && fits(observed_at),
        LocalView::Leadership { participant, lease_duration, renewed_at, .. } => participant.len()
            > 0 && fits(lease_duration) && fits(renewed_at),
    }
}

/// A local input is read back as it was stored, provided its actor has a name.
pub proof fn local_round_trips(local: LocalView)
    requires
        storable(local),
    ensures
        read_local(stored_local(local)) == Ok::<LocalView, ErrorView>(local),
{
    span_round_trips(0);
    match local {
        LocalView::Unknown => {},
        LocalView::Observation { lease_duration, observed_at, .. } => {
            span_round_trips(lease_duration);
            span_round_trips(observed_at);
        },
        LocalView::Leadership { lease_duration, renewed_at, .. } => {
            span_round_trips(lease_duration);
            span_round_trips(renewed_at);
        },
    }
    assert(read_local(stored_local(local))->Ok_0 =~= local);
}

/// An optional span is read back as it was stored; absent stays absent.
pub proof fn optional_span_round_trips(span: Option<nat>)
    requires
        span matches Some(span) ==> fits(span),
    ensures
        ({
            let t = stored_span(span);
            read_optional_span(t.0, t.1, t.2) == Ok::<Option<nat>, ErrorView>(span)
        }),
{
    if let Some(span) = span {
        span_round_trips(span);
    }
}

// ---------------------------------------------------------------------------
// Payloads
// ---------------------------------------------------------------------------

/// What a leader writes under its rank.
pub fn protected_payload(actor: &str, op_num: u64) -> (r: Vec<u8>)
    ensures
        r@ == lease_types::payload_of("leader"@, actor@, op_num),
{
    "leader".to_owned().concat(":").concat(actor).concat(":").concat(
        number_text(op_num).as_str(),
    ).as_str().as_bytes_vec()
}

/// What a stale writer attempts to write.
pub fn stale_payload(actor: &str, op_num: u64) -> (r: Vec<u8>)
    ensures
        r@ == lease_types::payload_of("stale"@, actor@, op_num),
{
    "stale".to_owned().concat(":").concat(actor).concat(":").concat(
        number_text(op_num).as_str(),
    ).as_str().as_bytes_vec()
}

// ---------------------------------------------------------------------------
// Whole entries
// ---------------------------------------------------------------------------

/// A whole entry's stored value.
pub struct EntryWire {
    /// What the operation was.
    pub kind: i64,
    /// The participant it was run for.
    pub actor: String,
    /// The durable state it found.
    pub prior: DurableWire,
    /// The durable state it left.
    pub current: DurableWire,
    /// The local state it was given.
    pub local: LocalWire,
    /// Whether the caller adopts the local state it returns.
    pub tracks_local_state: bool,
    /// When the attempt started.
    pub attempt_started_at: DurationWire,
    /// The lease the caller was configured with.
    pub configured_lease_duration: DurationWire,
    /// How long the caller means to wait before adopting an observation.
    pub planned_adoption_delay: OptionalDurationWire,
    /// What a poll did.
    pub transition: i64,
    /// Whether the operation succeeded.
    pub result: bool,
    /// The protected write.
    pub protected: ProtectedWire,
}

impl View for EntryWire {
    type V = EntryTuple;

    open spec fn view(&self) -> EntryTuple {
        (
            self.kind,
            self.actor@,
            durable_tuple(self.prior),
            durable_tuple(self.current),
            local_tuple(self.local),
            self.tracks_local_state,
            self.attempt_started_at,
            self.configured_lease_duration,
            self.planned_adoption_delay,
            self.transition,
            self.result,
            protected_tuple(self.protected),
        )
    }
}

/// An entry's value as it is stored.
pub open spec fn stored_entry(entry: EntryView) -> EntryTuple {
    (
        entry.kind,
        entry.actor,
        stored_durable(entry.prior),
        stored_durable(entry.current),
        stored_local(entry.local_input),
        entry.tracks_local_state,
        (secs_of(entry.attempt_started_at), nanos_of(entry.attempt_started_at)),
        (secs_of(entry.configured_lease_duration), nanos_of(entry.configured_lease_duration)),
        stored_span(entry.planned_adoption_delay),
        entry.transition,
        entry.result,
        (
            entry.requested_write_rank,
            entry.observed_write_rank,
            entry.observed_value is Some,
            match entry.observed_value {
                Some(value) => value,
                None => Seq::empty(),
            },
            entry.protected_write_committed,
            entry.payload,
        ),
    )
}

/// How many bytes the strings and byte strings of a stored entry hold.
pub open spec fn held_bytes(t: EntryTuple) -> nat {
    encode_utf8(t.1).len() + encode_utf8(t.2.2).len() + encode_utf8(t.3.2).len() + encode_utf8(
        t.4.2,
    ).len() + t.11.3.len() + t.11.5.len()
}

/// Whether the packed size of a stored entry fits a `u32` whatever its strings and byte
/// strings hold: each of their bytes may take two, and all else takes less than a
/// kilobyte.
pub open spec fn packable(t: EntryTuple) -> bool {
    2 * held_bytes(t) + 1024 <= u32::MAX
}

/// What `foundationdb_tuple::pack` makes of a stored entry.
pub uninterp spec fn packed_entry(t: EntryTuple) -> Seq<u8>;

/// What `foundationdb_tuple::unpack` makes of bytes read as a stored entry: the
/// tuple, or the `Debug` text of the error.
pub uninterp spec fn unpacked_entry(bytes: Seq<u8>) -> Result<EntryTuple, Seq<char>>;

/// Calls `foundationdb_tuple::pack` on a stored entry. The contract names the
/// bytes and says that unpacking them gives the tuple back. Packing counts them in
/// a `u32`, and panics where that does not do.
#[verifier::external_body]
fn pack_entry(w: &EntryWire) -> (r: Vec<u8>)
    requires
        packable(w@),
    ensures
        r@ == packed_entry(w@),
        unpacked_entry(r@) is Ok,
        unpacked_entry(r@)->Ok_0 == w@,
{
    foundationdb_tuple::pack(
        &(w.kind, &w.actor, &w.prior, &w.current, &w.local, w.tracks_local_state,
            w.attempt_started_at, w.configured_lease_duration, w.planned_adoption_delay,
            w.transition, w.result, &w.protected),
    )
}

/// Calls `foundationdb_tuple::unpack` for a stored entry, and prints the error
/// with `Debug` where there is one. The contract names the outcome, which is a
/// function of the bytes alone.
#[verifier::external_body]
fn unpack_entry(bytes: &[u8]) -> (r: Result<EntryWire, String>)
    ensures
        match r {
            Ok(w) => unpacked_entry(bytes@) is Ok && unpacked_entry(bytes@)->Ok_0 == w@,
            Err(text) => unpacked_entry(bytes@) is Err && unpacked_entry(bytes@)->Err_0 == text@,
        },
{
    match foundationdb_tuple::unpack(bytes) {
        Ok((kind, actor, prior, current, local, tracks_local_state, attempt_started_at,
            configured_lease_duration, planned_adoption_delay, transition, result, protected)) => Ok(
            EntryWire { kind, actor, prior, current, local, tracks_local_state, attempt_started_at,
                configured_lease_duration, planned_adoption_delay, transition, result, protected },
        ),
        Err(e) => Err(format!("{e:?}")),
    }
}

/// What packing an entry's key with an incomplete versionstamp gives.
pub uninterp spec fn packed_entry_key(prefix: Seq<u8>, client_id: i32, incarnation: u64, op_num: u64) -> Seq<u8>;

/// What unpacking a key of the region gives: versionstamp, client, incarnation
/// and operation number, or the `Debug` text of the error.
pub uninterp spec fn unpacked_entry_key(prefix: Seq<u8>, key: Seq<u8>) -> Result<(Seq<u8>, i32, u64, u64), Seq<char>>;

/// Whether a key, once a commit has filled its versionstamp in, unpacks to that
/// versionstamp, the client, the incarnation and the operation number.
pub open spec fn filed_entry_is_read(
    prefix: Seq<u8>,
    key: Seq<u8>,
    client_id: i32,
    incarnation: u64,
    op_num: u64,
) -> bool {
    forall|commit: Seq<u8>|
        commit.len() == 10 ==> {
            let fields = unpacked_entry_key(
                prefix,
                #[trigger] log_schema::committed_key(key, prefix.len() as int + 1, commit),
            );
            fields is Ok && fields->Ok_0 == (
                commit + seq![0u8, 0u8],
                client_id,
                incarnation,
                op_num,
            )
        }
}

/// Calls `Subspace::pack_with_versionstamp` on an incomplete versionstamp, a
/// client, an incarnation and an operation number. The contract names the bytes
/// and says that once a commit has filled the versionstamp in, unpacking the key
/// gives the values back. Packing notes where the versionstamp stands, one byte
/// behind the prefix, in a `u32`, and panics where that does not do.
#[verifier::external_body]
fn pack_entry_key(prefix: &[u8], client_id: i32, incarnation: u64, op_num: u64) -> (r: Vec<u8>)
    requires
        prefix@.len() < u32::MAX,
    ensures
        r@ == packed_entry_key(prefix@, client_id, incarnation, op_num),
        r@.len() >= prefix@.len() + 17,
        filed_entry_is_read(prefix@, r@, client_id, incarnation, op_num),
{
    Subspace::from_bytes(prefix).pack_with_versionstamp(
        &(Versionstamp::incomplete(0), client_id, incarnation, op_num),
    )
}

/// Calls `Subspace::unpack` for a versionstamp, a client, an incarnation and an
/// operation number, and prints the error with `Debug` where there is one. The
/// contract names the outcome, which is a function of the prefix and the key
/// alone. A `Subspace` counts its prefix in a `u32`, and panics where that does
/// not do.
#[verifier::external_body]
fn unpack_entry_key(prefix: &[u8], key: &[u8]) -> (r: Result<([u8; 12], i32, u64, u64), String>)
    requires
        prefix@.len() <= u32::MAX,
    ensures
        match r {
            Ok(f) => unpacked_entry_key(prefix@, key@) is Ok && unpacked_entry_key(prefix@, key@)->Ok_0 == (f.0@, f.1, f.2, f.3),
            Err(text) => unpacked_entry_key(prefix@, key@) is Err && unpacked_entry_key(prefix@, key@)->Err_0 == text@,
        },
{
    match Subspace::from_bytes(prefix).unpack::<(Versionstamp, i32, u64, u64)>(key) {
        Ok((stamp, client_id, incarnation, op_num)) => Ok(
            (*stamp.as_bytes(), client_id, incarnation, op_num),
        ),
        Err(e) => Err(format!("{e:?}")),
    }
}

/// The key an entry is written under, with a versionstamp the commit fills in.
pub fn entry_key(subspace: &KeySpace, client_id: i32, incarnation: u64, op_num: u64) -> (r: Vec<u8>)
    requires
        subspace@.len() < u32::MAX,
    ensures
        r@ == packed_entry_key(subspace@, client_id, incarnation, op_num),
        filed_entry_is_read(subspace@, r@, client_id, incarnation, op_num),
{
    pack_entry_key(subspace.prefix.as_slice(), client_id, incarnation, op_num)
}

fn entry_wire(entry: &LogEntry) -> (r: EntryWire)
    ensures
        r@ == stored_entry(entry@),
{
    let observed = match &entry.observed_value {
        Some(value) => copy_bytes(value.as_slice()),
        None => Vec::new(),
    };
    assert(entry.observed_value is None ==> observed@ =~= Seq::<u8>::empty());
    EntryWire {
        kind: entry.kind,
        actor: entry.actor.clone(),
        prior: durable_wire(&entry.prior),
        current: durable_wire(&entry.current),
        local: local_wire(&entry.local_input),
        tracks_local_state: entry.tracks_local_state,
        attempt_started_at: duration_wire(entry.attempt_started_at),
        configured_lease_duration: duration_wire(entry.configured_lease_duration),
        planned_adoption_delay: optional_duration_wire(entry.planned_adoption_delay),
        transition: entry.transition,
        result: entry.result,
        protected: (
            entry.requested_write_rank,
            entry.observed_write_rank,
            entry.observed_value.is_some(),
            observed,
            entry.protected_write_committed,
            copy_bytes(entry.payload.as_slice()),
        ),
    }
}

fn byte_count(text: &String) -> (r: u128)
    ensures
        r == encode_utf8(text@).len(),
        r <= usize::MAX,
{
    text.as_str().as_bytes().len() as u128
}

/// Whether an entry is small enough to be written whatever its strings hold.
pub fn is_packable(entry: &LogEntry) -> (r: bool)
    ensures
        r == packable(stored_entry(entry@)),
{
    let wire = entry_wire(entry);
    let held: u128 = byte_count(&wire.actor) + byte_count(&wire.prior.2) + byte_count(
        &wire.current.2,
    ) + byte_count(&wire.local.2) + wire.protected.3.len() as u128 + wire.protected.5.len() as u128;
    assert(held == held_bytes(wire@));
    2 * held + 1024 <= u32::MAX as u128
}

/// The value an entry is written with.
pub fn entry_value(entry: &LogEntry) -> (r: Vec<u8>)
    requires
        packable(stored_entry(entry@)),
    ensures
        r@ == packed_entry(stored_entry(entry@)),
        unpacked_entry(r@) is Ok,
        unpacked_entry(r@)->Ok_0 == stored_entry(entry@),
{
    let wire = entry_wire(entry);
    pack_entry(&wire)
}

/// What a stored key and value say, or the first reason they say nothing.
pub open spec fn read_entry(fields: (Seq<u8>, i32, u64, u64), t: EntryTuple) -> Result<
    EntryView,
    ErrorView,
> {
    match (
        read_durable(t.2),
        read_durable(t.3),
        read_local(t.4),
        read_span(t.6),
        read_span(t.7),
        read_optional_span(t.8.0, t.8.1, t.8.2),
        read_value(t.11.2, t.11.3),
    ) {
        (Err(error), _, _, _, _, _, _) => Err(error),
        (_, Err(error), _, _, _, _, _) => Err(error),
        (_, _, Err(error), _, _, _, _) => Err(error),
        (_, _, _, Err(error), _, _, _) => Err(error),
        (_, _, _, _, Err(error), _, _) => Err(error),
        (_, _, _, _, _, Err(error), _) => Err(error),
        (_, _, _, _, _, _, Err(error)) => Err(error),
        (
            Ok(prior),
            Ok(current),
            Ok(local_input),
            Ok(attempt_started_at),
            Ok(configured_lease_duration),
            Ok(planned_adoption_delay),
            Ok(observed_value),
        ) => Ok(
            EntryView {
                versionstamp: fields.0,
                client_id: fields.1,
                incarnation: fields.2,
                op_num: fields.3,
                kind: t.0,
                actor: t.1,
                prior,
                current,
                local_input,
                tracks_local_state: t.5,
                attempt_started_at,
                configured_lease_duration,
                planned_adoption_delay,
                transition: t.9,
                result: t.10,
                requested_write_rank: t.11.0,
                observed_write_rank: t.11.1,
                observed_value,
                protected_write_committed: t.11.4,
                payload: t.11.5,
            },
        ),
    }
}

/// What decoding a key and its value gives.
pub open spec fn decoded_entry(prefix: Seq<u8>, key: Seq<u8>, value: Seq<u8>) -> Result<
    EntryView,
    ErrorView,
> {
    match (unpacked_entry_key(prefix, key), unpacked_entry(value)) {
        (Err(text), _) => Err(ErrorView::Pack(text)),
        (_, Err(text)) => Err(ErrorView::Pack(text)),
        (Ok(fields), Ok(t)) => read_entry(fields, t),
    }
}

/// The entry a stored key and value say, or the first reason they say none.
pub fn entry_from_wire(fields: ([u8; 12], i32, u64, u64), wire: EntryWire) -> (r: Result<
    LogEntry,
    LogError,
>)
    ensures
        match r {
            Ok(entry) => read_entry((fields.0@, fields.1, fields.2, fields.3), wire@)
                == Ok::<EntryView, ErrorView>(entry@),
            Err(error) => read_entry((fields.0@, fields.1, fields.2, fields.3), wire@)
                == Err::<EntryView, ErrorView>(error@),
        },
{
    let EntryWire {
        kind,
        actor,
        prior,
        current,
        local,
        tracks_local_state,
        attempt_started_at,
        configured_lease_duration,
        planned_adoption_delay,
        transition,
        result,
        protected,
    } = wire;
    let prior = match durable_from_wire(prior) {
        Ok(prior) => prior,
        Err(error) => {
            return Err(error);
        },
    };
    let current = match durable_from_wire(current) {
        Ok(current) => current,
        Err(error) => {
            return Err(error);
        },
    };
    let local_input = match local_from_wire(local) {
        Ok(local) => local,
        Err(error) => {
            return Err(error);
        },
    };
    let attempt_started_at = match duration_from_wire(attempt_started_at) {
        Ok(at) => at,
        Err(error) => {
            return Err(error);
        },
    };
    let configured_lease_duration = match duration_from_wire(configured_lease_duration) {
        Ok(lease) => lease,
        Err(error) => {
            return Err(error);
        },
    };
    let planned_adoption_delay = match optional_duration_from_wire(planned_adoption_delay) {
        Ok(delay) => delay,
        Err(error) => {
            return Err(error);
        },
    };
    let (requested, observed, has_value, value, committed, payload): ProtectedWire = protected;
    let observed_value = match optional_value(has_value, value) {
        Ok(value) => value,
        Err(error) => {
            return Err(error);
        },
    };
    Ok(
        LogEntry {
            versionstamp: fields.0,
            client_id: fields.1,
            incarnation: fields.2,
            op_num: fields.3,
            kind,
            actor,
            prior,
            current,
            local_input,
            tracks_local_state,
            attempt_started_at,
            configured_lease_duration,
            planned_adoption_delay,
            transition,
            result,
            requested_write_rank: requested,
            observed_write_rank: observed,
            observed_value,
            protected_write_committed: committed,
            payload,
        },
    )
}

/// The entry filed under a key, or why there is none.
pub fn decode_log_entry(subspace: &KeySpace, key: &[u8], value: &[u8]) -> (r: Result<
    LogEntry,
    LogError,
>)
    requires
        subspace@.len() <= u32::MAX,
    ensures
        match r {
            Ok(entry) => decoded_entry(subspace@, key@, value@) == Ok::<EntryView, ErrorView>(
                entry@,
            ),
            Err(error) => decoded_entry(subspace@, key@, value@) == Err::<EntryView, ErrorView>(
                error@,
            ),
        },
{
    let fields = match unpack_entry_key(subspace.prefix.as_slice(), key) {
        Ok(fields) => fields,
        Err(text) => {
            return Err(LogError::Pack(text));
        },
    };
    match unpack_entry(value) {
        Ok(wire) => entry_from_wire(fields, wire),
        Err(text) => Err(LogError::Pack(text)),
    }
}

/// Whether every owner in an entry has a name and every span fits.
pub open spec fn loggable(entry: EntryView) -> bool {
    &&& named(entry.prior.owner)
    &&& (entry.prior.lease_duration matches Some(lease) ==> fits(lease))
    &&& named(entry.current.owner)
    &&& (entry.current.lease_duration matches Some(lease) ==> fits(lease))
    &&& storable(entry.local_input)
    &&& fits(entry.attempt_started_at)
    &&& fits(entry.configured_lease_duration)
    &&& (entry.planned_adoption_delay matches Some(delay) ==> fits(delay))
}

/// What was logged is what is read: an entry written with its own value under
/// its own key decodes, once a commit has filed it, to the same entry under that
/// commit's versionstamp.
pub proof fn a_logged_operation_is_read_back(
    prefix: Seq<u8>,
    key: Seq<u8>,
    commit: Seq<u8>,
    entry: EntryView,
    value: Seq<u8>,
)
    requires
        loggable(entry),
        commit.len() == 10,
        filed_entry_is_read(prefix, key, entry.client_id, entry.incarnation, entry.op_num),
        unpacked_entry(value) is Ok,
        unpacked_entry(value)->Ok_0 == stored_entry(entry),
    ensures
        decoded_entry(
            prefix,
            log_schema::committed_key(key, prefix.len() as int + 1, commit),
            value,
        ) == Ok::<EntryView, ErrorView>(
            EntryView { versionstamp: commit + seq![0u8, 0u8], ..entry },
        ),
{
    durable_round_trips(entry.prior);
    durable_round_trips(entry.current);
    local_round_trips(entry.local_input);
    span_round_trips(entry.attempt_started_at);
    span_round_trips(entry.configured_lease_duration);
    optional_span_round_trips(entry.planned_adoption_delay);
    let filed = log_schema::committed_key(key, prefix.len() as int + 1, commit);
    let r = decoded_entry(prefix, filed, value);
    assert(unpacked_entry_key(prefix, filed) is Ok);
    assert(r->Ok_0 =~= (EntryView { versionstamp: commit + seq![0u8, 0u8], ..entry }));
}

} // verus!

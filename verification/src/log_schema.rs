//! The versionstamped operation log: one record per logged operation.
//!
//! A record is packed with the FoundationDB tuple layer and stored under
//! `(prefix, <versionstamp>, client_id, op_num)`, so that reading the subspace
//! in key order yields the operations in commit order.

use crate::text;
use crate::text::{number_text, quoted, same_text};
use foundationdb_tuple::{Subspace, Versionstamp};
use vstd::prelude::*;
use vstd::string::*;
use vstd::utf8::*;

verus! {

/// Version of the record layout, bumped on any change to the value tuple.
pub const LOG_SCHEMA_VERSION: u64 = 2;

/// Prefix of the subspace the operation log lives in.
pub const LOG_PREFIX: &'static str = "le_log";

/// Prefix of the subspace the elector role's log lives in.
pub const ELECTOR_LOG_PREFIX: &'static str = "le_elector_log";

/// A malformed log key or value.
#[derive(Debug, Clone, PartialEq, Eq)]
pub struct SchemaError(pub String);

/// What an entry records.
#[derive(Debug, Clone, Copy, PartialEq, Eq, Structural, Hash)]
pub enum OpKind {
    /// Took an absent or vacant record.
    Claim,
    /// Took a record from its holder.
    Steal,
    /// Added a generation to a held term.
    Renew,
    /// Handed a term back.
    Resign,
    /// A ranked-register write made under a term.
    FencedWrite,
    /// A sighting of the leader record.
    Observe,
    /// A client started, or went on, believing that it leads.
    BeliefBegin,
    /// A client stopped believing that it leads.
    BeliefEnd,
    /// A claim reply the driver threw away on purpose.
    InjectedUnknown,
    /// A paused leader passed its barrier and owes its stale operations.
    SleeperWoke,
}

/// The name an operation is stored under.
pub open spec fn wire_name(op: OpKind) -> Seq<char> {
    match op {
        OpKind::Claim => "claim"@,
        OpKind::Steal => "steal"@,
        OpKind::Renew => "renew"@,
        OpKind::Resign => "resign"@,
        OpKind::FencedWrite => "fenced_write"@,
        OpKind::Observe => "observe"@,
        OpKind::BeliefBegin => "belief_begin"@,
        OpKind::BeliefEnd => "belief_end"@,
        OpKind::InjectedUnknown => "injected_unknown"@,
        OpKind::SleeperWoke => "sleeper_woke"@,
    }
}

/// The operation stored under `name`, if there is one.
pub open spec fn op_named(name: Seq<char>) -> Option<OpKind> {
    if exists|op: OpKind| wire_name(op) == name {
        Some(choose|op: OpKind| wire_name(op) == name)
    } else {
        None
    }
}

/// Whether an operation may write the leader record.
pub open spec fn may_write_leader_record(op: OpKind) -> bool {
    op is Claim || op is Steal || op is Renew || op is Resign
}

/// No two operations share a wire name.
pub proof fn wire_names_are_distinct(a: OpKind, b: OpKind)
    ensures
        wire_name(a) == wire_name(b) ==> a == b,
{
    reveal_strlit("claim");
    reveal_strlit("steal");
    reveal_strlit("renew");
    reveal_strlit("resign");
    reveal_strlit("fenced_write");
    reveal_strlit("observe");
    reveal_strlit("belief_begin");
    reveal_strlit("belief_end");
    reveal_strlit("injected_unknown");
    reveal_strlit("sleeper_woke");
    if wire_name(a) == wire_name(b) {
        assert(wire_name(a).len() == wire_name(b).len());
        assert(wire_name(a)[0] == wire_name(b)[0]);
        assert(wire_name(a)[2] == wire_name(b)[2]);
    }
}

/// Reading an operation's wire name gives the operation back.
pub proof fn op_kind_round_trips(op: OpKind)
    ensures
        op_named(wire_name(op)) == Some(op),
{
    assert(wire_name(op) == wire_name(op));
    let found = choose|other: OpKind| wire_name(other) == wire_name(op);
    wire_names_are_distinct(found, op);
}

impl OpKind {
    /// The name this operation is stored under.
    pub fn as_str(self) -> (r: &'static str)
        ensures
            r@ == wire_name(self),
    {
        match self {
            OpKind::Claim => "claim",
            OpKind::Steal => "steal",
            OpKind::Renew => "renew",
            OpKind::Resign => "resign",
            OpKind::FencedWrite => "fenced_write",
            OpKind::Observe => "observe",
            OpKind::BeliefBegin => "belief_begin",
            OpKind::BeliefEnd => "belief_end",
            OpKind::InjectedUnknown => "injected_unknown",
            OpKind::SleeperWoke => "sleeper_woke",
        }
    }

    /// The operation stored under `value`, if there is one.
    pub fn parse(value: &str) -> (r: Option<OpKind>)
        ensures
            r == op_named(value@),
    {
        let r = if same_text(value, "claim") {
            Some(OpKind::Claim)
        } else if same_text(value, "steal") {
            Some(OpKind::Steal)
        } else if same_text(value, "renew") {
            Some(OpKind::Renew)
        } else if same_text(value, "resign") {
            Some(OpKind::Resign)
        } else if same_text(value, "fenced_write") {
            Some(OpKind::FencedWrite)
        } else if same_text(value, "observe") {
            Some(OpKind::Observe)
        } else if same_text(value, "belief_begin") {
            Some(OpKind::BeliefBegin)
        } else if same_text(value, "belief_end") {
            Some(OpKind::BeliefEnd)
        } else if same_text(value, "injected_unknown") {
            Some(OpKind::InjectedUnknown)
        } else if same_text(value, "sleeper_woke") {
            Some(OpKind::SleeperWoke)
        } else {
            None
        };
        proof {
            match r {
                Some(op) => {
                    assert(wire_name(op) == value@);
                    op_kind_round_trips(op);
                },
                None => {
                    assert forall|op: OpKind| wire_name(op) != value@ by {
                        match op {
                            OpKind::Claim => {},
                            OpKind::Steal => {},
                            OpKind::Renew => {},
                            OpKind::Resign => {},
                            OpKind::FencedWrite => {},
                            OpKind::Observe => {},
                            OpKind::BeliefBegin => {},
                            OpKind::BeliefEnd => {},
                            OpKind::InjectedUnknown => {},
                            OpKind::SleeperWoke => {},
                        }
                    }
                },
            }
        }
        r
    }

    /// Whether this operation may write the leader record.
    pub fn touches_leader_record(self) -> (r: bool)
        ensures
            r == may_write_leader_record(self),
    {
        matches!(self, OpKind::Claim | OpKind::Steal | OpKind::Renew | OpKind::Resign)
    }
}

/// How an operation ended.
#[derive(Debug, Clone, Copy, PartialEq, Eq, Structural, Hash)]
pub enum Outcome {
    /// It took effect.
    Applied,
    /// It was refused.
    Rejected,
}

impl Outcome {
    /// Whether the operation took effect.
    pub fn is_applied(self) -> (r: bool)
        ensures
            r == (self is Applied),
    {
        matches!(self, Outcome::Applied)
    }
}

/// The leader record as one transaction read it.
#[derive(Debug, Clone, Copy, PartialEq, Eq, Structural, Hash)]
pub struct ObservedIdentity {
    /// The term it named.
    pub ballot: u64,
    /// The renewal counter it carried.
    pub generation: u64,
    /// Whether the term had been resigned.
    pub vacant: bool,
}

/// What one entry of the log says.
#[derive(Debug, Clone, Copy, PartialEq, Eq)]
pub struct LogRecord {
    /// The operation.
    pub op: OpKind,
    /// How it ended.
    pub outcome: Outcome,
    /// The client's own number for the attempt.
    pub attempt_id: u64,
    /// The token of the attempt, all-zero when there is none.
    pub token: [u8; 16],
    /// The term the operation acted on or wrote.
    pub ballot: u64,
    /// The generation the operation acted on or wrote.
    pub generation: u64,
    /// The leader record the transaction read, if it read one.
    pub observed: Option<ObservedIdentity>,
    /// Whether the transaction mutated the leader record.
    pub leader_record_written: bool,
    /// Whether the attempt recognised a record it had already written.
    pub recovery_noop: bool,
    /// Whether an earlier commit of the attempt may have landed.
    pub maybe_committed: bool,
    /// Whether the attempt was retired.
    pub superseded: bool,
    /// The client's own clock.
    pub local_nanos: u64,
    /// True simulated time, sampled inside the transaction.
    pub sim_nanos: u64,
    /// When the observation window of a steal opened, on the client's clock.
    pub observation_start_nanos: Option<u64>,
    /// The lease the record advertises.
    pub lease_nanos: u64,
    /// When the belief the record opens ends, on the client's clock.
    pub horizon_nanos: u64,
}

/// A record as the tuple layer stores it: version, operation, applied,
/// attempt, token, `(ballot, generation, lease, horizon)`, the observed
/// identity behind its presence flag, the four flags, and the times with the
/// observation start behind its presence flag.
pub type RecordTuple = (
    u64,
    Seq<char>,
    bool,
    u64,
    Seq<u8>,
    (u64, u64, u64, u64),
    (bool, u64, u64, bool),
    (bool, bool, bool, bool),
    (u64, u64, bool, u64),
);

/// A [`RecordTuple`] in executable form.
pub struct WireRecord {
    /// The layout's version.
    pub version: u64,
    /// The operation's wire name.
    pub op: String,
    /// Whether the operation took effect.
    pub applied: bool,
    /// The client's own number for the attempt.
    pub attempt_id: u64,
    /// The token's bytes.
    pub token: Vec<u8>,
    /// Ballot, generation, lease and horizon.
    pub term: (u64, u64, u64, u64),
    /// Whether an identity was observed, then its ballot, generation, vacancy.
    pub observed: (bool, u64, u64, bool),
    /// Record written, recovery no-op, maybe committed, superseded.
    pub flags: (bool, bool, bool, bool),
    /// Local time, simulated time, then the observation start behind its flag.
    pub times: (u64, u64, bool, u64),
}

impl View for WireRecord {
    type V = RecordTuple;

    open spec fn view(&self) -> RecordTuple {
        (
            self.version,
            self.op@,
            self.applied,
            self.attempt_id,
            self.token@,
            self.term,
            self.observed,
            self.flags,
            self.times,
        )
    }
}

/// The tuple a record is stored as. What is absent is stored as zeroes behind
/// a false flag.
pub open spec fn tuple_of(record: LogRecord) -> RecordTuple {
    (
        LOG_SCHEMA_VERSION,
        wire_name(record.op),
        record.outcome is Applied,
        record.attempt_id,
        record.token@,
        (record.ballot, record.generation, record.lease_nanos, record.horizon_nanos),
        match record.observed {
            Some(seen) => (true, seen.ballot, seen.generation, seen.vacant),
            None => (false, 0u64, 0u64, false),
        },
        (
            record.leader_record_written,
            record.recovery_noop,
            record.maybe_committed,
            record.superseded,
        ),
        match record.observation_start_nanos {
            Some(start) => (record.local_nanos, record.sim_nanos, true, start),
            None => (record.local_nanos, record.sim_nanos, false, 0u64),
        },
    )
}

/// Why a tuple is no record of this layout, if it is none.
pub open spec fn tuple_error(t: RecordTuple) -> Option<Seq<char>> {
    if t.0 != LOG_SCHEMA_VERSION {
        Some(
            "unknown log schema version "@ + text::nat_text(t.0 as nat)
                + ", this build understands "@ + text::nat_text(LOG_SCHEMA_VERSION as nat),
        )
    } else if op_named(t.1) is None {
        Some("unknown op kind "@ + text::quoted_text(t.1))
    } else if t.4.len() != 16 {
        Some("token is not 16 bytes"@)
    } else {
        None
    }
}

/// Whether `record` is what a well-formed tuple says.
pub open spec fn tuple_says(t: RecordTuple, record: LogRecord) -> bool {
    &&& op_named(t.1) == Some(record.op)
    &&& (record.outcome is Applied) == t.2
    &&& record.attempt_id == t.3
    &&& record.token@ == t.4
    &&& (record.ballot, record.generation, record.lease_nanos, record.horizon_nanos) == t.5
    &&& record.observed == if t.6.0 {
        Some(ObservedIdentity { ballot: t.6.1, generation: t.6.2, vacant: t.6.3 })
    } else {
        None
    }
    &&& (
        record.leader_record_written,
        record.recovery_noop,
        record.maybe_committed,
        record.superseded,
    ) == t.7
    &&& record.local_nanos == t.8.0
    &&& record.sim_nanos == t.8.1
    &&& record.observation_start_nanos == if t.8.2 {
        Some(t.8.3)
    } else {
        None
    }
}

/// What `foundationdb_tuple::pack` makes of a record's tuple.
pub uninterp spec fn packed_record(t: RecordTuple) -> Seq<u8>;

/// What `foundationdb_tuple::unpack` makes of bytes read as a record's tuple:
/// the tuple, or the `Debug` text of the error.
pub uninterp spec fn unpacked_record(bytes: Seq<u8>) -> Result<RecordTuple, Seq<char>>;

/// Calls `foundationdb_tuple::pack` on a record's tuple. The contract names the
/// bytes and says that unpacking them gives the tuple back. Packing counts them in
/// a `u32`, and panics where that does not do; the bounds stay far below that.
#[verifier::external_body]
fn pack_record(
    version: u64,
    op: &str,
    applied: bool,
    attempt_id: u64,
    token: &[u8],
    term: (u64, u64, u64, u64),
    observed: (bool, u64, u64, bool),
    flags: (bool, bool, bool, bool),
    times: (u64, u64, bool, u64),
) -> (r: Vec<u8>)
    requires
        op@.len() <= 0xffff,
        token@.len() <= 0xffff,
    ensures
        r@ == packed_record((version, op@, applied, attempt_id, token@, term, observed, flags, times)),
        unpacked_record(r@) is Ok,
        unpacked_record(r@)->Ok_0 == (version, op@, applied, attempt_id, token@, term, observed, flags, times),
{
    foundationdb_tuple::pack(
        &(version, op, applied, attempt_id, token, term, observed, flags, times),
    )
}

/// Calls `foundationdb_tuple::unpack` for a record's tuple, and prints the error
/// with `Debug` where there is one. The contract names the outcome, which is a
/// function of the bytes alone.
#[verifier::external_body]
fn unpack_record(bytes: &[u8]) -> (r: Result<WireRecord, String>)
    ensures
        match r {
            Ok(wire) => unpacked_record(bytes@) is Ok && unpacked_record(bytes@)->Ok_0 == wire@,
            Err(text) => unpacked_record(bytes@) is Err && unpacked_record(bytes@)->Err_0 == text@,
        },
{
    match foundationdb_tuple::unpack(bytes) {
        Ok((version, op, applied, attempt_id, token, term, observed, flags, times)) => Ok(
            WireRecord { version, op, applied, attempt_id, token, term, observed, flags, times },
        ),
        Err(e) => Err(format!("{e:?}")),
    }
}

/// Whether `r` is what decoding `bytes` gives: the record their tuple says, or
/// the reason they hold none.
pub open spec fn decodes(bytes: Seq<u8>, r: Result<LogRecord, SchemaError>) -> bool {
    match unpacked_record(bytes) {
        Err(text) => r is Err && r->Err_0.0@ == "value is not a log record: "@ + text,
        Ok(t) => match r {
            Ok(record) => tuple_error(t) is None && tuple_says(t, record),
            Err(error) => tuple_error(t) == Some(error.0@),
        },
    }
}

/// Sixteen bytes as an array.
fn token_array(bytes: &Vec<u8>) -> (r: [u8; 16])
    requires
        bytes@.len() == 16,
    ensures
        r@ == bytes@,
{
    let mut token: [u8; 16] = [0u8; 16];
    let mut i: usize = 0;
    while i < 16
        invariant
            i <= 16,
            bytes@.len() == 16,
            forall|j: int| 0 <= j < i ==> token@[j] == bytes@[j],
        decreases 16 - i,
    {
        token[i] = bytes[i];
        i = i + 1;
    }
    assert(token@ =~= bytes@);
    token
}

impl LogRecord {
    /// An applied record of `op` with everything else empty.
    pub fn new(op: OpKind) -> (r: LogRecord)
        ensures
            r.op == op,
            r.outcome == Outcome::Applied,
            r.attempt_id == 0,
            r.token@ == Seq::new(16, |i: int| 0u8),
            r.ballot == 0,
            r.generation == 0,
            r.observed is None,
            !r.leader_record_written,
            !r.recovery_noop,
            !r.maybe_committed,
            !r.superseded,
            r.local_nanos == 0,
            r.sim_nanos == 0,
            r.observation_start_nanos is None,
            r.lease_nanos == 0,
            r.horizon_nanos == 0,
    {
        LogRecord {
            op,
            outcome: Outcome::Applied,
            attempt_id: 0,
            token: [0u8; 16],
            ballot: 0,
            generation: 0,
            observed: None,
            leader_record_written: false,
            recovery_noop: false,
            maybe_committed: false,
            superseded: false,
            local_nanos: 0,
            sim_nanos: 0,
            observation_start_nanos: None,
            lease_nanos: 0,
            horizon_nanos: 0,
        }
    }

    /// The bytes this record is stored as.
    pub fn encode(&self) -> (r: Vec<u8>)
        ensures
            r@ == packed_record(tuple_of(*self)),
            unpacked_record(r@) is Ok,
            unpacked_record(r@)->Ok_0 == tuple_of(*self),
    {
        let observed: (bool, u64, u64, bool) = match self.observed {
            Some(seen) => (true, seen.ballot, seen.generation, seen.vacant),
            None => (false, 0, 0, false),
        };
        let times: (u64, u64, bool, u64) = match self.observation_start_nanos {
            Some(start) => (self.local_nanos, self.sim_nanos, true, start),
            None => (self.local_nanos, self.sim_nanos, false, 0),
        };
        let op = self.op.as_str();
        proof {
            reveal_strlit("claim");
            reveal_strlit("steal");
            reveal_strlit("renew");
            reveal_strlit("resign");
            reveal_strlit("fenced_write");
            reveal_strlit("observe");
            reveal_strlit("belief_begin");
            reveal_strlit("belief_end");
            reveal_strlit("injected_unknown");
            reveal_strlit("sleeper_woke");
        }
        pack_record(
            LOG_SCHEMA_VERSION,
            op,
            self.outcome.is_applied(),
            self.attempt_id,
            self.token.as_slice(),
            (self.ballot, self.generation, self.lease_nanos, self.horizon_nanos),
            observed,
            (self.leader_record_written, self.recovery_noop, self.maybe_committed, self.superseded),
            times,
        )
    }

    /// The record a tuple of this layout says, or why it says none.
    pub fn from_wire(wire: WireRecord) -> (r: Result<LogRecord, SchemaError>)
        ensures
            match r {
                Ok(record) => tuple_error(wire@) is None && tuple_says(wire@, record),
                Err(error) => tuple_error(wire@) == Some(error.0@),
            },
    {
        if wire.version != LOG_SCHEMA_VERSION {
            return Err(
                SchemaError(
                    "unknown log schema version ".to_owned().concat(
                        number_text(wire.version).as_str(),
                    ).concat(", this build understands ").concat(
                        number_text(LOG_SCHEMA_VERSION).as_str(),
                    ),
                ),
            );
        }
        let op = match OpKind::parse(wire.op.as_str()) {
            Some(op) => op,
            None => {
                return Err(
                    SchemaError(
                        "unknown op kind ".to_owned().concat(quoted(wire.op.as_str()).as_str()),
                    ),
                );
            },
        };
        if wire.token.len() != 16 {
            return Err(SchemaError("token is not 16 bytes".to_owned()));
        }
        Ok(
            LogRecord {
                op,
                outcome: if wire.applied {
                    Outcome::Applied
                } else {
                    Outcome::Rejected
                },
                attempt_id: wire.attempt_id,
                token: token_array(&wire.token),
                ballot: wire.term.0,
                generation: wire.term.1,
                observed: if wire.observed.0 {
                    Some(
                        ObservedIdentity {
                            ballot: wire.observed.1,
                            generation: wire.observed.2,
                            vacant: wire.observed.3,
                        },
                    )
                } else {
                    None
                },
                leader_record_written: wire.flags.0,
                recovery_noop: wire.flags.1,
                maybe_committed: wire.flags.2,
                superseded: wire.flags.3,
                local_nanos: wire.times.0,
                sim_nanos: wire.times.1,
                observation_start_nanos: if wire.times.2 {
                    Some(wire.times.3)
                } else {
                    None
                },
                lease_nanos: wire.term.2,
                horizon_nanos: wire.term.3,
            },
        )
    }

    /// The record stored as `bytes`, or why they hold none.
    pub fn decode(bytes: &[u8]) -> (r: Result<LogRecord, SchemaError>)
        ensures
            decodes(bytes@, r),
    {
        match unpack_record(bytes) {
            Ok(wire) => LogRecord::from_wire(wire),
            Err(text) => Err(
                SchemaError("value is not a log record: ".to_owned().concat(text.as_str())),
            ),
        }
    }
}

/// Decoding what `encode` wrote gives the record back, every field of it; what
/// was absent stays absent.
pub proof fn decoding_gives_back_what_was_encoded(
    record: LogRecord,
    bytes: Seq<u8>,
    r: Result<LogRecord, SchemaError>,
)
    requires
        unpacked_record(bytes) is Ok,
        unpacked_record(bytes)->Ok_0 == tuple_of(record),
        decodes(bytes, r),
    ensures
        r is Ok,
        r->Ok_0 == record,
{
    op_kind_round_trips(record.op);
    assert(r->Ok_0.token =~= record.token);
}

/// A tuple says at most one record.
pub proof fn tuple_says_one_record(t: RecordTuple, a: LogRecord, b: LogRecord)
    requires
        tuple_says(t, a),
        tuple_says(t, b),
    ensures
        a == b,
{
    assert(a.token =~= b.token);
}

/// A region of the key space: every key that starts with its prefix.
#[derive(Debug, Clone, PartialEq, Eq)]
pub struct KeySpace {
    /// The bytes every key of the region starts with.
    pub prefix: Vec<u8>,
}

impl View for KeySpace {
    type V = Seq<u8>;

    open spec fn view(&self) -> Seq<u8> {
        self.prefix@
    }
}

/// The bytes of a name with every zero byte followed by an escape byte.
pub open spec fn escaped(bytes: Seq<u8>) -> Seq<u8>
    decreases bytes.len(),
{
    if bytes.len() == 0 {
        Seq::empty()
    } else if bytes[0] == 0 {
        seq![0u8, 0xffu8] + escaped(bytes.skip(1))
    } else {
        seq![bytes[0]] + escaped(bytes.skip(1))
    }
}

/// The prefix of the region named by one string: the string's type code, its
/// escaped bytes, and a terminator.
pub open spec fn name_prefix(bytes: Seq<u8>) -> Seq<u8> {
    seq![2u8] + escaped(bytes) + seq![0u8]
}

/// Whether a key lies in the region with this prefix.
pub open spec fn in_region(prefix: Seq<u8>, key: Seq<u8>) -> bool {
    prefix.len() <= key.len() && key.take(prefix.len() as int) == prefix
}

/// Calls `foundationdb_tuple::Subspace::subspace` on the whole key space and
/// one string. The contract gives the prefix byte by byte: the type code of a
/// string, its UTF-8 bytes with zeroes escaped, and a terminator. Packing counts
/// these bytes in a `u32`, and panics where that does not do.
#[verifier::external_body]
fn subspace_prefix(name: &str) -> (r: Vec<u8>)
    requires
        name_prefix(name.spec_bytes()).len() <= u32::MAX,
    ensures
        r@ == name_prefix(name.spec_bytes()),
{
    Subspace::all().subspace(&(name,)).into_bytes()
}

/// The region named by `name`.
pub fn named_space(name: &str) -> (r: KeySpace)
    requires
        name_prefix(name.spec_bytes()).len() <= u32::MAX,
    ensures
        r@ == name_prefix(name.spec_bytes()),
{
    KeySpace { prefix: subspace_prefix(name) }
}

proof fn few_bytes_per_character(chars: Seq<char>)
    ensures
        encode_utf8(chars).len() <= 4 * chars.len(),
    decreases chars.len(),
{
    if chars.len() > 0 {
        few_bytes_per_character(chars.drop_first());
    }
}

proof fn escaping_at_most_doubles(bytes: Seq<u8>)
    ensures
        escaped(bytes).len() <= 2 * bytes.len(),
    decreases bytes.len(),
{
    if bytes.len() > 0 {
        escaping_at_most_doubles(bytes.skip(1));
    }
}

/// The prefix of a named region is short where the name is.
pub proof fn a_short_name_has_a_short_prefix(name: &str)
    ensures
        name_prefix(name.spec_bytes()).len() <= 8 * name@.len() + 2,
{
    few_bytes_per_character(name@);
    escaping_at_most_doubles(name.spec_bytes());
}

/// The region the operation log is written to.
pub fn log_subspace() -> (r: KeySpace)
    ensures
        r@ == name_prefix(LOG_PREFIX.spec_bytes()),
        r@.len() < u32::MAX,
{
    proof {
        reveal_strlit("le_log");
        a_short_name_has_a_short_prefix(LOG_PREFIX);
    }
    named_space(LOG_PREFIX)
}

/// The region the elector role's log is written to.
pub fn elector_log_subspace() -> (r: KeySpace)
    ensures
        r@ == name_prefix(ELECTOR_LOG_PREFIX.spec_bytes()),
        r@.len() < u32::MAX,
{
    proof {
        reveal_strlit("le_elector_log");
        a_short_name_has_a_short_prefix(ELECTOR_LOG_PREFIX);
    }
    named_space(ELECTOR_LOG_PREFIX)
}

proof fn escaped_without_zeroes(bytes: Seq<u8>)
    requires
        forall|i: int| 0 <= i < bytes.len() ==> bytes[i] != 0,
    ensures
        escaped(bytes) == bytes,
    decreases bytes.len(),
{
    if bytes.len() > 0 {
        assert forall|i: int| 0 <= i < bytes.skip(1).len() implies bytes.skip(1)[i] != 0 by {
            assert(bytes.skip(1)[i] == bytes[i + 1]);
        }
        escaped_without_zeroes(bytes.skip(1));
        assert(seq![bytes[0]] + bytes.skip(1) =~= bytes);
    }
}

/// Two regions named by different strings share no key, as long as neither
/// string holds a zero byte.
pub proof fn differently_named_regions_are_disjoint(a: Seq<u8>, b: Seq<u8>, key: Seq<u8>)
    requires
        a != b,
        forall|i: int| 0 <= i < a.len() ==> a[i] != 0,
        forall|i: int| 0 <= i < b.len() ==> b[i] != 0,
    ensures
        !(in_region(name_prefix(a), key) && in_region(name_prefix(b), key)),
{
    escaped_without_zeroes(a);
    escaped_without_zeroes(b);
    if in_region(name_prefix(a), key) && in_region(name_prefix(b), key) {
        let pa = name_prefix(a);
        let pb = name_prefix(b);
        assert forall|i: int| 0 <= i < pa.len() implies key[i] == pa[i] by {
            assert(key.take(pa.len() as int)[i] == key[i]);
        }
        assert forall|i: int| 0 <= i < pb.len() implies key[i] == pb[i] by {
            assert(key.take(pb.len() as int)[i] == key[i]);
        }
        if a.len() < b.len() {
            assert(pa[a.len() as int + 1] == 0);
            assert(pb[a.len() as int + 1] == b[a.len() as int]);
        } else if b.len() < a.len() {
            assert(pb[b.len() as int + 1] == 0);
            assert(pa[b.len() as int + 1] == a[b.len() as int]);
        } else {
            assert forall|i: int| 0 <= i < a.len() implies a[i] == b[i] by {
                assert(pa[i + 1] == a[i]);
                assert(pb[i + 1] == b[i]);
            }
            assert(a =~= b);
        }
    }
}

/// One entry of the log: a record and where the database filed it.
#[derive(Debug, Clone, Copy, PartialEq, Eq)]
pub struct LogEntry {
    /// The commit versionstamp.
    pub versionstamp: [u8; 12],
    /// The client that wrote it.
    pub client_id: i32,
    /// The client's own number for the operation.
    pub op_num: u64,
    /// What it says.
    pub record: LogRecord,
}

/// What packing a log key with an incomplete versionstamp gives.
pub uninterp spec fn packed_log_key(prefix: Seq<u8>, client_id: i32, op_num: u64) -> Seq<u8>;

/// What unpacking a key of the region gives: versionstamp, client and operation
/// number, or the `Debug` text of the error.
pub uninterp spec fn unpacked_log_key(prefix: Seq<u8>, key: Seq<u8>) -> Result<(Seq<u8>, i32, u64), Seq<char>>;

/// The key a commit files an incomplete key under: the transaction's ten bytes
/// in place of the placeholder that starts at `at`, and the four bytes of the
/// trailing offset gone.
pub open spec fn committed_key(incomplete: Seq<u8>, at: int, commit: Seq<u8>) -> Seq<u8> {
    incomplete.take(at) + commit + incomplete.subrange(at + 10, incomplete.len() - 4)
}

/// Whether a key, once a commit has filled its versionstamp in, unpacks to that
/// versionstamp, the client and the operation number.
pub open spec fn filed_key_is_read(prefix: Seq<u8>, key: Seq<u8>, client_id: i32, op_num: u64) -> bool {
    forall|commit: Seq<u8>|
        commit.len() == 10 ==> {
            let fields = unpacked_log_key(
                prefix,
                #[trigger] committed_key(key, prefix.len() as int + 1, commit),
            );
            fields is Ok && fields->Ok_0 == (commit + seq![0u8, 0u8], client_id, op_num)
        }
}

/// Calls `Subspace::pack_with_versionstamp` on an incomplete versionstamp, a
/// client id and an operation number. The contract names the bytes and says
/// that once a commit has filled the versionstamp in, unpacking the key gives
/// the three values back. Packing notes where the versionstamp stands, one byte
/// behind the prefix, in a `u32`, and panics where that does not do.
#[verifier::external_body]
fn pack_log_key(prefix: &[u8], client_id: i32, op_num: u64) -> (r: Vec<u8>)
    requires
        prefix@.len() < u32::MAX,
    ensures
        r@ == packed_log_key(prefix@, client_id, op_num),
        r@.len() >= prefix@.len() + 17,
        filed_key_is_read(prefix@, r@, client_id, op_num),
{
    Subspace::from_bytes(prefix).pack_with_versionstamp(
        &(Versionstamp::incomplete(0), client_id, op_num),
    )
}

/// Calls `Subspace::unpack` for a versionstamp, a client id and an operation
/// number, and prints the error with `Debug` where there is one. The contract
/// names the outcome, which is a function of the prefix and the key alone. A
/// `Subspace` counts its prefix in a `u32`, and panics where that does not do.
#[verifier::external_body]
fn unpack_log_key(prefix: &[u8], key: &[u8]) -> (r: Result<([u8; 12], i32, u64), String>)
    requires
        prefix@.len() <= u32::MAX,
    ensures
        match r {
            Ok(f) => unpacked_log_key(prefix@, key@) is Ok && unpacked_log_key(prefix@, key@)->Ok_0 == (f.0@, f.1, f.2),
            Err(text) => unpacked_log_key(prefix@, key@) is Err && unpacked_log_key(prefix@, key@)->Err_0 == text@,
        },
{
    match Subspace::from_bytes(prefix).unpack::<(Versionstamp, i32, u64)>(key) {
        Ok((stamp, client_id, op_num)) => Ok((*stamp.as_bytes(), client_id, op_num)),
        Err(e) => Err(format!("{e:?}")),
    }
}

/// The key an entry is written under, with a versionstamp the commit fills in.
pub fn incomplete_log_key(subspace: &KeySpace, client_id: i32, op_num: u64) -> (r: Vec<u8>)
    requires
        subspace@.len() < u32::MAX,
    ensures
        r@ == packed_log_key(subspace@, client_id, op_num),
        r@.len() >= subspace@.len() + 17,
        filed_key_is_read(subspace@, r@, client_id, op_num),
{
    pack_log_key(subspace.prefix.as_slice(), client_id, op_num)
}

/// Whether `r` is what decoding a key and its value gives: the entry they say,
/// or the first reason they say none.
pub open spec fn entry_decodes(
    prefix: Seq<u8>,
    key: Seq<u8>,
    value: Seq<u8>,
    r: Result<LogEntry, SchemaError>,
) -> bool {
    match unpacked_log_key(prefix, key) {
        Err(text) => r is Err && r->Err_0.0@ == "key is not a log key: "@ + text,
        Ok(fields) => match r {
            Ok(entry) => {
                &&& (entry.versionstamp@, entry.client_id, entry.op_num) == fields
                &&& decodes(value, Ok(entry.record))
            },
            Err(error) => decodes(value, Err(error)),
        },
    }
}

impl LogEntry {
    /// The entry filed under `key` with `value`, or why there is none.
    pub fn decode(subspace: &KeySpace, key: &[u8], value: &[u8]) -> (r: Result<LogEntry, SchemaError>)
        requires
            subspace@.len() <= u32::MAX,
        ensures
            entry_decodes(subspace@, key@, value@, r),
    {
        match unpack_log_key(subspace.prefix.as_slice(), key) {
            Err(text) => Err(SchemaError("key is not a log key: ".to_owned().concat(text.as_str()))),
            Ok((versionstamp, client_id, op_num)) => match LogRecord::decode(value) {
                Ok(record) => Ok(LogEntry { versionstamp, client_id, op_num, record }),
                Err(error) => Err(error),
            },
        }
    }
}

/// What was logged is what is read: an entry written under an incomplete key
/// and filed by a commit decodes to that commit's versionstamp, the client, the
/// operation number and the record written.
pub proof fn a_logged_entry_is_read_back(
    prefix: Seq<u8>,
    incomplete: Seq<u8>,
    commit: Seq<u8>,
    client_id: i32,
    op_num: u64,
    record: LogRecord,
    value: Seq<u8>,
    r: Result<LogEntry, SchemaError>,
)
    requires
        commit.len() == 10,
        filed_key_is_read(prefix, incomplete, client_id, op_num),
        unpacked_record(value) is Ok,
        unpacked_record(value)->Ok_0 == tuple_of(record),
        entry_decodes(prefix, committed_key(incomplete, prefix.len() as int + 1, commit), value, r),
    ensures
        r is Ok,
        r->Ok_0.versionstamp@ == commit + seq![0u8, 0u8],
        r->Ok_0.client_id == client_id,
        r->Ok_0.op_num == op_num,
        r->Ok_0.record == record,
{
    match r {
        Ok(entry) => decoding_gives_back_what_was_encoded(record, value, Ok(entry.record)),
        Err(error) => decoding_gives_back_what_was_encoded(record, value, Err(error)),
    }
}

} // verus!

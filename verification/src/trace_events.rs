//! How structured tracing events become entries of the simulator's trace log.
//!
//! An event carries the fields it was fired with and those of the spans around
//! it. What is forwarded is a flat list of keys and values, none of which holds
//! a zero byte.

use crate::text;
use crate::text::{flag_text, same_text, signed_text, wide_text};
use vstd::prelude::*;
use vstd::string::*;

verus! {

// ---------------------------------------------------------------------------
// Severity
// ---------------------------------------------------------------------------

/// How serious an event says it is.
#[derive(Debug, Clone, Copy, PartialEq, Eq, Structural)]
pub enum Level {
    /// Of interest to nobody but its author.
    Trace,
    /// Of interest while debugging.
    Debug,
    /// Of interest.
    Info,
    /// Worth a warning.
    Warn,
    /// An error.
    Error,
}

/// How serious an entry of the trace log is.
#[derive(Debug, Clone, Copy, PartialEq, Eq, Structural)]
pub enum Severity {
    /// Of interest while debugging.
    Debug,
    /// Of interest.
    Info,
    /// Worth a warning.
    Warn,
    /// Worth a warning, always.
    WarnAlways,
    /// Fails the simulation.
    Error,
}

/// How serious the entry of an event is.
pub open spec fn severity_of(level: Level) -> Severity {
    match level {
        Level::Error => Severity::WarnAlways,
        Level::Warn => Severity::Warn,
        Level::Info => Severity::Info,
        Level::Debug => Severity::Debug,
        Level::Trace => Severity::Debug,
    }
}

/// How serious the entry of an event is. An error of a dependency is a loud warning:
/// it must not fail the simulation.
pub fn severity(level: Level) -> (r: Severity)
    ensures
        r == severity_of(level),
{
    match level {
        Level::Error => Severity::WarnAlways,
        Level::Warn => Severity::Warn,
        Level::Info => Severity::Info,
        Level::Debug => Severity::Debug,
        Level::Trace => Severity::Debug,
    }
}

/// No event fails the simulation.
pub proof fn no_event_fails_the_simulation(level: Level)
    ensures
        severity_of(level) != Severity::Error,
{
}

// ---------------------------------------------------------------------------
// Zero bytes
// ---------------------------------------------------------------------------

/// The first `n` characters without the zero ones.
pub open spec fn cleaned(s: Seq<char>, n: int) -> Seq<char>
    decreases n,
{
    if n <= 0 {
        Seq::empty()
    } else if s[n - 1] == '\0' {
        cleaned(s, n - 1)
    } else {
        cleaned(s, n - 1).push(s[n - 1])
    }
}

/// A text without its zero characters.
pub open spec fn clean(s: Seq<char>) -> Seq<char> {
    cleaned(s, s.len() as int)
}

/// Whether a text holds no zero character.
pub open spec fn is_clean(s: Seq<char>) -> bool {
    forall|i: int| 0 <= i < s.len() ==> s[i] != '\0'
}

/// A text without its zero characters: they would end it early on its way out.
pub fn sanitize(value: &str) -> (r: String)
    ensures
        r@ == clean(value@),
{
    proof {
        reveal_strlit("");
    }
    let mut r = "".to_owned();
    assert(r@ =~= Seq::<char>::empty());
    let n: usize = value.unicode_len();
    let mut i: usize = 0;
    while i < n
        invariant
            i <= n,
            n == value@.len(),
            r@ == cleaned(value@, i as int),
        decreases n - i,
    {
        if value.get_char(i) != '\0' {
            let one = value.substring_char(i, i + 1);
            assert(one@ =~= seq![value@[i as int]]);
            r = r.concat(one);
            assert(r@ =~= cleaned(value@, i as int).push(value@[i as int]));
        }
        i = i + 1;
    }
    r
}

proof fn cleaning_cleans(s: Seq<char>, n: int)
    ensures
        is_clean(cleaned(s, n)),
    decreases n,
{
    if n > 0 {
        cleaning_cleans(s, n - 1);
    }
}

proof fn clean_prefix_stays(s: Seq<char>, n: int)
    requires
        is_clean(s),
        0 <= n <= s.len(),
    ensures
        cleaned(s, n) == s.take(n),
    decreases n,
{
    if n > 0 {
        clean_prefix_stays(s, n - 1);
        assert(s[n - 1] != '\0');
        assert(s.take(n) =~= s.take(n - 1).push(s[n - 1]));
    } else {
        assert(s.take(0) =~= Seq::<char>::empty());
    }
}

/// A sanitized text holds no zero character, and a text that held none is left
/// alone.
pub proof fn sanitizing_removes_exactly_the_zeroes(s: Seq<char>)
    ensures
        is_clean(clean(s)),
        is_clean(s) ==> clean(s) == s,
{
    cleaning_cleans(s, s.len() as int);
    if is_clean(s) {
        clean_prefix_stays(s, s.len() as int);
        assert(s.take(s.len() as int) =~= s);
    }
}

// ---------------------------------------------------------------------------
// Fields
// ---------------------------------------------------------------------------

/// A key and its value.
pub type Pair = (Seq<char>, Seq<char>);

/// What a list of fields says.
pub open spec fn pairs(fields: Seq<(String, String)>) -> Seq<Pair> {
    Seq::new(fields.len(), |i: int| (fields[i].0@, fields[i].1@))
}

/// Whether the first `n` pairs have a key.
pub open spec fn has_key(list: Seq<Pair>, key: Seq<char>, n: int) -> bool {
    exists|i: int| 0 <= i < n && (#[trigger] list[i]).0 == key
}

/// The place of a key at or after `from`.
pub open spec fn place_of(list: Seq<Pair>, key: Seq<char>, from: int) -> Option<int>
    decreases list.len() - from,
{
    if from < 0 || from >= list.len() {
        None
    } else if list[from].0 == key {
        Some(from)
    } else {
        place_of(list, key, from + 1)
    }
}

fn find(fields: &Vec<(String, String)>, key: &str) -> (r: Option<usize>)
    ensures
        match r {
            Some(i) => place_of(pairs(fields@), key@, 0) == Some(i as int) && i < fields@.len()
                && has_key(pairs(fields@), key@, fields@.len() as int),
            None => place_of(pairs(fields@), key@, 0) is None && !has_key(
                pairs(fields@),
                key@,
                fields@.len() as int,
            ),
        },
{
    let ghost list = pairs(fields@);
    let mut i: usize = 0;
    while i < fields.len()
        invariant
            i <= fields@.len(),
            list == pairs(fields@),
            place_of(list, key@, 0) == place_of(list, key@, i as int),
            forall|k: int| 0 <= k < i ==> (#[trigger] list[k]).0 != key@,
        decreases fields@.len() - i,
    {
        assert(list[i as int] == (fields@[i as int].0@, fields@[i as int].1@));
        if same_text(fields[i].0.as_str(), key) {
            assert(list[i as int].0 == key@);
            return Some(i);
        }
        i = i + 1;
    }
    None
}

fn push_pair(fields: &mut Vec<(String, String)>, key: String, value: String)
    ensures
        pairs(final(fields)@) == pairs(old(fields)@).push((key@, value@)),
{
    fields.push((key, value));
    assert(pairs(fields@) =~= pairs(old(fields)@).push((key@, value@)));
}

/// Collects the fields of an event or a span. The one called `message` is kept
/// apart.
#[derive(Debug)]
pub struct DetailVisitor {
    /// The message.
    pub message: Option<String>,
    /// The other fields.
    pub fields: Vec<(String, String)>,
}

/// What a [`DetailVisitor`] has collected.
pub struct Collected {
    pub message: Option<Seq<char>>,
    pub fields: Seq<Pair>,
}

impl View for DetailVisitor {
    type V = Collected;

    open spec fn view(&self) -> Collected {
        Collected {
            message: match self.message {
                Some(message) => Some(message@),
                None => None,
            },
            fields: pairs(self.fields@),
        }
    }
}

impl Default for DetailVisitor {
    fn default() -> (r: DetailVisitor)
        ensures
            r@ == (Collected { message: None, fields: Seq::empty() }),
    {
        let r = DetailVisitor { message: None, fields: Vec::new() };
        assert(pairs(r.fields@) =~= Seq::<Pair>::empty());
        r
    }
}

/// What has been collected once a field was recorded.
pub open spec fn recorded(c: Collected, name: Seq<char>, value: Seq<char>) -> Collected {
    if name == "message"@ {
        Collected { message: Some(clean(value)), ..c }
    } else {
        Collected { fields: c.fields.push((clean(name), clean(value))), ..c }
    }
}

/// Everything that has been collected, the message first.
pub open spec fn all_fields(c: Collected) -> Seq<Pair> {
    match c.message {
        Some(message) => seq![("message"@, message)] + c.fields,
        None => c.fields,
    }
}

impl DetailVisitor {
    /// Records a field, without its zero characters.
    pub fn push(&mut self, name: &str, value: &str)
        ensures
            final(self)@ == recorded(old(self)@, name@, value@),
    {
        let value = sanitize(value);
        if same_text(name, "message") {
            self.message = Some(value);
        } else {
            push_pair(&mut self.fields, sanitize(name), value);
        }
    }

    /// Records a signed number.
    pub fn record_i64(&mut self, name: &str, value: i64)
        ensures
            final(self)@ == recorded(old(self)@, name@, text::int_text(value as int)),
    {
        self.push(name, signed_text(value).as_str());
    }

    /// Records a number.
    pub fn record_u64(&mut self, name: &str, value: u64)
        ensures
            final(self)@ == recorded(old(self)@, name@, text::nat_text(value as nat)),
    {
        self.push(name, wide_text(value as u128).as_str());
    }

    /// Records a wide signed number.
    pub fn record_i128(&mut self, name: &str, value: i128)
        ensures
            final(self)@ == recorded(old(self)@, name@, text::int_text(value as int)),
    {
        if value < 0 {
            let size: u128 = (-(value + 1)) as u128 + 1;
            self.push(name, "-".to_owned().concat(wide_text(size).as_str()).as_str());
        } else {
            self.push(name, wide_text(value as u128).as_str());
        }
    }

    /// Records a wide number.
    pub fn record_u128(&mut self, name: &str, value: u128)
        ensures
            final(self)@ == recorded(old(self)@, name@, text::nat_text(value as nat)),
    {
        self.push(name, wide_text(value).as_str());
    }

    /// Records a truth value.
    pub fn record_bool(&mut self, name: &str, value: bool)
        ensures
            final(self)@ == recorded(old(self)@, name@, text::bool_text(value)),
    {
        self.push(name, flag_text(value));
    }

    /// Everything that has been collected. A span's message is just another field.
    pub fn into_all_fields(self) -> (r: Vec<(String, String)>)
        ensures
            pairs(r@) == all_fields(self@),
    {
        let mut fields = self.fields;
        match self.message {
            Some(message) => {
                fields.insert(0, ("message".to_owned(), message));
                assert(pairs(fields@) =~= seq![("message"@, message@)] + pairs(self.fields@));
            },
            None => {},
        }
        fields
    }
}

/// A span's fields once some were recorded anew, the first `n` of them: a field that
/// was there takes its new value, and the others come after it.
pub open spec fn merged(fields: Seq<Pair>, newer: Seq<Pair>, n: int) -> Seq<Pair>
    decreases n,
{
    if n <= 0 {
        fields
    } else {
        let before = merged(fields, newer, n - 1);
        match place_of(before, newer[n - 1].0, 0) {
            Some(i) => before.update(i, (before[i].0, newer[n - 1].1)),
            None => before.push(newer[n - 1]),
        }
    }
}

/// Records a span's fields anew.
pub fn merge_fields(fields: &mut Vec<(String, String)>, newer: Vec<(String, String)>)
    ensures
        pairs(final(fields)@) == merged(
            pairs(old(fields)@),
            pairs(newer@),
            newer@.len() as int,
        ),
{
    let ghost start = pairs(fields@);
    let ghost fresh = pairs(newer@);
    let mut n: usize = 0;
    while n < newer.len()
        invariant
            n <= newer@.len(),
            fresh == pairs(newer@),
            pairs(fields@) == merged(start, fresh, n as int),
        decreases newer@.len() - n,
    {
        assert(fresh[n as int] == (newer@[n as int].0@, newer@[n as int].1@));
        let key = newer[n].0.clone();
        let value = newer[n].1.clone();
        let ghost before = pairs(fields@);
        match find(fields, key.as_str()) {
            Some(i) => {
                assert(before[i as int] == (fields@[i as int].0@, fields@[i as int].1@));
                let kept = fields[i].0.clone();
                fields.set(i, (kept, value));
                assert(pairs(fields@) =~= before.update(i as int, (before[i as int].0, value@)));
            },
            None => {
                push_pair(fields, key, value);
            },
        }
        n = n + 1;
    }
}

// ---------------------------------------------------------------------------
// Events
// ---------------------------------------------------------------------------

/// Where an event was fired.
#[derive(Debug)]
pub struct Origin {
    /// The target it names.
    pub target: String,
    /// The source file.
    pub file: Option<String>,
    /// The line.
    pub line: Option<u32>,
}

/// A span around an event.
#[derive(Debug)]
pub struct SpanContext {
    /// Its name.
    pub name: String,
    /// Its fields.
    pub fields: Vec<(String, String)>,
}

/// What a [`SpanContext`] says.
pub struct SpanView {
    pub name: Seq<char>,
    pub fields: Seq<Pair>,
}

impl View for SpanContext {
    type V = SpanView;

    open spec fn view(&self) -> SpanView {
        SpanView { name: self.name@, fields: pairs(self.fields@) }
    }
}

/// What a list of spans says.
pub open spec fn span_views(spans: Seq<SpanContext>) -> Seq<SpanView> {
    Seq::new(spans.len(), |i: int| spans[i]@)
}

/// A list with one pair more, where there is one.
pub open spec fn with(list: Seq<Pair>, key: Seq<char>, value: Option<Seq<char>>) -> Seq<Pair> {
    match value {
        Some(value) => list.push((key, value)),
        None => list,
    }
}

/// What is forwarded of an event itself: where it was fired, its message, and its
/// fields.
pub open spec fn own_details(origin: Origin, event: Collected) -> Seq<Pair> {
    let target = seq![("Target"@, clean(origin.target@))];
    let file = with(
        target,
        "File"@,
        match origin.file {
            Some(file) => Some(clean(file@)),
            None => None,
        },
    );
    let line = with(
        file,
        "Line"@,
        match origin.line {
            Some(line) => Some(text::nat_text(line as nat)),
            None => None,
        },
    );
    with(line, "Message"@, event.message) + event.fields
}

/// The names of the first `n` spans, with slashes between them.
pub open spec fn path(spans: Seq<SpanView>, n: int) -> Seq<char>
    decreases n,
{
    if n <= 0 {
        Seq::empty()
    } else if n == 1 {
        spans[0].name
    } else {
        path(spans, n - 1) + "/"@ + spans[n - 1].name
    }
}

/// Whether one of the spans from place `from` inwards has a field of this key.
pub open spec fn shadowed(spans: Seq<SpanView>, from: int, key: Seq<char>) -> bool {
    exists|k: int|
        from <= k < spans.len() && has_key(
            (#[trigger] spans[k]).fields,
            key,
            spans[k].fields.len() as int,
        )
}

/// A list with those of the first `n` fields of the span at place `at` whose keys it
/// does not have yet and no span further in has.
pub open spec fn filled(list: Seq<Pair>, spans: Seq<SpanView>, at: int, n: int) -> Seq<Pair>
    decreases n,
{
    if n <= 0 {
        list
    } else {
        let before = filled(list, spans, at, n - 1);
        let field = spans[at].fields[n - 1];
        if has_key(before, field.0, before.len() as int) || shadowed(spans, at + 1, field.0) {
            before
        } else {
            before.push(field)
        }
    }
}

/// A list with what the first `n` spans add to it, the outermost span first.
pub open spec fn surrounded(list: Seq<Pair>, spans: Seq<SpanView>, n: int) -> Seq<Pair>
    decreases n,
{
    if n <= 0 {
        list
    } else {
        filled(
            surrounded(list, spans, n - 1),
            spans,
            n - 1,
            spans[n - 1].fields.len() as int,
        )
    }
}

/// What is forwarded of an event itself, and the names of the spans around it.
pub open spec fn named_details(
    origin: Origin,
    event: Collected,
    spans: Seq<SpanView>,
) -> Seq<Pair> {
    with(
        own_details(origin, event),
        "Span"@,
        if spans.len() > 0 {
            Some(clean(spans.last().name))
        } else {
            None
        },
    ).push(("SpanPath"@, clean(path(spans, spans.len() as int))))
}

/// What is forwarded of an event: its own details, then the innermost span's name
/// and the path of them all, then the fields of the spans from root to leaf. Of fields
/// with one key the event's stays, and where it has none the innermost span's.
pub open spec fn forwarded(
    origin: Origin,
    event: Collected,
    scope: Option<Seq<SpanView>>,
) -> Seq<Pair> {
    match scope {
        None => own_details(origin, event),
        Some(spans) => surrounded(
            named_details(origin, event, spans),
            spans,
            spans.len() as int,
        ),
    }
}

fn own(origin: &Origin, event: DetailVisitor) -> (r: Vec<(String, String)>)
    ensures
        pairs(r@) == own_details(*origin, event@),
{
    let mut r: Vec<(String, String)> = Vec::new();
    assert(pairs(r@) =~= Seq::<Pair>::empty());
    push_pair(&mut r, "Target".to_owned(), sanitize(origin.target.as_str()));
    assert(pairs(r@) =~= seq![("Target"@, clean(origin.target@))]);
    match &origin.file {
        Some(file) => push_pair(&mut r, "File".to_owned(), sanitize(file.as_str())),
        None => {},
    }
    match origin.line {
        Some(line) => push_pair(&mut r, "Line".to_owned(), wide_text(line as u128)),
        None => {},
    }
    match event.message {
        Some(message) => push_pair(&mut r, "Message".to_owned(), message),
        None => {},
    }
    let ghost start = pairs(r@);
    let ghost fields = pairs(event.fields@);
    let mut i: usize = 0;
    assert(start + fields.take(0) =~= start);
    while i < event.fields.len()
        invariant
            i <= event.fields@.len(),
            fields == pairs(event.fields@),
            pairs(r@) == start + fields.take(i as int),
        decreases event.fields@.len() - i,
    {
        let field = &event.fields[i];
        assert(fields[i as int] == (field.0@, field.1@));
        push_pair(&mut r, field.0.clone(), field.1.clone());
        assert(start + fields.take(i as int + 1) =~= (start + fields.take(i as int)).push(
            fields[i as int],
        ));
        i = i + 1;
    }
    assert(fields.take(i as int) =~= fields);
    r
}

fn path_of(spans: &[SpanContext]) -> (r: String)
    ensures
        r@ == path(span_views(spans@), spans@.len() as int),
{
    let ghost views = span_views(spans@);
    proof {
        reveal_strlit("");
    }
    let mut r = "".to_owned();
    assert(r@ =~= Seq::<char>::empty());
    let mut i: usize = 0;
    while i < spans.len()
        invariant
            i <= spans@.len(),
            views == span_views(spans@),
            r@ == path(views, i as int),
        decreases spans@.len() - i,
    {
        assert(views[i as int] == spans@[i as int]@);
        r = if i == 0 {
            spans[i].name.clone()
        } else {
            r.concat("/").concat(spans[i].name.as_str())
        };
        i = i + 1;
    }
    r
}

fn is_shadowed(spans: &[SpanContext], from: usize, key: &str) -> (r: bool)
    requires
        from <= spans@.len(),
    ensures
        r == shadowed(span_views(spans@), from as int, key@),
{
    let ghost views = span_views(spans@);
    let mut i: usize = from;
    while i < spans.len()
        invariant
            from <= i <= spans@.len(),
            views == span_views(spans@),
            forall|k: int|
                from <= k < i ==> !has_key(
                    (#[trigger] views[k]).fields,
                    key@,
                    views[k].fields.len() as int,
                ),
        decreases spans@.len() - i,
    {
        assert(views[i as int] == spans@[i as int]@);
        assert(views[i as int].fields.len() == spans@[i as int].fields@.len());
        if find(&spans[i].fields, key).is_some() {
            return true;
        }
        i = i + 1;
    }
    false
}

fn fill(details: &mut Vec<(String, String)>, spans: &[SpanContext], at: usize)
    requires
        at < spans@.len(),
    ensures
        pairs(final(details)@) == filled(
            pairs(old(details)@),
            span_views(spans@),
            at as int,
            spans@[at as int].fields@.len() as int,
        ),
{
    let ghost start = pairs(details@);
    let ghost views = span_views(spans@);
    let fields = &spans[at].fields;
    assert(at < spans.len());
    let inward: usize = at + 1;
    let mut i: usize = 0;
    while i < fields.len()
        invariant
            inward == at + 1,
            at < spans@.len(),
            i <= fields@.len(),
            views == span_views(spans@),
            *fields == spans@[at as int].fields,
            pairs(details@) == filled(start, views, at as int, i as int),
        decreases fields@.len() - i,
    {
        let field = &fields[i];
        assert(views[at as int] == spans@[at as int]@);
        assert(views[at as int].fields[i as int] == (field.0@, field.1@));
        assert(pairs(details@).len() == details@.len());
        if find(details, field.0.as_str()).is_none() && !is_shadowed(
            spans,
            inward,
            field.0.as_str(),
        ) {
            push_pair(details, field.0.clone(), field.1.clone());
        }
        i = i + 1;
    }
}

/// What is forwarded of an event: its own details, and what the spans around it add.
/// The spans are given from the outermost to the innermost; none where the event
/// was fired outside any.
pub fn event_details(
    origin: &Origin,
    event: DetailVisitor,
    scope: Option<&[SpanContext]>,
) -> (r: Vec<(String, String)>)
    ensures
        pairs(r@) == forwarded(
            *origin,
            event@,
            match scope {
                Some(spans) => Some(span_views(spans@)),
                None => None,
            },
        ),
{
    let mut r = own(origin, event);
    match scope {
        None => {},
        Some(spans) => {
            let ghost views = span_views(spans@);
            assert(views.len() == spans@.len());
            if spans.len() > 0 {
                assert(views.last() == spans@[spans@.len() - 1]@);
                push_pair(
                    &mut r,
                    "Span".to_owned(),
                    sanitize(spans[spans.len() - 1].name.as_str()),
                );
            }
            push_pair(&mut r, "SpanPath".to_owned(), sanitize(path_of(spans).as_str()));
            let ghost named = pairs(r@);
            assert(named =~= named_details(*origin, event@, views));
            let mut i: usize = 0;
            while i < spans.len()
                invariant
                    i <= spans@.len(),
                    views == span_views(spans@),
                    pairs(r@) == surrounded(named, views, i as int),
                decreases spans@.len() - i,
            {
                assert(views[i as int] == spans@[i as int]@);
                assert(pairs(spans@[i as int].fields@).len() == spans@[i as int].fields@.len());
                fill(&mut r, spans, i);
                i = i + 1;
            }
        },
    }
    r
}

// ---------------------------------------------------------------------------
// Which value wins
// ---------------------------------------------------------------------------

/// The first value of a key.
pub open spec fn value_of(list: Seq<Pair>, key: Seq<char>) -> Option<Seq<char>> {
    match place_of(list, key, 0) {
        Some(i) => Some(list[i].1),
        None => None,
    }
}

proof fn place_means_key(list: Seq<Pair>, key: Seq<char>, from: int)
    requires
        0 <= from <= list.len(),
    ensures
        match place_of(list, key, from) {
            Some(i) => from <= i < list.len() && list[i].0 == key && forall|k: int|
                from <= k < i ==> (#[trigger] list[k]).0 != key,
            None => forall|k: int| from <= k < list.len() ==> (#[trigger] list[k]).0 != key,
        },
    decreases list.len() - from,
{
    if from < list.len() && list[from].0 != key {
        place_means_key(list, key, from + 1);
    }
}

proof fn prefix_keeps_place(shorter: Seq<Pair>, longer: Seq<Pair>, key: Seq<char>)
    requires
        shorter.len() <= longer.len(),
        forall|i: int| 0 <= i < shorter.len() ==> shorter[i] == #[trigger] longer[i],
        place_of(shorter, key, 0) is Some,
    ensures
        value_of(longer, key) == value_of(shorter, key),
{
    place_means_key(shorter, key, 0);
    place_means_key(longer, key, 0);
    let i = place_of(shorter, key, 0)->Some_0;
    assert(longer[i] == shorter[i]);
    let j = place_of(longer, key, 0)->Some_0;
    if j < i {
        assert(shorter[j] == longer[j]);
    }
}

proof fn filling_extends(list: Seq<Pair>, spans: Seq<SpanView>, at: int, n: int)
    requires
        0 <= at < spans.len(),
        0 <= n <= spans[at].fields.len(),
    ensures
        list.len() <= filled(list, spans, at, n).len(),
        forall|i: int|
            0 <= i < list.len() ==> list[i] == #[trigger] filled(list, spans, at, n)[i],
        forall|i: int|
            list.len() <= i < filled(list, spans, at, n).len() ==> spans[at].fields.contains(
                #[trigger] filled(list, spans, at, n)[i],
            ) && !shadowed(spans, at + 1, filled(list, spans, at, n)[i].0),
    decreases n,
{
    if n > 0 {
        filling_extends(list, spans, at, n - 1);
        assert(spans[at].fields.contains(spans[at].fields[n - 1]));
    }
}

proof fn surrounding_extends(list: Seq<Pair>, spans: Seq<SpanView>, from: int, n: int)
    requires
        0 <= from <= n <= spans.len(),
    ensures
        surrounded(list, spans, from).len() <= surrounded(list, spans, n).len(),
        forall|i: int|
            0 <= i < surrounded(list, spans, from).len() ==> surrounded(list, spans, from)[i]
                == #[trigger] surrounded(list, spans, n)[i],
    decreases n - from,
{
    if from < n {
        surrounding_extends(list, spans, from, n - 1);
        filling_extends(
            surrounded(list, spans, n - 1),
            spans,
            n - 1,
            spans[n - 1].fields.len() as int,
        );
    }
}

/// An event's own field wins over a span's of the same name.
pub proof fn an_event_field_wins(
    origin: Origin,
    event: Collected,
    spans: Seq<SpanView>,
    key: Seq<char>,
)
    requires
        value_of(own_details(origin, event), key) is Some,
    ensures
        value_of(forwarded(origin, event, Some(spans)), key) == value_of(
            own_details(origin, event),
            key,
        ),
{
    let own = own_details(origin, event);
    let named = named_details(origin, event, spans);
    let n = spans.len() as int;
    surrounding_extends(named, spans, 0, n);
    let whole = surrounded(named, spans, n);
    assert forall|i: int| 0 <= i < own.len() implies own[i] == #[trigger] whole[i] by {
        assert(named[i] == own[i]);
        assert(surrounded(named, spans, 0)[i] == whole[i]);
    }
    prefix_keeps_place(own, whole, key);
}

/// The fields of the spans come from root to leaf: what a span adds comes behind what
/// the spans around it have added, and is made of its own fields.
pub proof fn span_fields_come_from_root_to_leaf(
    origin: Origin,
    event: Collected,
    spans: Seq<SpanView>,
    at: int,
)
    requires
        0 <= at < spans.len(),
    ensures
        ({
            let named = named_details(origin, event, spans);
            let outer = surrounded(named, spans, at);
            let inner = surrounded(named, spans, at + 1);
            let whole = forwarded(origin, event, Some(spans));
            &&& named.len() <= outer.len() <= inner.len() <= whole.len()
            &&& forall|i: int| 0 <= i < inner.len() ==> inner[i] == #[trigger] whole[i]
            &&& forall|i: int| 0 <= i < outer.len() ==> outer[i] == #[trigger] whole[i]
            &&& forall|i: int|
                outer.len() <= i < inner.len() ==> spans[at].fields.contains(#[trigger] whole[i])
        }),
{
    let named = named_details(origin, event, spans);
    let n = spans.len() as int;
    surrounding_extends(named, spans, 0, at);
    surrounding_extends(named, spans, at, n);
    surrounding_extends(named, spans, at + 1, n);
    filling_extends(
        surrounded(named, spans, at),
        spans,
        at,
        spans[at].fields.len() as int,
    );
    let inner = surrounded(named, spans, at + 1);
    let whole = forwarded(origin, event, Some(spans));
    assert forall|i: int|
        surrounded(named, spans, at).len() <= i < inner.len() implies spans[at].fields.contains(
        #[trigger] whole[i],
    ) by {
        assert(inner[i] == whole[i]);
    }
}

proof fn outer_spans_leave_it_out(
    list: Seq<Pair>,
    spans: Seq<SpanView>,
    key: Seq<char>,
    at: int,
    n: int,
)
    requires
        0 <= n <= at < spans.len(),
        !has_key(list, key, list.len() as int),
        has_key(spans[at].fields, key, spans[at].fields.len() as int),
    ensures
        !has_key(surrounded(list, spans, n), key, surrounded(list, spans, n).len() as int),
    decreases n,
{
    if n > 0 {
        outer_spans_leave_it_out(list, spans, key, at, n - 1);
        let before = surrounded(list, spans, n - 1);
        let after = surrounded(list, spans, n);
        filling_extends(before, spans, n - 1, spans[n - 1].fields.len() as int);
        assert(shadowed(spans, n, key)) by {
            assert(has_key(spans[at].fields, key, spans[at].fields.len() as int));
        }
        assert forall|i: int| 0 <= i < after.len() implies (#[trigger] after[i]).0 != key by {
            if i < before.len() {
                assert(before[i] == after[i]);
            }
        }
    }
}

proof fn its_own_span_puts_it_in(
    list: Seq<Pair>,
    spans: Seq<SpanView>,
    key: Seq<char>,
    at: int,
    n: int,
)
    requires
        0 <= at < spans.len(),
        0 <= n <= spans[at].fields.len(),
        !has_key(list, key, list.len() as int),
        !shadowed(spans, at + 1, key),
    ensures
        match place_of(spans[at].fields.take(n), key, 0) {
            Some(p) => value_of(filled(list, spans, at, n), key) == Some(spans[at].fields[p].1),
            None => !has_key(
                filled(list, spans, at, n),
                key,
                filled(list, spans, at, n).len() as int,
            ),
        },
    decreases n,
{
    let fields = spans[at].fields;
    place_means_key(fields.take(n), key, 0);
    if n > 0 {
        its_own_span_puts_it_in(list, spans, key, at, n - 1);
        place_means_key(fields.take(n - 1), key, 0);
        let before = filled(list, spans, at, n - 1);
        let after = filled(list, spans, at, n);
        place_means_key(before, key, 0);
        place_means_key(after, key, 0);
        match place_of(fields.take(n - 1), key, 0) {
            Some(p) => {
                assert(fields.take(n)[p] == fields.take(n - 1)[p]);
                let q = place_of(fields.take(n), key, 0)->Some_0;
                if q < p {
                    assert(fields.take(n)[q] == fields.take(n - 1)[q]);
                }
                if p < q {
                    assert(fields.take(n)[p].0 == key);
                }
                assert forall|i: int| 0 <= i < before.len() implies before[i]
                    == #[trigger] after[i] by {}
                prefix_keeps_place(before, after, key);
            },
            None => {
                if fields[n - 1].0 == key {
                    assert(fields.take(n)[n - 1].0 == key);
                    assert(after[before.len() as int] == fields[n - 1]);
                    let q = place_of(after, key, 0)->Some_0;
                    if q < before.len() {
                        assert(before[q] == after[q]);
                    }
                    let p = place_of(fields.take(n), key, 0)->Some_0;
                    if p < n - 1 {
                        assert(fields.take(n)[p] == fields.take(n - 1)[p]);
                    }
                } else {
                    if place_of(fields.take(n), key, 0) is Some {
                        let p = place_of(fields.take(n), key, 0)->Some_0;
                        assert(fields.take(n)[p] == fields.take(n - 1)[p]);
                    }
                    assert forall|i: int| 0 <= i < after.len() implies (
                    #[trigger] after[i]).0 != key by {
                        if i < before.len() {
                            assert(before[i] == after[i]);
                        }
                    }
                }
            },
        }
    } else {
        assert(fields.take(0).len() == 0);
    }
}

/// A span's field wins over those of the same name in the spans around it: where
/// neither the event nor a span further in has the key, its value is forwarded.
pub proof fn an_inner_span_field_wins(
    origin: Origin,
    event: Collected,
    spans: Seq<SpanView>,
    at: int,
    key: Seq<char>,
)
    requires
        0 <= at < spans.len(),
        value_of(spans[at].fields, key) is Some,
        !shadowed(spans, at + 1, key),
        value_of(named_details(origin, event, spans), key) is None,
    ensures
        value_of(forwarded(origin, event, Some(spans)), key) == value_of(spans[at].fields, key),
{
    let named = named_details(origin, event, spans);
    let fields = spans[at].fields;
    let n = spans.len() as int;
    place_means_key(named, key, 0);
    place_means_key(fields, key, 0);
    assert(has_key(fields, key, fields.len() as int)) by {
        assert(fields[place_of(fields, key, 0)->Some_0].0 == key);
    }
    outer_spans_leave_it_out(named, spans, key, at, at);
    let outer = surrounded(named, spans, at);
    its_own_span_puts_it_in(outer, spans, key, at, fields.len() as int);
    assert(fields.take(fields.len() as int) =~= fields);
    surrounding_extends(named, spans, at + 1, n);
    prefix_keeps_place(surrounded(named, spans, at + 1), surrounded(named, spans, n), key);
}

// ---------------------------------------------------------------------------
// The binding
// ---------------------------------------------------------------------------

/// Marks one binding of a simulation to the thread it runs on.
#[derive(Debug, Clone, Copy, PartialEq, Eq, Structural)]
pub struct TracingGuard {
    /// Which binding this is.
    pub generation: u64,
}

/// The bindings of a thread: the one that stands, and the number of the next.
#[derive(Debug, Clone, Copy, PartialEq, Eq, Structural)]
pub struct Bindings {
    /// The binding that stands.
    pub bound: Option<u64>,
    /// The number of the next one.
    pub upcoming: u64,
}

impl Bindings {
    /// No binding.
    pub fn new() -> (r: Bindings)
        ensures
            r == (Bindings { bound: None, upcoming: 0 }),
    {
        Bindings { bound: None, upcoming: 0 }
    }

    /// The bindings once another was made.
    pub open spec fn installed(self) -> Bindings {
        Bindings { bound: Some(self.upcoming), upcoming: self.upcoming.wrapping_add(1) }
    }

    /// The bindings once a guard was dropped: a binding that replaced the guard's own
    /// stays.
    pub open spec fn released(self, guard: TracingGuard) -> Bindings {
        if self.bound == Some(guard.generation) {
            Bindings { bound: None, ..self }
        } else {
            self
        }
    }

    /// Makes another binding, in place of the one that stands.
    pub fn install(&mut self) -> (r: TracingGuard)
        ensures
            r.generation == old(self).upcoming,
            *final(self) == old(self).installed(),
    {
        let generation: u64 = self.upcoming;
        self.bound = Some(generation);
        self.upcoming = generation.wrapping_add(1);
        TracingGuard { generation }
    }

    /// Drops a guard.
    pub fn release(&mut self, guard: TracingGuard)
        ensures
            *final(self) == old(self).released(guard),
    {
        let own = match self.bound {
            Some(generation) => generation == guard.generation,
            None => false,
        };
        if own {
            self.bound = None;
        }
    }
}

/// Dropping the guard of the binding that stands leaves none.
pub proof fn a_guard_clears_its_own_binding(b: Bindings)
    ensures
        b.installed().released(TracingGuard { generation: b.upcoming }).bound is None,
{
}

/// Dropping an older guard leaves a newer binding alone, and the newer guard then
/// clears it.
pub proof fn a_newer_binding_survives_an_older_guard(b: Bindings)
    ensures
        ({
            let older = TracingGuard { generation: b.upcoming };
            let newer = TracingGuard { generation: b.installed().upcoming };
            let both = b.installed().installed();
            &&& both.released(older) == both
            &&& both.released(older).released(newer).bound is None
        }),
{
}

} // verus!

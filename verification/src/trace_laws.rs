//! What a forwarded event says, letter by letter and field by field.

use crate::text;
use crate::trace_events;
use crate::trace_events::{Bindings, Collected, Level, Origin, Pair, Severity, SpanView, TracingGuard};
use vstd::prelude::*;

verus! {

// ---------------------------------------------------------------------------
// Severities
// ---------------------------------------------------------------------------

/// An error is shown but fails nothing, a warning is a warning, an information is one, and
/// what is finer than that is for debugging.
pub proof fn severities_follow_the_levels(level: Level)
    ensures
        trace_events::severity_of(level) == Severity::WarnAlways <==> level == Level::Error,
        trace_events::severity_of(level) == Severity::Warn <==> level == Level::Warn,
        trace_events::severity_of(level) == Severity::Info <==> level == Level::Info,
        trace_events::severity_of(level) == Severity::Debug <==> level == Level::Debug || level
            == Level::Trace,
{
}

// ---------------------------------------------------------------------------
// Zero characters
// ---------------------------------------------------------------------------

proof fn cleaning_goes_piece_by_piece(a: Seq<char>, b: Seq<char>, n: int)
    requires
        0 <= n <= b.len(),
    ensures
        trace_events::cleaned(a + b, a.len() + n) == trace_events::clean(a)
            + trace_events::cleaned(b, n),
    decreases n,
{
    let whole = a + b;
    if n > 0 {
        cleaning_goes_piece_by_piece(a, b, n - 1);
        assert(whole[a.len() + n - 1] == b[n - 1]);
        assert(trace_events::cleaned(whole, a.len() + n) =~= trace_events::clean(a)
            + trace_events::cleaned(b, n));
    } else {
        cleaning_looks_no_further(a, whole, a.len() as int);
        assert(trace_events::clean(a) + trace_events::cleaned(b, 0) =~= trace_events::clean(a));
    }
}

proof fn cleaning_looks_no_further(a: Seq<char>, b: Seq<char>, n: int)
    requires
        0 <= n <= a.len(),
        n <= b.len(),
        forall|i: int| 0 <= i < n ==> a[i] == b[i],
    ensures
        trace_events::cleaned(a, n) == trace_events::cleaned(b, n),
    decreases n,
{
    if n > 0 {
        cleaning_looks_no_further(a, b, n - 1);
    }
}

/// Cleaning drops the zero character and keeps any other as it stands, and of a text made
/// of two it makes what it makes of the one and behind it what it makes of the other.
pub proof fn cleaning_drops_zeroes_and_keeps_the_rest_in_order(a: Seq<char>, b: Seq<char>, c: char)
    ensures
        trace_events::clean(a + b) == trace_events::clean(a) + trace_events::clean(b),
        trace_events::clean(Seq::empty()) == Seq::<char>::empty(),
        c == '\0' ==> trace_events::clean(seq![c]) == Seq::<char>::empty(),
        c != '\0' ==> trace_events::clean(seq![c]) == seq![c],
{
    cleaning_goes_piece_by_piece(a, b, b.len() as int);
    let one = seq![c];
    assert(trace_events::cleaned(one, 0) =~= Seq::<char>::empty());
    assert(trace_events::cleaned(one, 1) == trace_events::clean(one));
    assert(Seq::<char>::empty().push(c) =~= one);
}

// ---------------------------------------------------------------------------
// The path of the spans
// ---------------------------------------------------------------------------

/// Where the name of span `k` begins in a path: behind the names before it, each with its
/// slash.
pub open spec fn name_begins(spans: Seq<SpanView>, k: int) -> int
    decreases k,
{
    if k <= 0 {
        0
    } else {
        name_begins(spans, k - 1) + spans[k - 1].name.len() + 1
    }
}

/// How long the first `n` names are together.
pub open spec fn names_long(spans: Seq<SpanView>, n: int) -> int
    decreases n,
{
    if n <= 0 {
        0
    } else {
        names_long(spans, n - 1) + spans[n - 1].name.len()
    }
}

proof fn names_and_slashes(spans: Seq<SpanView>, n: int)
    requires
        n >= 0,
    ensures
        name_begins(spans, n) == names_long(spans, n) + n,
    decreases n,
{
    if n > 0 {
        names_and_slashes(spans, n - 1);
    }
}

/// The path of no span is empty, that of one span is its name, and one span more adds a
/// slash and that span's name to the path so far.
pub proof fn a_path_grows_by_a_slash_and_a_name(spans: Seq<SpanView>, n: int)
    requires
        0 < n < spans.len(),
    ensures
        trace_events::path(spans, 0) == Seq::<char>::empty(),
        trace_events::path(spans, 1) == spans[0].name,
        trace_events::path(spans, n + 1) == trace_events::path(spans, n) + seq!['/']
            + spans[n].name,
{
    reveal_strlit("/");
    assert("/"@ =~= seq!['/']);
}

/// A path is as long as all its names together and one slash between every two.
pub proof fn a_path_is_as_long_as_its_names_and_slashes(spans: Seq<SpanView>, n: int)
    requires
        0 < n <= spans.len(),
    ensures
        trace_events::path(spans, n).len() == names_long(spans, n) + n - 1,
    decreases n,
{
    reveal_strlit("/");
    if n > 1 {
        a_path_is_as_long_as_its_names_and_slashes(spans, n - 1);
    } else {
        assert(names_long(spans, 0) == 0);
        assert(names_long(spans, 1) == names_long(spans, 0) + spans[0].name.len());
    }
}

/// A path holds every name, at the place behind the names and slashes before it, and in
/// front of every name but the first a slash.
pub proof fn a_path_holds_every_name_in_its_place(spans: Seq<SpanView>, n: int, k: int)
    requires
        0 <= k < n <= spans.len(),
    ensures
        0 <= name_begins(spans, k),
        name_begins(spans, k) + spans[k].name.len() <= trace_events::path(spans, n).len(),
        trace_events::path(spans, n).subrange(
            name_begins(spans, k),
            name_begins(spans, k) + spans[k].name.len(),
        ) == spans[k].name,
        k > 0 ==> 0 < name_begins(spans, k) && trace_events::path(spans, n)[name_begins(spans, k)
            - 1] == '/',
    decreases n,
{
    reveal_strlit("/");
    names_and_slashes(spans, k);
    names_and_slashes(spans, n - 1);
    names_are_no_shorter_than_nothing(spans, k);
    let at = name_begins(spans, k);
    let path = trace_events::path(spans, n);
    a_path_is_as_long_as_its_names_and_slashes(spans, n);
    if n == 1 {
        assert(path.subrange(0, path.len() as int) =~= path);
    } else {
        let before = trace_events::path(spans, n - 1);
        a_path_is_as_long_as_its_names_and_slashes(spans, n - 1);
        if k < n - 1 {
            a_path_holds_every_name_in_its_place(spans, n - 1, k);
            assert(path.subrange(at, at + spans[k].name.len()) =~= before.subrange(
                at,
                at + spans[k].name.len(),
            ));
        } else {
            assert(at == before.len() + 1);
            assert(path.subrange(at, at + spans[k].name.len()) =~= spans[k].name);
        }
    }
}

proof fn names_are_no_shorter_than_nothing(spans: Seq<SpanView>, n: int)
    ensures
        0 <= names_long(spans, n),
    decreases n,
{
    if n > 0 {
        names_are_no_shorter_than_nothing(spans, n - 1);
    }
}

/// What lies between the slashes of a text's first `n` characters.
pub open spec fn split_at_slashes(s: Seq<char>, n: int) -> Seq<Seq<char>>
    decreases n,
{
    if n <= 0 {
        seq![Seq::empty()]
    } else {
        let before = split_at_slashes(s, n - 1);
        if s[n - 1] == '/' {
            before.push(Seq::empty())
        } else {
            before.update(before.len() - 1, before.last().push(s[n - 1]))
        }
    }
}

proof fn splitting_looks_no_further(a: Seq<char>, b: Seq<char>, n: int)
    requires
        0 <= n <= a.len(),
        n <= b.len(),
        forall|i: int| 0 <= i < n ==> a[i] == b[i],
    ensures
        split_at_slashes(a, n) == split_at_slashes(b, n),
        split_at_slashes(a, n).len() > 0,
    decreases n,
{
    if n > 0 {
        splitting_looks_no_further(a, b, n - 1);
    }
}

proof fn a_name_without_slashes_is_one_piece(s: Seq<char>, from: int, name: Seq<char>, n: int)
    requires
        0 <= from,
        from + name.len() <= s.len(),
        0 <= n <= name.len(),
        forall|i: int| 0 <= i < name.len() ==> s[from + i] == #[trigger] name[i],
        forall|i: int| 0 <= i < name.len() ==> name[i] != '/',
        split_at_slashes(s, from).len() > 0,
        split_at_slashes(s, from).last() == Seq::<char>::empty(),
    ensures
        split_at_slashes(s, from + n) == split_at_slashes(s, from).drop_last().push(name.take(n)),
    decreases n,
{
    let before = split_at_slashes(s, from);
    if n > 0 {
        a_name_without_slashes_is_one_piece(s, from, name, n - 1);
        assert(s[from + (n - 1)] == name[n - 1]);
        assert(name.take(n - 1).push(name[n - 1]) =~= name.take(n));
        assert(split_at_slashes(s, from + n) =~= before.drop_last().push(name.take(n)));
    } else {
        assert(name.take(0) =~= Seq::<char>::empty());
        assert(before =~= before.drop_last().push(name.take(0)));
    }
}

/// Where no name holds a slash, splitting the path at its slashes gives the names back, all
/// of them and in order.
pub proof fn splitting_a_path_gives_the_names_back(spans: Seq<SpanView>, n: int)
    requires
        0 < n <= spans.len(),
        forall|k: int, i: int|
            0 <= k < n && 0 <= i < spans[k].name.len() ==> #[trigger] spans[k].name[i] != '/',
    ensures
        ({
            let path = trace_events::path(spans, n);
            split_at_slashes(path, path.len() as int) == Seq::new(
                n as nat,
                |k: int| spans[k].name,
            )
        }),
    decreases n,
{
    reveal_strlit("/");
    let path = trace_events::path(spans, n);
    let names = Seq::new(n as nat, |k: int| spans[k].name);
    let name = spans[n - 1].name;
    if n == 1 {
        assert(split_at_slashes(path, 0) =~= seq![Seq::<char>::empty()]);
        a_name_without_slashes_is_one_piece(path, 0, name, name.len() as int);
        assert(name.take(name.len() as int) =~= name);
        assert(split_at_slashes(path, path.len() as int) =~= names);
    } else {
        splitting_a_path_gives_the_names_back(spans, n - 1);
        let before = trace_events::path(spans, n - 1);
        let m = before.len() as int;
        splitting_looks_no_further(before, path, m);
        assert(path[m] == '/');
        let so_far = split_at_slashes(path, m + 1);
        assert(so_far == split_at_slashes(path, m).push(Seq::empty()));
        a_name_without_slashes_is_one_piece(path, m + 1, name, name.len() as int);
        assert(name.take(name.len() as int) =~= name);
        assert(so_far.drop_last() =~= split_at_slashes(path, m));
        assert(split_at_slashes(path, path.len() as int) =~= names);
    }
}

// ---------------------------------------------------------------------------
// Fields
// ---------------------------------------------------------------------------

/// A field named `message` is the message, in place of any before it; any other field goes
/// behind those collected so far. Neither touches the other, and both are cleaned.
pub proof fn a_field_is_the_message_or_goes_last(c: Collected, name: Seq<char>, value: Seq<char>)
    ensures
        ({
            let r = trace_events::recorded(c, name, value);
            &&& name == "message"@ ==> r.message == Some(trace_events::clean(value)) && r.fields
                == c.fields
            &&& name != "message"@ ==> {
                &&& r.message == c.message
                &&& r.fields.len() == c.fields.len() + 1
                &&& r.fields.last() == (trace_events::clean(name), trace_events::clean(value))
                &&& r.fields.drop_last() == c.fields
            }
        }),
{
    let r = trace_events::recorded(c, name, value);
    if name != "message"@ {
        assert(r.fields.drop_last() =~= c.fields);
    }
}

/// All that was collected is the message first, where there is one, and then the fields.
pub proof fn the_message_leads_the_fields(c: Collected)
    ensures
        c.message matches Some(message) ==> trace_events::all_fields(c)[0] == ("message"@, message)
            && trace_events::all_fields(c).skip(1) == c.fields,
        c.message is None ==> trace_events::all_fields(c) == c.fields,
{
    if let Some(message) = c.message {
        assert(trace_events::all_fields(c).skip(1) =~= c.fields);
    }
}

/// Whether some of the first `n` fields has a key.
pub open spec fn keyed(list: Seq<Pair>, key: Seq<char>, n: int) -> bool {
    exists|i: int| 0 <= i < n && (#[trigger] list[i]).0 == key
}

proof fn a_key_is_found_first(list: Seq<Pair>, key: Seq<char>, from: int)
    requires
        0 <= from <= list.len(),
    ensures
        match trace_events::place_of(list, key, from) {
            Some(i) => from <= i < list.len() && list[i].0 == key && forall|k: int|
                from <= k < i ==> (#[trigger] list[k]).0 != key,
            None => forall|k: int| from <= k < list.len() ==> (#[trigger] list[k]).0 != key,
        },
    decreases list.len() - from,
{
    if from < list.len() && list[from].0 != key {
        a_key_is_found_first(list, key, from + 1);
    }
}

/// The value of a key is that of the first field that has it.
pub proof fn a_value_is_that_of_the_first_field(list: Seq<Pair>, key: Seq<char>)
    ensures
        match trace_events::value_of(list, key) {
            Some(value) => exists|i: int|
                0 <= i < list.len() && #[trigger] list[i] == (key, value) && !keyed(list, key, i),
            None => !keyed(list, key, list.len() as int),
        },
{
    a_key_is_found_first(list, key, 0);
    if let Some(i) = trace_events::place_of(list, key, 0) {
        assert(list[i] == (key, list[i].1));
    }
}

/// Merging moves no field and renames none: the fields that stood keep their places and
/// keys, and what is new goes behind them. A field whose key is not among the newer ones
/// keeps its value; and no key comes from anywhere else.
pub proof fn merging_moves_no_field(fields: Seq<Pair>, newer: Seq<Pair>, n: int)
    requires
        0 <= n <= newer.len(),
    ensures
        ({
            let r = trace_events::merged(fields, newer, n);
            &&& fields.len() <= r.len() <= fields.len() + n
            &&& forall|i: int| 0 <= i < fields.len() ==> (#[trigger] r[i]).0 == fields[i].0
            &&& forall|i: int|
                0 <= i < fields.len() && !keyed(newer, fields[i].0, n) ==> #[trigger] r[i]
                    == fields[i]
            &&& forall|i: int|
                fields.len() <= i < r.len() ==> keyed(newer, (#[trigger] r[i]).0, n) && !keyed(
                    fields,
                    r[i].0,
                    fields.len() as int,
                )
        }),
    decreases n,
{
    if n > 0 {
        merging_moves_no_field(fields, newer, n - 1);
        let before = trace_events::merged(fields, newer, n - 1);
        let r = trace_events::merged(fields, newer, n);
        let key = newer[n - 1].0;
        a_key_is_found_first(before, key, 0);
        assert forall|k: Seq<char>| keyed(newer, k, n - 1) implies #[trigger] keyed(newer, k, n) by {
            let w = choose|w: int| 0 <= w < n - 1 && (#[trigger] newer[w]).0 == k;
            assert(newer[w].0 == k);
        }
        assert(keyed(newer, key, n)) by {
            assert(newer[n - 1].0 == key);
        }
        assert forall|i: int|
            0 <= i < fields.len() && !keyed(newer, fields[i].0, n) implies #[trigger] r[i]
            == fields[i] by {
            assert(before[i] == fields[i]);
        }
        assert forall|i: int| fields.len() <= i < r.len() implies keyed(newer, (#[trigger] r[i]).0, n)
            && !keyed(fields, r[i].0, fields.len() as int) by {
            if i < before.len() {
                assert(before[i].0 == r[i].0);
                assert(keyed(newer, before[i].0, n - 1));
            } else {
                if keyed(fields, key, fields.len() as int) {
                    let w = choose|w: int|
                        0 <= w < fields.len() && (#[trigger] fields[w]).0 == key;
                    assert(before[w].0 == key);
                }
            }
        }
    }
}

/// A key that is merged in has the value it was last merged in with.
pub proof fn the_newest_value_stands(fields: Seq<Pair>, newer: Seq<Pair>, n: int, at: int)
    requires
        0 <= at < n <= newer.len(),
        forall|k: int| at < k < n ==> (#[trigger] newer[k]).0 != newer[at].0,
    ensures
        trace_events::value_of(trace_events::merged(fields, newer, n), newer[at].0) == Some(
            newer[at].1,
        ),
    decreases n,
{
    let before = trace_events::merged(fields, newer, n - 1);
    let r = trace_events::merged(fields, newer, n);
    let key = newer[at].0;
    a_key_is_found_first(before, newer[n - 1].0, 0);
    a_key_is_found_first(before, key, 0);
    a_key_is_found_first(r, key, 0);
    if at < n - 1 {
        the_newest_value_stands(fields, newer, n - 1, at);
        let i = trace_events::place_of(before, key, 0)->Some_0;
        assert(r[i] == before[i]);
        assert forall|k: int| 0 <= k < i implies (#[trigger] r[k]).0 != key by {
            assert(before[k].0 != key);
        }
    } else {
        match trace_events::place_of(before, key, 0) {
            Some(i) => {
                assert(r[i].0 == key);
                assert forall|k: int| 0 <= k < i implies (#[trigger] r[k]).0 != key by {
                    assert(before[k].0 != key);
                }
            },
            None => {
                assert(r[before.len() as int].0 == key);
                assert forall|k: int| 0 <= k < before.len() implies (#[trigger] r[k]).0 != key by {
                    assert(before[k].0 != key);
                }
            },
        }
    }
}

/// An event's own details are its target, then file, line and message as far as there are
/// any, and then its fields.
pub proof fn an_event_says_where_it_is_from(origin: Origin, event: Collected)
    ensures
        ({
            let own = trace_events::own_details(origin, event);
            let file = if origin.file is Some {
                1int
            } else {
                0
            };
            let line = if origin.line is Some {
                1int
            } else {
                0
            };
            let message = if event.message is Some {
                1int
            } else {
                0
            };
            &&& own.len() == 1 + file + line + message + event.fields.len()
            &&& own[0] == ("Target"@, trace_events::clean(origin.target@))
            &&& origin.file matches Some(f) ==> own[1] == ("File"@, trace_events::clean(f@))
            &&& origin.line matches Some(l) ==> own[1 + file] == (
                "Line"@,
                text::nat_text(l as nat),
            )
            &&& event.message matches Some(m) ==> own[1 + file + line] == ("Message"@, m)
            &&& own.skip(1 + file + line + message) == event.fields
        }),
{
    let own = trace_events::own_details(origin, event);
    let k = own.len() - event.fields.len();
    assert(own.skip(k) =~= event.fields);
}

/// With spans around it an event says first its own details, then the name of the span it
/// is right inside, and then the path of them all.
pub proof fn an_event_names_its_span_and_its_path(
    origin: Origin,
    event: Collected,
    spans: Seq<SpanView>,
)
    ensures
        ({
            let own = trace_events::own_details(origin, event);
            let named = trace_events::named_details(origin, event, spans);
            &&& named.take(own.len() as int) == own
            &&& named.last() == (
                "SpanPath"@,
                trace_events::clean(trace_events::path(spans, spans.len() as int)),
            )
            &&& spans.len() > 0 ==> named.len() == own.len() + 2 && named[own.len() as int] == (
                "Span"@,
                trace_events::clean(spans[spans.len() - 1].name),
            )
            &&& spans.len() == 0 ==> named.len() == own.len() + 1
        }),
{
    let own = trace_events::own_details(origin, event);
    let named = trace_events::named_details(origin, event, spans);
    assert(named.take(own.len() as int) =~= own);
}

/// Whether a span from `from` on has a field of a key.
pub open spec fn inside(spans: Seq<SpanView>, from: int, key: Seq<char>) -> bool {
    exists|k: int, i: int|
        from <= k < spans.len() && 0 <= i < spans[k].fields.len()
            && #[trigger] spans[k].fields[i].0 == key
}

proof fn inside_is_shadowed(spans: Seq<SpanView>, from: int, key: Seq<char>)
    requires
        0 <= from,
    ensures
        trace_events::shadowed(spans, from, key) <==> inside(spans, from, key),
{
    if trace_events::shadowed(spans, from, key) {
        let k = choose|k: int|
            from <= k < spans.len() && trace_events::has_key(
                (#[trigger] spans[k]).fields,
                key,
                spans[k].fields.len() as int,
            );
        let i = choose|i: int|
            0 <= i < spans[k].fields.len() && (#[trigger] spans[k].fields[i]).0 == key;
        assert(spans[k].fields[i].0 == key);
    }
    if inside(spans, from, key) {
        let (k, i) = choose|k: int, i: int|
            from <= k < spans.len() && 0 <= i < spans[k].fields.len()
                && #[trigger] spans[k].fields[i].0 == key;
        assert(trace_events::has_key(spans[k].fields, key, spans[k].fields.len() as int));
        assert(from <= k < spans.len() && trace_events::has_key(
            spans[k].fields,
            key,
            spans[k].fields.len() as int,
        ));
    }
}

/// Whether a forwarded field is one of a span's own, new to the list, and no span further in
/// has one of that key.
pub open spec fn adds_properly(r: Seq<Pair>, i: int, spans: Seq<SpanView>, at: int) -> bool {
    &&& 0 <= at < spans.len()
    &&& spans[at].fields.contains(r[i])
    &&& !inside(spans, at + 1, r[i].0)
    &&& !keyed(r, r[i].0, i)
}

/// Whether one of the first `n` spans added a forwarded field.
pub open spec fn added_properly(r: Seq<Pair>, i: int, spans: Seq<SpanView>, n: int) -> bool {
    exists|at: int| 0 <= at < n && #[trigger] adds_properly(r, i, spans, at)
}

proof fn keys_stay(shorter: Seq<Pair>, longer: Seq<Pair>, key: Seq<char>, n: int)
    requires
        0 <= n <= shorter.len() <= longer.len(),
        forall|i: int| 0 <= i < shorter.len() ==> shorter[i] == #[trigger] longer[i],
    ensures
        keyed(shorter, key, n) <==> keyed(longer, key, n),
{
    if keyed(shorter, key, n) {
        let w = choose|w: int| 0 <= w < n && (#[trigger] shorter[w]).0 == key;
        assert(longer[w].0 == key);
    }
    if keyed(longer, key, n) {
        let w = choose|w: int| 0 <= w < n && (#[trigger] longer[w]).0 == key;
        assert(shorter[w] == longer[w]);
    }
}

proof fn a_span_adds_properly(list: Seq<Pair>, spans: Seq<SpanView>, at: int, n: int)
    requires
        0 <= at < spans.len(),
        0 <= n <= spans[at].fields.len(),
    ensures
        ({
            let r = trace_events::filled(list, spans, at, n);
            &&& list.len() <= r.len()
            &&& forall|i: int| 0 <= i < list.len() ==> list[i] == #[trigger] r[i]
            &&& forall|i: int|
                list.len() <= i < r.len() ==> #[trigger] adds_properly(r, i, spans, at)
            &&& forall|m: int|
                0 <= m < n && !inside(spans, at + 1, spans[at].fields[m].0) ==> keyed(
                    r,
                    (#[trigger] spans[at].fields[m]).0,
                    r.len() as int,
                )
        }),
    decreases n,
{
    if n > 0 {
        a_span_adds_properly(list, spans, at, n - 1);
        let before = trace_events::filled(list, spans, at, n - 1);
        let r = trace_events::filled(list, spans, at, n);
        let field = spans[at].fields[n - 1];
        inside_is_shadowed(spans, at + 1, field.0);
        assert(trace_events::has_key(before, field.0, before.len() as int) <==> keyed(
            before,
            field.0,
            before.len() as int,
        ));
        assert forall|i: int| list.len() <= i < r.len() implies #[trigger] adds_properly(
            r,
            i,
            spans,
            at,
        ) by {
            if i < before.len() {
                assert(adds_properly(before, i, spans, at));
                assert(before[i] == r[i]);
                keys_stay(before, r, r[i].0, i);
            } else {
                assert(r[i] == field);
                assert(spans[at].fields.contains(field));
                keys_stay(before, r, field.0, before.len() as int);
            }
        }
        assert forall|m: int|
            0 <= m < n && !inside(spans, at + 1, spans[at].fields[m].0) implies keyed(
            r,
            (#[trigger] spans[at].fields[m]).0,
            r.len() as int,
        ) by {
            let key = spans[at].fields[m].0;
            if keyed(before, key, before.len() as int) {
                let w = choose|w: int| 0 <= w < before.len() && (#[trigger] before[w]).0 == key;
                assert(r[w].0 == key);
            } else {
                assert(m == n - 1);
                assert(r[before.len() as int].0 == key);
            }
        }
    }
}

/// What the spans add to a list: it stays in front as it was; whatever follows is the
/// field of some span, under a key that nothing before it has and no span further in has;
/// and no key of any span is left out.
pub proof fn the_spans_add_what_is_not_said_yet(list: Seq<Pair>, spans: Seq<SpanView>, n: int)
    requires
        0 <= n <= spans.len(),
    ensures
        ({
            let r = trace_events::surrounded(list, spans, n);
            &&& list.len() <= r.len()
            &&& forall|i: int| 0 <= i < list.len() ==> list[i] == #[trigger] r[i]
            &&& forall|i: int|
                list.len() <= i < r.len() ==> #[trigger] added_properly(r, i, spans, n)
            &&& forall|at: int, m: int|
                0 <= at < n && 0 <= m < spans[at].fields.len() && !inside(
                    spans,
                    n,
                    spans[at].fields[m].0,
                ) ==> keyed(r, (#[trigger] spans[at].fields[m]).0, r.len() as int)
        }),
    decreases n,
{
    if n > 0 {
        the_spans_add_what_is_not_said_yet(list, spans, n - 1);
        let before = trace_events::surrounded(list, spans, n - 1);
        let r = trace_events::surrounded(list, spans, n);
        let own = spans[n - 1].fields;
        a_span_adds_properly(before, spans, n - 1, own.len() as int);
        assert forall|i: int| list.len() <= i < r.len() implies #[trigger] added_properly(
            r,
            i,
            spans,
            n,
        ) by {
            if i < before.len() {
                assert(added_properly(before, i, spans, n - 1));
                let at = choose|at: int|
                    0 <= at < n - 1 && #[trigger] adds_properly(before, i, spans, at);
                assert(before[i] == r[i]);
                keys_stay(before, r, r[i].0, i);
                assert(adds_properly(r, i, spans, at));
            } else {
                assert(adds_properly(r, i, spans, n - 1));
            }
        }
        assert forall|at: int, m: int|
            0 <= at < n && 0 <= m < spans[at].fields.len() && !inside(
                spans,
                n,
                spans[at].fields[m].0,
            ) implies keyed(r, (#[trigger] spans[at].fields[m]).0, r.len() as int) by {
            let key = spans[at].fields[m].0;
            if at < n - 1 {
                if inside(spans, n - 1, key) {
                    let (k, i) = choose|k: int, i: int|
                        n - 1 <= k < spans.len() && 0 <= i < spans[k].fields.len()
                            && #[trigger] spans[k].fields[i].0 == key;
                    assert(k == n - 1);
                    assert(keyed(r, own[i].0, r.len() as int));
                } else {
                    assert(keyed(before, key, before.len() as int));
                    let w = choose|w: int|
                        0 <= w < before.len() && (#[trigger] before[w]).0 == key;
                    assert(r[w].0 == key);
                }
            } else {
                assert(keyed(r, own[m].0, r.len() as int));
            }
        }
    }
}

// ---------------------------------------------------------------------------
// Bindings
// ---------------------------------------------------------------------------

/// A new binding stands in place of any other, under a number that the next one does not
/// get.
pub proof fn a_new_binding_stands_under_a_number_of_its_own(b: Bindings)
    ensures
        b.installed().bound == Some(b.upcoming),
        b.installed().upcoming != b.upcoming,
        b.upcoming < u64::MAX ==> b.installed().upcoming == b.upcoming + 1,
{
}

/// A guard ends the binding of its own number and no other, and uses up no number.
pub proof fn a_guard_ends_no_other_binding(b: Bindings, guard: TracingGuard)
    ensures
        b.released(guard).upcoming == b.upcoming,
        b.bound == Some(guard.generation) ==> b.released(guard).bound is None,
        b.bound != Some(guard.generation) ==> b.released(guard).bound == b.bound,
{
}

} // verus!

//! Storage of events: an in-memory event store with filtered, time-window
//! and replay queries, and the keys under which a key-ordered store files
//! events (`<timestamp>_<event id>`).

use vstd::prelude::*;
use crate::text::{str_equal, owned, chars_of, chars_between, string_of, decimal, push_decimal, digit_char};
use crate::event::{Event, EventFilter, EventError, filter_matches};

verus! {

/// An event as stored, with the time it was stored (nanoseconds since the Unix epoch).
pub struct StoredEvent {
    pub event: Event,
    pub stored_at: i64,
}

/// The events of `events` that `f` selects, newest first.
pub open spec fn newest_matching(events: Seq<Event>, f: EventFilter) -> Seq<Event>
    decreases events.len(),
{
    if events.len() == 0 {
        Seq::empty()
    } else {
        let head = if filter_matches(f, events.last()) { seq![events.last()] } else { Seq::empty() };
        head + newest_matching(events.drop_last(), f)
    }
}

/// The events of `events` that happened within `[start, end]`, oldest first.
pub open spec fn in_window(events: Seq<Event>, start: i64, end: i64) -> Seq<Event>
    decreases events.len(),
{
    if events.len() == 0 {
        Seq::empty()
    } else {
        let e = events.last();
        let tail = if start <= e.time() && e.time() <= end { seq![e] } else { Seq::empty() };
        in_window(events.drop_last(), start, end) + tail
    }
}

/// At most `limit` items of `s` from its front; all of them without a limit.
pub open spec fn take_limit<T>(s: Seq<T>, limit: Option<usize>) -> Seq<T> {
    match limit {
        Some(n) => if n < s.len() { s.take(n as int) } else { s },
        None => s,
    }
}

/// Whether `i` is the first position of an event with identifier `id`.
pub open spec fn first_with_id(events: Seq<Event>, id: Seq<char>, i: int) -> bool {
    &&& 0 <= i < events.len()
    &&& events[i].id() == id
    &&& forall|j: int| 0 <= j < i ==> events[j].id() != id
}

/// Whether some event has identifier `id`.
pub open spec fn has_event_with_id(events: Seq<Event>, id: Seq<char>) -> bool {
    exists|i: int| first_with_id(events, id, i)
}

/// The first position of an event with identifier `id`.
pub open spec fn first_position(events: Seq<Event>, id: Seq<char>) -> int {
    choose|i: int| first_with_id(events, id, i)
}

/// The events a replay hands back: all of them, or those from the first
/// event with the given identifier on; nothing when no event has it.
pub open spec fn replay_from(events: Seq<Event>, from: Option<Seq<char>>) -> Option<Seq<Event>> {
    match from {
        None => Some(events),
        Some(id) => if has_event_with_id(events, id) {
            Some(events.subrange(first_position(events, id), events.len() as int))
        } else {
            None
        },
    }
}

proof fn lemma_first_with_id_unique(events: Seq<Event>, id: Seq<char>, a: int, b: int)
    requires
        first_with_id(events, id, a),
        first_with_id(events, id, b),
    ensures
        a == b,
{
    if a < b {
        assert(events[a].id() != id);
    } else if b < a {
        assert(events[b].id() != id);
    }
}

/// The events behind a sequence of references.
pub open spec fn derefs(s: Seq<&Event>) -> Seq<Event> {
    s.map_values(|e: &Event| *e)
}

proof fn lemma_newest_matching_len(events: Seq<Event>, f: EventFilter)
    ensures
        newest_matching(events, f).len() <= events.len(),
    decreases events.len(),
{
    if events.len() > 0 {
        lemma_newest_matching_len(events.drop_last(), f);
    }
}

proof fn lemma_in_window_len(events: Seq<Event>, start: i64, end: i64)
    ensures
        in_window(events, start, end).len() <= events.len(),
    decreases events.len(),
{
    if events.len() > 0 {
        lemma_in_window_len(events.drop_last(), start, end);
    }
}

proof fn lemma_in_window_prefix(events: Seq<Event>, start: i64, end: i64, i: int, j: int)
    requires
        0 <= i <= j <= events.len(),
    ensures
        in_window(events.take(i), start, end).len() <= in_window(events.take(j), start, end).len(),
        in_window(events.take(i), start, end) == in_window(events.take(j), start, end).take(
            in_window(events.take(i), start, end).len() as int,
        ),
    decreases j - i,
{
    if i < j {
        lemma_in_window_prefix(events, start, end, i, j - 1);
        assert(events.take(j).drop_last() =~= events.take(j - 1));
        let a = in_window(events.take(i), start, end);
        let b = in_window(events.take(j - 1), start, end);
        let c = in_window(events.take(j), start, end);
        assert(c.take(b.len() as int) =~= b);
        assert(c.take(a.len() as int) =~= b.take(a.len() as int));
    } else {
        let a = in_window(events.take(i), start, end);
        assert(a.take(a.len() as int) =~= a);
    }
}

/// Events kept in memory, oldest first.
pub struct InMemoryEventPersistence {
    events: Vec<StoredEvent>,
}

impl InMemoryEventPersistence {
    /// The stored events, oldest first.
    pub closed spec fn stored(&self) -> Seq<Event> {
        self.events@.map_values(|s: StoredEvent| s.event)
    }

    /// An empty store.
    pub fn new() -> (r: Self)
        ensures
            r.stored() == Seq::<Event>::empty(),
    {
        let r = InMemoryEventPersistence { events: Vec::new() };
        assert(r.stored() =~= Seq::<Event>::empty());
        r
    }

    /// Stores an event after the others, noting when it was stored.
    pub fn store_event(&mut self, event: Event, stored_at: i64)
        ensures
            final(self).stored() == old(self).stored().push(event),
    {
        let ghost before = self.stored();
        self.events.push(StoredEvent { event, stored_at });
        assert(self.stored() =~= before.push(event));
    }

    /// Number of stored events.
    pub fn len(&self) -> (r: usize)
        ensures
            r == self.stored().len(),
    {
        self.events.len()
    }

    /// The stored events that `filter` selects, newest first, at most `limit` of them.
    pub fn get_events(&self, filter: &EventFilter, limit: Option<usize>) -> (r: Vec<&Event>)
        ensures
            derefs(r@) == take_limit(newest_matching(self.stored(), *filter), limit),
    {
        let ghost all = self.stored();
        let max_count: usize = match limit {
            Some(n) => n,
            None => usize::MAX,
        };
        let mut out: Vec<&Event> = Vec::new();
        let mut i: usize = self.events.len();
        proof {
            assert(all.take(i as int) =~= all);
            assert(derefs(out@) =~= Seq::<Event>::empty());
        }
        while i > 0
            invariant_except_break
                i <= self.events@.len(),
                all == self.stored(),
                all.len() == self.events@.len(),
                derefs(out@) + newest_matching(all.take(i as int), *filter) == newest_matching(all, *filter),
                out@.len() <= max_count,
            ensures
                derefs(out@) + newest_matching(all.take(i as int), *filter) == newest_matching(all, *filter),
                out@.len() == max_count || i == 0,
                out@.len() <= max_count,
            decreases i,
        {
            if out.len() >= max_count {
                break;
            }
            let ghost before = derefs(out@);
            let e = &self.events[i - 1].event;
            proof {
                assert(all.take(i as int).drop_last() =~= all.take(i - 1));
                assert(all.take(i as int).last() == *e);
            }
            if filter.matches(e) {
                out.push(e);
                proof {
                    assert(derefs(out@) =~= before.push(*e));
                    assert(before.push(*e) + newest_matching(all.take(i - 1), *filter)
                        =~= before + (seq![*e] + newest_matching(all.take(i - 1), *filter)));
                }
            } else {
                proof {
                    assert(derefs(out@) =~= before);
                    assert(seq![*e].len() > 0);
                    assert(newest_matching(all.take(i as int), *filter) =~= Seq::<Event>::empty()
                        + newest_matching(all.take(i - 1), *filter));
                }
            }
            i = i - 1;
        }
        proof {
            let nm = newest_matching(all, *filter);
            let d = derefs(out@);
            lemma_newest_matching_len(all, *filter);
            if i == 0 {
                assert(all.take(0) =~= Seq::<Event>::empty());
                assert(newest_matching(all.take(0), *filter) =~= Seq::<Event>::empty());
                assert(d =~= nm);
            }
            assert(d =~= nm.take(d.len() as int));
            match limit {
                Some(n) => {
                    if n < nm.len() {
                        assert(d.len() == n);
                    } else {
                        assert(d =~= nm);
                    }
                },
                None => {
                    if d.len() == usize::MAX {
                        assert(nm.len() >= d.len());
                    }
                    assert(d =~= nm);
                },
            }
        }
        out
    }

    /// The stored events that happened within `[start, end]`, oldest first,
    /// at most `limit` of them.
    pub fn get_events_by_time_range(&self, start: i64, end: i64, limit: Option<usize>) -> (r: Vec<&Event>)
        ensures
            derefs(r@) == take_limit(in_window(self.stored(), start, end), limit),
    {
        let ghost all = self.stored();
        let total = self.events.len();
        let max_count: usize = match limit {
            Some(n) => n,
            None => usize::MAX,
        };
        let mut out: Vec<&Event> = Vec::new();
        let mut i: usize = 0;
        proof {
            assert(all.take(0) =~= Seq::<Event>::empty());
            assert(derefs(out@) =~= Seq::<Event>::empty());
        }
        while i < self.events.len()
            invariant_except_break
                i <= self.events@.len(),
                all == self.stored(),
                all.len() == self.events@.len(),
                derefs(out@) == in_window(all.take(i as int), start, end),
                out@.len() <= max_count,
            ensures
                derefs(out@) == in_window(all.take(i as int), start, end),
                i <= all.len(),
                out@.len() == max_count || i == all.len(),
                out@.len() <= max_count,
            decreases self.events.len() - i,
        {
            if out.len() >= max_count {
                break;
            }
            let ghost before = derefs(out@);
            let e = &self.events[i].event;
            proof {
                assert(all.take(i + 1).drop_last() =~= all.take(i as int));
                assert(all.take(i + 1).last() == *e);
            }
            let t = e.timestamp();
            if start <= t && t <= end {
                out.push(e);
                proof {
                    assert(derefs(out@) =~= before.push(*e));
                    assert(in_window(all.take(i + 1), start, end) =~= before + seq![*e]);
                }
            } else {
                proof {
                    assert(derefs(out@) =~= before);
                    assert(in_window(all.take(i + 1), start, end) =~= before + Seq::<Event>::empty());
                }
            }
            i = i + 1;
        }
        proof {
            let w = in_window(all, start, end);
            let d = derefs(out@);
            lemma_in_window_len(all, start, end);
            lemma_in_window_prefix(all, start, end, i as int, all.len() as int);
            assert(all.take(all.len() as int) =~= all);
            lemma_in_window_len(all.take(i as int), start, end);
            assert(w.take(w.len() as int) =~= w);
            match limit {
                Some(n) => {
                    if n < w.len() {
                        if i == all.len() {
                            assert(d =~= w);
                        }
                        assert(d.len() == n);
                    } else {
                        if i < all.len() {
                            assert(d.len() == n);
                        }
                        assert(d =~= w);
                    }
                },
                None => {
                    assert(all.len() == total);
                    if i < all.len() {
                        assert(d.len() == usize::MAX);
                        assert(d.len() <= i);
                    }
                    assert(d =~= w);
                },
            }
        }
        out
    }

    /// All stored events in storage order, or those from the first event with
    /// identifier `from_event_id` on; an error when no stored event has it.
    pub fn replay_events(&self, from_event_id: Option<String>) -> (r: Result<Vec<&Event>, EventError>)
        ensures
            match from_event_id {
                None => r matches Ok(v) && derefs(v@) == self.stored(),
                Some(id) => match replay_from(self.stored(), Some(id@)) {
                    Some(s) => r matches Ok(v) && derefs(v@) == s,
                    None => r matches Err(EventError::PersistenceError(m)) && m@ == "Starting event ID not found"@,
                },
            },
    {
        let ghost all = self.stored();
        let mut start: usize = 0;
        match &from_event_id {
            Some(id) => {
                let mut found = false;
                while !found && start < self.events.len()
                    invariant
                        start <= self.events@.len(),
                        all == self.stored(),
                        all.len() == self.events@.len(),
                        forall|j: int| 0 <= j < start ==> all[j].id() != id@,
                        found ==> start < all.len() && all[start as int].id() == id@,
                    decreases self.events.len() - start + (if found { 0int } else { 1int }),
                {
                    assert(all[start as int] == self.events@[start as int].event);
                    if str_equal(self.events[start].event.event_id().as_str(), id.as_str()) {
                        found = true;
                    } else {
                        start = start + 1;
                    }
                }
                if !found {
                    proof {
                        assert forall|i: int| !first_with_id(all, id@, i) by {
                            if 0 <= i < all.len() {
                                assert(all[i].id() != id@);
                            }
                        }
                    }
                    return Err(EventError::PersistenceError(owned("Starting event ID not found")));
                }
                proof {
                    assert(first_with_id(all, id@, start as int));
                    let c = choose|i: int| first_with_id(all, id@, i);
                    assert(c == start);
                }
                assert(first_with_id(all, id@, start as int));
            },
            None => {},
        }
        let mut out: Vec<&Event> = Vec::new();
        let mut i: usize = start;
        while i < self.events.len()
            invariant
                start <= i <= self.events@.len(),
                from_event_id is None ==> start == 0,
                from_event_id matches Some(id) ==> first_with_id(all, id@, start as int),
                all == self.stored(),
                all.len() == self.events@.len(),
                derefs(out@) == all.subrange(start as int, i as int),
            decreases self.events.len() - i,
        {
            assert(all[i as int] == self.events@[i as int].event);
            let ghost before = out@;
            out.push(&self.events[i].event);
            assert(out@ == before.push(&self.events@[i as int].event));
            assert(derefs(out@) =~= derefs(before).push(all[i as int]));
            assert(derefs(out@) =~= all.subrange(start as int, i + 1));
            i = i + 1;
        }
        proof {
            assert(i == all.len());
            if from_event_id is None {
                assert(start == 0);
                assert(all.subrange(0, all.len() as int) =~= all);
                assert(derefs(out@) == all);
                assert(all == self.stored());
            }
            match from_event_id {
                Some(id) => {
                    assert(first_with_id(all, id@, start as int));
                    assert(exists|i: int| first_with_id(all, id@, i));
                    let c = choose|i: int| first_with_id(all, id@, i);
                    assert(first_with_id(all, id@, c));
                    lemma_first_with_id_unique(all, id@, c, start as int);
                    assert(c == start);
                    assert(replay_from(all, Some(id@)) == Some(all.subrange(c, all.len() as int)));
                },
                None => {},
            }
        }
        Ok(out)
    }
}

/// Every event a filtered query hands back is selected by the filter and
/// was stored.
pub proof fn lemma_query_results_match(events: Seq<Event>, f: EventFilter)
    ensures
        forall|i: int| 0 <= i < newest_matching(events, f).len() ==> filter_matches(f, #[trigger] newest_matching(events, f)[i])
            && events.contains(newest_matching(events, f)[i]),
    decreases events.len(),
{
    if events.len() > 0 {
        let rest = events.drop_last();
        lemma_query_results_match(rest, f);
        let nm = newest_matching(events, f);
        let head = if filter_matches(f, events.last()) { seq![events.last()] } else { Seq::<Event>::empty() };
        assert forall|i: int| 0 <= i < nm.len() implies filter_matches(f, #[trigger] nm[i]) && events.contains(nm[i]) by {
            if i < head.len() {
                assert(nm[i] == events.last());
                assert(events[events.len() - 1] == events.last());
            } else {
                let x = newest_matching(rest, f)[i - head.len()];
                assert(nm[i] == x);
                assert(rest.contains(x));
                let k = choose|k: int| 0 <= k < rest.len() && rest[k] == x;
                assert(events[k] == x);
            }
        }
    }
}

/// A stored event that the filter selects comes first in the next query.
pub proof fn lemma_latest_comes_first(events: Seq<Event>, e: Event, f: EventFilter)
    requires
        filter_matches(f, e),
    ensures
        newest_matching(events.push(e), f).len() > 0,
        newest_matching(events.push(e), f)[0] == e,
{
    assert(events.push(e).drop_last() =~= events);
}

/// Storing an event and replaying everything gives back what was stored
/// before, then the event.
pub proof fn lemma_store_then_replay(events: Seq<Event>, e: Event)
    ensures
        replay_from(events.push(e), None) == Some(events.push(e)),
        has_event_with_id(events.push(e), e.id()),
        replay_from(events.push(e), Some(e.id())) matches Some(s) && s.last() == e && s[0].id() == e.id(),
{
    let all = events.push(e);
    let n = events.len() as int;
    assert(all[n] == e);
    if exists|i: int| 0 <= i < n && all[i].id() == e.id() {
        let i0 = choose|i: int| 0 <= i < n && all[i].id() == e.id();
        lemma_first_exists(all, e.id(), i0);
    } else {
        assert(first_with_id(all, e.id(), n));
    }
    let c = first_position(all, e.id());
    assert(first_with_id(all, e.id(), c));
}

proof fn lemma_first_exists(events: Seq<Event>, id: Seq<char>, k: int)
    requires
        0 <= k < events.len(),
        events[k].id() == id,
    ensures
        has_event_with_id(events, id),
    decreases k,
{
    if exists|j: int| 0 <= j < k && events[j].id() == id {
        let j = choose|j: int| 0 <= j < k && events[j].id() == id;
        lemma_first_exists(events, id, j);
    } else {
        assert(first_with_id(events, id, k));
    }
}

/// Decimal text of a signed number: a minus sign before negative numbers.
pub open spec fn signed_decimal(n: int) -> Seq<char> {
    if n < 0 { seq!['-'] + decimal((-n) as nat) } else { decimal(n as nat) }
}

/// The key an event is filed under: its time, an underscore, its identifier.
pub open spec fn event_key(timestamp: i64, event_id: Seq<char>) -> Seq<char> {
    signed_decimal(timestamp as int) + seq!['_'] + event_id
}

/// Whether `c` is an ASCII digit.
pub open spec fn is_digit(c: char) -> bool {
    '0' <= c && c <= '9'
}

/// Value of a nonempty run of digits.
pub open spec fn digits_value(t: Seq<char>) -> int
    decreases t.len(),
{
    if t.len() == 0 {
        0
    } else {
        digits_value(t.drop_last()) * 10 + (t.last() as int - '0' as int)
    }
}

/// Whether `t` is a nonempty run of digits.
pub open spec fn all_digits(t: Seq<char>) -> bool {
    t.len() > 0 && forall|i: int| 0 <= i < t.len() ==> is_digit(#[trigger] t[i])
}

/// The number a text denotes as a 64-bit signed integer: an optional sign,
/// then digits, within range (std's `i64` parsing).
pub open spec fn parse_i64_text(s: Seq<char>) -> Option<i64> {
    let (neg, t) = if s.len() > 0 && s[0] == '-' {
        (true, s.drop_first())
    } else if s.len() > 0 && s[0] == '+' {
        (false, s.drop_first())
    } else {
        (false, s)
    };
    if !all_digits(t) {
        None
    } else {
        let v = if neg { -digits_value(t) } else { digits_value(t) };
        if i64::MIN <= v <= i64::MAX { Some(v as i64) } else { None }
    }
}

/// Whether `i` is the first position of an underscore in `s`.
pub open spec fn first_underscore(s: Seq<char>, i: int) -> bool {
    &&& 0 <= i < s.len()
    &&& s[i] == '_'
    &&& forall|j: int| 0 <= j < i ==> s[j] != '_'
}

/// Whether `s` holds an underscore.
pub open spec fn has_underscore(s: Seq<char>) -> bool {
    exists|i: int| first_underscore(s, i)
}

/// The position of the first underscore in `s`.
pub open spec fn underscore_position(s: Seq<char>) -> int {
    choose|i: int| first_underscore(s, i)
}

/// What a key is read back as: the number before its first underscore and
/// the text after it; nothing when there is no underscore or no number.
pub open spec fn parse_key_text(s: Seq<char>) -> Option<(i64, Seq<char>)> {
    if has_underscore(s) {
        let i = underscore_position(s);
        match parse_i64_text(s.take(i)) {
            Some(t) => Some((t, s.subrange(i + 1, s.len() as int))),
            None => None,
        }
    } else {
        None
    }
}

/// The key an event is filed under.
pub fn generate_event_key(timestamp: i64, event_id: &str) -> (r: String)
    ensures
        r@ == event_key(timestamp, event_id@),
{
    let mut cs: Vec<char> = Vec::new();
    if timestamp < 0 {
        cs.push('-');
        let mag: u64 = if timestamp == i64::MIN {
            9223372036854775808u64
        } else {
            (-timestamp) as u64
        };
        push_decimal(mag, &mut cs);
        assert(cs@ =~= signed_decimal(timestamp as int));
    } else {
        push_decimal(timestamp as u64, &mut cs);
        assert(cs@ =~= signed_decimal(timestamp as int));
    }
    cs.push('_');
    let id = chars_of(event_id);
    let mut i: usize = 0;
    let ghost base = cs@;
    while i < id.len()
        invariant
            i <= id@.len(),
            cs@ == base + id@.take(i as int),
        decreases id.len() - i,
    {
        cs.push(id[i]);
        assert(cs@ =~= base + id@.take(i + 1));
        i = i + 1;
    }
    assert(id@.take(id@.len() as int) =~= id@);
    string_of(cs.as_slice())
}

pub(crate) proof fn lemma_digits_prefix_mono(t: Seq<char>, i: int)
    requires
        0 <= i <= t.len(),
        forall|k: int| 0 <= k < t.len() ==> is_digit(#[trigger] t[k]),
    ensures
        digits_value(t.take(i)) <= digits_value(t),
        0 <= digits_value(t.take(i)),
    decreases t.len() - i,
{
    if i < t.len() {
        lemma_digits_prefix_mono(t, i + 1);
        assert(t.take(i + 1).drop_last() =~= t.take(i));
        assert(is_digit(t[i]));
    } else {
        assert(t.take(i) =~= t);
        lemma_digits_nonneg(t);
    }
}

proof fn lemma_digits_nonneg(t: Seq<char>)
    requires
        forall|k: int| 0 <= k < t.len() ==> is_digit(#[trigger] t[k]),
    ensures
        digits_value(t) >= 0,
    decreases t.len(),
{
    if t.len() > 0 {
        lemma_digits_nonneg(t.drop_last());
        assert(is_digit(t[t.len() - 1]));
    }
}

/// Value of the digits of `t`, when it is a run of digits not above `bound`.
pub(crate) fn digits_upto(t: &Vec<char>, from: usize, bound: u64) -> (r: Option<u64>)
    requires
        from <= t@.len(),
    ensures
        match r {
            Some(v) => all_digits(t@.subrange(from as int, t@.len() as int))
                && v == digits_value(t@.subrange(from as int, t@.len() as int)) && v <= bound,
            None => !all_digits(t@.subrange(from as int, t@.len() as int))
                || digits_value(t@.subrange(from as int, t@.len() as int)) > bound,
        },
{
    let ghost u = t@.subrange(from as int, t@.len() as int);
    if from == t.len() {
        return None;
    }
    let mut v: u64 = 0;
    let mut i: usize = from;
    while i < t.len()
        invariant
            from <= i <= t@.len(),
            u == t@.subrange(from as int, t@.len() as int),
            forall|k: int| 0 <= k < i - from ==> is_digit(#[trigger] u[k]),
            v == digits_value(u.take(i - from)),
            v <= bound,
        decreases t.len() - i,
    {
        let c = t[i];
        assert(u[i - from] == c);
        if !('0' <= c && c <= '9') {
            return None;
        }
        let d: u64 = (c as u64) - ('0' as u64);
        assert(d <= 9);
        proof {
            assert(u.take(i - from + 1).drop_last() =~= u.take(i - from));
            assert(u.take(i - from + 1).last() == c);
        }
        if d > bound || v > (bound - d) / 10 {
            proof {
                assert(v * 10 + d > bound) by (nonlinear_arith)
                    requires d > bound || v > (bound - d) / 10, v >= 0;
                if (forall|k: int| 0 <= k < u.len() ==> is_digit(#[trigger] u[k])) {
                    lemma_digits_prefix_mono(u, i - from + 1);
                }
            }
            return None;
        }
        proof {
            assert(v * 10 + d <= bound) by (nonlinear_arith)
                requires v <= (bound - d) / 10, d <= bound;
        }
        v = v * 10 + d;
        i = i + 1;
    }
    assert(u.take(u.len() as int) =~= u);
    Some(v)
}

/// The number `s` denotes as a 64-bit signed integer (std's `i64` parsing).
pub fn parse_i64(s: &str) -> (r: Option<i64>)
    ensures
        r == parse_i64_text(s@),
{
    let cs = chars_of(s);
    if cs.len() > 0 && cs[0] == '-' {
        proof { assert(cs@.subrange(1, cs@.len() as int) =~= s@.drop_first()); }
        match digits_upto(&cs, 1, 9223372036854775808u64) {
            Some(v) => {
                if v == 9223372036854775808u64 {
                    Some(i64::MIN)
                } else {
                    Some(-(v as i64))
                }
            },
            None => None,
        }
    } else {
        let from: usize = if cs.len() > 0 && cs[0] == '+' { 1 } else { 0 };
        proof {
            if from == 1 {
                assert(cs@.subrange(1, cs@.len() as int) =~= s@.drop_first());
            } else {
                assert(cs@.subrange(0, cs@.len() as int) =~= s@);
            }
        }
        match digits_upto(&cs, from, 9223372036854775807u64) {
            Some(v) => Some(v as i64),
            None => None,
        }
    }
}

/// Reads a key back as the event's time and identifier.
pub fn parse_event_key(key: &str) -> (r: Option<(i64, String)>)
    ensures
        match parse_key_text(key@) {
            Some((t, id)) => r matches Some((t2, id2)) && t2 == t && id2@ == id,
            None => r is None,
        },
{
    let cs = chars_of(key);
    let mut i: usize = 0;
    while i < cs.len()
        invariant
            i <= cs@.len(),
            cs@ == key@,
            forall|j: int| 0 <= j < i ==> cs@[j] != '_',
        ensures
            i <= cs@.len(),
            forall|j: int| 0 <= j < i ==> cs@[j] != '_',
            i < cs@.len() ==> cs@[i as int] == '_',
        decreases cs.len() - i,
    {
        if cs[i] == '_' {
            break;
        }
        i = i + 1;
    }
    if i == cs.len() {
        assert(!exists|k: int| first_underscore(key@, k));
        return None;
    }
    proof {
        assert(first_underscore(key@, i as int));
        let c = choose|k: int| first_underscore(key@, k);
        assert(c == i);
    }
    let head = chars_between(&cs, 0, i);
    assert(head@ == key@.take(i as int));
    match parse_i64(head.as_str()) {
        Some(t) => {
            let tail = chars_between(&cs, i + 1, cs.len());
            assert(tail@ == key@.subrange(i + 1, key@.len() as int));
            Some((t, tail))
        },
        None => None,
    }
}

proof fn lemma_digit_char(d: nat)
    requires
        d < 10,
    ensures
        is_digit(digit_char(d)),
        digit_char(d) as int - '0' as int == d,
{
}

proof fn lemma_digits_of_decimal(n: nat)
    ensures
        all_digits(decimal(n)),
        digits_value(decimal(n)) == n,
        forall|k: int| 0 <= k < decimal(n).len() ==> decimal(n)[k] != '_' && decimal(n)[k] != '-' && decimal(n)[k] != '+',
    decreases n,
{
    lemma_digit_char(n % 10);
    if n < 10 {
        assert(decimal(n).drop_last() =~= Seq::<char>::empty());
        assert(digits_value(Seq::<char>::empty()) == 0);
        assert(digits_value(decimal(n)) == digits_value(decimal(n).drop_last()) * 10 + (decimal(n).last() as int - '0' as int));
    }
    if n >= 10 {
        lemma_digits_of_decimal(n / 10);
        let d = decimal(n);
        assert(d.drop_last() =~= decimal(n / 10));
        assert(d.last() == digit_char(n % 10));
        assert(digits_value(d) == digits_value(d.drop_last()) * 10 + (d.last() as int - '0' as int));
        assert(digits_value(d) == (n / 10) * 10 + n % 10);
        assert((n / 10) * 10 + n % 10 == n);
    }
}

/// Reading back the key an event was filed under gives the event's time and
/// identifier.
pub proof fn lemma_event_key_round_trip(timestamp: i64, event_id: Seq<char>)
    ensures
        parse_key_text(event_key(timestamp, event_id)) == Some((timestamp, event_id)),
{
    let k = event_key(timestamp, event_id);
    let sd = signed_decimal(timestamp as int);
    lemma_signed_decimal(timestamp);
    assert(k[sd.len() as int] == '_');
    assert forall|j: int| 0 <= j < sd.len() implies k[j] != '_' by {
        assert(k[j] == sd[j]);
    }
    assert(first_underscore(k, sd.len() as int));
    let c = choose|i: int| first_underscore(k, i);
    lemma_first_underscore_unique(k, c, sd.len() as int);
    assert(k.take(c) =~= sd);
    assert(k.subrange(c + 1, k.len() as int) =~= event_id);
}

proof fn lemma_first_underscore_unique(s: Seq<char>, a: int, b: int)
    requires
        first_underscore(s, a),
        first_underscore(s, b),
    ensures
        a == b,
{
    if a < b {
        assert(s[a] != '_');
    } else if b < a {
        assert(s[b] != '_');
    }
}

proof fn lemma_signed_decimal(timestamp: i64)
    ensures
        parse_i64_text(signed_decimal(timestamp as int)) == Some(timestamp),
        forall|j: int| 0 <= j < signed_decimal(timestamp as int).len() ==> signed_decimal(timestamp as int)[j] != '_',
{
    let sd = signed_decimal(timestamp as int);
    if timestamp < 0 {
        let mag: nat = (-(timestamp as int)) as nat;
        lemma_digits_of_decimal(mag);
        assert(sd[0] == '-');
        assert(sd.drop_first() =~= decimal(mag));
        assert forall|j: int| 0 <= j < sd.len() implies sd[j] != '_' by {
            if j > 0 {
                assert(sd[j] == decimal(mag)[j - 1]);
            }
        }
    } else {
        let mag: nat = timestamp as nat;
        lemma_digits_of_decimal(mag);
        assert(sd == decimal(mag));
        assert(sd[0] != '-' && sd[0] != '+');
    }
}

} // verus!

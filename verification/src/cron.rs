//! The decisions of the scheduler: which entries run when, in which order
//! they are kept, and how long to wait for the next one.
//!
//! The scheduler's loop itself (timers, channels, spawning jobs) runs
//! outside this crate; it keeps a [`Timetable`] and hands each event to it.
use vstd::prelude::*;
use std::collections::HashSet;
use crate::duration::Duration;
use crate::schedule::Schedule;
use crate::time::{earlier, DateTime};

verus! {

broadcast use vstd::std_specs::hash::group_hash_axioms;

/// The identifier of an entry; `0` is never assigned.
pub type EntryID = usize;

/// A job with its schedule, and the times it last ran and will next run.
#[derive(Clone)]
pub struct Entry<S, J> {
    pub id: EntryID,
    pub schedule: S,
    pub next: Option<DateTime>,
    pub prev: Option<DateTime>,
    pub wrapped_job: J,
    pub job: J,
}

impl<S, J> Entry<S, J> {
    /// Whether this entry was handed out by a scheduler (its id is not 0).
    pub fn valid(&self) -> (b: bool)
        ensures
            b == (self.id != 0),
    {
        self.id != 0
    }
}

/// An activation time `a` comes strictly before `b`: an absent time comes
/// after every present one.
pub open spec fn runs_before(a: Option<DateTime>, b: Option<DateTime>) -> bool {
    match (a, b) {
        (Some(x), None) => true,
        (Some(x), Some(y)) => earlier(x@, y@),
        _ => false,
    }
}

/// Whether activation time `a` comes strictly before `b`.
pub fn comes_before(a: &Option<DateTime>, b: &Option<DateTime>) -> (r: bool)
    ensures
        r == runs_before(*a, *b),
{
    match (a, b) {
        (Some(x), None) => true,
        (Some(x), Some(y)) => x.is_before(y),
        _ => false,
    }
}

/// Where `e` goes in `t` when inserted after every entry that does not come
/// after it, scanning back from position `j`.
pub open spec fn insert_pos<S, J>(t: Seq<Entry<S, J>>, e: Entry<S, J>, j: int) -> int
    decreases j,
{
    if j > 0 && runs_before(e.next, t[j - 1].next) {
        insert_pos(t, e, j - 1)
    } else {
        j
    }
}

/// The entries `s` ordered by next activation, entries with equal times
/// keeping their order (a stable insertion sort).
pub open spec fn sort_entries<S, J>(s: Seq<Entry<S, J>>) -> Seq<Entry<S, J>>
    decreases s.len(),
{
    if s.len() == 0 {
        s
    } else {
        let t = sort_entries(s.drop_last());
        t.insert(insert_pos(t, s.last(), t.len() as int), s.last())
    }
}

/// No entry comes before an entry ahead of it.
pub open spec fn sorted_by_next<S, J>(s: Seq<Entry<S, J>>) -> bool {
    forall|i: int, j: int| 0 <= i < j < s.len() ==> !runs_before(#[trigger] s[j].next, #[trigger] s[i].next)
}

proof fn lemma_insert_pos<S, J>(t: Seq<Entry<S, J>>, e: Entry<S, J>, j: int)
    requires
        0 <= j <= t.len(),
        forall|k: int| j <= k < t.len() ==> runs_before(e.next, #[trigger] t[k].next),
    ensures
        0 <= insert_pos(t, e, j) <= j,
        forall|k: int| insert_pos(t, e, j) <= k < t.len() ==> runs_before(e.next, #[trigger] t[k].next),
        insert_pos(t, e, j) > 0 ==> !runs_before(e.next, t[insert_pos(t, e, j) - 1].next),
    decreases j,
{
    if j > 0 && runs_before(e.next, t[j - 1].next) {
        lemma_insert_pos(t, e, j - 1);
    }
}

/// Sorting keeps the entries and puts them in order.
pub proof fn lemma_sort_entries<S, J>(s: Seq<Entry<S, J>>)
    ensures
        sorted_by_next(sort_entries(s)),
        sort_entries(s).to_multiset() == s.to_multiset(),
        sort_entries(s).len() == s.len(),
    decreases s.len(),
{
    broadcast use vstd::seq_lib::group_to_multiset_ensures, vstd::seq_lib::to_multiset_insert;

    if s.len() > 0 {
        let t = sort_entries(s.drop_last());
        lemma_sort_entries(s.drop_last());
        let e = s.last();
        lemma_insert_pos(t, e, t.len() as int);
        let p = insert_pos(t, e, t.len() as int);
        let r = t.insert(p, e);
        assert forall|i: int, j: int| 0 <= i < j < r.len() implies !runs_before(
            #[trigger] r[j].next,
            #[trigger] r[i].next,
        ) by {
            if j < p {
                assert(r[i] == t[i] && r[j] == t[j]);
            } else if j == p {
                assert(r[i] == t[i]);
                assert(!runs_before(e.next, t[p - 1].next));
                if i < p - 1 {
                    assert(!runs_before(t[p - 1].next, t[i].next));
                }
            } else if i == p {
                assert(r[j] == t[j - 1]);
                assert(runs_before(e.next, t[j - 1].next));
            } else if i < p {
                assert(r[i] == t[i] && r[j] == t[j - 1]);
            } else {
                assert(r[i] == t[i - 1] && r[j] == t[j - 1]);
            }
        }
        assert(s == s.drop_last().push(e));
        assert(r.to_multiset() == t.to_multiset().insert(e));
    }
}

/// Sorting entries that are already in order changes nothing.
pub proof fn lemma_sort_sorted<S, J>(s: Seq<Entry<S, J>>)
    requires
        sorted_by_next(s),
    ensures
        sort_entries(s) == s,
    decreases s.len(),
{
    if s.len() > 0 {
        let init = s.drop_last();
        assert(sorted_by_next(init));
        lemma_sort_sorted(init);
        if init.len() > 0 {
            assert(!runs_before(s.last().next, init[init.len() - 1].next));
        }
        assert(init.insert(init.len() as int, s.last()) == s);
    }
}

/// Activation times `a` and `b` are the same: neither runs before the other.
pub open spec fn same_time(a: Option<DateTime>, b: Option<DateTime>) -> bool {
    !runs_before(a, b) && !runs_before(b, a)
}

/// The entries of `s` whose next activation is at time `x`, in order.
pub open spec fn timed_at<S, J>(s: Seq<Entry<S, J>>, x: Option<DateTime>) -> Seq<Entry<S, J>> {
    s.filter(|e: Entry<S, J>| same_time(e.next, x))
}

proof fn lemma_filter_none<A>(s: Seq<A>, keep: spec_fn(A) -> bool)
    requires
        forall|k: int| 0 <= k < s.len() ==> !keep(#[trigger] s[k]),
    ensures
        s.filter(keep) == Seq::<A>::empty(),
    decreases s.len(),
{
    reveal_with_fuel(Seq::filter, 1);
    if s.len() > 0 {
        lemma_filter_none(s.drop_last(), keep);
    }
}

/// Sorting is stable: the entries due at any one time keep their order.
pub proof fn lemma_sort_stable<S, J>(s: Seq<Entry<S, J>>, x: Option<DateTime>)
    ensures
        timed_at(sort_entries(s), x) == timed_at(s, x),
    decreases s.len(),
{
    if s.len() > 0 {
        let init = s.drop_last();
        let e = s.last();
        let t = sort_entries(init);
        lemma_sort_stable(init, x);
        lemma_sort_entries(init);
        lemma_insert_pos(t, e, t.len() as int);
        let p = insert_pos(t, e, t.len() as int);
        let keep = |y: Entry<S, J>| same_time(y.next, x);
        let head = t.take(p);
        let tail = t.skip(p);
        assert(t == head + tail);
        assert(t.insert(p, e) == head + seq![e] + tail);
        assert(s == init.push(e));
        assert(seq![e].filter(keep) == if keep(e) { seq![e] } else { Seq::<Entry<S, J>>::empty() }) by {
            reveal_with_fuel(Seq::filter, 2);
        }
        if keep(e) {
            assert forall|k: int| 0 <= k < tail.len() implies !keep(#[trigger] tail[k]) by {
                assert(tail[k] == t[p + k]);
                assert(runs_before(e.next, t[p + k].next));
            }
            lemma_filter_none(tail, keep);
        }
        Seq::filter_distributes_over_add(init, seq![e], keep);
        Seq::filter_distributes_over_add(head, tail, keep);
        Seq::filter_distributes_over_add(head + seq![e], tail, keep);
        Seq::filter_distributes_over_add(head, seq![e], keep);
        assert(init + seq![e] == s);
        assert(timed_at(s, x) == init.filter(keep) + seq![e].filter(keep));
        assert(timed_at(sort_entries(s), x) == head.filter(keep) + seq![e].filter(keep) + tail.filter(keep));
    }
}

/// The entries of `s` whose id is not `id`, in order.
pub open spec fn without_id<S, J>(s: Seq<Entry<S, J>>, id: EntryID) -> Seq<Entry<S, J>> {
    s.filter(|e: Entry<S, J>| e.id != id)
}

/// Once an id is removed, no entry with it is left, every other entry
/// stays, and removing an id that no entry has changes nothing.
pub proof fn lemma_without_id<S, J>(s: Seq<Entry<S, J>>, id: EntryID)
    ensures
        forall|k: int| 0 <= k < without_id(s, id).len() ==> #[trigger] without_id(s, id)[k].id != id,
        forall|k: int| 0 <= k < s.len() && s[k].id != id ==> without_id(s, id).contains(#[trigger] s[k]),
        (forall|k: int| 0 <= k < s.len() ==> #[trigger] s[k].id != id) ==> without_id(s, id) == s,
{
    let keep = |e: Entry<S, J>| e.id != id;
    assert(without_id(s, id) == s.filter(keep));
    assert forall|k: int| 0 <= k < without_id(s, id).len() implies #[trigger] without_id(s, id)[k].id
        != id by {
        s.lemma_filter_pred(keep, k);
    }
    assert forall|k: int| 0 <= k < s.len() && s[k].id != id implies without_id(s, id).contains(
        #[trigger] s[k],
    ) by {
        s.lemma_filter_contains(keep, k);
    }
    if forall|k: int| 0 <= k < s.len() ==> #[trigger] s[k].id != id {
        lemma_filter_keeps_all(s, keep);
    }
}

/// Filtering with a predicate that every element meets keeps the sequence.
proof fn lemma_filter_keeps_all<A>(s: Seq<A>, keep: spec_fn(A) -> bool)
    requires
        forall|k: int| 0 <= k < s.len() ==> keep(#[trigger] s[k]),
    ensures
        s.filter(keep) == s,
    decreases s.len(),
{
    reveal_with_fuel(Seq::filter, 1);
    if s.len() > 0 {
        lemma_filter_keeps_all(s.drop_last(), keep);
        assert(keep(s.last()));
        assert(s.drop_last().push(s.last()) == s);
    }
}

/// The entries of a scheduler, and the ids removed from it.
pub struct Timetable<S, J> {
    pub entries: Vec<Entry<S, J>>,
    pub removed: HashSet<EntryID>,
}

/// The positions, from `i` on, of the entries due at `now`: those with a
/// next activation no later than `now`.
pub open spec fn due_from<S, J>(s: Seq<Entry<S, J>>, now: DateTime, i: int) -> Seq<usize>
    decreases s.len() - i,
{
    if i < 0 || i >= s.len() {
        Seq::empty()
    } else if is_due(s[i], now) {
        seq![i as usize] + due_from(s, now, i + 1)
    } else {
        due_from(s, now, i + 1)
    }
}

/// The entry is due at `now`.
pub open spec fn is_due<S, J>(e: Entry<S, J>, now: DateTime) -> bool {
    e.next matches Some(t) && !earlier(now@, t@)
}

/// Two entries are the same but for their activation times.
pub open spec fn same_entry<S, J>(a: Entry<S, J>, b: Entry<S, J>) -> bool {
    a.id == b.id && a.schedule == b.schedule && a.wrapped_job == b.wrapped_job && a.job == b.job
}

/// How long to wait for the entry that runs first, `first`, at `now`
/// (in nanoseconds): until its time, nothing when it is due, and 100,000
/// hours when no entry has a time.
pub open spec fn wait_nanos(first: Option<DateTime>, now: DateTime) -> int {
    match first {
        Some(t) => if earlier(now@, t@) {
            (t@.0 - now@.0) * 1_000_000_000 + (t@.1 - now@.1)
        } else {
            0
        },
        None => 100_000int * 3600 * 1_000_000_000,
    }
}

impl<S, J> Timetable<S, J> {
    /// Id `id` was removed and no entry has it: its job is not run again.
    pub open spec fn shut_out(&self, id: EntryID) -> bool {
        &&& self.removed@.contains(id)
        &&& forall|k: int| 0 <= k < self.entries@.len() ==> #[trigger] self.entries@[k].id != id
    }
}

/// The positions `due_from` gives lie from `i` on and hold entries that are
/// due: an entry without a next activation is never among them.
pub proof fn lemma_due_from<S, J>(s: Seq<Entry<S, J>>, now: DateTime, i: int)
    requires
        0 <= i,
        s.len() <= usize::MAX,
    ensures
        forall|k: int|
            0 <= k < due_from(s, now, i).len() ==> i <= #[trigger] due_from(s, now, i)[k] < s.len()
                && is_due(s[due_from(s, now, i)[k] as int], now),
    decreases s.len() - i,
{
    if i < s.len() {
        lemma_due_from(s, now, i + 1);
        if is_due(s[i], now) {
            assert forall|k: int| 0 <= k < due_from(s, now, i).len() implies i <= #[trigger] due_from(
                s,
                now,
                i,
            )[k] < s.len() && is_due(s[due_from(s, now, i)[k] as int], now) by {
                if k > 0 {
                    assert(due_from(s, now, i)[k] == due_from(s, now, i + 1)[k - 1]);
                } else {
                    assert(due_from(s, now, i)[0] == i as usize);
                }
            }
        } else {
            assert(due_from(s, now, i) == due_from(s, now, i + 1));
        }
    }
}

impl<S: Schedule, J> Timetable<S, J> {
    /// An empty timetable.
    pub fn new() -> (t: Timetable<S, J>)
        ensures
            t.entries@ == Seq::<Entry<S, J>>::empty(),
            t.removed@ == Set::<EntryID>::empty(),
    {
        Timetable { entries: Vec::new(), removed: HashSet::new() }
    }

    /// Adds an entry, while the scheduler is not running.
    pub fn add(&mut self, entry: Entry<S, J>)
        ensures
            final(self).entries@ == old(self).entries@.push(entry),
            final(self).removed@ == old(self).removed@,
    {
        self.entries.push(entry);
    }

    /// Removes every entry with id `id`, and remembers the id as removed.
    pub fn remove(&mut self, id: EntryID)
        ensures
            final(self).entries@ == without_id(old(self).entries@, id),
            final(self).removed@ == old(self).removed@.insert(id),
            final(self).shut_out(id),
    {
        self.removed.insert(id);
        let mut rest: Vec<Entry<S, J>> = Vec::new();
        std::mem::swap(&mut rest, &mut self.entries);
        let ghost all = rest@;
        let n = rest.len();
        let mut i: usize = 0;
        while i < n
            invariant
                n == all.len(),
                i <= n,
                rest@ == all.subrange(i as int, n as int),
                self.entries@ == without_id(all.take(i as int), id),
                self.removed@ == old(self).removed@.insert(id),
            decreases n - i,
        {
            let e = rest.remove(0);
            proof {
                reveal_with_fuel(Seq::filter, 1);
                assert(all.take(i + 1).drop_last() == all.take(i as int));
                assert(all.take(i + 1).last() == e);
                assert(without_id(all.take(i + 1), id) == if e.id != id {
                    without_id(all.take(i as int), id).push(e)
                } else {
                    without_id(all.take(i as int), id)
                });
            }
            if e.id != id {
                self.entries.push(e);
            }
            i = i + 1;
            proof {
                assert(rest@ =~= all.subrange(i as int, n as int));
            }
        }
        proof {
            assert(all.take(n as int) == all);
        }
    }

    /// The position of the first entry with id `id`.
    pub fn position(&self, id: EntryID) -> (r: Option<usize>)
        ensures
            r matches Some(i) ==> i < self.entries@.len() && self.entries@[i as int].id == id && forall|
                k: int,
            |
                0 <= k < i ==> #[trigger] self.entries@[k].id != id,
            r is None ==> forall|k: int|
                0 <= k < self.entries@.len() ==> #[trigger] self.entries@[k].id != id,
    {
        let n = self.entries.len();
        for i in 0..n
            invariant
                n == self.entries@.len(),
                forall|k: int| 0 <= k < i ==> #[trigger] self.entries@[k].id != id,
        {
            if self.entries[i].id == id {
                return Some(i);
            }
        }
        None
    }

    /// Sets every entry's next activation to what its schedule gives after
    /// `now` (when the scheduler starts).
    pub fn schedule_all(&mut self, now: DateTime)
        ensures
            final(self).entries@.len() == old(self).entries@.len(),
            forall|i: int|
                0 <= i < old(self).entries@.len() ==> same_entry(
                    #[trigger] final(self).entries@[i],
                    old(self).entries@[i],
                ) && final(self).entries@[i].prev == old(self).entries@[i].prev && call_ensures(
                    S::next,
                    (&old(self).entries@[i].schedule, now),
                    final(self).entries@[i].next,
                ),
            final(self).removed@ == old(self).removed@,
            forall|x: EntryID| #[trigger] old(self).shut_out(x) ==> final(self).shut_out(x),
    {
        let n = self.entries.len();
        for i in 0..n
            invariant
                n == self.entries@.len() == old(self).entries@.len(),
                forall|k: int|
                    0 <= k < n ==> same_entry(#[trigger] self.entries@[k], old(self).entries@[k])
                        && self.entries@[k].prev == old(self).entries@[k].prev,
                forall|k: int|
                    0 <= k < i ==> call_ensures(
                        S::next,
                        (&old(self).entries@[k].schedule, now),
                        #[trigger] self.entries@[k].next,
                    ),
                self.removed@ == old(self).removed@,
        {
            let next = self.entries[i].schedule.next(now);
            self.entries[i].next = next;
        }
    }

    /// Orders the entries by next activation, earliest first and entries
    /// without one last; entries with equal times keep their order.
    pub fn sort(&mut self)
        ensures
            final(self).entries@ == sort_entries(old(self).entries@),
            sorted_by_next(final(self).entries@),
            final(self).entries@.to_multiset() == old(self).entries@.to_multiset(),
            final(self).removed@ == old(self).removed@,
            forall|x: EntryID| #[trigger] old(self).shut_out(x) ==> final(self).shut_out(x),
    {
        let mut rest: Vec<Entry<S, J>> = Vec::new();
        std::mem::swap(&mut rest, &mut self.entries);
        let ghost all = rest@;
        let n = rest.len();
        let mut i: usize = 0;
        while i < n
            invariant
                n == all.len(),
                i <= n,
                rest@ == all.subrange(i as int, n as int),
                self.entries@ == sort_entries(all.take(i as int)),
                self.removed@ == old(self).removed@,
            decreases n - i,
        {
            let e = rest.remove(0);
            proof {
                assert(all.take(i + 1).drop_last() == all.take(i as int));
                assert(all.take(i + 1).last() == e);
                lemma_sort_entries(all.take(i as int));
            }
            let ghost t = self.entries@;
            let mut j = self.entries.len();
            while j > 0 && comes_before(&e.next, &self.entries[j - 1].next)
                invariant
                    self.entries@ == t,
                    j <= t.len(),
                    insert_pos(t, e, t.len() as int) == insert_pos(t, e, j as int),
                decreases j,
            {
                j = j - 1;
            }
            self.entries.insert(j, e);
            i = i + 1;
            proof {
                assert(rest@ =~= all.subrange(i as int, n as int));
            }
        }
        proof {
            assert(all.take(n as int) == all);
            lemma_sort_entries(all);
            assert forall|x: EntryID| old(self).shut_out(x) implies self.shut_out(x) by {
                broadcast use vstd::seq_lib::group_to_multiset_ensures;

                assert forall|k: int| 0 <= k < self.entries@.len() implies #[trigger] self.entries@[k].id
                    != x by {
                    let e = self.entries@[k];
                    assert(self.entries@.contains(e));
                    assert(old(self).entries@.to_multiset().count(e) > 0);
                    let j = choose|j: int| 0 <= j < old(self).entries@.len() && old(self).entries@[j] == e;
                    assert(old(self).entries@[j].id != x);
                }
            }
        }
    }

    /// How long to wait at `now` for the first entry (see [`wait_nanos`]).
    pub fn wait(&self, now: DateTime) -> (d: Duration)
        ensures
            d@ == wait_nanos(if self.entries@.len() > 0 { self.entries@[0].next } else { None }, now),
    {
        let first = if self.entries.len() > 0 {
            self.entries[0].next
        } else {
            None
        };
        match first {
            Some(t) => {
                if now.is_before(&t) {
                    let s = t.timestamp() - now.timestamp();
                    let n = t.subsec_nanos() as i64 - now.subsec_nanos() as i64;
                    assert(crate::duration::max_total() == i64::MAX * 1_000_000);
                    Duration::seconds(s).plus(Duration::nanoseconds(n))
                } else {
                    Duration::nanoseconds(0)
                }
            },
            None => Duration::hours(100_000),
        }
    }

    /// Runs the entries due at `now`: gives their positions, in order, and
    /// moves each one's next activation to its previous one and asks its
    /// schedule for the next after `now`. Entries not due stay as they are.
    pub fn run_due(&mut self, now: DateTime) -> (due: Vec<usize>)
        ensures
            due@ == due_from(old(self).entries@, now, 0),
            final(self).entries@.len() == old(self).entries@.len(),
            forall|i: int|
                0 <= i < old(self).entries@.len() ==> {
                    let a = #[trigger] final(self).entries@[i];
                    let b = old(self).entries@[i];
                    &&& same_entry(a, b)
                    &&& if is_due(b, now) {
                        a.prev == b.next && call_ensures(S::next, (&b.schedule, now), a.next)
                    } else {
                        a == b
                    }
                },
            final(self).removed@ == old(self).removed@,
            forall|x: EntryID| #[trigger] old(self).shut_out(x) ==> final(self).shut_out(x),
            forall|k: int|
                0 <= k < due@.len() ==> due@[k] < old(self).entries@.len() && is_due(
                    old(self).entries@[#[trigger] due@[k] as int],
                    now,
                ),
    {
        let mut due: Vec<usize> = Vec::new();
        let n = self.entries.len();
        let ghost start = self.entries@;
        for i in 0..n
            invariant
                n == self.entries@.len() == start.len(),
                start == old(self).entries@,
                due_from(start, now, 0) == due@ + due_from(start, now, i as int),
                forall|k: int|
                    0 <= k < n ==> {
                        let a = #[trigger] self.entries@[k];
                        let b = start[k];
                        &&& same_entry(a, b)
                        &&& if k < i && is_due(b, now) {
                            a.prev == b.next && call_ensures(S::next, (&b.schedule, now), a.next)
                        } else {
                            a == b
                        }
                    },
                self.removed@ == old(self).removed@,
        {
            let cur = self.entries[i].next;
            let is_now = match cur {
                Some(t) => !now.is_before(&t),
                None => false,
            };
            if is_now {
                due.push(i);
                self.entries[i].prev = cur;
                let next = self.entries[i].schedule.next(now);
                self.entries[i].next = next;
                assert(due_from(start, now, 0) =~= due@ + due_from(start, now, i + 1));
            }
        }
        assert(due@ =~= due_from(start, now, 0));
        proof {
            lemma_due_from(start, now, 0);
        }
        due
    }

    /// Takes in an entry added while the scheduler runs: an entry whose id
    /// was removed meanwhile is dropped (`false`); otherwise its next
    /// activation is asked of its schedule and it joins the entries (`true`).
    pub fn take_in(&mut self, entry: Entry<S, J>, now: DateTime) -> (added: bool)
        ensures
            added == !old(self).removed@.contains(entry.id),
            added ==> final(self).entries@.len() == old(self).entries@.len() + 1
                && final(self).entries@.drop_last() == old(self).entries@ && same_entry(
                final(self).entries@.last(),
                entry,
            ) && final(self).entries@.last().prev == entry.prev && call_ensures(
                S::next,
                (&entry.schedule, now),
                final(self).entries@.last().next,
            ),
            !added ==> final(self).entries@ == old(self).entries@,
            final(self).removed@ == old(self).removed@,
            forall|x: EntryID| #[trigger] old(self).shut_out(x) ==> final(self).shut_out(x),
    {
        if self.removed.contains(&entry.id) {
            return false;
        }
        let mut e = entry;
        e.next = e.schedule.next(now);
        self.entries.push(e);
        assert(self.entries@.drop_last() =~= old(self).entries@);
        true
    }
}

} // verus!

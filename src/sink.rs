use vstd::prelude::*;

verus! {

/// The writer holding a path in a table of holders, if any.
pub open spec fn holder_in(table: Map<Seq<char>, u64>, path: Seq<char>) -> Option<int> {
    if table.contains_key(path) {
        Some(table[path] as int)
    } else {
        None
    }
}

/// The output paths that writers currently hold open, each with its
/// writer. A writer must acquire its path before it opens the file and
/// release it after; at most one writer holds a given path at a time. On
/// each path, `try_acquire` and `release` act as `holder_step` says, so a
/// run of them is a trace that `lemma_exclusive_writer` speaks of.
pub struct OpenPaths {
    entries: Vec<(String, u64)>,
}

impl OpenPaths {
    pub closed spec fn view(&self) -> Map<Seq<char>, u64> {
        Map::new(
            |k: Seq<char>| exists|i: int| 0 <= i < self.entries.len() && #[trigger] self.entries@[i].0@ == k,
            |k: Seq<char>| self.entries@[choose|i: int| 0 <= i < self.entries.len() && #[trigger] self.entries@[i].0@ == k].1,
        )
    }

    pub closed spec fn wf(&self) -> bool {
        forall|i: int, j: int| 0 <= i < j < self.entries.len() ==> #[trigger] self.entries@[i].0@ != #[trigger] self.entries@[j].0@
    }

    pub fn new() -> (r: OpenPaths)
        ensures
            r.wf(),
            r@ == Map::<Seq<char>, u64>::empty(),
    {
        let r = OpenPaths { entries: Vec::new() };
        proof {
            assert(r@ =~= Map::<Seq<char>, u64>::empty());
        }
        r
    }

    fn position(&self, path: &String) -> (r: Option<usize>)
        requires
            self.wf(),
        ensures
            match r {
                Some(i) => i < self.entries.len() && self.entries@[i as int].0@ == path@
                    && self@.contains_key(path@) && self@[path@] == self.entries@[i as int].1,
                None => !self@.contains_key(path@),
            },
    {
        let mut i: usize = 0;
        while i < self.entries.len()
            invariant
                self.wf(),
                i <= self.entries.len(),
                forall|j: int| 0 <= j < i ==> (#[trigger] self.entries@[j]).0@ != path@,
            decreases self.entries.len() - i,
        {
            if self.entries[i].0 == *path {
                proof {
                    let k = choose|j: int| 0 <= j < self.entries.len() && #[trigger] self.entries@[j].0@ == path@;
                    assert(k == i as int);
                }
                return Some(i);
            }
            i = i + 1;
        }
        None
    }

    pub fn is_open(&self, path: &String) -> (r: bool)
        requires
            self.wf(),
        ensures
            r == self@.contains_key(path@),
    {
        self.position(path).is_some()
    }

    /// Takes `path` for `writer` if no writer holds it.
    pub fn try_acquire(&mut self, path: &String, writer: u64) -> (r: bool)
        requires
            old(self).wf(),
        ensures
            final(self).wf(),
            r == !old(self)@.contains_key(path@),
            r ==> final(self)@ == old(self)@.insert(path@, writer),
            !r ==> final(self)@ == old(self)@,
            holder_in(final(self)@, path@) == holder_step(holder_in(old(self)@, path@), (acquire_kind(), writer as int)),
    {
        match self.position(path) {
            Some(_) => false,
            None => {
                let ghost before = self.entries@;
                let ghost kv = path@;
                self.entries.push((path.clone(), writer));
                proof {
                    let n = before.len() as int;
                    assert(self.entries@[n].0@ == kv);
                    assert(self.wf()) by {
                        assert forall|a: int, b: int| 0 <= a < b < self.entries.len() implies #[trigger] self.entries@[a].0@ != #[trigger] self.entries@[b].0@ by {
                            if b == n {
                                assert(before[a].0@ != kv);
                            } else {
                                assert(self.entries@[a] == before[a]);
                                assert(self.entries@[b] == before[b]);
                            }
                        }
                    }
                    assert forall|q: Seq<char>| #[trigger] self@.contains_key(q) <==> old(self)@.insert(kv, writer).contains_key(q) by {
                        if self@.contains_key(q) {
                            let j = choose|j: int| 0 <= j < self.entries.len() && #[trigger] self.entries@[j].0@ == q;
                            if j < n {
                                assert(before[j].0@ == q);
                            }
                        }
                        if old(self)@.contains_key(q) {
                            let j = choose|j: int| 0 <= j < before.len() && #[trigger] before[j].0@ == q;
                            assert(self.entries@[j].0@ == q);
                        }
                    }
                    assert forall|q: Seq<char>| #[trigger] self@.contains_key(q) implies self@[q] == old(self)@.insert(kv, writer)[q] by {
                        let j = choose|j: int| 0 <= j < self.entries.len() && #[trigger] self.entries@[j].0@ == q;
                        if q == kv {
                            if j < n {
                                assert(before[j].0@ == q);
                            }
                            assert(j == n);
                        } else {
                            let j0 = choose|j: int| 0 <= j < before.len() && #[trigger] before[j].0@ == q;
                            assert(self.entries@[j0].0@ == q);
                            assert(self.entries@[j0] == before[j0]);
                            assert(j0 == j);
                        }
                    }
                    assert(self@ =~= old(self)@.insert(kv, writer));
                }
                true
            },
        }
    }

    /// Gives `path` back if `writer` holds it, so that a waiting writer may
    /// take it; otherwise nothing changes.
    pub fn release(&mut self, path: &String, writer: u64)
        requires
            old(self).wf(),
        ensures
            final(self).wf(),
            old(self)@.contains_key(path@) && old(self)@[path@] == writer ==> final(self)@ == old(self)@.remove(path@),
            !(old(self)@.contains_key(path@) && old(self)@[path@] == writer) ==> final(self)@ == old(self)@,
            holder_in(final(self)@, path@) == holder_step(holder_in(old(self)@, path@), (release_kind(), writer as int)),
    {
        match self.position(path) {
            Some(i) => {
                if self.entries[i].1 != writer {
                    return;
                }
                let ghost before = self.entries@;
                let ghost kv = path@;
                self.entries.swap_remove(i);
                proof {
                    let last = before.len() - 1;
                    assert forall|a: int| 0 <= a < self.entries.len() implies #[trigger] self.entries@[a] == before[if a == i as int { last } else { a }] by {}
                    assert(self.wf()) by {
                        assert forall|a: int, b: int| 0 <= a < b < self.entries.len() implies #[trigger] self.entries@[a].0@ != #[trigger] self.entries@[b].0@ by {
                            let a0 = if a == i as int { last } else { a };
                            let b0 = if b == i as int { last } else { b };
                            assert(self.entries@[a] == before[a0]);
                            assert(self.entries@[b] == before[b0]);
                        }
                    }
                    assert forall|q: Seq<char>| #[trigger] self@.contains_key(q) <==> old(self)@.remove(kv).contains_key(q) by {
                        if self@.contains_key(q) {
                            let k = choose|k: int| 0 <= k < self.entries.len() && #[trigger] self.entries@[k].0@ == q;
                            let k0 = if k == i as int { last } else { k };
                            assert(self.entries@[k] == before[k0]);
                            assert(k0 != i as int);
                        }
                        if old(self)@.remove(kv).contains_key(q) {
                            let k = choose|k: int| 0 <= k < before.len() && #[trigger] before[k].0@ == q;
                            assert(k != i as int);
                            if k == last {
                                assert(self.entries@[i as int]@ == before[k]@);
                                assert(self.entries@[i as int].0@ == q);
                            } else {
                                assert(self.entries@[k].0@ == q);
                            }
                        }
                    }
                    assert forall|q: Seq<char>| #[trigger] self@.contains_key(q) implies self@[q] == old(self)@.remove(kv)[q] by {
                        let k = choose|k: int| 0 <= k < self.entries.len() && #[trigger] self.entries@[k].0@ == q;
                        let k0 = if k == i as int { last } else { k };
                        assert(self.entries@[k] == before[k0]);
                        let j0 = choose|j: int| 0 <= j < before.len() && #[trigger] before[j].0@ == q;
                        assert(j0 == k0);
                    }
                    assert(self@ =~= old(self)@.remove(kv));
                }
            },
            None => {},
        }
    }
}

/// Kinds of event on one output path, in a trace of `(kind, writer)`.
pub open spec fn acquire_kind() -> int { 0 }

pub open spec fn write_kind() -> int { 1 }

pub open spec fn release_kind() -> int { 2 }

/// Opening the file in truncate mode, which empties it.
pub open spec fn truncate_kind() -> int { 3 }

/// An event that touches the file: a truncating open or a chunk written.
pub open spec fn is_file_event(e: (int, int)) -> bool {
    e.0 == write_kind() || e.0 == truncate_kind()
}

/// The holder of a path after one event: a try to acquire succeeds only
/// while nobody holds it, and only the holder can release it.
pub open spec fn holder_step(h: Option<int>, event: (int, int)) -> Option<int> {
    let (kind, w) = event;
    if kind == acquire_kind() {
        if h is None { Some(w) } else { h }
    } else if kind == release_kind() {
        if h == Some(w) { None } else { h }
    } else {
        h
    }
}

/// The writer that holds the path after `events`.
pub open spec fn holder(events: Seq<(int, int)>) -> Option<int>
    decreases events.len(),
{
    if events.len() == 0 {
        None
    } else {
        holder_step(holder(events.drop_last()), events.last())
    }
}

/// Event `i` is a successful acquire by `w`.
pub open spec fn acquired_at(events: Seq<(int, int)>, i: int, w: int) -> bool {
    0 <= i < events.len() && events[i] == (acquire_kind(), w) && holder(events.take(i)) is None
}

/// Every truncation and write is made by the writer that holds the path at that moment,
/// and every writer acquires the path at most once.
pub open spec fn disciplined(events: Seq<(int, int)>) -> bool {
    &&& forall|i: int| 0 <= i < events.len() && is_file_event(#[trigger] events[i])
        ==> holder(events.take(i)) == Some(events[i].1)
    &&& forall|i: int, j: int, w: int| #[trigger] acquired_at(events, i, w) && #[trigger] acquired_at(events, j, w) ==> i == j
}

proof fn lemma_held_since(events: Seq<(int, int)>, n: int, w: int) -> (a: int)
    requires
        0 <= n <= events.len(),
        holder(events.take(n)) == Some(w),
    ensures
        0 <= a < n,
        acquired_at(events, a, w),
        forall|t: int| a < t <= n ==> holder(#[trigger] events.take(t)) == Some(w),
    decreases n,
{
    let prev = events.take(n - 1);
    assert(events.take(n).drop_last() =~= prev);
    assert(events.take(n).last() == events[n - 1]);
    if holder(prev) == Some(w) {
        let a = lemma_held_since(events, n - 1, w);
        a
    } else {
        assert(events[n - 1] == (acquire_kind(), w));
        n - 1
    }
}

/// The table follows the trace: where successive states of an `OpenPaths`
/// table start with nobody holding `path` and each step does to the holder
/// of `path` what `holder_step` says for the matching event (as
/// `try_acquire` and `release` do), the holder after `i` steps is
/// `holder(events.take(i))`.
pub proof fn lemma_table_follows_trace(tables: Seq<Map<Seq<char>, u64>>, events: Seq<(int, int)>, path: Seq<char>, i: int)
    requires
        tables.len() == events.len() + 1,
        holder_in(tables[0], path) is None,
        forall|k: int| 0 <= k < events.len()
            ==> holder_in(#[trigger] tables[k + 1], path) == holder_step(holder_in(tables[k], path), events[k]),
        0 <= i <= events.len(),
    ensures
        holder_in(tables[i], path) == holder(events.take(i)),
    decreases i,
{
    if i > 0 {
        lemma_table_follows_trace(tables, events, path, i - 1);
        assert(events.take(i).drop_last() =~= events.take(i - 1));
        assert(events.take(i).last() == events[i - 1]);
        assert(holder_in(tables[(i - 1) + 1], path) == holder_step(holder_in(tables[i - 1], path), events[i - 1]));
    } else {
        assert(events.take(0) =~= Seq::<(int, int)>::empty());
    }
}

/// Exclusive writer: in a disciplined trace on one path, the writes of one
/// writer form one unbroken run. Between two writes by the same writer no
/// other writer writes, so the file holds each writer's output whole, one
/// after the other, and never a mix of the two.
pub proof fn lemma_exclusive_writer(events: Seq<(int, int)>, i: int, j: int, k: int)
    requires
        disciplined(events),
        0 <= i < j < k < events.len(),
        is_file_event(events[i]),
        is_file_event(events[j]),
        is_file_event(events[k]),
        events[i].1 == events[k].1,
    ensures
        events[j].1 == events[i].1,
{
    let w = events[i].1;
    assert(holder(events.take(i)) == Some(w));
    assert(holder(events.take(k)) == Some(w));
    assert(holder(events.take(j)) == Some(events[j].1));
    if events[j].1 != w {
        // `w` holds the path from some acquire `a` up to `k`, and from some
        // acquire `b` before `i`.
        let a = lemma_held_since(events, k, w);
        let b = lemma_held_since(events, i, w);
        if a < j {
            assert(holder(events.take(j)) == Some(w));
        } else {
            assert(b < i < j <= a);
            assert(acquired_at(events, a, w) && acquired_at(events, b, w));
        }
    }
}


/// The file content after `events`, starting from `c`, where event `i`
/// writes `chunks[i]`; with `only == Some(w)`, the events of other writers
/// are left out.
pub open spec fn file_after(c: Seq<u8>, events: Seq<(int, int)>, chunks: Seq<Seq<u8>>, only: Option<int>) -> Seq<u8>
    decreases events.len(),
{
    if events.len() == 0 {
        c
    } else {
        let prev = file_after(c, events.drop_last(), chunks, only);
        let e = events.last();
        if is_file_event(e) && (only is None || only == Some(e.1)) {
            if e.0 == truncate_kind() {
                Seq::empty()
            } else {
                prev + chunks[events.len() - 1]
            }
        } else {
            prev
        }
    }
}

/// The first file event at or after `n` by `w` (any writer where `w` is
/// `None`), or the length of the trace if there is none.
proof fn lemma_first_file_event(events: Seq<(int, int)>, w: Option<int>, n: int) -> (m: int)
    requires
        0 <= n <= events.len(),
    ensures
        n <= m <= events.len(),
        forall|j: int| n <= j < m ==> !(is_file_event(#[trigger] events[j]) && (w is None || w == Some(events[j].1))),
        m < events.len() ==> is_file_event(events[m]) && (w is None || w == Some(events[m].1)),
    decreases events.len() - n,
{
    if n == events.len() {
        n
    } else if is_file_event(events[n]) && (w is None || w == Some(events[n].1)) {
        n
    } else {
        lemma_first_file_event(events, w, n + 1)
    }
}

/// Over a prefix whose file events are all by `x`, the content is what
/// `x`'s events alone give, and `y`'s events alone change nothing.
proof fn lemma_only_one_writer(c: Seq<u8>, events: Seq<(int, int)>, chunks: Seq<Seq<u8>>, x: int, y: int, n: int)
    requires
        0 <= n <= events.len(),
        x != y,
        forall|j: int| 0 <= j < n && is_file_event(#[trigger] events[j]) ==> events[j].1 == x,
    ensures
        file_after(c, events.take(n), chunks, None) == file_after(c, events.take(n), chunks, Some(x)),
        forall|d: Seq<u8>| file_after(d, events.take(n), chunks, Some(y)) == d,
    decreases n,
{
    if n > 0 {
        lemma_only_one_writer(c, events, chunks, x, y, n - 1);
        assert(events.take(n).drop_last() =~= events.take(n - 1));
        assert(events.take(n).last() == events[n - 1]);
        assert forall|d: Seq<u8>| file_after(d, events.take(n), chunks, Some(y)) == d by {
            assert(file_after(d, events.take(n - 1), chunks, Some(y)) == d);
        }
    } else {
        assert forall|d: Seq<u8>| file_after(d, events.take(n), chunks, Some(y)) == d by {
            assert(events.take(n).len() == 0);
        }
    }
}

/// Where the file events before `m` are all by `x` and those from `m` on
/// are all by `y`, the content is `x`'s events applied, then `y`'s.
proof fn lemma_serial_split(c: Seq<u8>, events: Seq<(int, int)>, chunks: Seq<Seq<u8>>, x: int, y: int, m: int, n: int)
    requires
        0 <= m <= n <= events.len(),
        x != y,
        forall|j: int| 0 <= j < m && is_file_event(#[trigger] events[j]) ==> events[j].1 == x,
        forall|j: int| m <= j < events.len() && is_file_event(#[trigger] events[j]) ==> events[j].1 == y,
    ensures
        file_after(c, events.take(n), chunks, None)
            == file_after(file_after(c, events.take(n), chunks, Some(x)), events.take(n), chunks, Some(y)),
    decreases n,
{
    if n <= m {
        lemma_only_one_writer(c, events, chunks, x, y, n);
    } else {
        lemma_serial_split(c, events, chunks, x, y, m, n - 1);
        let t = events.take(n);
        assert(t.drop_last() =~= events.take(n - 1));
        assert(t.last() == events[n - 1]);
        let xa = file_after(c, t, chunks, Some(x));
        assert(xa == file_after(c, events.take(n - 1), chunks, Some(x)));
    }
}

/// Two writers on one path never mix: in a disciplined trace whose file
/// events are all by `a` or `b`, the final content is one writer's output
/// (its truncation and chunks) applied whole, followed by the other's.
pub proof fn lemma_two_writers_serial(c: Seq<u8>, events: Seq<(int, int)>, chunks: Seq<Seq<u8>>, a: int, b: int)
    requires
        disciplined(events),
        a != b,
        forall|j: int| 0 <= j < events.len() && is_file_event(#[trigger] events[j]) ==> events[j].1 == a || events[j].1 == b,
    ensures
        file_after(c, events, chunks, None) == file_after(file_after(c, events, chunks, Some(a)), events, chunks, Some(b))
            || file_after(c, events, chunks, None) == file_after(file_after(c, events, chunks, Some(b)), events, chunks, Some(a)),
{
    let len = events.len() as int;
    assert(events.take(len) =~= events);
    let i0 = lemma_first_file_event(events, None, 0);
    if i0 == len {
        lemma_serial_split(c, events, chunks, a, b, len, len);
    } else {
        let x = events[i0].1;
        let y = if x == a { b } else { a };
        let m = lemma_first_file_event(events, Some(y), 0);
        assert forall|j: int| m <= j < events.len() && is_file_event(#[trigger] events[j]) implies events[j].1 == y by {
            if events[j].1 != y {
                assert(events[j].1 == x);
                assert(i0 < m);
                lemma_exclusive_writer(events, i0, m, j);
            }
        }
        lemma_serial_split(c, events, chunks, x, y, m, len);
    }
}

} // verus!

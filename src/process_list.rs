use std::collections::HashMap;
use vstd::prelude::*;

use crate::proc::Proc;

verus! {

broadcast use vstd::std_specs::hash::group_hash_axioms;

/// Some record of `s` has the process id `pid`.
pub open spec fn has_pid(s: Seq<Proc>, pid: i32) -> bool {
    exists|j: int| 0 <= j < s.len() && s[j].pid == pid
}

/// No two records of `s` share a process id.
pub open spec fn unique_pids(s: Seq<Proc>) -> bool {
    forall|i: int, j: int| 0 <= i < s.len() && 0 <= j < s.len() && i != j ==> s[i].pid != s[j].pid
}

/// The record of `s` with the process id `pid`.
pub open spec fn record_of(s: Seq<Proc>, pid: i32) -> Proc
    recommends
        has_pid(s, pid),
{
    s[choose|j: int| 0 <= j < s.len() && s[j].pid == pid]
}

/// What becomes of the incoming record `p` when `prev` was the previous
/// generation: the interval since its previous sample, or, for a pid seen
/// for the first time, the record flagged as new.
pub open spec fn reconciled(prev: Seq<Proc>, p: Proc) -> Proc {
    if has_pid(prev, p.pid) {
        p.spec_delta(record_of(prev, p.pid))
    } else {
        p.spec_mark_new()
    }
}

/// The records of `prev` whose pid is absent from `cur`, in their order,
/// flagged as deleted and otherwise unchanged.
pub open spec fn tombstones(prev: Seq<Proc>, cur: Seq<Proc>) -> Seq<Proc>
    decreases prev.len(),
{
    if prev.len() == 0 {
        Seq::empty()
    } else {
        let rest = tombstones(prev.drop_last(), cur);
        if has_pid(cur, prev.last().pid) {
            rest
        } else {
            rest.push(prev.last().spec_mark_deleted())
        }
    }
}

/// The rows of one refresh: each incoming record reconciled with the
/// previous generation, followed by the tombstones of the vanished pids.
pub open spec fn reconcile(prev: Seq<Proc>, cur: Seq<Proc>) -> Seq<Proc> {
    Seq::new(cur.len(), |i: int| reconciled(prev, cur[i])) + tombstones(prev, cur)
}

/// Every cumulative counter of `cur` is at least the one of `prev`.
pub open spec fn counters_grew(prev: Proc, cur: Proc) -> bool {
    &&& cur.stat.utime >= prev.stat.utime
    &&& cur.stat.stime >= prev.stat.stime
    &&& cur.io.rchar >= prev.io.rchar
    &&& cur.io.wchar >= prev.io.wchar
    &&& cur.io.syscr >= prev.io.syscr
    &&& cur.io.syscw >= prev.io.syscw
    &&& cur.io.read_bytes >= prev.io.read_bytes
    &&& cur.io.write_bytes >= prev.io.write_bytes
    &&& cur.io.cancelled_write_bytes >= prev.io.cancelled_write_bytes
}

/// A pid present in both generations comes out with its counters equal to
/// the current value minus the previous one, its other fields unchanged.
pub proof fn lemma_continuing_pid(prev: Seq<Proc>, cur: Seq<Proc>, i: int, j: int)
    requires
        unique_pids(prev),
        0 <= i < cur.len(),
        0 <= j < prev.len(),
        prev[j].pid == cur[i].pid,
        counters_grew(prev[j], cur[i]),
    ensures
        ({
            let r = reconcile(prev, cur)[i];
            &&& r.stat.utime == cur[i].stat.utime - prev[j].stat.utime
            &&& r.stat.stime == cur[i].stat.stime - prev[j].stat.stime
            &&& r.io.rchar == cur[i].io.rchar - prev[j].io.rchar
            &&& r.io.wchar == cur[i].io.wchar - prev[j].io.wchar
            &&& r.io.syscr == cur[i].io.syscr - prev[j].io.syscr
            &&& r.io.syscw == cur[i].io.syscw - prev[j].io.syscw
            &&& r.io.read_bytes == cur[i].io.read_bytes - prev[j].io.read_bytes
            &&& r.io.write_bytes == cur[i].io.write_bytes - prev[j].io.write_bytes
            &&& r.io.cancelled_write_bytes == cur[i].io.cancelled_write_bytes
                - prev[j].io.cancelled_write_bytes
            &&& r.new == cur[i].new
            &&& r.deleted == cur[i].deleted
            &&& r.status == cur[i].status
            &&& r.count == cur[i].count
        }),
{
    assert(has_pid(prev, cur[i].pid));
    let k = choose|k: int| 0 <= k < prev.len() && prev[k].pid == cur[i].pid;
    assert(k == j);
}

/// A pid absent from the previous generation comes out flagged new, with
/// its raw counters.
pub proof fn lemma_new_pid(prev: Seq<Proc>, cur: Seq<Proc>, i: int)
    requires
        0 <= i < cur.len(),
        !has_pid(prev, cur[i].pid),
    ensures
        reconcile(prev, cur)[i] == cur[i].spec_mark_new(),
        reconcile(prev, cur)[i].new,
        reconcile(prev, cur)[i].stat == cur[i].stat,
        reconcile(prev, cur)[i].io == cur[i].io,
{
}

proof fn lemma_tombstones_shape(prev: Seq<Proc>, cur: Seq<Proc>)
    requires
        unique_pids(prev),
    ensures
        unique_pids(tombstones(prev, cur)),
        forall|t: int|
            0 <= t < tombstones(prev, cur).len() ==> exists|k: int|
                0 <= k < prev.len() && !has_pid(cur, prev[k].pid) && #[trigger] tombstones(
                    prev,
                    cur,
                )[t] == prev[k].spec_mark_deleted(),
        forall|k: int|
            0 <= k < prev.len() && !has_pid(cur, #[trigger] prev[k].pid) ==> exists|t: int|
                0 <= t < tombstones(prev, cur).len() && tombstones(prev, cur)[t]
                    == prev[k].spec_mark_deleted(),
    decreases prev.len(),
{
    if prev.len() > 0 {
        let init = prev.drop_last();
        assert(unique_pids(init)) by {
            assert forall|a: int, b: int|
                0 <= a < init.len() && 0 <= b < init.len() && a != b implies init[a].pid
                != init[b].pid by {
                assert(init[a] == prev[a] && init[b] == prev[b]);
            }
        }
        lemma_tombstones_shape(init, cur);
        let rest = tombstones(init, cur);
        let ts = tombstones(prev, cur);
        let n = prev.len() - 1;
        if !has_pid(cur, prev.last().pid) {
            assert(ts == rest.push(prev[n].spec_mark_deleted()));
            assert forall|a: int, b: int|
                0 <= a < ts.len() && 0 <= b < ts.len() && a != b implies ts[a].pid
                != ts[b].pid by {
                if a < rest.len() && b < rest.len() {
                    assert(ts[a] == rest[a] && ts[b] == rest[b]);
                } else if a < rest.len() {
                    let k = choose|k: int|
                        0 <= k < init.len() && !has_pid(cur, init[k].pid) && rest[a]
                            == init[k].spec_mark_deleted();
                    assert(prev[k] == init[k]);
                } else if b < rest.len() {
                    let k = choose|k: int|
                        0 <= k < init.len() && !has_pid(cur, init[k].pid) && rest[b]
                            == init[k].spec_mark_deleted();
                    assert(prev[k] == init[k]);
                }
            }
            assert forall|t: int| 0 <= t < ts.len() implies exists|k: int|
                0 <= k < prev.len() && !has_pid(cur, prev[k].pid) && #[trigger] ts[t]
                    == prev[k].spec_mark_deleted() by {
                if t < rest.len() {
                    let k = choose|k: int|
                        0 <= k < init.len() && !has_pid(cur, init[k].pid) && rest[t]
                            == init[k].spec_mark_deleted();
                    assert(prev[k] == init[k]);
                } else {
                    assert(ts[t] == prev[n].spec_mark_deleted());
                }
            }
            assert forall|k: int|
                0 <= k < prev.len() && !has_pid(cur, #[trigger] prev[k].pid) implies exists|
                t: int,
            |
                0 <= t < ts.len() && ts[t] == prev[k].spec_mark_deleted() by {
                if k < n {
                    assert(prev[k] == init[k]);
                    assert(!has_pid(cur, init[k].pid));
                    let t = choose|t: int|
                        0 <= t < rest.len() && rest[t] == init[k].spec_mark_deleted();
                    assert(ts[t] == rest[t]);
                } else {
                    assert(ts[n - (n - rest.len())] == prev[n].spec_mark_deleted());
                }
            }
        } else {
            assert(ts == rest);
            assert forall|t: int| 0 <= t < ts.len() implies exists|k: int|
                0 <= k < prev.len() && !has_pid(cur, prev[k].pid) && #[trigger] ts[t]
                    == prev[k].spec_mark_deleted() by {
                let k = choose|k: int|
                    0 <= k < init.len() && !has_pid(cur, init[k].pid) && rest[t]
                        == init[k].spec_mark_deleted();
                assert(prev[k] == init[k]);
            }
            assert forall|k: int|
                0 <= k < prev.len() && !has_pid(cur, #[trigger] prev[k].pid) implies exists|
                t: int,
            |
                0 <= t < ts.len() && ts[t] == prev[k].spec_mark_deleted() by {
                if k < n {
                    assert(prev[k] == init[k]);
                    assert(!has_pid(cur, init[k].pid));
                } else {
                    assert(prev[k] == prev.last());
                }
            }
        }
    }
}

/// A pid present only in the previous generation comes out as exactly one
/// tombstone: its last record, unchanged but for the deleted flag.
pub proof fn lemma_vanished_pid(prev: Seq<Proc>, cur: Seq<Proc>, j: int)
    requires
        unique_pids(prev),
        0 <= j < prev.len(),
        !has_pid(cur, prev[j].pid),
    ensures
        exists|t: int|
            0 <= t < reconcile(prev, cur).len() && reconcile(prev, cur)[t]
                == prev[j].spec_mark_deleted(),
        forall|a: int, b: int|
            0 <= a < reconcile(prev, cur).len() && 0 <= b < reconcile(prev, cur).len()
                && reconcile(prev, cur)[a].pid == prev[j].pid && reconcile(prev, cur)[b].pid
                == prev[j].pid ==> a == b,
{
    lemma_tombstones_shape(prev, cur);
    let r = reconcile(prev, cur);
    let ts = tombstones(prev, cur);
    let n = cur.len();
    assert(!has_pid(cur, prev[j].pid));
    let t = choose|t: int| 0 <= t < ts.len() && ts[t] == prev[j].spec_mark_deleted();
    assert(r[n + t] == ts[t]);
    assert forall|a: int| 0 <= a < r.len() && r[a].pid == prev[j].pid implies a >= n by {
        if a < n {
            assert(r[a].pid == cur[a].pid);
        }
    }
    assert forall|a: int, b: int|
        0 <= a < r.len() && 0 <= b < r.len() && r[a].pid == prev[j].pid && r[b].pid
            == prev[j].pid implies a == b by {
        assert(r[a] == ts[a - n]);
        assert(r[b] == ts[b - n]);
    }
}

/// When every pid of the previous generation is still present, no
/// tombstone is produced: the output has one row per incoming record and
/// keeps their deleted flags.
pub proof fn lemma_steady_pids(prev: Seq<Proc>, cur: Seq<Proc>)
    requires
        forall|j: int| 0 <= j < prev.len() ==> has_pid(cur, #[trigger] prev[j].pid),
    ensures
        tombstones(prev, cur) == Seq::<Proc>::empty(),
        reconcile(prev, cur).len() == cur.len(),
        forall|i: int| 0 <= i < cur.len() ==> #[trigger] reconcile(prev, cur)[i].deleted == cur[i].deleted,
    decreases prev.len(),
{
    if prev.len() > 0 {
        let init = prev.drop_last();
        assert forall|j: int| 0 <= j < init.len() implies has_pid(cur, #[trigger] init[j].pid) by {
            assert(init[j] == prev[j]);
        }
        lemma_steady_pids(init, cur);
        assert(has_pid(cur, prev[prev.len() - 1].pid));
    }
    assert(reconcile(prev, cur) =~= Seq::new(cur.len(), |i: int| reconciled(prev, cur[i])));
}

/// The two generations of the diff engine.
///
/// `last` holds the previous generation, keyed by pid, and `last_order`
/// its pids in the order they came; `next` is the slot that the next
/// generation is written into, empty between two refreshes.
pub struct ProcessList {
    last: HashMap<i32, Proc>,
    next: HashMap<i32, Proc>,
    last_order: Vec<i32>,
}

impl View for ProcessList {
    type V = Seq<Proc>;

    /// The previous generation, as it came in.
    closed spec fn view(&self) -> Seq<Proc> {
        Seq::new(self.last_order@.len(), |j: int| self.last@[self.last_order@[j]])
    }
}

impl ProcessList {
    /// Between two refreshes exactly one slot is populated: the slot for
    /// the next generation is empty, and the previous generation holds one
    /// record per pid, in the order its pids came.
    pub closed spec fn wf(&self) -> bool {
        &&& self.next@ == Map::<i32, Proc>::empty()
        &&& self.last_order@.no_duplicates()
        &&& forall|k: i32| self.last@.contains_key(k) <==> self.last_order@.contains(k)
        &&& forall|k: i32| #[trigger] self.last@.contains_key(k) ==> self.last@[k].pid == k
    }

    /// An engine that has seen no generation yet.
    pub fn new() -> (r: ProcessList)
        ensures
            r.wf(),
            r@ == Seq::<Proc>::empty(),
    {
        let r = ProcessList { last: HashMap::new(), next: HashMap::new(), last_order: Vec::new() };
        assert(r@ =~= Seq::<Proc>::empty());
        r
    }

    proof fn lemma_view_pids(&self)
        requires
            self.wf(),
        ensures
            unique_pids(self@),
            forall|k: i32| self.last@.contains_key(k) <==> has_pid(self@, k),
            forall|k: i32|
                #[trigger] self.last@.contains_key(k) ==> record_of(self@, k) == self.last@[k],
    {
        let v = self@;
        let o = self.last_order@;
        assert forall|a: int| 0 <= a < o.len() implies #[trigger] v[a].pid == o[a] by {
            assert(o.contains(o[a]));
            assert(self.last@.contains_key(o[a]));
        }
        assert forall|k: i32| self.last@.contains_key(k) <==> has_pid(v, k) by {
            if self.last@.contains_key(k) {
                assert(o.contains(k));
                let j = choose|j: int| 0 <= j < o.len() && o[j] == k;
                assert(v[j].pid == k);
            }
            if has_pid(v, k) {
                let j = choose|j: int| 0 <= j < v.len() && v[j].pid == k;
                assert(v[j].pid == o[j]);
                assert(o.contains(o[j]));
            }
        }
        assert forall|k: i32| #[trigger] self.last@.contains_key(k) implies record_of(v, k)
            == self.last@[k] by {
            assert(has_pid(v, k));
            let j = choose|j: int| 0 <= j < v.len() && v[j].pid == k;
            assert(v[j].pid == o[j]);
        }
    }

    /// Reconciles the incoming generation `list` with the previous one.
    ///
    /// Each record of `list` takes the interval since its previous sample,
    /// or is flagged new; the records of the previous generation whose pid
    /// is gone are appended, flagged deleted. The incoming records, as they
    /// came, become the previous generation of the next call.
    pub fn on_list(&mut self, list: &mut Vec<Proc>)
        requires
            old(self).wf(),
            unique_pids(old(list)@),
        ensures
            final(self).wf(),
            final(self)@ == old(list)@,
            final(list)@ == reconcile(old(self)@, old(list)@),
    {
        let ghost prev = self@;
        let ghost cur = list@;
        let ghost last0 = self.last@;
        let ghost order0 = self.last_order@;
        proof {
            self.lemma_view_pids();
        }
        let n = list.len();
        let mut order: Vec<i32> = Vec::new();
        let mut i: usize = 0;
        while i < n
            invariant
                0 <= i <= n == cur.len() == list@.len(),
                self.last_order@ == order0,
                prev == Seq::new(order0.len(), |j: int| last0[order0[j]]),
                unique_pids(cur),
                unique_pids(prev),
                forall|k: i32| last0.contains_key(k) <==> has_pid(prev, k),
                forall|k: i32| #[trigger] last0.contains_key(k) ==> record_of(prev, k) == last0[k],
                forall|k: int| 0 <= k < i ==> list@[k] == reconciled(prev, cur[k]),
                forall|k: int| i <= k < n ==> list@[k] == cur[k],
                order@.len() == i,
                forall|k: int| 0 <= k < i ==> order@[k] == cur[k].pid,
                forall|p: i32| #[trigger]
                    self.next@.contains_key(p) <==> has_pid(cur.take(i as int), p),
                forall|k: int| 0 <= k < i ==> #[trigger] self.next@[cur[k].pid] == cur[k],
                forall|p: i32| #[trigger]
                    self.last@.contains_key(p) <==> (last0.contains_key(p) && !has_pid(
                        cur.take(i as int),
                        p,
                    )),
                forall|p: i32| #[trigger] self.last@.contains_key(p) ==> self.last@[p] == last0[p],
            decreases n - i,
        {
            let p = list[i].duplicate();
            let pid = p.pid;
            self.next.insert(pid, p.duplicate());
            order.push(pid);
            let removed = self.last.remove(&pid);
            proof {
                assert(p == cur[i as int]);
                if !has_pid(cur.take(i as int), pid) {
                } else {
                    let j = choose|j: int| 0 <= j < i && cur.take(i as int)[j].pid == pid;
                    assert(cur[j].pid == cur[i as int].pid);
                }
                assert(!has_pid(cur.take(i as int), pid));
            }
            match removed {
                Some(q) => {
                    proof {
                        assert(q == last0[pid]);
                    }
                    let d = p.delta_since(&q);
                    list.set(i, d);
                },
                None => {
                    let mut m = p;
                    m.new = true;
                    proof {
                        assert(!has_pid(prev, pid));
                    }
                    list.set(i, m);
                },
            }
            proof {
                let t0 = cur.take(i as int);
                let t1 = cur.take(i + 1);
                assert forall|x: i32| #[trigger]
                    self.next@.contains_key(x) <==> has_pid(t1, x) by {
                    if x == pid {
                        assert(t1[i as int].pid == x);
                    }
                    if has_pid(t0, x) {
                        let j = choose|j: int| 0 <= j < i && t0[j].pid == x;
                        assert(t1[j].pid == x);
                    }
                    if has_pid(t1, x) {
                        let j = choose|j: int| 0 <= j < i + 1 && t1[j].pid == x;
                        if j < i {
                            assert(t0[j].pid == x);
                        }
                    }
                }
                assert forall|k: int| 0 <= k < i + 1 implies #[trigger] self.next@[cur[k].pid]
                    == cur[k] by {
                    if k < i {
                        assert(cur[k].pid != cur[i as int].pid);
                    }
                }
                assert forall|x: i32| #[trigger]
                    self.last@.contains_key(x) <==> (last0.contains_key(x) && !has_pid(
                        t1,
                        x,
                    )) by {
                    if x == pid {
                        assert(t1[i as int].pid == x);
                    }
                    if has_pid(t0, x) {
                        let j = choose|j: int| 0 <= j < i && t0[j].pid == x;
                        assert(t1[j].pid == x);
                    }
                    if has_pid(t1, x) {
                        let j = choose|j: int| 0 <= j < i + 1 && t1[j].pid == x;
                        if j < i {
                            assert(t0[j].pid == x);
                        }
                    }
                }
            }
            i = i + 1;
        }
        proof {
            assert(cur.take(n as int) =~= cur);
        }
        let ghost head = list@;
        let mut j: usize = 0;
        while j < self.last_order.len()
            invariant
                0 <= j <= self.last_order@.len() == prev.len(),
                self.last_order@ == order0,
                prev == Seq::new(order0.len(), |j: int| last0[order0[j]]),
                head.len() == n,
                forall|k: int| 0 <= k < n ==> head[k] == reconciled(prev, cur[k]),
                list@ == head + tombstones(prev.take(j as int), cur),
                forall|p: i32| #[trigger]
                    self.last@.contains_key(p) <==> (last0.contains_key(p) && !has_pid(cur, p)),
                forall|p: i32| #[trigger] self.last@.contains_key(p) ==> self.last@[p] == last0[p],
                forall|k: i32| last0.contains_key(k) <==> self.last_order@.contains(k),
                forall|k: i32| #[trigger] last0.contains_key(k) ==> last0[k].pid == k,
            decreases self.last_order@.len() - j,
        {
            let pid = self.last_order[j];
            proof {
                assert(prev.take(j + 1).drop_last() =~= prev.take(j as int));
                assert(prev[j as int] == last0[pid]);
                assert(self.last_order@.contains(pid));
            }
            match self.last.get(&pid) {
                Some(q) => {
                    let mut t = q.duplicate();
                    t.deleted = true;
                    list.push(t);
                    proof {
                        assert(last0.contains_key(pid));
                        assert(!has_pid(cur, prev[j as int].pid));
                    }
                },
                None => {
                    proof {
                        assert(last0.contains_key(pid));
                        assert(has_pid(cur, prev[j as int].pid));
                    }
                },
            }
            j = j + 1;
        }
        proof {
            assert(prev.take(prev.len() as int) =~= prev);
            assert(list@ =~= reconcile(prev, cur));
        }
        self.last.clear();
        std::mem::swap(&mut self.last, &mut self.next);
        self.last_order = order;
        proof {
            assert forall|k: i32| self.last@.contains_key(k) <==> self.last_order@.contains(k) by {
                if self.last@.contains_key(k) {
                    let j = choose|j: int| 0 <= j < n && cur.take(n as int)[j].pid == k;
                    assert(self.last_order@[j] == k);
                }
                if self.last_order@.contains(k) {
                    let j = self.last_order@.index_of(k);
                    assert(cur.take(n as int)[j].pid == k);
                }
            }
            assert forall|a: int, b: int|
                0 <= a < self.last_order@.len() && 0 <= b < self.last_order@.len() && a != b
                implies self.last_order@[a] != self.last_order@[b] by {
                assert(cur[a].pid != cur[b].pid);
            }
            assert forall|k: i32| #[trigger] self.last@.contains_key(k) implies self.last@[k].pid
                == k by {
                let j = choose|j: int| 0 <= j < n && cur.take(n as int)[j].pid == k;
                assert(self.last@[cur[j].pid] == cur[j]);
            }
            assert(self@ =~= cur);
        }
    }
}

} // verus!

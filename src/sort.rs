use std::cmp::Ordering;
use vstd::prelude::*;

use crate::proc::Proc;

verus! {

broadcast use {vstd::seq_lib::group_to_multiset_ensures, vstd::multiset::group_multiset_properties};

/// The number of sort keys offered in either mode.
pub const SORT_KEY_COUNT: usize = 5;

/// The figure that rows are ordered by, largest first.
#[derive(Clone, Copy, Debug, PartialEq, Eq, Structural)]
pub enum SortKey {
    /// Process id.
    Pid,
    /// Number of processes in a group.
    Count,
    /// Scheduler ticks, user and kernel together.
    Cpu,
    /// Resident memory.
    Rss,
    /// Swapped memory.
    Swap,
    /// Resident and swapped memory together.
    Sum,
}

impl SortKey {
    /// The figure of `p` that this key orders by.
    pub open spec fn value_of(self, p: Proc) -> int {
        match self {
            SortKey::Pid => p.pid as int,
            SortKey::Count => p.count as int,
            SortKey::Cpu => p.stat.utime + p.stat.stime,
            SortKey::Rss => p.status.vm_rss as int,
            SortKey::Swap => p.status.vm_swap as int,
            SortKey::Sum => p.status.vm_rss + p.status.vm_swap,
        }
    }

    pub open spec fn spec_at(group: bool, index: int) -> SortKey {
        if index == 0 {
            if group {
                SortKey::Count
            } else {
                SortKey::Pid
            }
        } else if index == 1 {
            SortKey::Cpu
        } else if index == 2 {
            SortKey::Rss
        } else if index == 3 {
            SortKey::Swap
        } else {
            SortKey::Sum
        }
    }

    /// The key at `index` among those offered: identifier (count when
    /// grouping), ticks, resident, swapped, and resident plus swapped.
    pub fn at(group: bool, index: usize) -> (r: Option<SortKey>)
        ensures
            index < SORT_KEY_COUNT ==> r == Some(SortKey::spec_at(group, index as int)),
            index >= SORT_KEY_COUNT ==> r is None,
    {
        if index == 0 {
            if group {
                Some(SortKey::Count)
            } else {
                Some(SortKey::Pid)
            }
        } else if index == 1 {
            Some(SortKey::Cpu)
        } else if index == 2 {
            Some(SortKey::Rss)
        } else if index == 3 {
            Some(SortKey::Swap)
        } else if index == 4 {
            Some(SortKey::Sum)
        } else {
            None
        }
    }

    /// The figure of `p` that this key orders by.
    pub fn value(&self, p: &Proc) -> (r: i128)
        ensures
            r == self.value_of(*p),
    {
        match self {
            SortKey::Pid => p.pid as i128,
            SortKey::Count => p.count as i128,
            SortKey::Cpu => p.stat.utime as i128 + p.stat.stime as i128,
            SortKey::Rss => p.status.vm_rss as i128,
            SortKey::Swap => p.status.vm_swap as i128,
            SortKey::Sum => p.status.vm_rss as i128 + p.status.vm_swap as i128,
        }
    }
}

/// The index after `index` among `len` keys, back to the first after the last.
pub fn next_index(index: usize, len: usize) -> (r: usize)
    requires
        len > 0,
    ensures
        r == (if index + 1 >= len {
            0
        } else {
            index + 1
        }),
{
    if index >= len - 1 {
        0
    } else {
        index + 1
    }
}

/// The index before `index` among `len` keys, on to the last before the first.
pub fn previous_index(index: usize, len: usize) -> (r: usize)
    requires
        len > 0,
    ensures
        r == (if index > 0 {
            index - 1
        } else {
            len - 1
        }),
{
    if index > 0 {
        index - 1
    } else {
        len - 1
    }
}

/// The order that puts the larger value first.
pub open spec fn desc_order(a: int, b: int) -> Ordering {
    if a > b {
        Ordering::Less
    } else if a < b {
        Ordering::Greater
    } else {
        Ordering::Equal
    }
}

/// Compares two figures so that the larger comes first.
pub fn comp(a: i128, b: i128) -> (r: Ordering)
    ensures
        r == desc_order(a as int, b as int),
{
    if a > b {
        Ordering::Less
    } else if a < b {
        Ordering::Greater
    } else {
        Ordering::Equal
    }
}

/// Larger process id first.
pub fn pid_sort_function(a: &Proc, b: &Proc) -> (r: Ordering)
    ensures
        r == desc_order(SortKey::Pid.value_of(*a), SortKey::Pid.value_of(*b)),
{
    comp(a.pid as i128, b.pid as i128)
}

/// Larger group first.
pub fn count_sort_function(a: &Proc, b: &Proc) -> (r: Ordering)
    ensures
        r == desc_order(SortKey::Count.value_of(*a), SortKey::Count.value_of(*b)),
{
    comp(a.count as i128, b.count as i128)
}

/// More scheduler ticks first.
pub fn cpu_sort_function(a: &Proc, b: &Proc) -> (r: Ordering)
    ensures
        r == desc_order(SortKey::Cpu.value_of(*a), SortKey::Cpu.value_of(*b)),
{
    comp(SortKey::Cpu.value(a), SortKey::Cpu.value(b))
}

/// More resident memory first.
pub fn rss_sort_function(a: &Proc, b: &Proc) -> (r: Ordering)
    ensures
        r == desc_order(SortKey::Rss.value_of(*a), SortKey::Rss.value_of(*b)),
{
    comp(a.status.vm_rss as i128, b.status.vm_rss as i128)
}

/// More swapped memory first.
pub fn swap_sort_function(a: &Proc, b: &Proc) -> (r: Ordering)
    ensures
        r == desc_order(SortKey::Swap.value_of(*a), SortKey::Swap.value_of(*b)),
{
    comp(a.status.vm_swap as i128, b.status.vm_swap as i128)
}

/// More resident and swapped memory together first.
pub fn sum_sort_function(a: &Proc, b: &Proc) -> (r: Ordering)
    ensures
        r == desc_order(SortKey::Sum.value_of(*a), SortKey::Sum.value_of(*b)),
{
    comp(SortKey::Sum.value(a), SortKey::Sum.value(b))
}

/// `s` is ordered by `key`, largest first.
pub open spec fn sorted_desc(s: Seq<Proc>, key: SortKey) -> bool {
    forall|a: int, b: int| 0 <= a < b < s.len() ==> key.value_of(s[a]) >= key.value_of(s[b])
}

/// Orders `rows` by `key`, largest first; rows with equal figures come in
/// no particular order.
pub fn sort(rows: &mut Vec<Proc>, key: SortKey)
    ensures
        sorted_desc(final(rows)@, key),
        final(rows)@.to_multiset() == old(rows)@.to_multiset(),
{
    let n = rows.len();
    let mut i: usize = 1;
    if n == 0 {
        return ;
    }
    while i < n
        invariant
            1 <= i <= n == rows@.len(),
            sorted_desc(rows@.take(i as int), key),
            rows@.to_multiset() == old(rows)@.to_multiset(),
        decreases n - i,
    {
        let mut j: usize = i;
        proof {
            let t = rows@.take(i as int);
            assert forall|a: int, b: int| 0 <= a < b < i implies key.value_of(rows@[a])
                >= key.value_of(rows@[b]) by {
                assert(t[a] == rows@[a] && t[b] == rows@[b]);
            }
        }
        while j > 0 && key.value(&rows[j - 1]) < key.value(&rows[j])
            invariant
                0 <= j <= i < n == rows@.len(),
                rows@.to_multiset() == old(rows)@.to_multiset(),
                forall|a: int, b: int|
                    0 <= a < b <= i && a != j && b != j ==> key.value_of(rows@[a]) >= key.value_of(
                        rows@[b],
                    ),
                forall|b: int| j < b <= i ==> key.value_of(rows@[j as int]) > key.value_of(rows@[b]),
                forall|a: int, b: int|
                    0 <= a < j && j < b <= i ==> key.value_of(rows@[a]) >= key.value_of(rows@[b]),
            decreases j,
        {
            let ghost before = rows@;
            let hi = rows[j].duplicate();
            let lo = rows[j - 1].duplicate();
            rows.set(j, lo);
            rows.set(j - 1, hi);
            proof {
                let mid = before.update(j as int, before[j - 1]);
                assert(mid.to_multiset() == before.to_multiset().insert(before[j - 1]).remove(
                    before[j as int],
                ));
                assert(rows@ == mid.update(j - 1, before[j as int]));
                assert(rows@.to_multiset() == mid.to_multiset().insert(before[j as int]).remove(
                    before[j - 1],
                ));
                assert(rows@.to_multiset() =~= before.to_multiset());
            }
            j = j - 1;
        }
        proof {
            let t = rows@.take(i + 1);
            assert forall|a: int, b: int| 0 <= a < b < t.len() implies key.value_of(
                #[trigger] t[a],
            ) >= key.value_of(#[trigger] t[b]) by {
                assert(t[a] == rows@[a] && t[b] == rows@[b]);
                if b == j && j > 0 && a < j - 1 {
                    assert(key.value_of(rows@[a]) >= key.value_of(rows@[j - 1]));
                }
            }
        }
        i = i + 1;
    }
    proof {
        assert(rows@.take(n as int) =~= rows@);
    }
}

} // verus!

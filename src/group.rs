use vstd::prelude::*;

use crate::proc::Proc;

verus! {

/// Some record of `gs` is named `name`.
pub open spec fn has_name(gs: Seq<Proc>, name: Seq<char>) -> bool {
    exists|i: int| 0 <= i < gs.len() && gs[i].status.name@ == name
}

/// The position of the record of `gs` named `name`.
pub open spec fn name_index(gs: Seq<Proc>, name: Seq<char>) -> int {
    choose|i: int| 0 <= i < gs.len() && gs[i].status.name@ == name
}

/// No two records of `gs` share a name.
pub open spec fn distinct_names(gs: Seq<Proc>) -> bool {
    forall|i: int, j: int|
        0 <= i < gs.len() && 0 <= j < gs.len() && i != j ==> gs[i].status.name@
            != gs[j].status.name@
}

/// `s` grouped by name: one record per name, in the order in which the
/// names first come, each the fold of the records of that name in order.
pub open spec fn grouped(s: Seq<Proc>) -> Seq<Proc>
    decreases s.len(),
{
    if s.len() == 0 {
        Seq::empty()
    } else {
        let g = grouped(s.drop_last());
        let p = s.last();
        if has_name(g, p.status.name@) {
            let i = name_index(g, p.status.name@);
            g.update(i, g[i].spec_merge(p))
        } else {
            g.push(p)
        }
    }
}

/// `a` and `b` agree on every figure that grouping sums or joins.
pub open spec fn same_totals(a: Proc, b: Proc) -> bool {
    &&& a.count == b.count
    &&& a.status.vm_rss == b.status.vm_rss
    &&& a.status.vm_swap == b.status.vm_swap
    &&& a.stat == b.stat
    &&& a.io == b.io
    &&& a.new == b.new
    &&& a.deleted == b.deleted
}

/// Merging two records gives the same totals in either order.
pub proof fn lemma_merge_commutes(a: Proc, b: Proc)
    ensures
        same_totals(a.spec_merge(b), b.spec_merge(a)),
{
}

/// Merging is associative: with counts that are not negative, folding
/// three records gives the same record however the folds are nested.
pub proof fn lemma_merge_associates(a: Proc, b: Proc, c: Proc)
    requires
        a.count >= 0,
        b.count >= 0,
        c.count >= 0,
    ensures
        a.spec_merge(b).spec_merge(c) == a.spec_merge(b.spec_merge(c)),
{
}

/// Two records of one name, with counts of one and resident sizes `r1`
/// and `r2`, merge into a record of count two and resident size
/// `r1 + r2`, whichever comes first.
pub proof fn lemma_merge_pair(a: Proc, b: Proc)
    requires
        a.status.name@ == b.status.name@,
        a.count == 1,
        b.count == 1,
        a.status.vm_rss + b.status.vm_rss <= u64::MAX,
    ensures
        a.spec_merge(b).count == 2,
        b.spec_merge(a).count == 2,
        a.spec_merge(b).status.vm_rss == a.status.vm_rss + b.status.vm_rss,
        b.spec_merge(a).status.vm_rss == a.status.vm_rss + b.status.vm_rss,
        a.spec_merge(b).status.name@ == a.status.name@,
        b.spec_merge(a).status.name@ == a.status.name@,
{
}

/// Merges the records that share a process name into one record each.
///
/// The groups come in the order in which their names first appear; each
/// is the first record of its name with the later ones folded into it.
pub fn group(records: Vec<Proc>) -> (r: Vec<Proc>)
    ensures
        r@ == grouped(records@),
        distinct_names(r@),
{
    let mut out: Vec<Proc> = Vec::new();
    let mut k: usize = 0;
    while k < records.len()
        invariant
            0 <= k <= records@.len(),
            out@ == grouped(records@.take(k as int)),
            distinct_names(out@),
        decreases records@.len() - k,
    {
        let p = &records[k];
        proof {
            assert(records@.take(k + 1).drop_last() =~= records@.take(k as int));
            assert(records@.take(k + 1).last() == records@[k as int]);
        }
        let mut i: usize = 0;
        let mut found = false;
        while i < out.len()
            invariant_except_break
                !found,
            invariant
                0 <= i <= out@.len(),
                forall|j: int| 0 <= j < i ==> out@[j].status.name@ != p.status.name@,
            ensures
                found ==> i < out@.len() && out@[i as int].status.name@ == p.status.name@,
                !found ==> i == out@.len(),
                forall|j: int| 0 <= j < i ==> out@[j].status.name@ != p.status.name@,
            decreases out@.len() - i,
        {
            if out[i].status.name == p.status.name {
                found = true;
                break;
            }
            i = i + 1;
        }
        if found {
            proof {
                let j = name_index(out@, p.status.name@);
                assert(out@[j].status.name@ == p.status.name@);
                assert(j == i);
            }
            let mut g = out[i].duplicate();
            g.absorb(p);
            out.set(i, g);
        } else {
            proof {
                assert(!has_name(out@, p.status.name@));
            }
            out.push(p.duplicate());
        }
        k = k + 1;
    }
    proof {
        assert(records@.take(records@.len() as int) =~= records@);
    }
    out
}

} // verus!

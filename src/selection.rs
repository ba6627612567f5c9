use vstd::prelude::*;

verus! {

/// Holds of indices below `n`.
pub open spec fn below(n: usize) -> spec_fn(usize) -> bool {
    |x: usize| x < n
}

/// Holds of indices that `m` does not hold.
pub open spec fn not_in(m: Seq<usize>) -> spec_fn(usize) -> bool {
    |x: usize| !m.contains(x)
}

/// The selection after toggling a group whose members are `m`: every member
/// leaves when all were selected, else every member joins.
pub open spec fn toggle_group_set(sel: Set<usize>, m: Set<usize>) -> Set<usize> {
    if m.subset_of(sel) {
        sel.difference(m)
    } else {
        sel.union(m)
    }
}

/// The selection after toggling one job.
pub open spec fn toggle_job_set(sel: Set<usize>, j: usize) -> Set<usize> {
    if sel.contains(j) {
        sel.remove(j)
    } else {
        sel.insert(j)
    }
}

/// Toggling a group twice gives back the selection it started from, when the
/// group's members were all selected or none was; and one toggle always
/// leaves the members all selected or all unselected.
pub proof fn lemma_toggle_group_twice(sel: Set<usize>, m: Set<usize>)
    ensures
        m.subset_of(toggle_group_set(sel, m)) || m.disjoint(toggle_group_set(sel, m)),
        m.subset_of(sel) || m.disjoint(sel) ==> toggle_group_set(toggle_group_set(sel, m), m)
            == sel,
{
    let once = toggle_group_set(sel, m);
    if m.subset_of(sel) {
        assert(m.disjoint(once));
        if !m.is_empty() {
            assert(!m.subset_of(once)) by {
                let x = m.choose();
                assert(m.contains(x));
            }
        }
        assert(toggle_group_set(once, m) =~= sel);
    } else {
        assert(m.subset_of(once));
        if m.disjoint(sel) {
            assert(toggle_group_set(once, m) =~= sel);
        }
    }
}

/// Toggling one job twice gives back the selection it started from.
pub proof fn lemma_toggle_job_twice(sel: Set<usize>, j: usize)
    ensures
        toggle_job_set(toggle_job_set(sel, j), j) == sel,
{
    assert(toggle_job_set(toggle_job_set(sel, j), j) =~= sel);
}

/// Whether `x` occurs in `v`.
pub fn contains_index(v: &Vec<usize>, x: usize) -> (r: bool)
    ensures
        r == v@.contains(x),
{
    let mut i: usize = 0;
    while i < v.len()
        invariant
            i <= v@.len(),
            forall|t: int| 0 <= t < i ==> v@[t] != x,
        decreases v@.len() - i,
    {
        if v[i] == x {
            return true;
        }
        i = i + 1;
    }
    false
}

/// Whether every element of `m` occurs in `v`.
pub fn contains_all(v: &Vec<usize>, m: &Vec<usize>) -> (r: bool)
    ensures
        r == m@.to_set().subset_of(v@.to_set()),
{
    let mut i: usize = 0;
    while i < m.len()
        invariant
            i <= m@.len(),
            forall|t: int| 0 <= t < i ==> v@.contains(#[trigger] m@[t]),
        decreases m@.len() - i,
    {
        if !contains_index(v, m[i]) {
            assert(m@.to_set().contains(m@[i as int]));
            return false;
        }
        i = i + 1;
    }
    true
}

/// The elements of `v` that are not in `m`, in their order.
pub fn without_all(v: &Vec<usize>, m: &Vec<usize>) -> (r: Vec<usize>)
    requires
        v@.no_duplicates(),
    ensures
        r@.no_duplicates(),
        r@ == v@.filter(not_in(m@)),
        r@.to_set() == v@.to_set().difference(m@.to_set()),
{
    let mut r: Vec<usize> = Vec::new();
    let mut i: usize = 0;
    while i < v.len()
        invariant
            i <= v@.len(),
            v@.no_duplicates(),
            r@.no_duplicates(),
            forall|x: usize| r@.contains(x) <==> ((exists|t: int| 0 <= t < i && v@[t] == x) && !m@.contains(x)),
            r@ == v@.subrange(0, i as int).filter(not_in(m@)),
        decreases v@.len() - i,
    {
        proof {
            assert(v@.subrange(0, i + 1) =~= v@.subrange(0, i as int).push(v@[i as int]));
            v@.subrange(0, i as int).lemma_filter_push(v@[i as int], not_in(m@));
        }
        let x = v[i];
        let ghost before = r@;
        let keep = !contains_index(m, x);
        if keep {
            assert(!r@.contains(x)) by {
                if r@.contains(x) {
                    let t = choose|t: int| 0 <= t < i && v@[t] == x;
                    assert(v@[t] == v@[i as int]);
                }
            }
            r.push(x);
            assert(r@[before.len() as int] == x);
        }
        assert forall|y: usize| r@.contains(y) <==> ((exists|t: int| 0 <= t < i + 1 && v@[t] == y) && !m@.contains(y)) by {
            if (exists|t: int| 0 <= t < i + 1 && v@[t] == y) && !m@.contains(y) {
                let t = choose|t: int| 0 <= t < i + 1 && v@[t] == y;
                if t < i {
                    assert(before.contains(y));
                    let u = choose|u: int| 0 <= u < before.len() && before[u] == y;
                    assert(r@[u] == y);
                }
            }
            if r@.contains(y) {
                let u = choose|u: int| 0 <= u < r@.len() && r@[u] == y;
                if u < before.len() {
                    assert(before[u] == y);
                    assert(before.contains(y));
                    let t = choose|t: int| 0 <= t < i && v@[t] == y;
                    assert(v@[t] == y);
                } else {
                    assert(v@[i as int] == y);
                }
            }
        }
        i = i + 1;
    }
    assert(v@.subrange(0, v@.len() as int) =~= v@);
    assert(r@.to_set() =~= v@.to_set().difference(m@.to_set()));
    r
}

/// Appends to `v` each element of `m` that it does not hold yet.
pub fn add_all(v: &mut Vec<usize>, m: &Vec<usize>)
    requires
        old(v)@.no_duplicates(),
        m@.no_duplicates(),
    ensures
        final(v)@.no_duplicates(),
        final(v)@ == old(v)@ + m@.filter(not_in(old(v)@)),
        final(v)@.to_set() == old(v)@.to_set().union(m@.to_set()),
{
    let mut i: usize = 0;
    while i < m.len()
        invariant
            i <= m@.len(),
            v@.no_duplicates(),
            forall|x: usize| v@.contains(x) <==> (old(v)@.contains(x) || (exists|t: int| 0 <= t < i && m@[t] == x)),
            m@.no_duplicates(),
            v@ == old(v)@ + m@.subrange(0, i as int).filter(not_in(old(v)@)),
        decreases m@.len() - i,
    {
        let x = m[i];
        proof {
            assert(m@.subrange(0, i + 1) =~= m@.subrange(0, i as int).push(m@[i as int]));
            m@.subrange(0, i as int).lemma_filter_push(m@[i as int], not_in(old(v)@));
            assert(v@.contains(x) <==> old(v)@.contains(x)) by {
                if v@.contains(x) && !old(v)@.contains(x) {
                    let t = choose|t: int| 0 <= t < i && m@[t] == x;
                    assert(m@[t] == m@[i as int]);
                }
            }
        }
        let ghost before = v@;
        if !contains_index(v, x) {
            v.push(x);
            assert(v@[before.len() as int] == x);
        }
        assert forall|y: usize| v@.contains(y) <==> (old(v)@.contains(y) || (exists|t: int| 0 <= t < i + 1 && m@[t] == y)) by {
            if (exists|t: int| 0 <= t < i + 1 && m@[t] == y) {
                let t = choose|t: int| 0 <= t < i + 1 && m@[t] == y;
                if t < i {
                    assert(m@[t] == y);
                } else {
                    assert(v@.contains(x));
                }
            }
            if (exists|t: int| 0 <= t < i && m@[t] == y) {
                let t = choose|t: int| 0 <= t < i && m@[t] == y;
                assert(m@[t] == y);
            }
            if v@.contains(y) && !before.contains(y) {
                let t = choose|t: int| 0 <= t < v@.len() && v@[t] == y;
                assert(t == before.len());
                assert(m@.subrange(0, i + 1)[i as int] == y);
            }
            if before.contains(y) {
                let t = choose|t: int| 0 <= t < before.len() && before[t] == y;
                assert(v@[t] == y);
            }
        }
        i = i + 1;
    }
    assert(m@.subrange(0, m@.len() as int) =~= m@);
    assert(v@.to_set() =~= old(v)@.to_set().union(m@.to_set()));
}

/// The elements of `v` below `n`, in their order.
pub fn keep_below(v: &Vec<usize>, n: usize) -> (r: Vec<usize>)
    requires
        v@.no_duplicates(),
    ensures
        r@.no_duplicates(),
        forall|t: int| 0 <= t < r@.len() ==> r@[t] < n,
        r@ == v@.filter(below(n)),
        r@.to_set() == v@.to_set().filter(below(n)),
{
    let mut r: Vec<usize> = Vec::new();
    let mut i: usize = 0;
    while i < v.len()
        invariant
            i <= v@.len(),
            v@.no_duplicates(),
            r@.no_duplicates(),
            forall|t: int| 0 <= t < r@.len() ==> r@[t] < n,
            forall|x: usize| r@.contains(x) <==> ((exists|t: int| 0 <= t < i && v@[t] == x) && x < n),
            r@ == v@.subrange(0, i as int).filter(below(n)),
        decreases v@.len() - i,
    {
        proof {
            assert(v@.subrange(0, i + 1) =~= v@.subrange(0, i as int).push(v@[i as int]));
            v@.subrange(0, i as int).lemma_filter_push(v@[i as int], below(n));
        }
        let x = v[i];
        let ghost before = r@;
        if x < n {
            assert(!r@.contains(x)) by {
                if r@.contains(x) {
                    let t = choose|t: int| 0 <= t < i && v@[t] == x;
                    assert(v@[t] == v@[i as int]);
                }
            }
            r.push(x);
            assert(r@[before.len() as int] == x);
        }
        assert forall|y: usize| r@.contains(y) <==> ((exists|t: int| 0 <= t < i + 1 && v@[t] == y) && y < n) by {
            if (exists|t: int| 0 <= t < i + 1 && v@[t] == y) && y < n {
                let t = choose|t: int| 0 <= t < i + 1 && v@[t] == y;
                if t < i {
                    assert(before.contains(y));
                    let u = choose|u: int| 0 <= u < before.len() && before[u] == y;
                    assert(r@[u] == y);
                }
            }
            if r@.contains(y) {
                let u = choose|u: int| 0 <= u < r@.len() && r@[u] == y;
                if u < before.len() {
                    assert(before[u] == y);
                    assert(before.contains(y));
                    let t = choose|t: int| 0 <= t < i && v@[t] == y;
                    assert(v@[t] == y);
                } else {
                    assert(v@[i as int] == y);
                }
            }
        }
        i = i + 1;
    }
    assert(v@.subrange(0, v@.len() as int) =~= v@);
    assert(r@.to_set() =~= v@.to_set().filter(below(n)));
    r
}

} // verus!

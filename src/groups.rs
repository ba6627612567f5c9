use vstd::prelude::*;

use crate::group_key::{compute_group_key, group_key_of};
use crate::job::Job;

verus! {

/// The group key of every job of a snapshot, in snapshot order.
pub open spec fn job_keys(jobs: Seq<Job>) -> Seq<Seq<char>> {
    Seq::new(jobs.len(), |i: int| group_key_of(jobs[i].id@))
}

/// The indices below `n` whose key is `k`, ascending.
pub open spec fn members_upto(keys: Seq<Seq<char>>, k: Seq<char>, n: nat) -> Seq<usize>
    decreases n,
{
    if n == 0 {
        Seq::empty()
    } else {
        let rest = members_upto(keys, k, (n - 1) as nat);
        if keys[n - 1] == k {
            rest.push((n - 1) as usize)
        } else {
            rest
        }
    }
}

/// The indices of all jobs whose key is `k`, ascending.
pub open spec fn key_members(keys: Seq<Seq<char>>, k: Seq<char>) -> Seq<usize> {
    members_upto(keys, k, keys.len())
}

/// A group: its key and the indices of its members, ascending.
pub struct JobGroup {
    pub key: String,
    pub members: Vec<usize>,
}

/// The groups of a snapshot, and for each job the position of its group.
pub struct GroupIndex {
    pub groups: Vec<JobGroup>,
    pub group_of: Vec<usize>,
}

impl GroupIndex {
    /// The index partitions the jobs whose keys are `keys` by key: one
    /// non-empty group for each key that some job has, and no other.
    pub open spec fn wf(&self, keys: Seq<Seq<char>>) -> bool {
        &&& self.group_of@.len() == keys.len()
        &&& forall|j: int|
            0 <= j < keys.len() ==> {
                &&& #[trigger] self.group_of@[j] < self.groups@.len()
                &&& self.groups@[self.group_of@[j] as int].key@ == keys[j]
            }
        &&& forall|g: int|
            0 <= g < self.groups@.len() ==> #[trigger] self.groups@[g].members@ == key_members(
                keys,
                self.groups@[g].key@,
            )
        &&& forall|g: int| 0 <= g < self.groups@.len() ==> #[trigger] self.groups@[g].members@.len() > 0
        &&& forall|g: int, h: int|
            0 <= g < h < self.groups@.len() ==> #[trigger] self.groups@[g].key@
                != #[trigger] self.groups@[h].key@
    }

    /// Groups the jobs of a snapshot by key, in snapshot order.
    pub fn build(jobs: &Vec<Job>) -> (r: GroupIndex)
        ensures
            r.wf(job_keys(jobs@)),
    {
        let ghost keys = job_keys(jobs@);
        let mut groups: Vec<JobGroup> = Vec::new();
        let mut group_of: Vec<usize> = Vec::new();
        let n = jobs.len();
        let mut idx: usize = 0;
        while idx < n
            invariant
                n == jobs@.len(),
                keys == job_keys(jobs@),
                idx <= n,
                group_of@.len() == idx,
                forall|j: int|
                    0 <= j < idx ==> {
                        &&& #[trigger] group_of@[j] < groups@.len()
                        &&& groups@[group_of@[j] as int].key@ == keys[j]
                    },
                forall|g: int|
                    0 <= g < groups@.len() ==> #[trigger] groups@[g].members@ == members_upto(
                        keys,
                        groups@[g].key@,
                        idx as nat,
                    ),
                forall|g: int| 0 <= g < groups@.len() ==> #[trigger] groups@[g].members@.len() > 0,
                forall|g: int, h: int|
                    0 <= g < h < groups@.len() ==> #[trigger] groups@[g].key@
                        != #[trigger] groups@[h].key@,
            decreases n - idx,
        {
            let key = compute_group_key(jobs[idx].id.as_str());
            assert(key@ == keys[idx as int]);
            let mut g: usize = 0;
            while g < groups.len() && groups[g].key != key
                invariant
                    g <= groups@.len(),
                    forall|h: int| 0 <= h < g ==> #[trigger] groups@[h].key@ != key@,
                decreases groups@.len() - g,
            {
                g = g + 1;
            }
            let ghost old_groups = groups@;
            if g < groups.len() {
                groups[g].members.push(idx);
                assert forall|a: int| 0 <= a < groups@.len() implies #[trigger] groups@[a].key@ == old_groups[a].key@ by {
                    if a != g {
                        assert(groups@[a] == old_groups[a]);
                    }
                }
                assert forall|h: int| 0 <= h < groups@.len() implies #[trigger] groups@[h].members@
                    == members_upto(keys, groups@[h].key@, (idx + 1) as nat) by {
                    if h != g {
                        assert(groups@[h] == old_groups[h]);
                    }
                }
                assert forall|h: int| 0 <= h < groups@.len() implies #[trigger] groups@[h].members@.len() > 0 by {
                    if h != g {
                        assert(groups@[h] == old_groups[h]);
                    }
                }
            } else {
                assert forall|j: int| 0 <= j < idx implies keys[j] != key@ by {
                    assert(groups@[group_of@[j] as int].key@ == keys[j]);
                }
                assert(members_upto(keys, key@, idx as nat) == Seq::<usize>::empty()) by {
                    lemma_members_absent(keys, key@, idx as nat);
                }
                let mut members: Vec<usize> = Vec::new();
                members.push(idx);
                let ghost k = key@;
                groups.push(JobGroup { key, members });
                assert forall|a: int, b: int| 0 <= a < b < groups@.len() implies #[trigger] groups@[a].key@
                    != #[trigger] groups@[b].key@ by {
                    assert(groups@[a] == old_groups[a]);
                    if b < old_groups.len() {
                        assert(groups@[b] == old_groups[b]);
                        assert(old_groups[a].key@ != old_groups[b].key@);
                    } else {
                        assert(groups@[b].key@ == k);
                        assert(old_groups[a].key@ != k);
                    }
                }
                assert forall|h: int| 0 <= h < groups@.len() implies #[trigger] groups@[h].members@
                    == members_upto(keys, groups@[h].key@, (idx + 1) as nat) by {
                    if h < g {
                        assert(groups@[h] == old_groups[h]);
                    } else {
                        assert(members_upto(keys, key@, (idx + 1) as nat) == Seq::<usize>::empty().push(idx));
                    }
                }
                assert forall|h: int| 0 <= h < groups@.len() implies #[trigger] groups@[h].members@.len() > 0 by {
                    if h < g {
                        assert(groups@[h] == old_groups[h]);
                    }
                }
            }
            group_of.push(g);
            idx = idx + 1;
        }
        GroupIndex { groups, group_of }
    }
}

/// Some job has key `k`.
pub open spec fn is_job_key(keys: Seq<Seq<char>>, k: Seq<char>) -> bool {
    exists|j: int| 0 <= j < keys.len() && keys[j] == k
}

/// Some group of `index` has key `k`.
pub open spec fn has_group(index: GroupIndex, k: Seq<char>) -> bool {
    exists|g: int| 0 <= g < index.groups@.len() && index.groups@[g].key@ == k
}

/// The keys of a well-formed index are exactly the keys that jobs have.
pub proof fn lemma_group_keys_exact(index: GroupIndex, keys: Seq<Seq<char>>)
    requires
        index.wf(keys),
        keys.len() <= usize::MAX,
    ensures
        forall|g: int| 0 <= g < index.groups@.len() ==> is_job_key(keys, #[trigger] index.groups@[g].key@),
        forall|j: int| 0 <= j < keys.len() ==> has_group(index, #[trigger] keys[j]),
        keys.len() == 0 ==> index.groups@.len() == 0,
{
    assert forall|g: int| 0 <= g < index.groups@.len() implies is_job_key(keys, #[trigger] index.groups@[g].key@) by {
        let k = index.groups@[g].key@;
        lemma_members_facts(keys, k, keys.len());
        let j = index.groups@[g].members@[0] as int;
        assert(keys[j] == k);
    }
    assert forall|j: int| 0 <= j < keys.len() implies has_group(index, #[trigger] keys[j]) by {
        let g = index.group_of@[j] as int;
        assert(index.groups@[g].key@ == keys[j]);
    }
    if keys.len() == 0 && index.groups@.len() > 0 {
        assert(index.groups@[0].members@.len() > 0);
    }
}

/// No index below `n` has key `k`: there are no members below `n`.
pub proof fn lemma_members_absent(keys: Seq<Seq<char>>, k: Seq<char>, n: nat)
    requires
        n <= keys.len(),
        forall|j: int| 0 <= j < n ==> keys[j] != k,
    ensures
        members_upto(keys, k, n) == Seq::<usize>::empty(),
    decreases n,
{
    if n > 0 {
        lemma_members_absent(keys, k, (n - 1) as nat);
    }
}

/// The members below `n` of key `k` are ascending indices below `n` whose key
/// is `k`, and every such index is one of them.
pub proof fn lemma_members_facts(keys: Seq<Seq<char>>, k: Seq<char>, n: nat)
    requires
        n <= keys.len() <= usize::MAX,
    ensures
        forall|t: int|
            0 <= t < members_upto(keys, k, n).len() ==> {
                &&& #[trigger] members_upto(keys, k, n)[t] < n
                &&& keys[members_upto(keys, k, n)[t] as int] == k
            },
        forall|a: int, b: int|
            0 <= a < b < members_upto(keys, k, n).len() ==> #[trigger] members_upto(keys, k, n)[a]
                < #[trigger] members_upto(keys, k, n)[b],
        forall|j: int|
            0 <= j < n ==> (keys[j] == k <==> #[trigger] members_upto(keys, k, n).contains(
                j as usize,
            )),
    decreases n,
{
    if n > 0 {
        let prev = members_upto(keys, k, (n - 1) as nat);
        lemma_members_facts(keys, k, (n - 1) as nat);
        let cur = members_upto(keys, k, n);
        assert forall|t: int| 0 <= t < cur.len() implies #[trigger] cur[t] < n && keys[cur[t] as int] == k by {
            if t < prev.len() {
                assert(cur[t] == prev[t]);
            }
        }
        assert forall|a: int, b: int| 0 <= a < b < cur.len() implies #[trigger] cur[a] < #[trigger] cur[b] by {
            if b < prev.len() {
                assert(cur[a] == prev[a] && cur[b] == prev[b]);
            } else {
                assert(cur[a] == prev[a]);
            }
        }
        assert forall|j: int| 0 <= j < n implies (keys[j] == k <==> #[trigger] cur.contains(j as usize)) by {
            if j < n - 1 {
                if prev.contains(j as usize) {
                    let t = choose|t: int| 0 <= t < prev.len() && prev[t] == j as usize;
                    assert(cur[t] == j as usize);
                }
                if cur.contains(j as usize) {
                    let t = choose|t: int| 0 <= t < cur.len() && cur[t] == j as usize;
                    if t < prev.len() {
                        assert(prev[t] == j as usize);
                    }
                }
            } else if keys[j] == k {
                assert(cur[prev.len() as int] == j as usize);
            } else if cur.contains(j as usize) {
                let t = choose|t: int| 0 <= t < cur.len() && cur[t] == j as usize;
                assert(prev[t] == j as usize);
            }
        }
    }
}

/// The first member of a key is the first index that has it.
pub proof fn lemma_first_member(keys: Seq<Seq<char>>, j: int)
    requires
        0 <= j < keys.len() <= usize::MAX,
    ensures
        key_members(keys, keys[j]).len() > 0,
        key_members(keys, keys[j])[0] <= j,
{
    let m = key_members(keys, keys[j]);
    lemma_members_facts(keys, keys[j], keys.len());
    assert(m.contains(j as usize));
    let t = choose|t: int| 0 <= t < m.len() && m[t] == j as usize;
    if t > 0 {
        assert(m[0] < m[t]);
    }
}

} // verus!

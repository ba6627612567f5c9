use vstd::prelude::*;

use crate::groups::{key_members, lemma_first_member, lemma_members_facts, GroupIndex};

verus! {

/// A displayed row: the header of a multi-member group, or one job.
#[derive(Debug, Clone)]
pub enum VisibleRow {
    Group { key: String, rep_job_index: usize },
    Job { job_index: usize },
}

/// What a displayed row stands for, with its key as characters.
pub enum RowView {
    Header { key: Seq<char>, rep: usize },
    Job { index: usize },
}

impl View for VisibleRow {
    type V = RowView;

    open spec fn view(&self) -> RowView {
        match self {
            VisibleRow::Group { key, rep_job_index } => RowView::Header { key: key@, rep: *rep_job_index },
            VisibleRow::Job { job_index } => RowView::Job { index: *job_index },
        }
    }
}

/// The views of a sequence of rows.
pub open spec fn rows_view(rows: Seq<VisibleRow>) -> Seq<RowView> {
    rows.map_values(|r: VisibleRow| r@)
}

/// A job row for each index of `m`, in order.
pub open spec fn job_rows(m: Seq<usize>) -> Seq<RowView> {
    m.map_values(|i: usize| RowView::Job { index: i })
}

/// The rows that job `j` opens: a job row when its group has one member; the
/// group header, followed by every member when the group is expanded, when
/// `j` is the group's first member; nothing otherwise.
pub open spec fn rows_for_job(keys: Seq<Seq<char>>, expanded: Set<Seq<char>>, j: int) -> Seq<RowView> {
    let k = keys[j];
    let m = key_members(keys, k);
    if m.len() <= 1 {
        seq![RowView::Job { index: j as usize }]
    } else if m[0] == j {
        seq![RowView::Header { key: k, rep: j as usize }] + if expanded.contains(k) {
            job_rows(m)
        } else {
            Seq::empty()
        }
    } else {
        Seq::empty()
    }
}

/// The rows opened by the jobs below `n`, in snapshot order.
pub open spec fn rows_upto(keys: Seq<Seq<char>>, expanded: Set<Seq<char>>, n: nat) -> Seq<RowView>
    decreases n,
{
    if n == 0 {
        Seq::empty()
    } else {
        rows_upto(keys, expanded, (n - 1) as nat) + rows_for_job(keys, expanded, n - 1)
    }
}

/// The displayed rows of a snapshot whose job keys are `keys`.
pub open spec fn visible_rows_of(keys: Seq<Seq<char>>, expanded: Set<Seq<char>>) -> Seq<RowView> {
    rows_upto(keys, expanded, keys.len())
}

/// The keys held in a list of expanded groups.
pub open spec fn key_set(v: Seq<String>) -> Set<Seq<char>> {
    Set::new(|k: Seq<char>| exists|i: int| 0 <= i < v.len() && v[i]@ == k)
}

/// Position of the string equal to `key` in `v`, if any.
pub fn find_key(v: &Vec<String>, key: &String) -> (r: Option<usize>)
    ensures
        r matches Some(i) ==> i < v@.len() && v@[i as int]@ == key@,
        r is None ==> !key_set(v@).contains(key@),
{
    let mut i: usize = 0;
    while i < v.len()
        invariant
            i <= v@.len(),
            forall|h: int| 0 <= h < i ==> #[trigger] v@[h]@ != key@,
        decreases v@.len() - i,
    {
        if v[i] == *key {
            return Some(i);
        }
        i = i + 1;
    }
    None
}

/// Builds the displayed rows from a group index and the expanded keys.
pub fn build_rows(index: &GroupIndex, expanded: &Vec<String>, Ghost(keys): Ghost<Seq<Seq<char>>>) -> (rows: Vec<VisibleRow>)
    requires
        index.wf(keys),
    ensures
        rows_view(rows@) == visible_rows_of(keys, key_set(expanded@)),
{
    let ghost exp = key_set(expanded@);
    let n = index.group_of.len();
    let mut rows: Vec<VisibleRow> = Vec::new();
    let mut idx: usize = 0;
    while idx < n
        invariant
            index.wf(keys),
            n == keys.len(),
            idx <= n,
            exp == key_set(expanded@),
            rows_view(rows@) == rows_upto(keys, exp, idx as nat),
        decreases n - idx,
    {
        let g = index.group_of[idx];
        let members = &index.groups[g].members;
        let ghost k = keys[idx as int];
        assert(members@ == key_members(keys, k));
        if members.len() <= 1 {
            rows.push(VisibleRow::Job { job_index: idx });
        } else if members[0] == idx {
            let key = &index.groups[g].key;
            rows.push(VisibleRow::Group { key: key.clone(), rep_job_index: idx });
            if find_key(expanded, key).is_some() {
                let mut t: usize = 0;
                while t < members.len()
                    invariant
                        t <= members@.len(),
                        rows_view(rows@) == rows_upto(keys, exp, idx as nat) + seq![RowView::Header { key: k, rep: idx }] + job_rows(members@.subrange(0, t as int)),
                    decreases members@.len() - t,
                {
                    let ghost before = rows@;
                    rows.push(VisibleRow::Job { job_index: members[t] });
                    assert(rows_view(rows@) =~= rows_view(before).push(RowView::Job { index: members@[t as int] }));
                    assert(job_rows(members@.subrange(0, t + 1)) =~= job_rows(members@.subrange(0, t as int)).push(RowView::Job { index: members@[t as int] }));
                    t = t + 1;
                }
            }
        }
        idx = idx + 1;
    }
    rows
}

/// `r` is the header of group `k`.
pub open spec fn is_header_of(r: RowView, k: Seq<char>) -> bool {
    r matches RowView::Header { key, .. } && key == k
}

/// `p` is the first row of `rows` that is the header of group `k`.
pub open spec fn first_header_at(rows: Seq<RowView>, k: Seq<char>, p: int) -> bool {
    &&& 0 <= p < rows.len()
    &&& is_header_of(rows[p], k)
    &&& forall|q: int| 0 <= q < p ==> !is_header_of(#[trigger] rows[q], k)
}

/// Position of the first header of group `key` among `rows`, if any.
pub fn find_header(rows: &Vec<VisibleRow>, key: &String) -> (r: Option<usize>)
    ensures
        r matches Some(p) ==> first_header_at(rows_view(rows@), key@, p as int),
        r is None ==> forall|q: int| !first_header_at(rows_view(rows@), key@, q),
{
    let n = rows.len();
    let mut p: usize = 0;
    while p < n
        invariant
            p <= n,
            n == rows@.len(),
            forall|q: int| 0 <= q < p ==> !is_header_of(#[trigger] rows_view(rows@)[q], key@),
        decreases n - p,
    {
        let hit = match &rows[p] {
            VisibleRow::Group { key: k, .. } => *k == *key,
            VisibleRow::Job { .. } => false,
        };
        if hit {
            return Some(p);
        }
        p = p + 1;
    }
    assert forall|q: int| !first_header_at(rows_view(rows@), key@, q) by {
        if 0 <= q < n {
            assert(!is_header_of(rows_view(rows@)[q], key@));
        }
    }
    None
}

/// A row refers to jobs of the snapshot: a header to the group's first
/// member, of its key, in a group of more than one job.
pub open spec fn row_ok(keys: Seq<Seq<char>>, r: RowView) -> bool {
    match r {
        RowView::Header { key, rep } => {
            &&& rep < keys.len()
            &&& keys[rep as int] == key
            &&& key_members(keys, key).len() > 1
            &&& key_members(keys, key)[0] == rep
        },
        RowView::Job { index } => index < keys.len(),
    }
}

/// Every displayed row refers to jobs of the snapshot.
pub proof fn lemma_rows_ok(keys: Seq<Seq<char>>, expanded: Set<Seq<char>>, n: nat)
    requires
        n <= keys.len() <= usize::MAX,
    ensures
        forall|p: int|
            0 <= p < rows_upto(keys, expanded, n).len() ==> row_ok(
                keys,
                #[trigger] rows_upto(keys, expanded, n)[p],
            ),
    decreases n,
{
    if n > 0 {
        lemma_rows_ok(keys, expanded, (n - 1) as nat);
        let j = n - 1;
        let k = keys[j];
        lemma_members_facts(keys, k, keys.len());
        let prev = rows_upto(keys, expanded, (n - 1) as nat);
        let add = rows_for_job(keys, expanded, j);
        assert forall|p: int| 0 <= p < add.len() implies row_ok(keys, #[trigger] add[p]) by {
            let m = key_members(keys, k);
            if m.len() > 1 && m[0] == j && p > 0 {
                assert(add[p] == RowView::Job { index: m[p - 1] });
            }
        }
        assert forall|p: int| 0 <= p < rows_upto(keys, expanded, n).len() implies row_ok(
            keys,
            #[trigger] rows_upto(keys, expanded, n)[p],
        ) by {
            if p >= prev.len() {
                assert(rows_upto(keys, expanded, n)[p] == add[p - prev.len()]);
            } else {
                assert(rows_upto(keys, expanded, n)[p] == prev[p]);
            }
        }
    }
}

/// A non-empty snapshot has rows: its first job opens at least one.
pub proof fn lemma_rows_nonempty(keys: Seq<Seq<char>>, expanded: Set<Seq<char>>)
    requires
        0 < keys.len() <= usize::MAX,
    ensures
        visible_rows_of(keys, expanded).len() > 0,
{
    lemma_first_member(keys, 0);
    lemma_rows_grow(keys, expanded, 1, keys.len());
    assert(rows_upto(keys, expanded, 0) == Seq::<RowView>::empty());
    assert(rows_for_job(keys, expanded, 0).len() > 0);
}

/// Rows only grow as more jobs are taken.
pub proof fn lemma_rows_grow(keys: Seq<Seq<char>>, expanded: Set<Seq<char>>, a: nat, b: nat)
    requires
        a <= b,
    ensures
        rows_upto(keys, expanded, a).len() <= rows_upto(keys, expanded, b).len(),
    decreases b,
{
    if a < b {
        lemma_rows_grow(keys, expanded, a, (b - 1) as nat);
    }
}

/// How many job rows of `rows` show job `j`.
pub open spec fn job_row_count(rows: Seq<RowView>, j: usize) -> nat
    decreases rows.len(),
{
    if rows.len() == 0 {
        0
    } else {
        job_row_count(rows.drop_last(), j) + if rows.last() == (RowView::Job { index: j }) {
            1nat
        } else {
            0nat
        }
    }
}

/// Counting job rows adds up over concatenation.
pub proof fn lemma_job_row_count_add(a: Seq<RowView>, b: Seq<RowView>, j: usize)
    ensures
        job_row_count(a + b, j) == job_row_count(a, j) + job_row_count(b, j),
    decreases b.len(),
{
    if b.len() == 0 {
        assert(a + b =~= a);
    } else {
        assert((a + b).drop_last() =~= a + b.drop_last());
        lemma_job_row_count_add(a, b.drop_last(), j);
    }
}

/// In the rows of an ascending index list, each index shows once.
pub proof fn lemma_job_row_count_members(m: Seq<usize>, j: usize)
    requires
        forall|a: int, b: int| 0 <= a < b < m.len() ==> #[trigger] m[a] < #[trigger] m[b],
    ensures
        job_row_count(job_rows(m), j) == if m.contains(j) {
            1nat
        } else {
            0nat
        },
    decreases m.len(),
{
    if m.len() > 0 {
        let init = m.drop_last();
        assert(job_rows(m).drop_last() =~= job_rows(init));
        lemma_job_row_count_members(init, j);
        if init.contains(j) {
            let t = choose|t: int| 0 <= t < init.len() && init[t] == j;
            assert(m[t] < m[m.len() - 1]);
        }
        if m.contains(j) && m.last() != j {
            let t = choose|t: int| 0 <= t < m.len() && m[t] == j;
            assert(init[t] == j);
        }
    }
}

/// Job `i` opens one job row showing `j` when `i` is the first member of
/// `j`'s group and every group is expanded, and none otherwise.
proof fn lemma_rows_for_job_count(keys: Seq<Seq<char>>, expanded: Set<Seq<char>>, i: int, j: int)
    requires
        keys.len() <= usize::MAX,
        0 <= i < keys.len(),
        0 <= j < keys.len(),
        forall|t: int| 0 <= t < keys.len() ==> expanded.contains(#[trigger] keys[t]),
    ensures
        job_row_count(rows_for_job(keys, expanded, i), j as usize) == if key_members(keys, keys[j])[0] == i {
            1nat
        } else {
            0nat
        },
{
    let mi = key_members(keys, keys[i]);
    let mj = key_members(keys, keys[j]);
    lemma_members_facts(keys, keys[i], keys.len());
    lemma_members_facts(keys, keys[j], keys.len());
    lemma_first_member(keys, j);
    lemma_first_member(keys, i);
    assert(mi.contains(i as usize));
    assert(mj.contains(j as usize));
    assert(keys[mj[0] as int] == keys[j]);
    let add = rows_for_job(keys, expanded, i);
    if mi.len() <= 1 {
        assert(add == seq![RowView::Job { index: i as usize }]);
        assert(add.drop_last() =~= Seq::<RowView>::empty());
        assert(job_row_count(Seq::<RowView>::empty(), j as usize) == 0);
        assert(job_row_count(add, j as usize) == job_row_count(add.drop_last(), j as usize) + if add.last() == (RowView::Job { index: j as usize }) { 1nat } else { 0nat });
        let u = choose|u: int| 0 <= u < mi.len() && mi[u] == i as usize;
        assert(u == 0);
        assert(mi[0] == i);
        if mj[0] == i && i != j {
            assert(keys[i] == keys[j]);
            assert(mi == mj);
            assert(mi.contains(j as usize));
            let t = choose|t: int| 0 <= t < mi.len() && mi[t] == j as usize;
            assert(t == 0);
            assert(false);
        }
        if i == j {
            assert(mi == mj);
            assert(job_row_count(add, j as usize) == 1);
        } else {
            assert(i as usize != j as usize);
            assert(add.last() != (RowView::Job { index: j as usize }));
            assert(job_row_count(add, j as usize) == 0);
        }
    } else if mi[0] == i {
        let head = seq![RowView::Header { key: keys[i], rep: i as usize }];
        assert(add == head + job_rows(mi));
        lemma_job_row_count_add(head, job_rows(mi), j as usize);
        assert(head.drop_last() =~= Seq::<RowView>::empty());
        lemma_job_row_count_members(mi, j as usize);
        assert(job_row_count(Seq::<RowView>::empty(), j as usize) == 0);
        assert(head.last() != (RowView::Job { index: j as usize }));
        assert(job_row_count(head, j as usize) == 0);
        if mi.contains(j as usize) {
            assert(keys[j] == keys[i]);
            assert(mi == mj);
        } else if mj[0] == i {
            assert(keys[i] == keys[j]);
            assert(mi == mj);
            assert(false);
        }
    } else {
        assert(add == Seq::<RowView>::empty());
        if mj[0] == i {
            assert(keys[i] == keys[j]);
            assert(mi == mj);
            assert(false);
        }
    }
}

/// With every group expanded, the displayed rows show every job exactly once
/// as a job row, and no job row shows an index outside the snapshot.
pub proof fn lemma_fully_expanded_partition(keys: Seq<Seq<char>>, expanded: Set<Seq<char>>)
    requires
        keys.len() <= usize::MAX,
        forall|t: int| 0 <= t < keys.len() ==> expanded.contains(#[trigger] keys[t]),
    ensures
        forall|j: int| 0 <= j < keys.len() ==> #[trigger] job_row_count(visible_rows_of(keys, expanded), j as usize) == 1,
        forall|p: int|
            0 <= p < visible_rows_of(keys, expanded).len() ==> row_ok(keys, #[trigger] visible_rows_of(keys, expanded)[p]),
{
    lemma_rows_ok(keys, expanded, keys.len());
    assert forall|j: int| 0 <= j < keys.len() implies #[trigger] job_row_count(visible_rows_of(keys, expanded), j as usize) == 1 by {
        lemma_first_member(keys, j);
        lemma_count_upto(keys, expanded, j, keys.len());
    }
}

/// The job rows showing `j` among the rows opened by the jobs below `n`: one
/// once the first member of `j`'s group is below `n`.
proof fn lemma_count_upto(keys: Seq<Seq<char>>, expanded: Set<Seq<char>>, j: int, n: nat)
    requires
        keys.len() <= usize::MAX,
        0 <= j < keys.len(),
        n <= keys.len(),
        forall|t: int| 0 <= t < keys.len() ==> expanded.contains(#[trigger] keys[t]),
    ensures
        job_row_count(rows_upto(keys, expanded, n), j as usize) == if key_members(keys, keys[j])[0] < n {
            1nat
        } else {
            0nat
        },
    decreases n,
{
    lemma_first_member(keys, j);
    if n > 0 {
        lemma_count_upto(keys, expanded, j, (n - 1) as nat);
        lemma_job_row_count_add(rows_upto(keys, expanded, (n - 1) as nat), rows_for_job(keys, expanded, n - 1), j as usize);
        lemma_rows_for_job_count(keys, expanded, n - 1, j);
    }
}

} // verus!

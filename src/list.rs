use vstd::prelude::*;

use crate::cells::{group_summary, group_summary_text, job_cell, job_cell_text, state_tone, tone_spec, Tone};
use crate::group_key::{compute_group_key, group_key_of};
use crate::groups::{job_keys, key_members, lemma_group_keys_exact, lemma_members_facts, GroupIndex};
use crate::job::{Job, JobColumn, SortColumn, SortOrder};
use crate::rows::{
    build_rows, find_header, find_key, first_header_at, key_set, lemma_rows_nonempty, lemma_rows_ok, row_ok, rows_view,
    visible_rows_of, RowView, VisibleRow,
};
use crate::selection::{
    below, not_in, add_all, contains_all, contains_index, keep_below, toggle_group_set, toggle_job_set,
    without_all,
};

verus! {

/// The cursor after the rows were rebuilt with `n` rows: kept when still in
/// range, else the first row when there is one.
pub open spec fn revalidated_cursor(c: Option<usize>, n: nat) -> Option<usize> {
    match c {
        Some(i) => if i < n {
            Some(i)
        } else if n > 0 {
            Some(0)
        } else {
            None
        },
        None => if n > 0 {
            Some(0)
        } else {
            None
        },
    }
}

/// The cursor target of moving down one row among `n`, wrapping to the first.
pub open spec fn next_target(c: Option<usize>, n: nat) -> usize {
    match c {
        Some(i) => if i + 1 >= n {
            0
        } else {
            (i + 1) as usize
        },
        None => 0,
    }
}

/// The cursor target of moving up one row among `n`, wrapping to the last;
/// a cursor past the last row also goes to the last.
pub open spec fn previous_target(c: Option<usize>, n: nat) -> usize {
    match c {
        Some(i) => if i == 0 || i >= n {
            (n - 1) as usize
        } else {
            (i - 1) as usize
        },
        None => 0,
    }
}

/// Moving down from the last row wraps to the first, moving up from the
/// first wraps to the last, and with a single row both stay where they are.
pub proof fn lemma_navigation_wraps(n: nat)
    requires
        0 < n <= usize::MAX,
    ensures
        next_target(Some((n - 1) as usize), n) == 0,
        previous_target(Some(0), n) == n - 1,
        n == 1 ==> next_target(Some(0), n) == 0 && previous_target(Some(0), n) == 0,
        n == 1 ==> next_target(None, n) == 0 && previous_target(None, n) == 0,
{
}

/// The indices `0..n`, ascending.
pub open spec fn all_indices(n: nat) -> Seq<usize> {
    Seq::new(n, |i: int| i as usize)
}

/// The first position of a column of kind `c` in `cols`, or 0 when there is none.
pub open spec fn column_position(cols: Seq<JobColumn>, c: JobColumn) -> usize {
    if exists|i: int| 0 <= i < cols.len() && cols[i] == c {
        (choose|i: int| 0 <= i < cols.len() && cols[i] == c && forall|h: int| 0 <= h < i ==> cols[h] != c) as usize
    } else {
        0
    }
}

/// The expanded keys after flipping `k`.
pub open spec fn flip_key(exp: Set<Seq<char>>, k: Seq<char>) -> Set<Seq<char>> {
    if exp.contains(k) {
        exp.remove(k)
    } else {
        exp.insert(k)
    }
}

/// The job a row shows: a header shows its representative.
pub open spec fn row_job(r: RowView) -> usize {
    match r {
        RowView::Header { rep, .. } => rep,
        RowView::Job { index } => index,
    }
}

/// The state of the jobs view: the snapshot, its groups and displayed rows,
/// the selection, the expanded groups, the cursor and the sort indicator.
pub struct JobsList {
    /// Position of the cursor among the displayed rows.
    pub cursor: Option<usize>,
    pub jobs: Vec<Job>,
    /// Indices into `jobs` of the selected jobs, each at most once.
    pub selected_jobs: Vec<usize>,
    pub sort_column: usize,
    pub sort_ascending: bool,
    /// The groups of `jobs`; kept in step with it.
    pub groups: GroupIndex,
    /// Keys of the expanded groups, each at most once.
    pub expanded_groups: Vec<String>,
    /// The displayed rows; kept in step with the fields above.
    pub visible_rows: Vec<VisibleRow>,
}

impl JobsList {
    /// The displayed rows.
    pub open spec fn rows(&self) -> Seq<RowView> {
        rows_view(self.visible_rows@)
    }

    /// The keys of the expanded groups.
    pub open spec fn expanded(&self) -> Set<Seq<char>> {
        key_set(self.expanded_groups@)
    }

    /// The group index matches the snapshot and the expanded keys are held once each.
    pub open spec fn index_ok(&self) -> bool {
        &&& self.groups.wf(job_keys(self.jobs@))
        &&& forall|a: int, b: int|
            0 <= a < b < self.expanded_groups@.len() ==> #[trigger] self.expanded_groups@[a]@
                != #[trigger] self.expanded_groups@[b]@
    }

    /// The group key of every job.
    pub open spec fn keys(&self) -> Seq<Seq<char>> {
        job_keys(self.jobs@)
    }

    /// The selected job indices as a set.
    pub open spec fn selection(&self) -> Set<usize> {
        self.selected_jobs@.to_set()
    }

    /// The state is consistent: rows projected from the snapshot and a
    /// selection of distinct valid indices. The cursor may be stale: every
    /// operation treats a cursor past the last row as on no row.
    pub open spec fn wf(&self) -> bool {
        &&& self.index_ok()
        &&& self.jobs@.len() <= usize::MAX
        &&& self.rows() == visible_rows_of(self.keys(), self.expanded())
        &&& self.selected_jobs@.no_duplicates()
        &&& forall|t: int| 0 <= t < self.selected_jobs@.len() ==> #[trigger] self.selected_jobs@[t] < self.jobs@.len()
    }

    /// The row under the cursor, if the cursor is on one.
    pub open spec fn cursor_row(&self) -> Option<RowView> {
        match self.cursor {
            Some(c) => if c < self.rows().len() {
                Some(self.rows()[c as int])
            } else {
                None
            },
            None => None,
        }
    }

    /// The selection after toggling the row under the cursor.
    pub open spec fn toggled_selection(&self) -> Set<usize> {
        match self.cursor_row() {
            Some(RowView::Header { key, .. }) => toggle_group_set(
                self.selection(),
                key_members(self.keys(), key).to_set(),
            ),
            Some(RowView::Job { index }) => toggle_job_set(self.selection(), index),
            None => self.selection(),
        }
    }

    /// The selected indices, in order, after toggling the row under the
    /// cursor: removals keep the order of the rest, additions come last in
    /// member order.
    pub open spec fn toggled_list(&self) -> Seq<usize> {
        let sel = self.selected_jobs@;
        match self.cursor_row() {
            Some(RowView::Header { key, .. }) => {
                let m = key_members(self.keys(), key);
                if m.to_set().subset_of(sel.to_set()) {
                    sel.filter(not_in(m))
                } else {
                    sel + m.filter(not_in(sel))
                }
            },
            Some(RowView::Job { index }) => if sel.contains(index) {
                sel.filter(not_in(seq![index]))
            } else {
                sel.push(index)
            },
            None => sel,
        }
    }

    /// The group key of the row under the cursor.
    pub open spec fn target_key(&self) -> Option<Seq<char>> {
        match self.cursor_row() {
            Some(RowView::Header { key, .. }) => Some(key),
            Some(RowView::Job { index }) => Some(group_key_of(self.jobs@[index as int].id@)),
            None => None,
        }
    }

    /// Whether a displayed row shows selected work: a header when any member
    /// is selected, a job row when its job is.
    pub open spec fn row_selected(&self, row: int) -> bool {
        &&& 0 <= row < self.rows().len()
        &&& match self.rows()[row] {
            RowView::Header { key, .. } => exists|t: int|
                0 <= t < key_members(self.keys(), key).len() && self.selection().contains(
                    #[trigger] key_members(self.keys(), key)[t],
                ),
            RowView::Job { index } => self.selection().contains(index),
        }
    }

    /// Every row refers to jobs of the snapshot.
    proof fn lemma_wf_rows_ok(&self)
        requires
            self.wf(),
        ensures
            forall|p: int| 0 <= p < self.rows().len() ==> row_ok(self.keys(), #[trigger] self.rows()[p]),
    {
        lemma_rows_ok(self.keys(), self.expanded(), self.jobs@.len());
    }

    /// An empty view: no jobs, no selection, no cursor, sorted on the first column ascending.
    pub fn new() -> (r: JobsList)
        ensures
            r.wf(),
            r.jobs@.len() == 0,
            r.selected_jobs@.len() == 0,
            r.cursor is None,
            r.sort_column == 0,
            r.sort_ascending,
            r.rows().len() == 0,
            r.expanded() == Set::<Seq<char>>::empty(),
            r.groups.groups@.len() == 0,
            r.groups.group_of@.len() == 0,
            r.expanded_groups@.len() == 0,
            r.visible_rows@.len() == 0,
    {
        let jobs: Vec<Job> = Vec::new();
        let groups = GroupIndex { groups: Vec::new(), group_of: Vec::new() };
        let r = JobsList {
            cursor: None,
            jobs,
            selected_jobs: Vec::new(),
            sort_column: 0,
            sort_ascending: true,
            groups,
            expanded_groups: Vec::new(),
            visible_rows: Vec::new(),
        };
        assert(r.expanded() =~= Set::<Seq<char>>::empty());
        assert(r.rows() =~= visible_rows_of(r.keys(), r.expanded()));
        r
    }

    /// The number of displayed rows.
    pub fn row_count(&self) -> (r: usize)
        ensures
            r == self.rows().len(),
    {
        self.visible_rows.len()
    }

    /// Replaces the snapshot; rebuilds groups and rows with the expanded keys
    /// kept, drops selected indices past the new snapshot, and revalidates the cursor.
    pub fn update_jobs(&mut self, jobs: Vec<Job>)
        requires
            old(self).wf(),
        ensures
            final(self).wf(),
            final(self).jobs@ == jobs@,
            final(self).expanded() == old(self).expanded(),
            final(self).rows() == visible_rows_of(job_keys(jobs@), old(self).expanded()),
            final(self).selected_jobs@ == old(self).selected_jobs@.filter(below(jobs@.len() as usize)),
            final(self).selection() == old(self).selection().filter(below(jobs@.len() as usize)),
            final(self).cursor == revalidated_cursor(old(self).cursor, final(self).rows().len()),
            jobs@.len() > 0 ==> final(self).cursor is Some,
            jobs@.len() == 0 ==> final(self).groups.groups@.len() == 0 && final(self).visible_rows@.len() == 0
                && final(self).cursor is None,
            final(self).sort_column == old(self).sort_column,
            final(self).sort_ascending == old(self).sort_ascending,
    {
        self.jobs = jobs;
        self.groups = GroupIndex::build(&self.jobs);
        self.visible_rows = build_rows(&self.groups, &self.expanded_groups, Ghost(job_keys(self.jobs@)));
        self.selected_jobs = keep_below(&self.selected_jobs, self.jobs.len());
        let n = self.visible_rows.len();
        match self.cursor {
            Some(c) => {
                if c >= n {
                    self.cursor = if n > 0 { Some(0) } else { None };
                }
            },
            None => {
                if n > 0 {
                    self.cursor = Some(0);
                }
            },
        }
        proof {
            if self.jobs@.len() > 0 {
                lemma_rows_nonempty(self.keys(), self.expanded());
            }
            lemma_group_keys_exact(self.groups, self.keys());
        }
    }

    /// Every job is selected: as many selected indices as jobs.
    pub open spec fn all_selected_spec(&self) -> bool {
        self.selected_jobs@.len() == self.jobs@.len()
    }

    /// Whether every job is selected: as many selected indices as jobs.
    pub fn all_selected(&self) -> (r: bool)
        ensures
            r == self.all_selected_spec(),
    {
        self.selected_jobs.len() == self.jobs.len()
    }

    /// Selects every job.
    pub fn select_all(&mut self)
        requires
            old(self).wf(),
        ensures
            final(self).wf(),
            final(self).selected_jobs@ == all_indices(old(self).jobs@.len()),
            final(self).all_selected_spec(),
            final(self).jobs == old(self).jobs,
            final(self).cursor == old(self).cursor,
            final(self).rows() == old(self).rows(),
            final(self).expanded() == old(self).expanded(),
            final(self).sort_column == old(self).sort_column,
            final(self).sort_ascending == old(self).sort_ascending,
            final(self).groups == old(self).groups,
            final(self).expanded_groups == old(self).expanded_groups,
            final(self).visible_rows == old(self).visible_rows,
    {
        let n = self.jobs.len();
        let mut v: Vec<usize> = Vec::new();
        let mut i: usize = 0;
        while i < n
            invariant
                i <= n,
                v@ == all_indices(i as nat),
            decreases n - i,
        {
            v.push(i);
            i = i + 1;
            assert(v@ =~= all_indices(i as nat));
        }
        self.selected_jobs = v;
    }

    /// Clears the selection.
    pub fn clear_selection(&mut self)
        requires
            old(self).wf(),
        ensures
            final(self).wf(),
            final(self).selected_jobs@.len() == 0,
            final(self).jobs@.len() > 0 ==> !final(self).all_selected_spec(),
            final(self).jobs == old(self).jobs,
            final(self).cursor == old(self).cursor,
            final(self).rows() == old(self).rows(),
            final(self).expanded() == old(self).expanded(),
            final(self).sort_column == old(self).sort_column,
            final(self).sort_ascending == old(self).sort_ascending,
            final(self).groups == old(self).groups,
            final(self).expanded_groups == old(self).expanded_groups,
            final(self).visible_rows == old(self).visible_rows,
    {
        self.selected_jobs.clear();
    }

    /// Moves the cursor one row down, wrapping to the first row; returns
    /// whether the cursor moved.
    pub fn next(&mut self) -> (changed: bool)
        requires
            old(self).wf(),
        ensures
            final(self).wf(),
            old(self).rows().len() == 0 ==> final(self).cursor == old(self).cursor && !changed,
            old(self).rows().len() > 0 ==> {
                let t = next_target(old(self).cursor, old(self).rows().len());
                &&& final(self).cursor == Some(t)
                &&& changed == (old(self).cursor != Some(t))
            },
            final(self).jobs == old(self).jobs,
            final(self).selected_jobs == old(self).selected_jobs,
            final(self).rows() == old(self).rows(),
            final(self).expanded() == old(self).expanded(),
            final(self).sort_column == old(self).sort_column,
            final(self).sort_ascending == old(self).sort_ascending,
            final(self).groups == old(self).groups,
            final(self).expanded_groups == old(self).expanded_groups,
            final(self).visible_rows == old(self).visible_rows,
    {
        let n = self.visible_rows.len();
        if n == 0 {
            return false;
        }
        let old_cursor = self.cursor;
        let i = match old_cursor {
            Some(i) => if i >= n - 1 {
                0
            } else {
                i + 1
            },
            None => 0,
        };
        self.cursor = Some(i);
        old_cursor != Some(i)
    }

    /// Moves the cursor one row up, wrapping to the last row; returns whether
    /// the cursor moved.
    pub fn previous(&mut self) -> (changed: bool)
        requires
            old(self).wf(),
        ensures
            final(self).wf(),
            old(self).rows().len() == 0 ==> final(self).cursor == old(self).cursor && !changed,
            old(self).rows().len() > 0 ==> {
                let t = previous_target(old(self).cursor, old(self).rows().len());
                &&& final(self).cursor == Some(t)
                &&& changed == (old(self).cursor != Some(t))
            },
            final(self).jobs == old(self).jobs,
            final(self).selected_jobs == old(self).selected_jobs,
            final(self).rows() == old(self).rows(),
            final(self).expanded() == old(self).expanded(),
            final(self).sort_column == old(self).sort_column,
            final(self).sort_ascending == old(self).sort_ascending,
            final(self).groups == old(self).groups,
            final(self).expanded_groups == old(self).expanded_groups,
            final(self).visible_rows == old(self).visible_rows,
    {
        let n = self.visible_rows.len();
        if n == 0 {
            return false;
        }
        let old_cursor = self.cursor;
        let i = match old_cursor {
            Some(i) => if i == 0 || i >= n {
                n - 1
            } else {
                i - 1
            },
            None => 0,
        };
        self.cursor = Some(i);
        old_cursor != Some(i)
    }

    /// Toggles the selection of the row under the cursor: a job row flips
    /// its job; a group header deselects every member when all are selected,
    /// else selects every member.
    pub fn toggle_select(&mut self)
        requires
            old(self).wf(),
        ensures
            final(self).wf(),
            final(self).selected_jobs@ == old(self).toggled_list(),
            final(self).selection() == old(self).toggled_selection(),
            final(self).jobs == old(self).jobs,
            final(self).cursor == old(self).cursor,
            final(self).rows() == old(self).rows(),
            final(self).expanded() == old(self).expanded(),
            final(self).sort_column == old(self).sort_column,
            final(self).sort_ascending == old(self).sort_ascending,
            final(self).groups == old(self).groups,
            final(self).expanded_groups == old(self).expanded_groups,
            final(self).visible_rows == old(self).visible_rows,
    {
        let c = match self.cursor {
            Some(c) => c,
            None => return ,
        };
        if c >= self.visible_rows.len() {
            return ;
        }
        proof {
            self.lemma_wf_rows_ok();
        }
        let ghost row = self.rows()[c as int];
        let ghost n = self.jobs@.len();
        let ghost sel = self.selected_jobs@;
        assert(row_ok(self.keys(), row));
        match &self.visible_rows[c] {
            VisibleRow::Group { rep_job_index, .. } => {
                let rep = *rep_job_index;
                let g = self.groups.group_of[rep];
                let ghost m = self.groups.groups@[g as int].members@;
                proof {
                    lemma_members_facts(self.keys(), self.keys()[rep as int], n);
                }
                assert(m == key_members(self.keys(), self.keys()[rep as int]));
                if contains_all(&self.selected_jobs, &self.groups.groups[g].members) {
                    self.selected_jobs = without_all(&self.selected_jobs, &self.groups.groups[g].members);
                    assert forall|t: int| 0 <= t < self.selected_jobs@.len() implies #[trigger] self.selected_jobs@[t] < n by {
                        assert(self.selected_jobs@.to_set().contains(self.selected_jobs@[t]));
                        assert(sel.contains(self.selected_jobs@[t]));
                    }
                } else {
                    add_all(&mut self.selected_jobs, &self.groups.groups[g].members);
                    assert forall|t: int| 0 <= t < self.selected_jobs@.len() implies #[trigger] self.selected_jobs@[t] < n by {
                        let x = self.selected_jobs@[t];
                        assert(self.selected_jobs@.to_set().contains(x));
                        if m.contains(x) {
                            let u = choose|u: int| 0 <= u < m.len() && m[u] == x;
                        } else {
                            assert(sel.contains(x));
                        }
                    }
                }
            },
            VisibleRow::Job { job_index } => {
                let j = *job_index;
                if contains_index(&self.selected_jobs, j) {
                    let mut one: Vec<usize> = Vec::new();
                    one.push(j);
                    assert(one@[0] == j);
                    assert(one@ =~= seq![j]);
                    assert(one@.to_set() =~= set![j]);
                    self.selected_jobs = without_all(&self.selected_jobs, &one);
                    assert(self.selected_jobs@.to_set() =~= sel.to_set().remove(j));
                    assert forall|t: int| 0 <= t < self.selected_jobs@.len() implies #[trigger] self.selected_jobs@[t] < n by {
                        assert(self.selected_jobs@.to_set().contains(self.selected_jobs@[t]));
                        assert(sel.contains(self.selected_jobs@[t]));
                    }
                } else {
                    self.selected_jobs.push(j);
                    proof {
                        sel.lemma_push_to_set_commute(j);
                    }
                    assert(self.selected_jobs@.no_duplicates()) by {
                        assert forall|a: int, b: int| 0 <= a < b < self.selected_jobs@.len() implies self.selected_jobs@[a] != self.selected_jobs@[b] by {
                            if b == sel.len() {
                                assert(sel[a] == self.selected_jobs@[a]);
                            }
                        }
                    }
                    assert forall|t: int| 0 <= t < self.selected_jobs@.len() implies #[trigger] self.selected_jobs@[t] < n by {
                        if t < sel.len() {
                            assert(self.selected_jobs@[t] == sel[t]);
                        }
                    }
                }
            },
        }
    }

    /// Records the first active sort as the indicator: the position among
    /// `columns` of its column kind (0 when absent) and its direction.
    pub fn update_sort(&mut self, columns: &[JobColumn], sort_columns: &[SortColumn])
        requires
            old(self).wf(),
        ensures
            final(self).wf(),
            sort_columns@.len() == 0 ==> final(self).sort_column == old(self).sort_column
                && final(self).sort_ascending == old(self).sort_ascending,
            sort_columns@.len() > 0 ==> final(self).sort_column == column_position(
                columns@,
                sort_columns@[0].column,
            ) && final(self).sort_ascending == (sort_columns@[0].order == SortOrder::Ascending),
            final(self).jobs == old(self).jobs,
            final(self).selected_jobs == old(self).selected_jobs,
            final(self).cursor == old(self).cursor,
            final(self).rows() == old(self).rows(),
            final(self).expanded() == old(self).expanded(),
            final(self).groups == old(self).groups,
            final(self).expanded_groups == old(self).expanded_groups,
            final(self).visible_rows == old(self).visible_rows,
    {
        if sort_columns.len() == 0 {
            return ;
        }
        let first = sort_columns[0];
        let mut i: usize = 0;
        while i < columns.len() && columns[i] != first.column
            invariant
                i <= columns@.len(),
                forall|h: int| 0 <= h < i ==> columns@[h] != first.column,
            decreases columns@.len() - i,
        {
            i = i + 1;
        }
        if i < columns.len() {
            proof {
                let q = choose|q: int|
                    0 <= q < columns@.len() && columns@[q] == first.column && forall|h: int|
                        0 <= h < q ==> columns@[h] != first.column;
                assert(0 <= i < columns@.len() && columns@[i as int] == first.column);
                if q < i {
                    assert(columns@[q] != first.column);
                } else if q > i {
                    assert(columns@[i as int] != first.column);
                }
            }
            self.sort_column = i;
        } else {
            self.sort_column = 0;
        }
        self.sort_ascending = match first.order {
            SortOrder::Ascending => true,
            SortOrder::Descending => false,
        };
    }

    /// The job under the cursor: for a group header, the group's first member.
    pub fn selected_job(&self) -> (r: Option<&Job>)
        requires
            self.wf(),
        ensures
            r == match self.cursor_row() {
                Some(row) => Some(&self.jobs@[row_job(row) as int]),
                None => None,
            },
    {
        let c = match self.cursor {
            Some(c) => c,
            None => return None,
        };
        if c >= self.visible_rows.len() {
            return None;
        }
        proof {
            self.lemma_wf_rows_ok();
        }
        assert(row_ok(self.keys(), self.rows()[c as int]));
        match &self.visible_rows[c] {
            VisibleRow::Group { rep_job_index, .. } => Some(&self.jobs[*rep_job_index]),
            VisibleRow::Job { job_index } => Some(&self.jobs[*job_index]),
        }
    }

    /// The identifiers of the selected jobs.
    pub fn get_selected_jobs(&self) -> (r: Vec<String>)
        requires
            self.wf(),
        ensures
            r@.len() == self.selected_jobs@.len(),
            forall|t: int|
                0 <= t < r@.len() ==> #[trigger] r@[t]@ == self.jobs@[self.selected_jobs@[t] as int].id@,
    {
        let mut r: Vec<String> = Vec::new();
        let mut t: usize = 0;
        while t < self.selected_jobs.len()
            invariant
                self.wf(),
                t <= self.selected_jobs@.len(),
                r@.len() == t,
                forall|u: int|
                    0 <= u < t ==> #[trigger] r@[u]@ == self.jobs@[self.selected_jobs@[u] as int].id@,
            decreases self.selected_jobs@.len() - t,
        {
            let i = self.selected_jobs[t];
            if i < self.jobs.len() {
                r.push(self.jobs[i].id.clone());
            }
            t = t + 1;
        }
        r
    }

    /// Whether the displayed row `row` shows selected work; false past the last row.
    #[verifier::loop_isolation(false)]
    pub fn is_row_selected(&self, row: usize) -> (r: bool)
        requires
            self.wf(),
        ensures
            r == self.row_selected(row as int),
    {
        if row >= self.visible_rows.len() {
            return false;
        }
        proof {
            self.lemma_wf_rows_ok();
        }
        assert(row_ok(self.keys(), self.rows()[row as int]));
        match &self.visible_rows[row] {
            VisibleRow::Group { rep_job_index, .. } => {
                let rep = *rep_job_index;
                let g = self.groups.group_of[rep];
                let members = &self.groups.groups[g].members;
                let ghost key = self.keys()[rep as int];
                assert(members@ == key_members(self.keys(), key));
                assert(self.rows()[row as int] == RowView::Header { key, rep });
                let mut t: usize = 0;
                while t < members.len()
                    invariant
                        t <= members@.len(),
                        members@ == key_members(self.keys(), key),
                        forall|u: int| 0 <= u < t ==> !self.selection().contains(#[trigger] members@[u]),
                    decreases members@.len() - t,
                {
                    if contains_index(&self.selected_jobs, members[t]) {
                        assert(self.selection().contains(key_members(self.keys(), key)[t as int]));
                        return true;
                    }
                    t = t + 1;
                }
                false
            },
            VisibleRow::Job { job_index } => contains_index(&self.selected_jobs, *job_index),
        }
    }

    /// Expands or collapses the group of the row under the cursor, rebuilds
    /// the rows, and puts the cursor on that group's header when one is shown.
    #[verifier::loop_isolation(false)]
    pub fn toggle_group_expand(&mut self)
        requires
            old(self).wf(),
        ensures
            final(self).wf(),
            final(self).expanded() == match old(self).target_key() {
                Some(k) => flip_key(old(self).expanded(), k),
                None => old(self).expanded(),
            },
            final(self).rows() == visible_rows_of(old(self).keys(), final(self).expanded()),
            match old(self).target_key() {
                Some(k) => if exists|p: int| first_header_at(final(self).rows(), k, p) {
                    final(self).cursor is Some && first_header_at(
                        final(self).rows(),
                        k,
                        final(self).cursor->0 as int,
                    )
                } else {
                    final(self).cursor == revalidated_cursor(old(self).cursor, final(self).rows().len())
                },
                None => final(self).cursor == old(self).cursor,
            },
            final(self).jobs == old(self).jobs,
            final(self).selected_jobs == old(self).selected_jobs,
            final(self).sort_column == old(self).sort_column,
            final(self).sort_ascending == old(self).sort_ascending,
            final(self).groups == old(self).groups,
    {
        let c = match self.cursor {
            Some(c) => c,
            None => return ,
        };
        if c >= self.visible_rows.len() {
            return ;
        }
        proof {
            self.lemma_wf_rows_ok();
        }
        assert(row_ok(self.keys(), self.rows()[c as int]));
        let key = match &self.visible_rows[c] {
            VisibleRow::Group { key, .. } => key.clone(),
            VisibleRow::Job { job_index } => compute_group_key(self.jobs[*job_index].id.as_str()),
        };
        let ghost old_exp = self.expanded_groups@;
        assert(self.target_key() == Some(key@));
        match find_key(&self.expanded_groups, &key) {
            Some(i) => {
                self.expanded_groups.remove(i);
                assert forall|a: int, b: int| 0 <= a < b < self.expanded_groups@.len() implies #[trigger] self.expanded_groups@[a]@
                    != #[trigger] self.expanded_groups@[b]@ by {
                    let a2 = if a < i { a } else { a + 1 };
                    let b2 = if b < i { b } else { b + 1 };
                    assert(self.expanded_groups@[a] == old_exp[a2]);
                    assert(self.expanded_groups@[b] == old_exp[b2]);
                }
                assert(key_set(self.expanded_groups@) =~= key_set(old_exp).remove(key@)) by {
                    assert forall|x: Seq<char>| key_set(self.expanded_groups@).contains(x) implies key_set(old_exp).remove(key@).contains(x) by {
                        let t = choose|t: int| 0 <= t < self.expanded_groups@.len() && self.expanded_groups@[t]@ == x;
                        if t < i {
                            assert(old_exp[t]@ == x);
                            assert(old_exp[t]@ != old_exp[i as int]@);
                        } else {
                            assert(old_exp[t + 1]@ == x);
                            assert(old_exp[t + 1]@ != old_exp[i as int]@);
                        }
                    }
                    assert forall|x: Seq<char>| key_set(old_exp).remove(key@).contains(x) implies key_set(self.expanded_groups@).contains(x) by {
                        let t = choose|t: int| 0 <= t < old_exp.len() && old_exp[t]@ == x;
                        if t < i {
                            assert(self.expanded_groups@[t]@ == x);
                        } else {
                            assert(t != i);
                            assert(self.expanded_groups@[t - 1]@ == x);
                        }
                    }
                }
            },
            None => {
                self.expanded_groups.push(key.clone());
                assert(key_set(self.expanded_groups@) =~= key_set(old_exp).insert(key@)) by {
                    assert(self.expanded_groups@[old_exp.len() as int]@ == key@);
                    assert forall|x: Seq<char>| key_set(old_exp).contains(x) implies key_set(self.expanded_groups@).contains(x) by {
                        let t = choose|t: int| 0 <= t < old_exp.len() && old_exp[t]@ == x;
                        assert(self.expanded_groups@[t]@ == x);
                    }
                    assert forall|x: Seq<char>| key_set(self.expanded_groups@).contains(x) implies key_set(old_exp).insert(key@).contains(x) by {
                        let t = choose|t: int| 0 <= t < self.expanded_groups@.len() && self.expanded_groups@[t]@ == x;
                        if t < old_exp.len() {
                            assert(old_exp[t]@ == x);
                        }
                    }
                }
                assert forall|a: int, b: int| 0 <= a < b < self.expanded_groups@.len() implies #[trigger] self.expanded_groups@[a]@
                    != #[trigger] self.expanded_groups@[b]@ by {
                    if b == old_exp.len() {
                        assert(old_exp[a]@ != key@);
                    } else {
                        assert(old_exp[a] == self.expanded_groups@[a] && old_exp[b] == self.expanded_groups@[b]);
                    }
                }
            },
        }
        assert(self.expanded() == flip_key(key_set(old_exp), key@));
        self.visible_rows = build_rows(&self.groups, &self.expanded_groups, Ghost(job_keys(self.jobs@)));
        let n = self.visible_rows.len();
        match find_header(&self.visible_rows, &key) {
            Some(p) => {
                self.cursor = Some(p);
                assert(first_header_at(self.rows(), key@, p as int));
                assert(exists|q: int| first_header_at(self.rows(), key@, q));
                assert(first_header_at(self.rows(), key@, self.cursor->0 as int));
                assert(old(self).target_key() == Some(key@));
                return ;
            },
            None => {},
        }
        if c >= n {
            self.cursor = if n > 0 { Some(0) } else { None };
        }
    }

    /// The text that displayed row `row` shows in column `col`.
    pub open spec fn cell_spec(&self, row: int, col: JobColumn) -> Seq<char> {
        match self.rows()[row] {
            RowView::Header { key, rep } => if col == JobColumn::Id {
                group_summary(key, self.expanded().contains(key), key_members(self.keys(), key).len())
            } else {
                job_cell(self.jobs@[rep as int], col)
            },
            RowView::Job { index } => job_cell(self.jobs@[index as int], col),
        }
    }

    /// The text of displayed row `row` in column `col`; `None` past the last row.
    pub fn cell_text(&self, row: usize, col: JobColumn) -> (r: Option<String>)
        requires
            self.wf(),
        ensures
            row < self.rows().len() <==> r is Some,
            r matches Some(t) ==> t@ == self.cell_spec(row as int, col),
    {
        if row >= self.visible_rows.len() {
            return None;
        }
        proof {
            self.lemma_wf_rows_ok();
        }
        assert(row_ok(self.keys(), self.rows()[row as int]));
        match &self.visible_rows[row] {
            VisibleRow::Group { key, rep_job_index } => {
                if col == JobColumn::Id {
                    let g = self.groups.group_of[*rep_job_index];
                    let count = self.groups.groups[g].members.len();
                    let expanded = find_key(&self.expanded_groups, key).is_some();
                    Some(group_summary_text(key, expanded, count))
                } else {
                    Some(job_cell_text(&self.jobs[*rep_job_index], col))
                }
            },
            VisibleRow::Job { job_index } => Some(job_cell_text(&self.jobs[*job_index], col)),
        }
    }

    /// The colour of displayed row `row`, from the state of the job it shows;
    /// `None` past the last row.
    pub fn row_tone(&self, row: usize) -> (r: Option<Tone>)
        requires
            self.wf(),
        ensures
            row < self.rows().len() <==> r is Some,
            r matches Some(t) ==> t == tone_spec(self.jobs@[row_job(self.rows()[row as int]) as int].state),
    {
        if row >= self.visible_rows.len() {
            return None;
        }
        proof {
            self.lemma_wf_rows_ok();
        }
        assert(row_ok(self.keys(), self.rows()[row as int]));
        let j = match &self.visible_rows[row] {
            VisibleRow::Group { rep_job_index, .. } => *rep_job_index,
            VisibleRow::Job { job_index } => *job_index,
        };
        Some(state_tone(self.jobs[j].state))
    }

    /// The arrow on the header of the displayed column at `pos`: the recorded
    /// direction on the recorded sort column while a sort is active, none elsewhere.
    pub fn sort_indicator(&self, pos: usize, sort_columns: &[SortColumn]) -> (r: Option<SortOrder>)
        ensures
            r == if sort_columns@.len() > 0 && pos == self.sort_column {
                Some(if self.sort_ascending { SortOrder::Ascending } else { SortOrder::Descending })
            } else {
                None::<SortOrder>
            },
    {
        if sort_columns.len() > 0 && pos == self.sort_column {
            Some(if self.sort_ascending { SortOrder::Ascending } else { SortOrder::Descending })
        } else {
            None
        }
    }
}

} // verus!

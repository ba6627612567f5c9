use jobslist::cells::{decimal_string, state_label, truncate_name, Tone};
use jobslist::group_key::compute_group_key;
use jobslist::job::{Job, JobColumn, JobState, SortColumn, SortOrder};
use jobslist::list::JobsList;
use jobslist::rows::VisibleRow;

fn job(id: &str) -> Job {
    Job {
        id: id.to_string(),
        name: format!("job-{}", id),
        user: "alice".to_string(),
        state: JobState::Running,
        partition: "batch".to_string(),
        qos: "normal".to_string(),
        nodes: 1,
        node: None,
        cpus: 4,
        time: "0:10".to_string(),
        memory: "4G".to_string(),
        account: None,
        priority: None,
        work_dir: None,
        submit_time: None,
        start_time: None,
        end_time: None,
        pending_reason: None,
    }
}

fn snapshot(ids: &[&str]) -> Vec<Job> {
    ids.iter().map(|id| job(id)).collect()
}

fn list_of(ids: &[&str]) -> JobsList {
    let mut list = JobsList::new();
    list.update_jobs(snapshot(ids));
    list
}

#[derive(Debug, PartialEq)]
enum R {
    H(String, usize),
    J(usize),
}

fn rows(list: &JobsList) -> Vec<R> {
    list.visible_rows
        .iter()
        .map(|r| match r {
            VisibleRow::Group { key, rep_job_index } => R::H(key.clone(), *rep_job_index),
            VisibleRow::Job { job_index } => R::J(*job_index),
        })
        .collect()
}

fn sorted_selection(list: &JobsList) -> Vec<usize> {
    let mut v = list.selected_jobs.clone();
    v.sort();
    v
}

#[test]
fn group_key_first_separator_rule() {
    assert_eq!(compute_group_key("12345_7"), "12345");
    assert_eq!(compute_group_key("12345"), "12345");
    assert_eq!(compute_group_key("12345_abc"), "12345_abc");
    assert_eq!(compute_group_key("12345_7_8"), "12345_7_8");
}

#[test]
fn group_key_edge_cases() {
    assert_eq!(compute_group_key(""), "");
    assert_eq!(compute_group_key("12345_"), "12345_");
    assert_eq!(compute_group_key("_7"), "");
    assert_eq!(compute_group_key("9_01"), "9");
    assert_eq!(compute_group_key("é_12"), "é");
}

#[test]
fn scenario_collapsed_and_expanded_rows() {
    let mut list = list_of(&["100", "200_1", "200_2", "300"]);
    let multi: Vec<(String, Vec<usize>)> = list
        .groups
        .groups
        .iter()
        .filter(|g| g.members.len() > 1)
        .map(|g| (g.key.clone(), g.members.clone()))
        .collect();
    assert_eq!(multi, vec![("200".to_string(), vec![1, 2])]);
    assert_eq!(rows(&list), vec![R::J(0), R::H("200".to_string(), 1), R::J(3)]);
    assert_eq!(list.cursor, Some(0));
    assert!(list.next());
    assert_eq!(list.cursor, Some(1));
    list.toggle_group_expand();
    assert_eq!(
        rows(&list),
        vec![R::J(0), R::H("200".to_string(), 1), R::J(1), R::J(2), R::J(3)]
    );
    assert_eq!(list.cursor, Some(1));
}

#[test]
fn collapse_from_member_row_moves_cursor_to_header() {
    let mut list = list_of(&["100", "200_1", "200_2", "300"]);
    list.cursor = Some(1);
    list.toggle_group_expand();
    list.cursor = Some(3);
    list.toggle_group_expand();
    assert_eq!(rows(&list), vec![R::J(0), R::H("200".to_string(), 1), R::J(3)]);
    assert_eq!(list.cursor, Some(1));
}

#[test]
fn expansion_survives_update() {
    let mut list = list_of(&["100", "200_1", "200_2", "300"]);
    list.cursor = Some(1);
    list.toggle_group_expand();
    list.update_jobs(snapshot(&["200_1", "200_2", "200_3"]));
    assert_eq!(
        rows(&list),
        vec![R::H("200".to_string(), 0), R::J(0), R::J(1), R::J(2)]
    );
}

#[test]
fn toggle_on_singleton_row_changes_nothing() {
    let mut list = list_of(&["100", "200_1", "200_2", "300"]);
    list.toggle_group_expand();
    assert_eq!(rows(&list), vec![R::J(0), R::H("200".to_string(), 1), R::J(3)]);
    assert_eq!(list.cursor, Some(0));
}

#[test]
fn scenario_toggle_header_selects_and_deselects() {
    let mut list = list_of(&["100", "200_1", "200_2", "300"]);
    list.cursor = Some(1);
    list.toggle_select();
    assert_eq!(sorted_selection(&list), vec![1, 2]);
    list.toggle_select();
    assert_eq!(sorted_selection(&list), Vec::<usize>::new());
}

#[test]
fn toggle_header_with_partial_selection_selects_all() {
    let mut list = list_of(&["100", "200_1", "200_2", "300"]);
    list.cursor = Some(1);
    list.toggle_group_expand();
    list.cursor = Some(3);
    list.toggle_select();
    assert_eq!(sorted_selection(&list), vec![2]);
    list.cursor = Some(1);
    list.toggle_select();
    assert_eq!(sorted_selection(&list), vec![1, 2]);
    list.toggle_select();
    assert_eq!(sorted_selection(&list), Vec::<usize>::new());
}

#[test]
fn toggle_job_row_twice_restores_selection() {
    let mut list = list_of(&["100", "200_1", "200_2", "300"]);
    list.cursor = Some(2);
    list.toggle_select();
    assert_eq!(sorted_selection(&list), vec![3]);
    list.toggle_select();
    assert_eq!(sorted_selection(&list), Vec::<usize>::new());
}

#[test]
fn select_all_then_clear() {
    let mut list = list_of(&["100", "200_1", "200_2", "300"]);
    assert!(!list.all_selected());
    list.select_all();
    assert!(list.all_selected());
    assert_eq!(list.selected_jobs, vec![0, 1, 2, 3]);
    list.clear_selection();
    assert!(!list.all_selected());
    assert!(list.selected_jobs.is_empty());
}

#[test]
fn empty_snapshot_is_all_selected() {
    let list = JobsList::new();
    assert!(list.all_selected());
    assert_eq!(list.cursor, None);
    assert_eq!(list.row_count(), 0);
}

#[test]
fn next_and_previous_wrap() {
    let mut list = list_of(&["100", "200_1", "200_2", "300"]);
    assert_eq!(list.cursor, Some(0));
    assert!(list.previous());
    assert_eq!(list.cursor, Some(2));
    assert!(list.next());
    assert_eq!(list.cursor, Some(0));
    assert!(list.next());
    assert!(list.next());
    assert_eq!(list.cursor, Some(2));
    assert!(list.next());
    assert_eq!(list.cursor, Some(0));
}

#[test]
fn single_row_navigation_is_unchanged() {
    let mut list = list_of(&["100"]);
    assert_eq!(list.cursor, Some(0));
    assert!(!list.next());
    assert!(!list.previous());
    assert_eq!(list.cursor, Some(0));
}

#[test]
fn navigation_on_empty_rows() {
    let mut list = JobsList::new();
    assert!(!list.next());
    assert!(!list.previous());
    assert_eq!(list.cursor, None);
}

#[test]
fn navigation_without_cursor_goes_to_first_row() {
    let mut list = list_of(&["1", "2", "3"]);
    list.cursor = None;
    assert!(list.previous());
    assert_eq!(list.cursor, Some(0));
}

#[test]
fn scenario_update_resets_cursor_past_end() {
    let mut list = list_of(&["1", "2", "3", "4", "5", "6"]);
    list.cursor = Some(5);
    list.update_jobs(snapshot(&["7", "8", "9"]));
    assert_eq!(list.row_count(), 3);
    assert_eq!(list.cursor, Some(0));
}

#[test]
fn update_keeps_cursor_in_range() {
    let mut list = list_of(&["1", "2", "3", "4"]);
    list.cursor = Some(2);
    list.update_jobs(snapshot(&["7", "8", "9"]));
    assert_eq!(list.cursor, Some(2));
}

#[test]
fn update_to_empty_snapshot_clears_cursor() {
    let mut list = list_of(&["1", "2"]);
    list.cursor = Some(1);
    list.update_jobs(Vec::new());
    assert_eq!(list.cursor, None);
    assert_eq!(list.row_count(), 0);
}

#[test]
fn update_drops_selection_past_new_snapshot() {
    let mut list = list_of(&["1", "2", "3", "4"]);
    list.select_all();
    list.update_jobs(snapshot(&["7", "8"]));
    assert_eq!(sorted_selection(&list), vec![0, 1]);
    assert!(list.all_selected());
}

#[test]
fn fully_expanded_rows_cover_every_job_once() {
    let ids = ["1_1", "2", "1_2", "3_1", "3_2", "3_3", "4", "1_3"];
    let mut list = list_of(&ids);
    let mut row = 0;
    while row < list.row_count() {
        if let VisibleRow::Group { key, .. } = list.visible_rows[row].clone() {
            let open = rows(&list).len();
            list.cursor = Some(row);
            list.toggle_group_expand();
            assert!(rows(&list).len() > open, "group {} did not open", key);
        }
        row += 1;
    }
    let mut counts = vec![0; ids.len()];
    for r in rows(&list) {
        if let R::J(i) = r {
            counts[i] += 1;
        }
    }
    assert_eq!(counts, vec![1; ids.len()]);
}

#[test]
fn collapsed_rows_visit_groups_at_first_member() {
    let list = list_of(&["1_1", "2", "1_2", "3_1", "3_2"]);
    assert_eq!(
        rows(&list),
        vec![R::H("1".to_string(), 0), R::J(1), R::H("3".to_string(), 3)]
    );
}

#[test]
fn update_sort_binds_first_spec() {
    let mut list = JobsList::new();
    let columns = [JobColumn::Id, JobColumn::Name, JobColumn::State, JobColumn::Name];
    let specs = [
        SortColumn { column: JobColumn::Name, order: SortOrder::Descending },
        SortColumn { column: JobColumn::Id, order: SortOrder::Ascending },
    ];
    list.update_sort(&columns, &specs);
    assert_eq!(list.sort_column, 1);
    assert!(!list.sort_ascending);
    let specs = [SortColumn { column: JobColumn::User, order: SortOrder::Ascending }];
    list.update_sort(&columns, &specs);
    assert_eq!(list.sort_column, 0);
    assert!(list.sort_ascending);
    list.update_sort(&[JobColumn::State], &[SortColumn { column: JobColumn::State, order: SortOrder::Descending }]);
    assert_eq!(list.sort_column, 0);
    assert!(!list.sort_ascending);
    list.sort_column = 3;
    list.update_sort(&columns, &[]);
    assert_eq!(list.sort_column, 3);
}

#[test]
fn selected_job_follows_cursor() {
    let mut list = list_of(&["100", "200_1", "200_2", "300"]);
    assert_eq!(list.selected_job().map(|j| j.id.clone()), Some("100".to_string()));
    list.cursor = Some(1);
    assert_eq!(list.selected_job().map(|j| j.id.clone()), Some("200_1".to_string()));
    list.cursor = Some(2);
    assert_eq!(list.selected_job().map(|j| j.id.clone()), Some("300".to_string()));
    list.cursor = None;
    assert!(list.selected_job().is_none());
}

#[test]
fn selected_ids_in_selection_order() {
    let mut list = list_of(&["100", "200_1", "200_2", "300"]);
    list.cursor = Some(2);
    list.toggle_select();
    list.cursor = Some(1);
    list.toggle_select();
    assert_eq!(list.get_selected_jobs(), vec!["300", "200_1", "200_2"]);
}

#[test]
fn row_highlight_any_member() {
    let mut list = list_of(&["100", "200_1", "200_2", "300"]);
    list.cursor = Some(1);
    list.toggle_group_expand();
    list.cursor = Some(3);
    list.toggle_select();
    assert!(list.is_row_selected(1));
    assert!(!list.is_row_selected(2));
    assert!(list.is_row_selected(3));
    assert!(!list.is_row_selected(0));
    assert!(!list.is_row_selected(9));
}

#[test]
fn header_id_cell_summarises_group() {
    let mut list = list_of(&["100", "200_1", "200_2", "300"]);
    assert_eq!(list.cell_text(1, JobColumn::Id), Some("200 [+] (2 tasks)".to_string()));
    assert_eq!(list.cell_text(0, JobColumn::Id), Some("100".to_string()));
    assert_eq!(list.cell_text(1, JobColumn::User), Some("alice".to_string()));
    list.cursor = Some(1);
    list.toggle_group_expand();
    assert_eq!(list.cell_text(1, JobColumn::Id), Some("200 [-] (2 tasks)".to_string()));
    assert_eq!(list.cell_text(2, JobColumn::Id), Some("200_1".to_string()));
    assert_eq!(list.cell_text(7, JobColumn::Id), None);
}

#[test]
fn large_group_count_in_summary() {
    let ids: Vec<String> = (0..12).map(|i| format!("7_{}", i)).collect();
    let refs: Vec<&str> = ids.iter().map(|s| s.as_str()).collect();
    let list = list_of(&refs);
    assert_eq!(list.cell_text(0, JobColumn::Id), Some("7 [+] (12 tasks)".to_string()));
}

#[test]
fn cells_show_placeholders_and_numbers() {
    let mut j = job("5");
    j.nodes = 16;
    j.cpus = 1024;
    j.priority = Some(4294967295);
    j.account = Some("physics".to_string());
    j.state = JobState::Pending;
    let mut list = JobsList::new();
    list.update_jobs(vec![j, job("6")]);
    assert_eq!(list.cell_text(0, JobColumn::Nodes), Some("16".to_string()));
    assert_eq!(list.cell_text(0, JobColumn::CPUs), Some("1024".to_string()));
    assert_eq!(list.cell_text(0, JobColumn::Priority), Some("4294967295".to_string()));
    assert_eq!(list.cell_text(1, JobColumn::Priority), Some("-".to_string()));
    assert_eq!(list.cell_text(0, JobColumn::Account), Some("physics".to_string()));
    assert_eq!(list.cell_text(1, JobColumn::Account), Some("-".to_string()));
    assert_eq!(list.cell_text(0, JobColumn::Node), Some("-".to_string()));
    assert_eq!(list.cell_text(0, JobColumn::State), Some("PENDING".to_string()));
    assert_eq!(list.cell_text(0, JobColumn::Time), Some("0:10".to_string()));
}

#[test]
fn name_truncation() {
    assert_eq!(truncate_name(&"a".repeat(30)), "a".repeat(30));
    assert_eq!(truncate_name(&"b".repeat(31)), format!("{}...", "b".repeat(27)));
    let wide = "é".repeat(40);
    assert_eq!(truncate_name(&wide), format!("{}...", "é".repeat(27)));
}

#[test]
fn decimal_formatting() {
    assert_eq!(decimal_string(0), "0");
    assert_eq!(decimal_string(7), "7");
    assert_eq!(decimal_string(10), "10");
    assert_eq!(decimal_string(90210), "90210");
    assert_eq!(decimal_string(u64::MAX), u64::MAX.to_string());
}

#[test]
fn state_labels_and_tones() {
    assert_eq!(state_label(JobState::NodeFail), "NODE_FAIL");
    let mut a = job("1");
    a.state = JobState::Failed;
    let mut b = job("2");
    b.state = JobState::Cancelled;
    let mut list = JobsList::new();
    list.update_jobs(vec![a, b, job("3")]);
    assert_eq!(list.row_tone(0), Some(Tone::Red));
    assert_eq!(list.row_tone(1), Some(Tone::Magenta));
    assert_eq!(list.row_tone(2), Some(Tone::Green));
    assert_eq!(list.row_tone(3), None);
}

#[test]
fn selected_ids_after_group_toggle_in_member_order() {
    let mut list = list_of(&["100", "200_1", "200_2", "300"]);
    assert!(list.next());
    list.toggle_select();
    assert_eq!(list.get_selected_jobs(), vec!["200_1", "200_2"]);
}

#[test]
fn update_keeps_order_of_surviving_selection() {
    let mut list = list_of(&["1", "2", "3", "4", "5"]);
    list.cursor = Some(4);
    list.toggle_select();
    list.cursor = Some(1);
    list.toggle_select();
    list.cursor = Some(0);
    list.toggle_select();
    assert_eq!(list.selected_jobs, vec![4, 1, 0]);
    list.update_jobs(snapshot(&["7", "8", "9"]));
    assert_eq!(list.selected_jobs, vec![1, 0]);
}

#[test]
fn stale_cursor_gives_absent_results() {
    let mut list = list_of(&["100", "200_1", "200_2", "300"]);
    list.select_all();
    list.cursor = Some(9);
    list.toggle_select();
    assert_eq!(list.selected_jobs, vec![0, 1, 2, 3]);
    assert!(list.selected_job().is_none());
    list.toggle_group_expand();
    assert_eq!(rows(&list), vec![R::J(0), R::H("200".to_string(), 1), R::J(3)]);
    assert!(list.previous());
    assert_eq!(list.cursor, Some(2));
    list.cursor = Some(9);
    assert!(list.next());
    assert_eq!(list.cursor, Some(0));
}

#[test]
fn empty_update_empties_groups() {
    let mut list = list_of(&["200_1", "200_2"]);
    list.update_jobs(Vec::new());
    assert!(list.groups.groups.is_empty());
    assert!(list.visible_rows.is_empty());
    assert!(list.selected_job().is_none());
}

#[test]
fn sort_indicator_on_recorded_column() {
    let mut list = JobsList::new();
    let columns = [JobColumn::Id, JobColumn::Name, JobColumn::State];
    let specs = [SortColumn { column: JobColumn::State, order: SortOrder::Descending }];
    list.update_sort(&columns, &specs);
    assert_eq!(list.sort_indicator(2, &specs), Some(SortOrder::Descending));
    assert_eq!(list.sort_indicator(0, &specs), None);
    assert_eq!(list.sort_indicator(2, &[]), None);
}

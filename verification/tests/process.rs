use lcars_ops::probe::RawProcess;
use lcars_ops::process::{
    children_among, resolve, resolve_all, reversed, row_after, sort_rows, ProcessInfo, ProcessView,
    RowOrder, SortColumn, SortOrder,
};
use sysinfo::{System, Users};

fn row(pid: u32, name: &str, user: &str, cpu: f32, memory: u64, parent: Option<u32>) -> ProcessInfo {
    ProcessInfo {
        pid,
        name: name.to_string(),
        user: user.to_string(),
        cpu_usage: cpu.to_bits(),
        memory,
        parent,
    }
}

fn by_pid(pids: &[u32]) -> Vec<ProcessInfo> {
    pids.iter().map(|p| row(*p, "p", "u", 0.0, 0, None)).collect()
}

fn pids(rows: &[ProcessInfo]) -> Vec<u32> {
    rows.iter().map(|r| r.pid).collect()
}

fn view(column: SortColumn, order: SortOrder, limit: usize) -> ProcessView {
    let mut v = ProcessView::default();
    v.sort_column = column;
    v.sort_order = order;
    v.limit = limit;
    v
}

#[test]
fn the_view_starts_by_memory_largest_first() {
    let v = ProcessView::default();
    assert!(v.sort_column == SortColumn::Memory);
    assert!(v.sort_order == SortOrder::Descending);
    assert_eq!(v.limit, 50);
    assert!(v.expanded_pids.is_empty());
}

#[test]
fn sort_order_toggles() {
    let mut o = SortOrder::Ascending;
    o.toggle();
    assert!(o == SortOrder::Descending);
    o.toggle();
    assert!(o == SortOrder::Ascending);
}

#[test]
fn picking_the_current_column_flips_the_direction() {
    let mut v = ProcessView::default();
    v.toggle_sort(SortColumn::Memory);
    assert!(v.sort_column == SortColumn::Memory);
    assert!(v.sort_order == SortOrder::Ascending);
    v.toggle_sort(SortColumn::Memory);
    assert!(v.sort_order == SortOrder::Descending);
}

#[test]
fn picking_another_column_starts_largest_first() {
    for start in [SortOrder::Ascending, SortOrder::Descending] {
        let mut v = view(SortColumn::Memory, start, 50);
        v.toggle_sort(SortColumn::Name);
        assert!(v.sort_column == SortColumn::Name);
        assert!(v.sort_order == SortOrder::Descending);
        v.toggle_sort(SortColumn::Name);
        assert!(v.sort_order == SortOrder::Ascending);
        assert_eq!(v.limit, 50);
    }
}

#[test]
fn picking_a_row_twice_folds_it_back() {
    let mut v = ProcessView::default();
    assert!(!v.is_expanded(42));
    v.toggle_expanded(42);
    assert!(v.is_expanded(42));
    assert!(!v.is_expanded(43));
    v.toggle_expanded(7);
    v.toggle_expanded(42);
    assert!(!v.is_expanded(42));
    assert!(v.is_expanded(7));
    assert_eq!(v.expanded_pids.len(), 1);
}

#[test]
fn rows_are_ordered_by_pid() {
    let v = view(SortColumn::Pid, SortOrder::Ascending, 50);
    assert_eq!(pids(&v.arrange(by_pid(&[3, 1, 2]))), vec![1, 2, 3]);
    let d = view(SortColumn::Pid, SortOrder::Descending, 50);
    assert_eq!(pids(&d.arrange(by_pid(&[3, 1, 2]))), vec![3, 2, 1]);
}

#[test]
fn the_list_is_cut_to_the_limit() {
    let v = view(SortColumn::Pid, SortOrder::Descending, 2);
    assert_eq!(pids(&v.arrange(by_pid(&[3, 1, 2, 9]))), vec![9, 3]);
    let none = view(SortColumn::Pid, SortOrder::Ascending, 0);
    assert!(none.arrange(by_pid(&[3, 1, 2])).is_empty());
    let all = view(SortColumn::Pid, SortOrder::Ascending, 10);
    assert_eq!(pids(&all.arrange(by_pid(&[3, 1, 2]))), vec![1, 2, 3]);
    assert!(all.arrange(Vec::new()).is_empty());
}

#[test]
fn names_and_users_are_compared_in_lower_case() {
    let rows = vec![
        row(1, "zsh", "root", 0.0, 0, None),
        row(2, "Xorg", "Alice", 0.0, 0, None),
        row(3, "bash", "bob", 0.0, 0, None),
        row(4, "Bash", "alice", 0.0, 0, None),
    ];
    let by_name = view(SortColumn::Name, SortOrder::Ascending, 50);
    assert_eq!(pids(&by_name.arrange(rows.iter().map(copy).collect())), vec![3, 4, 2, 1]);
    let by_user = view(SortColumn::User, SortOrder::Ascending, 50);
    assert_eq!(pids(&by_user.arrange(rows.iter().map(copy).collect())), vec![2, 4, 3, 1]);
}

fn copy(r: &ProcessInfo) -> ProcessInfo {
    ProcessInfo {
        pid: r.pid,
        name: r.name.clone(),
        user: r.user.clone(),
        cpu_usage: r.cpu_usage,
        memory: r.memory,
        parent: r.parent,
    }
}

#[test]
fn descending_turns_the_ascending_list_round() {
    // Rows that tie stand in the order in which they came, and the other
    // way round after the turn.
    let rows = vec![
        row(1, "a", "u", 0.0, 5, None),
        row(2, "b", "u", 0.0, 9, None),
        row(3, "c", "u", 0.0, 5, None),
    ];
    let up = view(SortColumn::Memory, SortOrder::Ascending, 50);
    assert_eq!(pids(&up.arrange(rows.iter().map(copy).collect())), vec![1, 3, 2]);
    let down = view(SortColumn::Memory, SortOrder::Descending, 50);
    assert_eq!(pids(&down.arrange(rows.iter().map(copy).collect())), vec![2, 3, 1]);
}

#[test]
fn processor_shares_are_ordered_as_numbers() {
    let rows = vec![
        row(1, "a", "u", 12.5, 0, None),
        row(2, "b", "u", 0.0, 0, None),
        row(3, "c", "u", 100.0, 0, None),
        row(4, "d", "u", 3.25, 0, None),
    ];
    let v = view(SortColumn::Cpu, SortOrder::Descending, 50);
    assert_eq!(pids(&v.arrange(rows)), vec![3, 1, 4, 2]);
}

#[test]
fn sorting_agrees_with_a_stable_sort() {
    let mut seed: u64 = 0x2545F4914F6CDD1D;
    let mut next = move || {
        seed ^= seed << 13;
        seed ^= seed >> 7;
        seed ^= seed << 17;
        seed
    };
    let names = ["init", "Init", "zsh", "bash", "Bash", "X", "", "ünïcode", "Ünïcode"];
    for round in 0..40 {
        let n = (next() % 30) as usize;
        let rows: Vec<ProcessInfo> = (0..n)
            .map(|i| {
                row(
                    (next() % 10) as u32 + if round % 2 == 0 { i as u32 * 10 } else { 0 },
                    names[(next() % names.len() as u64) as usize],
                    names[(next() % names.len() as u64) as usize],
                    (next() % 1000) as f32 / 10.0,
                    next() % 8,
                    None,
                )
            })
            .collect();
        for column in [SortColumn::Pid, SortColumn::Name, SortColumn::User, SortColumn::Cpu, SortColumn::Memory] {
            let mut want: Vec<ProcessInfo> = rows.iter().map(copy).collect();
            match column {
                SortColumn::Pid => want.sort_by(|a, b| a.pid.cmp(&b.pid)),
                SortColumn::Name => want.sort_by(|a, b| a.name.to_lowercase().cmp(&b.name.to_lowercase())),
                SortColumn::User => want.sort_by(|a, b| a.user.to_lowercase().cmp(&b.user.to_lowercase())),
                SortColumn::Cpu => want.sort_by(|a, b| {
                    f32::from_bits(a.cpu_usage)
                        .partial_cmp(&f32::from_bits(b.cpu_usage))
                        .unwrap_or(std::cmp::Ordering::Equal)
                }),
                SortColumn::Memory => want.sort_by(|a, b| a.memory.cmp(&b.memory)),
            }
            let got = sort_rows(rows.iter().map(copy).collect(), RowOrder { column, reversed: false });
            assert_eq!(got.len(), want.len());
            for (g, w) in got.iter().zip(want.iter()) {
                assert_eq!((g.pid, &g.name, &g.user, g.cpu_usage, g.memory), (w.pid, &w.name, &w.user, w.cpu_usage, w.memory));
            }
            let mut down: Vec<ProcessInfo> = rows.iter().map(copy).collect();
            down.sort_by(|a, b| b.memory.cmp(&a.memory));
            let got_down = sort_rows(
                rows.iter().map(copy).collect(),
                RowOrder { column: SortColumn::Memory, reversed: true },
            );
            for (g, w) in got_down.iter().zip(down.iter()) {
                assert_eq!((g.pid, &g.name, g.memory), (w.pid, &w.name, w.memory));
            }
        }
    }
}

#[test]
fn comes_after_compares_one_column() {
    let a = row(1, "b", "x", 1.0, 10, None);
    let b = row(2, "A", "y", 2.0, 10, None);
    let up = |column| RowOrder { column, reversed: false };
    assert!(!row_after(up(SortColumn::Pid), &a, &b));
    assert!(row_after(up(SortColumn::Pid), &b, &a));
    assert!(row_after(up(SortColumn::Name), &a, &b));
    assert!(!row_after(up(SortColumn::User), &a, &b));
    assert!(!row_after(up(SortColumn::Cpu), &a, &b));
    assert!(!row_after(up(SortColumn::Memory), &a, &b));
    assert!(!row_after(up(SortColumn::Memory), &b, &a));
    assert!(row_after(RowOrder { column: SortColumn::Pid, reversed: true }, &a, &b));
}

#[test]
fn what_is_no_number_ties_with_everything() {
    let nan = row(1, "a", "u", f32::NAN, 0, None);
    let one = row(2, "b", "u", 1.0, 0, None);
    let order = RowOrder { column: SortColumn::Cpu, reversed: false };
    assert!(!row_after(order, &nan, &one));
    assert!(!row_after(order, &one, &nan));
    let got = sort_rows(vec![copy(&one), copy(&nan), row(3, "c", "u", 0.5, 0, None)], order);
    assert_eq!(pids(&got), vec![2, 1, 3]);
}

#[test]
fn reversed_turns_a_list_round() {
    assert_eq!(reversed(vec![1, 2, 3]), vec![3, 2, 1]);
    assert_eq!(reversed(Vec::<u8>::new()), Vec::<u8>::new());
}

#[test]
fn children_are_listed_heaviest_first() {
    let rows = vec![
        row(10, "a", "u", 0.0, 5, Some(1)),
        row(11, "b", "u", 0.0, 9, Some(1)),
        row(12, "c", "u", 0.0, 7, Some(2)),
        row(13, "d", "u", 0.0, 5, Some(1)),
        row(14, "e", "u", 0.0, 1, None),
    ];
    assert_eq!(pids(&children_among(rows.iter().map(copy).collect(), 1)), vec![11, 10, 13]);
    assert_eq!(pids(&children_among(rows.iter().map(copy).collect(), 2)), vec![12]);
    assert!(children_among(rows, 3).is_empty());
}

#[test]
fn a_process_without_a_known_user_gets_a_question_mark() {
    let raw = |user: Option<&str>| RawProcess {
        pid: 1,
        parent: Some(0),
        name: "init".to_string(),
        user: user.map(|u| u.to_string()),
        cpu_usage: 0,
        memory: 3,
    };
    assert_eq!(resolve(raw(None)).user, "?");
    assert_eq!(resolve(raw(Some("root"))).user, "root");
    assert_eq!(resolve(raw(Some(""))).user, "");
    let all = resolve_all(vec![raw(Some("a")), raw(None), raw(Some("b"))]);
    assert_eq!(all.iter().map(|r| r.user.clone()).collect::<Vec<_>>(), vec!["a", "?", "b"]);
    assert_eq!(all[0].parent, Some(0));
    assert_eq!(all[0].memory, 3);
}

#[test]
fn the_live_table_is_listed_in_order_and_within_the_limit() {
    let system = System::new_all();
    let users = Users::new_with_refreshed_list();
    let known = system.processes().len();
    assert!(known > 0);
    let v = view(SortColumn::Pid, SortOrder::Ascending, 5);
    let rows = v.get_processes(&system, &users);
    assert_eq!(rows.len(), known.min(5));
    for pair in rows.windows(2) {
        assert!(pair[0].pid < pair[1].pid);
    }
    let least = system.processes().keys().map(|p| p.as_u32()).min().unwrap();
    assert_eq!(rows[0].pid, least);
    let first = system.process(sysinfo::Pid::from_u32(least)).unwrap();
    assert_eq!(rows[0].name, first.name().to_string_lossy());
    assert_eq!(rows[0].memory, first.memory());
    assert_eq!(rows[0].parent, first.parent().map(|p| p.as_u32()));
    let all = view(SortColumn::Memory, SortOrder::Descending, usize::MAX).get_processes(&system, &users);
    assert_eq!(all.len(), known);
    let mut numbers: Vec<u32> = all.iter().map(|r| r.pid).collect();
    numbers.sort();
    numbers.dedup();
    assert_eq!(numbers.len(), known);
    for pair in all.windows(2) {
        assert!(pair[0].memory >= pair[1].memory);
    }
}

#[test]
fn the_children_of_a_live_process_have_it_as_parent() {
    let system = System::new_all();
    let users = Users::new_with_refreshed_list();
    let v = ProcessView::default();
    for (pid, process) in system.processes() {
        if let Some(parent) = process.parent() {
            let children = v.get_children(parent.as_u32(), &system, &users);
            assert!(children.iter().any(|c| c.pid == pid.as_u32()));
            assert!(children.iter().all(|c| c.parent == Some(parent.as_u32())));
            for pair in children.windows(2) {
                assert!(pair[0].memory >= pair[1].memory);
            }
            let expected = system.processes().values().filter(|p| p.parent() == Some(parent)).count();
            assert_eq!(children.len(), expected);
            return;
        }
    }
}

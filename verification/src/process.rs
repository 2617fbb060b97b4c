//! The process view: how the list of processes is ordered, cut and unfolded.

use crate::binary32;
use crate::probe::{distinct_pids, process_entries, process_table, raw_rows, RawProcess, RawRow};
use crate::text::{
    chars_of, lemma_lex_le_transitive, lemma_lex_lt_asymmetric, lex_lt, lowercase, lowered, precedes,
};
use sysinfo::{System, Users};
use std::collections::HashSet;
use vstd::prelude::*;
use vstd::string::*;

verus! {

broadcast use vstd::std_specs::hash::group_hash_axioms;

/// One process of the table.
///
/// `cpu_usage` holds the bits of a single-precision number, in percent;
/// `memory` is in bytes.
#[derive(Clone)]
pub struct ProcessInfo {
    pub pid: u32,
    pub name: String,
    pub user: String,
    pub cpu_usage: u32,
    pub memory: u64,
    pub parent: Option<u32>,
}

/// A `ProcessInfo` with each text as a sequence of characters.
pub struct ProcessRow {
    pub pid: u32,
    pub name: Seq<char>,
    pub user: Seq<char>,
    pub cpu_usage: u32,
    pub memory: u64,
    pub parent: Option<u32>,
}

impl View for ProcessInfo {
    type V = ProcessRow;

    open spec fn view(&self) -> ProcessRow {
        ProcessRow {
            pid: self.pid,
            name: self.name@,
            user: self.user@,
            cpu_usage: self.cpu_usage,
            memory: self.memory,
            parent: self.parent,
        }
    }
}

/// The column by which the list is ordered.
#[derive(Clone, Copy, PartialEq, Eq, Structural, Debug)]
pub enum SortColumn {
    Pid,
    Name,
    User,
    Cpu,
    Memory,
}

/// Direction in which the list is ordered.
#[derive(Clone, Copy, PartialEq, Eq, Structural, Debug)]
pub enum SortOrder {
    Ascending,
    Descending,
}

impl SortOrder {
    /// The opposite direction.
    pub open spec fn flipped(self) -> SortOrder {
        match self {
            SortOrder::Ascending => SortOrder::Descending,
            SortOrder::Descending => SortOrder::Ascending,
        }
    }

    /// Replaces the direction by its opposite.
    pub fn toggle(&mut self)
        ensures
            *final(self) == old(self).flipped(),
    {
        let next = match *self {
            SortOrder::Ascending => SortOrder::Descending,
            SortOrder::Descending => SortOrder::Ascending,
        };
        *self = next;
    }
}

/// What the user has chosen for the process list: the column and direction
/// of the order, the greatest number of rows, and the processes whose
/// children are shown.
pub struct ProcessView {
    pub sort_column: SortColumn,
    pub sort_order: SortOrder,
    pub limit: usize,
    pub expanded_pids: HashSet<u32>,
}

/// A `ProcessView` with its set as a mathematical set.
pub struct ViewState {
    pub sort_column: SortColumn,
    pub sort_order: SortOrder,
    pub limit: usize,
    pub expanded: Set<u32>,
}

impl View for ProcessView {
    type V = ViewState;

    open spec fn view(&self) -> ViewState {
        ViewState {
            sort_column: self.sort_column,
            sort_order: self.sort_order,
            limit: self.limit,
            expanded: self.expanded_pids@,
        }
    }
}

impl ViewState {
    /// The choice when nothing was chosen yet: by memory, largest first, fifty
    /// rows, nothing unfolded.
    pub open spec fn initial() -> ViewState {
        ViewState {
            sort_column: SortColumn::Memory,
            sort_order: SortOrder::Descending,
            limit: 50,
            expanded: Set::empty(),
        }
    }

    /// The choice after the header of `column` was picked: the direction
    /// flips where that column is the current one; any other column becomes
    /// the current one, largest first.
    pub open spec fn with_sort_toggled(self, column: SortColumn) -> ViewState {
        if self.sort_column == column {
            ViewState { sort_order: self.sort_order.flipped(), ..self }
        } else {
            ViewState { sort_column: column, sort_order: SortOrder::Descending, ..self }
        }
    }

    /// The choice after the row of `pid` was picked: `pid` leaves the
    /// unfolded processes where it was one, and joins them where it was not.
    pub open spec fn with_expanded_toggled(self, pid: u32) -> ViewState {
        if self.expanded.contains(pid) {
            ViewState { expanded: self.expanded.remove(pid), ..self }
        } else {
            ViewState { expanded: self.expanded.insert(pid), ..self }
        }
    }
}

impl Default for ProcessView {
    fn default() -> (view: ProcessView)
        ensures
            view@ == ViewState::initial(),
    {
        ProcessView {
            sort_column: SortColumn::Memory,
            sort_order: SortOrder::Descending,
            limit: 50,
            expanded_pids: HashSet::new(),
        }
    }
}

impl ProcessView {
    /// Picks the header of `column`.
    pub fn toggle_sort(&mut self, column: SortColumn)
        ensures
            final(self)@ == old(self)@.with_sort_toggled(column),
    {
        if self.sort_column == column {
            self.sort_order.toggle();
        } else {
            self.sort_column = column;
            self.sort_order = SortOrder::Descending;
        }
    }

    /// Folds the children of `pid` in where they are shown, and out where
    /// they are not.
    pub fn toggle_expanded(&mut self, pid: u32)
        ensures
            final(self)@ == old(self)@.with_expanded_toggled(pid),
    {
        if !self.expanded_pids.remove(&pid) {
            self.expanded_pids.insert(pid);
        }
        assert(self.expanded_pids@ =~= old(self)@.with_expanded_toggled(pid).expanded);
    }

    /// Whether the children of `pid` are shown.
    pub fn is_expanded(&self, pid: u32) -> (r: bool)
        ensures
            r == self@.expanded.contains(pid),
    {
        self.expanded_pids.contains(&pid)
    }
}

/// The mark that the header of `column` gets: an arrow up or down where the
/// list is ordered by that column, and nothing elsewhere.
pub open spec fn arrow_text(state: ViewState, column: SortColumn) -> Seq<char> {
    if state.sort_column == column {
        match state.sort_order {
            SortOrder::Ascending => " ^"@,
            SortOrder::Descending => " v"@,
        }
    } else {
        ""@
    }
}

/// The mark that the header of `col` gets.
pub fn arrow_str(pv: &ProcessView, col: SortColumn) -> (r: &'static str)
    ensures
        r@ == arrow_text(pv@, col),
{
    if pv.sort_column == col {
        match pv.sort_order {
            SortOrder::Ascending => " ^",
            SortOrder::Descending => " v",
        }
    } else {
        ""
    }
}

/// Picking one header twice flips the direction twice: the choice is as it
/// was before, where that column was the current one.
pub proof fn lemma_toggle_sort_twice(state: ViewState, column: SortColumn)
    requires
        state.sort_column == column,
    ensures
        state.with_sort_toggled(column).with_sort_toggled(column) == state,
{
}

/// Picking the header of a column that is not the current one makes it the
/// current one, largest first, whatever the direction was; picking it once
/// more turns that to smallest first.
pub proof fn lemma_toggle_sort_other(state: ViewState, column: SortColumn)
    requires
        state.sort_column != column,
    ensures
        state.with_sort_toggled(column).sort_column == column,
        state.with_sort_toggled(column).sort_order == SortOrder::Descending,
        state.with_sort_toggled(column).with_sort_toggled(column).sort_order
            == SortOrder::Ascending,
        state.with_sort_toggled(column).limit == state.limit,
        state.with_sort_toggled(column).expanded == state.expanded,
{
}

/// Picking one row twice leaves the unfolded processes as they were.
pub proof fn lemma_toggle_expanded_twice(state: ViewState, pid: u32)
    ensures
        state.with_expanded_toggled(pid).with_expanded_toggled(pid) == state,
{
    let once = state.with_expanded_toggled(pid);
    let twice = once.with_expanded_toggled(pid);
    assert(twice.expanded =~= state.expanded);
}

/// The views of the elements of `v`.
pub open spec fn row_views(v: Seq<ProcessInfo>) -> Seq<ProcessRow> {
    Seq::new(v.len(), |i: int| v[i]@)
}

/// How rows are put in order: by the values of one column, smallest first,
/// or largest first where `reversed`.
#[derive(Clone, Copy)]
pub struct RowOrder {
    pub column: SortColumn,
    pub reversed: bool,
}

/// Whether `a` has the greater value in `column`. Names are compared in
/// lower case, character by character; processor shares as the numbers
/// whose bits they hold, so that none is greater than what is no number.
pub open spec fn column_after(column: SortColumn, a: ProcessRow, b: ProcessRow) -> bool {
    match column {
        SortColumn::Pid => a.pid > b.pid,
        SortColumn::Name => lex_lt(lowercase(b.name), lowercase(a.name)),
        SortColumn::User => lex_lt(lowercase(b.user), lowercase(a.user)),
        SortColumn::Cpu => binary32::lt(b.cpu_usage, a.cpu_usage),
        SortColumn::Memory => a.memory > b.memory,
    }
}

/// Whether `a` must stand after `b` in the order `order`.
pub open spec fn comes_after(order: RowOrder, a: ProcessRow, b: ProcessRow) -> bool {
    if order.reversed {
        column_after(order.column, b, a)
    } else {
        column_after(order.column, a, b)
    }
}

/// Where `x` goes into `sorted`: behind the last row that need not stand
/// after it.
pub open spec fn insertion_point(sorted: Seq<ProcessRow>, x: ProcessRow, order: RowOrder) -> int
    decreases sorted.len(),
{
    if sorted.len() > 0 && comes_after(order, sorted.last(), x) {
        insertion_point(sorted.drop_last(), x, order)
    } else {
        sorted.len() as int
    }
}

/// `rows` in the order `order`, rows that tie in the order in which `rows`
/// has them: each row in turn goes behind those that need not stand after it.
pub open spec fn sorted_rows(rows: Seq<ProcessRow>, order: RowOrder) -> Seq<ProcessRow>
    decreases rows.len(),
{
    if rows.len() == 0 {
        rows
    } else {
        let head = sorted_rows(rows.drop_last(), order);
        head.insert(insertion_point(head, rows.last(), order), rows.last())
    }
}

/// Decides `comes_after`.
pub fn row_after(order: RowOrder, a: &ProcessInfo, b: &ProcessInfo) -> (r: bool)
    ensures
        r == comes_after(order, a@, b@),
{
    let (hi, lo) = if order.reversed {
        (b, a)
    } else {
        (a, b)
    };
    match order.column {
        SortColumn::Pid => hi.pid > lo.pid,
        SortColumn::Name => {
            let x = lowered(chars_of(lo.name.as_str()).as_slice());
            let y = lowered(chars_of(hi.name.as_str()).as_slice());
            precedes(x.as_slice(), y.as_slice())
        },
        SortColumn::User => {
            let x = lowered(chars_of(lo.user.as_str()).as_slice());
            let y = lowered(chars_of(hi.user.as_str()).as_slice());
            precedes(x.as_slice(), y.as_slice())
        },
        SortColumn::Cpu => binary32::less(lo.cpu_usage, hi.cpu_usage),
        SortColumn::Memory => hi.memory > lo.memory,
    }
}

/// `rows` from the last to the first.
pub fn reversed<T>(rows: Vec<T>) -> (out: Vec<T>)
    ensures
        out@ == rows@.reverse(),
{
    let mut rest = rows;
    let mut out: Vec<T> = Vec::new();
    let ghost all = rest@;
    loop
        invariant
            all == rows@,
            rest@ == all.take(rest@.len() as int),
            rest@.len() <= all.len(),
            out@.len() + rest@.len() == all.len(),
            forall|j: int| 0 <= j < out@.len() ==> out@[j] == all[all.len() - 1 - j],
        decreases rest@.len(),
    {
        match rest.pop() {
            Some(row) => {
                out.push(row);
            },
            None => {
                assert(out@ =~= all.reverse());
                return out;
            },
        }
    }
}

/// Where `row` goes into `sorted`.
fn place_of(sorted: &Vec<ProcessInfo>, row: &ProcessInfo, order: RowOrder) -> (at: usize)
    ensures
        at == insertion_point(row_views(sorted@), row@, order),
        at <= sorted@.len(),
{
    let mut j: usize = sorted.len();
    let ghost s = row_views(sorted@);
    assert(s.take(j as int) =~= s);
    while j > 0 && row_after(order, &sorted[j - 1], row)
        invariant
            j <= sorted@.len(),
            s == row_views(sorted@),
            insertion_point(s, row@, order) == insertion_point(s.take(j as int), row@, order),
        decreases j,
    {
        assert(s.take(j as int).last() == sorted@[j - 1]@);
        assert(s.take(j as int).drop_last() =~= s.take(j - 1));
        j -= 1;
    }
    assert(j > 0 ==> s.take(j as int).last() == sorted@[j - 1]@);
    j
}

/// Puts `rows` in the order `order`. Rows that tie keep the order in which
/// they came.
pub fn sort_rows(rows: Vec<ProcessInfo>, order: RowOrder) -> (out: Vec<ProcessInfo>)
    ensures
        row_views(out@) == sorted_rows(row_views(rows@), order),
{
    let ghost all = row_views(rows@);
    let n: usize = rows.len();
    let mut stack = reversed(rows);
    let mut out: Vec<ProcessInfo> = Vec::new();
    assert(all.take(0) =~= Seq::<ProcessRow>::empty());
    loop
        invariant
            all == row_views(rows@),
            stack@.len() <= n,
            n == all.len(),
            forall|j: int| 0 <= j < stack@.len() ==> (#[trigger] stack@[j])@ == all[n - 1 - j],
            row_views(out@) == sorted_rows(all.take(n - stack@.len()), order),
        decreases stack@.len(),
    {
        let ghost done = n - stack@.len();
        let ghost before = row_views(out@);
        match stack.pop() {
            Some(row) => {
                assert(row@ == all[done]);
                let at = place_of(&out, &row, order);
                let ghost x = row@;
                out.insert(at, row);
                assert(row_views(out@) =~= before.insert(at as int, x));
                assert(all.take(done + 1).drop_last() =~= all.take(done));
                assert(all.take(done + 1).last() == x);
            },
            None => {
                assert(all.take(n as int) =~= all);
                return out;
            },
        }
    }
}

/// The row that a process of the table makes: its user is `?` where the
/// table knows none.
pub open spec fn resolved(raw: RawRow) -> ProcessRow {
    ProcessRow {
        pid: raw.pid,
        name: raw.name,
        user: match raw.user {
            Some(u) => u,
            None => "?"@,
        },
        cpu_usage: raw.cpu_usage,
        memory: raw.memory,
        parent: raw.parent,
    }
}

/// The rows that the processes `table` make, in their order.
pub open spec fn resolved_rows(table: Seq<RawRow>) -> Seq<ProcessRow> {
    Seq::new(table.len(), |i: int| resolved(table[i]))
}

/// The rows of `rows` whose parent is `parent_pid`, in their order.
pub open spec fn with_parent(rows: Seq<ProcessRow>, parent_pid: u32) -> Seq<ProcessRow>
    decreases rows.len(),
{
    if rows.len() == 0 {
        rows
    } else {
        let head = with_parent(rows.drop_last(), parent_pid);
        if rows.last().parent == Some(parent_pid) {
            head.push(rows.last())
        } else {
            head
        }
    }
}

/// The list that is shown of `rows`: ordered by the chosen column, smallest
/// first; turned round where the direction is descending; cut to the limit.
pub open spec fn arranged(rows: Seq<ProcessRow>, state: ViewState) -> Seq<ProcessRow> {
    let sorted = sorted_rows(rows, RowOrder { column: state.sort_column, reversed: false });
    let directed = if state.sort_order == SortOrder::Descending {
        sorted.reverse()
    } else {
        sorted
    };
    if state.limit < directed.len() {
        directed.take(state.limit as int)
    } else {
        directed
    }
}

/// The children of `parent_pid` among `rows`, the one with the most memory
/// first.
pub open spec fn children_of(rows: Seq<ProcessRow>, parent_pid: u32) -> Seq<ProcessRow> {
    sorted_rows(
        with_parent(rows, parent_pid),
        RowOrder { column: SortColumn::Memory, reversed: true },
    )
}

/// The row that `raw` makes.
pub fn resolve(raw: RawProcess) -> (row: ProcessInfo)
    ensures
        row@ == resolved(raw@),
{
    let user = match raw.user {
        Some(u) => u,
        None => String::from_str("?"),
    };
    ProcessInfo {
        pid: raw.pid,
        name: raw.name,
        user,
        cpu_usage: raw.cpu_usage,
        memory: raw.memory,
        parent: raw.parent,
    }
}

/// The rows that `table` makes, in its order.
pub fn resolve_all(table: Vec<RawProcess>) -> (out: Vec<ProcessInfo>)
    ensures
        row_views(out@) == resolved_rows(raw_rows(table@)),
{
    let ghost all = raw_rows(table@);
    let n: usize = table.len();
    let mut stack = reversed(table);
    let mut out: Vec<ProcessInfo> = Vec::new();
    loop
        invariant
            all == raw_rows(table@),
            n == all.len(),
            stack@.len() + out@.len() == n,
            forall|j: int| 0 <= j < stack@.len() ==> (#[trigger] stack@[j])@ == all[n - 1 - j],
            forall|j: int| 0 <= j < out@.len() ==> (#[trigger] out@[j])@ == resolved(all[j]),
        decreases stack@.len(),
    {
        match stack.pop() {
            Some(raw) => {
                out.push(resolve(raw));
            },
            None => {
                assert(row_views(out@) =~= resolved_rows(all));
                return out;
            },
        }
    }
}

/// The children of `parent_pid` among `rows`, the one with the most memory
/// first; children with as much memory in the order of `rows`.
pub fn children_among(rows: Vec<ProcessInfo>, parent_pid: u32) -> (out: Vec<ProcessInfo>)
    ensures
        row_views(out@) == children_of(row_views(rows@), parent_pid),
{
    let ghost all = row_views(rows@);
    let n: usize = rows.len();
    let mut stack = reversed(rows);
    let mut kept: Vec<ProcessInfo> = Vec::new();
    assert(all.take(0) =~= Seq::<ProcessRow>::empty());
    loop
        invariant
            all == row_views(rows@),
            n == all.len(),
            stack@.len() <= n,
            forall|j: int| 0 <= j < stack@.len() ==> (#[trigger] stack@[j])@ == all[n - 1 - j],
            row_views(kept@) == with_parent(all.take(n - stack@.len()), parent_pid),
        decreases stack@.len(),
    {
        let ghost done = n - stack@.len();
        let ghost before = row_views(kept@);
        match stack.pop() {
            Some(row) => {
                assert(all.take(done + 1).drop_last() =~= all.take(done));
                assert(all.take(done + 1).last() == row@);
                let is_child = match row.parent {
                    Some(p) => p == parent_pid,
                    None => false,
                };
                if is_child {
                    let ghost x = row@;
                    kept.push(row);
                    assert(row_views(kept@) =~= before.push(x));
                }
            },
            None => {
                assert(all.take(n as int) =~= all);
                return sort_rows(kept, RowOrder { column: SortColumn::Memory, reversed: true });
            },
        }
    }
}

impl ProcessView {
    /// The list that is shown of `rows`.
    pub fn arrange(&self, rows: Vec<ProcessInfo>) -> (out: Vec<ProcessInfo>)
        ensures
            row_views(out@) == arranged(row_views(rows@), self@),
            out@.len() <= self.limit,
            out@.len() <= rows@.len(),
    {
        let sorted = sort_rows(rows, RowOrder { column: self.sort_column, reversed: false });
        let ghost s = row_views(sorted@);
        proof {
            lemma_sorted_rows_len(row_views(rows@), RowOrder { column: self.sort_column, reversed: false });
        }
        let mut directed = match self.sort_order {
            SortOrder::Descending => {
                let r = reversed(sorted);
                assert(row_views(r@) =~= s.reverse());
                r
            },
            SortOrder::Ascending => sorted,
        };
        let ghost d = row_views(directed@);
        directed.truncate(self.limit);
        assert(self.limit < d.len() ==> row_views(directed@) =~= d.take(self.limit as int));
        directed
    }

    /// The list that is shown of the processes of `system`, read afresh: each
    /// with its user's name from `users`, arranged as `arrange` does. The
    /// table hands its processes out in no fixed order, and rows that tie in
    /// the chosen column stand as it handed them out.
    pub fn get_processes(&self, system: &System, users: &Users) -> (out: Vec<ProcessInfo>)
        ensures
            exists|table: Seq<RawRow>|
                #[trigger] table.to_multiset() == process_table(*system, *users) && row_views(out@)
                    == arranged(resolved_rows(table), self@),
            out@.len() <= self.limit,
            no_pid_twice(row_views(out@)),
    {
        let table = process_entries(system, users);
        let ghost t = raw_rows(table@);
        let out = self.arrange(resolve_all(table));
        assert(t.to_multiset() == process_table(*system, *users) && row_views(out@) == arranged(
            resolved_rows(t),
            self@,
        ));
        proof {
            lemma_resolved_rows_keep_pids_apart(t);
            lemma_arranged_keeps_pids_apart(resolved_rows(t), self@);
        }
        out
    }

    /// The children of `parent_pid` among the processes of `system`, the one
    /// with the most memory first, whatever order is chosen for the list.
    pub fn get_children(&self, parent_pid: u32, system: &System, users: &Users) -> (out: Vec<
        ProcessInfo,
    >)
        ensures
            exists|table: Seq<RawRow>|
                #[trigger] table.to_multiset() == process_table(*system, *users) && row_views(out@)
                    == children_of(resolved_rows(table), parent_pid),
            no_pid_twice(row_views(out@)),
    {
        let table = process_entries(system, users);
        let ghost t = raw_rows(table@);
        let out = children_among(resolve_all(table), parent_pid);
        assert(t.to_multiset() == process_table(*system, *users) && row_views(out@) == children_of(
            resolved_rows(t),
            parent_pid,
        ));
        proof {
            lemma_resolved_rows_keep_pids_apart(t);
            lemma_children_keep_pids_apart(resolved_rows(t), parent_pid);
        }
        out
    }
}

/// Ordering rows neither adds nor drops one.
pub proof fn lemma_sorted_rows_len(rows: Seq<ProcessRow>, order: RowOrder)
    ensures
        sorted_rows(rows, order).len() == rows.len(),
    decreases rows.len(),
{
    if rows.len() > 0 {
        lemma_sorted_rows_len(rows.drop_last(), order);
        lemma_insertion_point_bounds(sorted_rows(rows.drop_last(), order), rows.last(), order);
    }
}

/// A row goes in somewhere from the front to the end.
pub proof fn lemma_insertion_point_bounds(sorted: Seq<ProcessRow>, x: ProcessRow, order: RowOrder)
    ensures
        0 <= insertion_point(sorted, x, order) <= sorted.len(),
    decreases sorted.len(),
{
    if sorted.len() > 0 && comes_after(order, sorted.last(), x) {
        lemma_insertion_point_bounds(sorted.drop_last(), x, order);
    }
}

/// Putting a row in adds that row and no other.
pub proof fn lemma_insert_to_multiset(s: Seq<ProcessRow>, at: int, x: ProcessRow)
    requires
        0 <= at <= s.len(),
    ensures
        s.insert(at, x).to_multiset() == s.to_multiset().insert(x),
{
    let t = s.insert(at, x);
    assert(t.remove(at) =~= s);
    assert(t[at] == x);
    vstd::seq_lib::to_multiset_remove(t, at);
    vstd::seq_lib::to_multiset_contains(t, x);
    assert(t.contains(x));
    assert(t.to_multiset() =~= s.to_multiset().insert(x));
}

/// Ordering rows rearranges them: each row is in the result as often as it
/// was given.
pub proof fn lemma_sorted_rows_permutes(rows: Seq<ProcessRow>, order: RowOrder)
    ensures
        sorted_rows(rows, order).to_multiset() == rows.to_multiset(),
    decreases rows.len(),
{
    if rows.len() > 0 {
        let head = sorted_rows(rows.drop_last(), order);
        lemma_sorted_rows_permutes(rows.drop_last(), order);
        lemma_insertion_point_bounds(head, rows.last(), order);
        lemma_insert_to_multiset(head, insertion_point(head, rows.last(), order), rows.last());
        assert(rows.drop_last().push(rows.last()) =~= rows);
        vstd::seq_lib::to_multiset_build(rows.drop_last(), rows.last());
    }
}

/// Whether no row of `rows` must stand after a later one.
pub open spec fn is_ordered(rows: Seq<ProcessRow>, order: RowOrder) -> bool {
    forall|i: int, j: int| 0 <= i < j < rows.len() ==> !comes_after(order, rows[i], rows[j])
}

/// Whether `order` ranks the rows `rows`: of two rows at most one must stand
/// after the other, and a row that need not stand after a second, which
/// need not stand after a third, need not stand after the third.
pub open spec fn ranks(order: RowOrder, rows: Seq<ProcessRow>) -> bool {
    &&& forall|a: ProcessRow, b: ProcessRow|
        rows.contains(a) && rows.contains(b) && #[trigger] comes_after(order, a, b)
            ==> !comes_after(order, b, a)
    &&& forall|a: ProcessRow, b: ProcessRow, c: ProcessRow|
        #![trigger comes_after(order, a, b), comes_after(order, b, c)]
        rows.contains(a) && rows.contains(b) && rows.contains(c) && !comes_after(order, a, b)
            && !comes_after(order, b, c) ==> !comes_after(order, a, c)
}

/// Where a row goes in, what stands at or behind that place must stand
/// after it, and what stands right before need not.
pub proof fn lemma_insertion_point_splits(sorted: Seq<ProcessRow>, x: ProcessRow, order: RowOrder)
    ensures
        forall|j: int|
            insertion_point(sorted, x, order) <= j < sorted.len() ==> comes_after(
                order,
                #[trigger] sorted[j],
                x,
            ),
        insertion_point(sorted, x, order) > 0 ==> !comes_after(
            order,
            sorted[insertion_point(sorted, x, order) - 1],
            x,
        ),
    decreases sorted.len(),
{
    lemma_insertion_point_bounds(sorted, x, order);
    if sorted.len() > 0 && comes_after(order, sorted.last(), x) {
        lemma_insertion_point_splits(sorted.drop_last(), x, order);
        lemma_insertion_point_bounds(sorted.drop_last(), x, order);
        let at = insertion_point(sorted, x, order);
        assert forall|j: int| at <= j < sorted.len() implies comes_after(
            order,
            #[trigger] sorted[j],
            x,
        ) by {
            if j < sorted.len() - 1 {
                assert(sorted.drop_last()[j] == sorted[j]);
            }
        }
        if at > 0 {
            assert(sorted.drop_last()[at - 1] == sorted[at - 1]);
        }
    }
}

/// Ordering rows by an order that ranks them puts them in that order.
pub proof fn lemma_sorted_rows_ordered(rows: Seq<ProcessRow>, order: RowOrder)
    requires
        ranks(order, rows),
    ensures
        is_ordered(sorted_rows(rows, order), order),
    decreases rows.len(),
{
    if rows.len() > 0 {
        let init = rows.drop_last();
        let x = rows.last();
        let head = sorted_rows(init, order);
        let at = insertion_point(head, x, order);
        let out = head.insert(at, x);
        assert forall|a: ProcessRow| init.contains(a) implies rows.contains(a) by {
            let i = choose|i: int| 0 <= i < init.len() && init[i] == a;
            assert(rows[i] == a);
        }
        assert(ranks(order, init));
        lemma_sorted_rows_ordered(init, order);
        lemma_sorted_rows_permutes(init, order);
        lemma_insertion_point_bounds(head, x, order);
        lemma_insertion_point_splits(head, x, order);
        assert(rows.contains(x)) by {
            assert(rows[rows.len() - 1] == x);
        }
        assert forall|k: int| 0 <= k < head.len() implies rows.contains(#[trigger] head[k]) by {
            vstd::seq_lib::to_multiset_contains(head, head[k]);
            vstd::seq_lib::to_multiset_contains(init, head[k]);
            assert(head.contains(head[k]));
        }
        assert forall|i: int, j: int| 0 <= i < j < out.len() implies !comes_after(
            order,
            out[i],
            out[j],
        ) by {
            if j < at {
                assert(out[i] == head[i] && out[j] == head[j]);
            } else if j == at {
                // out[i] stands before the place of x
                assert(out[i] == head[i]);
                assert(out[j] == x);
                if i < at - 1 {
                    assert(!comes_after(order, head[i], head[at - 1]));
                    assert(!comes_after(order, head[at - 1], x));
                    assert(rows.contains(head[i]) && rows.contains(head[at - 1]));
                }
            } else if i == at {
                assert(out[i] == x);
                assert(out[j] == head[j - 1]);
                assert(comes_after(order, head[j - 1], x));
                assert(rows.contains(head[j - 1]));
            } else if i < at {
                assert(out[i] == head[i]);
                assert(out[j] == head[j - 1]);
            } else {
                assert(out[i] == head[i - 1]);
                assert(out[j] == head[j - 1]);
            }
        }
    }
}

/// Rows that are in order already stay as they are: rows that tie are never
/// exchanged.
pub proof fn lemma_sorted_rows_keeps_ordered(rows: Seq<ProcessRow>, order: RowOrder)
    requires
        is_ordered(rows, order),
    ensures
        sorted_rows(rows, order) == rows,
    decreases rows.len(),
{
    if rows.len() > 0 {
        let init = rows.drop_last();
        assert forall|i: int, j: int| 0 <= i < j < init.len() implies !comes_after(
            order,
            init[i],
            init[j],
        ) by {
            assert(init[i] == rows[i] && init[j] == rows[j]);
        }
        lemma_sorted_rows_keeps_ordered(init, order);
        if init.len() > 0 {
            assert(init.last() == rows[init.len() - 1]);
            assert(!comes_after(order, rows[init.len() - 1], rows[rows.len() - 1]));
        }
        assert(insertion_point(init, rows.last(), order) == init.len());
        assert(init.insert(init.len() as int, rows.last()) =~= rows);
    }
}

/// Process numbers and memory rank any rows, whichever way round.
pub proof fn lemma_numbers_rank(order: RowOrder, rows: Seq<ProcessRow>)
    requires
        order.column == SortColumn::Pid || order.column == SortColumn::Memory,
    ensures
        ranks(order, rows),
{
}

/// Processor shares rank rows of which each share is a number.
pub proof fn lemma_shares_rank(order: RowOrder, rows: Seq<ProcessRow>)
    requires
        order.column == SortColumn::Cpu,
        forall|i: int| 0 <= i < rows.len() ==> !binary32::is_nan(#[trigger] rows[i].cpu_usage),
    ensures
        ranks(order, rows),
{
    assert forall|a: ProcessRow| rows.contains(a) implies !binary32::is_nan(a.cpu_usage) by {
        let i = choose|i: int| 0 <= i < rows.len() && rows[i] == a;
        assert(!binary32::is_nan(rows[i].cpu_usage));
    }
}

/// Names and users rank any rows, whichever way round.
pub proof fn lemma_names_rank(order: RowOrder, rows: Seq<ProcessRow>)
    requires
        order.column == SortColumn::Name || order.column == SortColumn::User,
    ensures
        ranks(order, rows),
{
    assert forall|a: ProcessRow, b: ProcessRow| #[trigger] comes_after(order, a, b) implies !comes_after(
        order,
        b,
        a,
    ) by {
        lemma_lex_lt_asymmetric(lowercase(a.name), lowercase(b.name), 0);
        lemma_lex_lt_asymmetric(lowercase(b.name), lowercase(a.name), 0);
        lemma_lex_lt_asymmetric(lowercase(a.user), lowercase(b.user), 0);
        lemma_lex_lt_asymmetric(lowercase(b.user), lowercase(a.user), 0);
    }
    assert forall|a: ProcessRow, b: ProcessRow, c: ProcessRow|
        #![trigger comes_after(order, a, b), comes_after(order, b, c)]
        !comes_after(order, a, b) && !comes_after(order, b, c) implies !comes_after(order, a, c) by {
        let (x, y, z) = if order.column == SortColumn::Name {
            (lowercase(a.name), lowercase(b.name), lowercase(c.name))
        } else {
            (lowercase(a.user), lowercase(b.user), lowercase(c.user))
        };
        if order.reversed {
            // a need not stand after b: x is not before y
            lemma_lex_le_transitive(z, y, x, 0);
        } else {
            lemma_lex_le_transitive(x, y, z, 0);
        }
    }
}

/// The order in which the list is shown in the state `state`.
pub open spec fn shown_order(state: ViewState) -> RowOrder {
    RowOrder { column: state.sort_column, reversed: state.sort_order == SortOrder::Descending }
}

/// The list that is shown is in the chosen order, smallest first or largest
/// first as chosen, whatever the column; by processor share where each share
/// is a number.
pub proof fn lemma_arranged_is_ordered(rows: Seq<ProcessRow>, state: ViewState)
    requires
        state.sort_column == SortColumn::Cpu ==> forall|i: int|
            0 <= i < rows.len() ==> !binary32::is_nan(#[trigger] rows[i].cpu_usage),
    ensures
        is_ordered(arranged(rows, state), shown_order(state)),
{
    let up = RowOrder { column: state.sort_column, reversed: false };
    let sorted = sorted_rows(rows, up);
    match state.sort_column {
        SortColumn::Pid => lemma_numbers_rank(up, rows),
        SortColumn::Memory => lemma_numbers_rank(up, rows),
        SortColumn::Name => lemma_names_rank(up, rows),
        SortColumn::User => lemma_names_rank(up, rows),
        SortColumn::Cpu => lemma_shares_rank(up, rows),
    }
    lemma_sorted_rows_ordered(rows, up);
    let directed = if state.sort_order == SortOrder::Descending {
        sorted.reverse()
    } else {
        sorted
    };
    assert forall|i: int, j: int| 0 <= i < j < directed.len() implies !comes_after(
        shown_order(state),
        directed[i],
        directed[j],
    ) by {
        if state.sort_order == SortOrder::Descending {
            let n = sorted.len() as int;
            assert(directed[i] == sorted[n - 1 - i]);
            assert(directed[j] == sorted[n - 1 - j]);
            assert(!comes_after(up, sorted[n - 1 - j], sorted[n - 1 - i]));
        }
    }
    let out = arranged(rows, state);
    assert forall|i: int, j: int| 0 <= i < j < out.len() implies !comes_after(
        shown_order(state),
        out[i],
        out[j],
    ) by {
        assert(out[i] == directed[i] && out[j] == directed[j]);
    }
}

/// Where the limit does not cut it, the list that is shown holds each row as
/// often as it was given.
pub proof fn lemma_arranged_permutes(rows: Seq<ProcessRow>, state: ViewState)
    requires
        rows.len() <= state.limit,
    ensures
        arranged(rows, state).to_multiset() == rows.to_multiset(),
{
    let up = RowOrder { column: state.sort_column, reversed: false };
    let sorted = sorted_rows(rows, up);
    lemma_sorted_rows_permutes(rows, up);
    lemma_sorted_rows_len(rows, up);
    if state.sort_order == SortOrder::Descending {
        lemma_reverse_permutes(sorted);
    }
}

/// A sequence read backwards holds what it held.
pub proof fn lemma_reverse_permutes(s: Seq<ProcessRow>)
    ensures
        s.reverse().to_multiset() == s.to_multiset(),
    decreases s.len(),
{
    if s.len() > 0 {
        let init = s.drop_last();
        lemma_reverse_permutes(init);
        assert(s.reverse() =~= init.reverse().insert(0, s.last()));
        lemma_insert_to_multiset(init.reverse(), 0, s.last());
        assert(init.push(s.last()) =~= s);
        vstd::seq_lib::to_multiset_build(init, s.last());
    } else {
        assert(s.reverse() =~= s);
    }
}

/// The children that are listed are those rows whose parent is the process
/// asked for, and no others.
pub proof fn lemma_with_parent_selects(rows: Seq<ProcessRow>, parent_pid: u32)
    ensures
        forall|x: ProcessRow|
            with_parent(rows, parent_pid).contains(x) <==> rows.contains(x) && x.parent == Some(
                parent_pid,
            ),
    decreases rows.len(),
{
    if rows.len() > 0 {
        let init = rows.drop_last();
        let head = with_parent(init, parent_pid);
        lemma_with_parent_selects(init, parent_pid);
        assert forall|x: ProcessRow|
            with_parent(rows, parent_pid).contains(x) <==> rows.contains(x) && x.parent == Some(
                parent_pid,
            ) by {
            let out = with_parent(rows, parent_pid);
            assert(head.contains(x) <==> init.contains(x) && x.parent == Some(parent_pid));
            if out.contains(x) {
                let i = choose|i: int| 0 <= i < out.len() && out[i] == x;
                if i < head.len() {
                    assert(head[i] == x);
                    assert(head.contains(x));
                    let j = choose|j: int| 0 <= j < init.len() && init[j] == x;
                    assert(rows[j] == x);
                } else {
                    assert(rows[rows.len() - 1] == x);
                }
            }
            if rows.contains(x) && x.parent == Some(parent_pid) {
                let j = choose|j: int| 0 <= j < rows.len() && rows[j] == x;
                if j < init.len() {
                    assert(init[j] == x);
                    assert(init.contains(x));
                    let i = choose|i: int| 0 <= i < head.len() && head[i] == x;
                    assert(out[i] == x);
                } else {
                    assert(out[out.len() - 1] == x);
                }
            }
        }
    }
}

/// The children of a process are listed with the most memory first.
pub proof fn lemma_children_are_ordered(rows: Seq<ProcessRow>, parent_pid: u32)
    ensures
        forall|i: int, j: int|
            0 <= i < j < children_of(rows, parent_pid).len() ==> children_of(
                rows,
                parent_pid,
            )[i].memory >= children_of(rows, parent_pid)[j].memory,
{
    let order = RowOrder { column: SortColumn::Memory, reversed: true };
    lemma_numbers_rank(order, with_parent(rows, parent_pid));
    lemma_sorted_rows_ordered(with_parent(rows, parent_pid), order);
    let out = children_of(rows, parent_pid);
    assert forall|i: int, j: int| 0 <= i < j < out.len() implies out[i].memory
        >= out[j].memory by {
        assert(!comes_after(order, out[i], out[j]));
    }
}

/// Whether no two of `rows` have one process number.
pub open spec fn no_pid_twice(rows: Seq<ProcessRow>) -> bool {
    forall|i: int, j: int| 0 <= i < j < rows.len() ==> rows[i].pid != rows[j].pid
}

/// Ordering rows of which no two have one process number leaves no two with
/// one number.
pub proof fn lemma_sorted_rows_keeps_pids_apart(rows: Seq<ProcessRow>, order: RowOrder)
    requires
        no_pid_twice(rows),
    ensures
        no_pid_twice(sorted_rows(rows, order)),
    decreases rows.len(),
{
    if rows.len() > 0 {
        let init = rows.drop_last();
        let x = rows.last();
        let head = sorted_rows(init, order);
        let at = insertion_point(head, x, order);
        let out = head.insert(at, x);
        assert forall|i: int, j: int| 0 <= i < j < init.len() implies init[i].pid
            != init[j].pid by {
            assert(init[i] == rows[i] && init[j] == rows[j]);
        }
        lemma_sorted_rows_keeps_pids_apart(init, order);
        lemma_sorted_rows_permutes(init, order);
        lemma_insertion_point_bounds(head, x, order);
        assert forall|k: int| 0 <= k < head.len() implies (#[trigger] head[k]).pid != x.pid by {
            vstd::seq_lib::to_multiset_contains(head, head[k]);
            vstd::seq_lib::to_multiset_contains(init, head[k]);
            assert(head.contains(head[k]));
            let m = choose|m: int| 0 <= m < init.len() && init[m] == head[k];
            assert(rows[m] == head[k]);
            assert(rows[rows.len() - 1] == x);
        }
        assert forall|i: int, j: int| 0 <= i < j < out.len() implies out[i].pid != out[j].pid by {
            if j < at {
                assert(out[i] == head[i] && out[j] == head[j]);
            } else if j == at {
                assert(out[i] == head[i] && out[j] == x);
            } else if i == at {
                assert(out[i] == x && out[j] == head[j - 1]);
            } else if i < at {
                assert(out[i] == head[i] && out[j] == head[j - 1]);
            } else {
                assert(out[i] == head[i - 1] && out[j] == head[j - 1]);
            }
        }
    }
}

/// The rows that a table makes have the process numbers of the table.
pub proof fn lemma_resolved_rows_keep_pids_apart(table: Seq<RawRow>)
    requires
        distinct_pids(table),
    ensures
        no_pid_twice(resolved_rows(table)),
{
    let rows = resolved_rows(table);
    assert forall|i: int, j: int| 0 <= i < j < rows.len() implies rows[i].pid != rows[j].pid by {
        assert(rows[i].pid == table[i].pid && rows[j].pid == table[j].pid);
    }
}

/// In the list that is shown of rows of which no two have one process
/// number, no two have one number.
pub proof fn lemma_arranged_keeps_pids_apart(rows: Seq<ProcessRow>, state: ViewState)
    requires
        no_pid_twice(rows),
    ensures
        no_pid_twice(arranged(rows, state)),
{
    let up = RowOrder { column: state.sort_column, reversed: false };
    let sorted = sorted_rows(rows, up);
    lemma_sorted_rows_keeps_pids_apart(rows, up);
    let n = sorted.len() as int;
    let directed = if state.sort_order == SortOrder::Descending {
        sorted.reverse()
    } else {
        sorted
    };
    assert forall|i: int, j: int| 0 <= i < j < directed.len() implies directed[i].pid
        != directed[j].pid by {
        if state.sort_order == SortOrder::Descending {
            assert(directed[i] == sorted[n - 1 - i] && directed[j] == sorted[n - 1 - j]);
        }
    }
    let out = arranged(rows, state);
    assert forall|i: int, j: int| 0 <= i < j < out.len() implies out[i].pid != out[j].pid by {
        assert(out[i] == directed[i] && out[j] == directed[j]);
    }
}

/// Among the children that are listed of rows of which no two have one
/// process number, no two have one number.
pub proof fn lemma_children_keep_pids_apart(rows: Seq<ProcessRow>, parent_pid: u32)
    requires
        no_pid_twice(rows),
    ensures
        no_pid_twice(children_of(rows, parent_pid)),
{
    lemma_with_parent_keeps_pids_apart(rows, parent_pid);
    lemma_sorted_rows_keeps_pids_apart(
        with_parent(rows, parent_pid),
        RowOrder { column: SortColumn::Memory, reversed: true },
    );
}

/// Picking the children out of rows of which no two have one process number
/// leaves no two with one number.
pub proof fn lemma_with_parent_keeps_pids_apart(rows: Seq<ProcessRow>, parent_pid: u32)
    requires
        no_pid_twice(rows),
    ensures
        no_pid_twice(with_parent(rows, parent_pid)),
    decreases rows.len(),
{
    if rows.len() > 0 {
        let init = rows.drop_last();
        let x = rows.last();
        let head = with_parent(init, parent_pid);
        assert forall|i: int, j: int| 0 <= i < j < init.len() implies init[i].pid
            != init[j].pid by {
            assert(init[i] == rows[i] && init[j] == rows[j]);
        }
        lemma_with_parent_keeps_pids_apart(init, parent_pid);
        lemma_with_parent_selects(init, parent_pid);
        let out = with_parent(rows, parent_pid);
        assert forall|i: int, j: int| 0 <= i < j < out.len() implies out[i].pid != out[j].pid by {
            if j < head.len() {
                assert(out[i] == head[i] && out[j] == head[j]);
            } else {
                assert(out[i] == head[i] && out[j] == x);
                assert(head.contains(head[i]));
                assert(init.contains(head[i]));
                let m = choose|m: int| 0 <= m < init.len() && init[m] == head[i];
                assert(rows[m] == head[i]);
                assert(rows[rows.len() - 1] == x);
            }
        }
    }
}

} // verus!

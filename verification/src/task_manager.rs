//! The decisions of the process view with clickable column headers: sort
//! by a column ascending, the whole list reversed for descending order.

use vstd::prelude::*;
use crate::ieee::is_nan;
use crate::process_monitor::ProcessRow;
use crate::ui_shared::{sort_rows, stable_sort_of, SortKey};

verus! {

/// The columns this view sorts by.
#[derive(Clone, Copy, Debug, PartialEq, Eq, Structural)]
pub enum SortColumn {
    Name,
    Pid,
    Cpu,
    Memory,
}

/// The sort key of a column.
pub open spec fn column_key(c: SortColumn) -> SortKey {
    match c {
        SortColumn::Name => SortKey::Name,
        SortColumn::Pid => SortKey::Pid,
        SortColumn::Cpu => SortKey::Cpu,
        SortColumn::Memory => SortKey::Memory,
    }
}

/// The sort key of a column.
fn key_of(c: SortColumn) -> (k: SortKey)
    ensures
        k == column_key(c),
{
    match c {
        SortColumn::Name => SortKey::Name,
        SortColumn::Pid => SortKey::Pid,
        SortColumn::Cpu => SortKey::Cpu,
        SortColumn::Memory => SortKey::Memory,
    }
}

/// The processes sorted by `column`: stably ascending, then the whole list
/// reversed when `desc`. Sorting two or more rows by CPU usage compares
/// each row at least once with `partial_cmp(..).unwrap()`, which fails on
/// NaN: their CPU usages must then not be NaN.
pub fn sort_processes(rows: &[ProcessRow], column: SortColumn, desc: bool) -> (r: Vec<ProcessRow>)
    requires
        column == SortColumn::Cpu && rows@.len() >= 2 ==> forall|i: int|
            0 <= i < rows@.len() ==> !is_nan(#[trigger] rows@[i].cpu_usage),
    ensures
        exists|asc: Seq<ProcessRow>|
            stable_sort_of(asc, rows@, column_key(column), false) && r@ == if desc {
                asc.reverse()
            } else {
                asc
            },
{
    let asc = sort_rows(rows, key_of(column), false);
    if !desc {
        return asc;
    }
    let mut r: Vec<ProcessRow> = Vec::new();
    let mut i: usize = asc.len();
    while i > 0
        invariant
            i <= asc.len(),
            r@ == asc@.subrange(i as int, asc@.len() as int).reverse(),
        decreases i,
    {
        i -= 1;
        r.push(asc[i].copy());
        assert(asc@.subrange(i as int, asc@.len() as int).reverse() =~= asc@.subrange(
            i + 1,
            asc@.len() as int,
        ).reverse().push(asc@[i as int]));
    }
    assert(asc@.subrange(0, asc@.len() as int) =~= asc@);
    r
}

/// What a click on the header of `col` gives: the other direction on the
/// sort column, else that column, descending.
pub fn header_click(current: SortColumn, desc: bool, col: SortColumn) -> (r: (SortColumn, bool))
    ensures
        r == if current == col {
            (current, !desc)
        } else {
            (col, true)
        },
{
    if current == col {
        (current, !desc)
    } else {
        (col, true)
    }
}

/// The header label of `col`: its title, with `" ▼"` or `" ▲"` on the sort
/// column.
pub fn header_text(title: &str, current: SortColumn, desc: bool, col: SortColumn) -> (r: String)
    ensures
        r@ == title@ + if current == col {
            if desc {
                " ▼"@
            } else {
                " ▲"@
            }
        } else {
            Seq::<char>::empty()
        },
{
    let mut r = String::from_str(title);
    if current == col {
        r.append(
            if desc {
                " ▼"
            } else {
                " ▲"
            },
        );
    } else {
        assert(r@ =~= title@ + Seq::<char>::empty());
    }
    r
}

} // verus!

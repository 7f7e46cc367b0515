//! The state that the user interface keeps between events: sorting,
//! filters, selections, and the filtered and sorted rows it shows.

use vstd::prelude::*;
use crate::ieee::{compare_values, is_nan, value_order, Order3};
use crate::process_monitor::ProcessRow;
use crate::services::{rows_view, ServiceRow, ServiceSpec};
use crate::startup::{entries_view, EntrySpec, StartupEntry, StartupSource};
use crate::text::{chars_of, contains, contains_chars, lowercase, occurs_at, to_lowercase};

verus! {

/// The column the process table is sorted by.
#[derive(Clone, Copy, Debug, PartialEq, Eq, Structural)]
pub enum SortKey {
    Name,
    Pid,
    Cpu,
    Memory,
    Status,
}

/// The sort key of each column of the process table, in column order.
pub const COLUMN_KEYS: [SortKey; 5] = [
    SortKey::Name,
    SortKey::Pid,
    SortKey::Cpu,
    SortKey::Memory,
    SortKey::Status,
];

/// The reverse of an order.
pub open spec fn flip(o: Order3) -> Order3 {
    match o {
        Order3::Less => Order3::Greater,
        Order3::Equal => Order3::Equal,
        Order3::Greater => Order3::Less,
    }
}

/// The order of two integers.
pub open spec fn int_order(a: int, b: int) -> Order3 {
    if a < b {
        Order3::Less
    } else if a == b {
        Order3::Equal
    } else {
        Order3::Greater
    }
}

/// The lexicographic order of two texts by code point, which is the order
/// of `String`'s `Ord` (UTF-8 keeps code point order).
pub open spec fn lex_order(a: Seq<char>, b: Seq<char>) -> Order3
    decreases a.len(),
{
    if a.len() == 0 && b.len() == 0 {
        Order3::Equal
    } else if a.len() == 0 {
        Order3::Less
    } else if b.len() == 0 {
        Order3::Greater
    } else if a[0] < b[0] {
        Order3::Less
    } else if a[0] > b[0] {
        Order3::Greater
    } else {
        lex_order(a.drop_first(), b.drop_first())
    }
}

proof fn lemma_lex_flip(a: Seq<char>, b: Seq<char>)
    ensures
        lex_order(a, b) == flip(lex_order(b, a)),
        lex_order(a, b) == Order3::Equal ==> a == b,
    decreases a.len(),
{
    if a.len() > 0 && b.len() > 0 && a[0] == b[0] {
        lemma_lex_flip(a.drop_first(), b.drop_first());
        if lex_order(a, b) == Order3::Equal {
            assert(a[0] == b[0]);
            assert(a =~= seq![a[0]] + a.drop_first());
            assert(b =~= seq![b[0]] + b.drop_first());
        }
    }
    if a.len() == 0 && b.len() == 0 {
        assert(a =~= b);
    }
}

proof fn lemma_lex_trans(a: Seq<char>, b: Seq<char>, c: Seq<char>)
    requires
        lex_order(a, b) != Order3::Greater,
        lex_order(b, c) != Order3::Greater,
    ensures
        lex_order(a, c) != Order3::Greater,
        lex_order(a, b) == Order3::Less || lex_order(b, c) == Order3::Less ==> lex_order(a, c)
            == Order3::Less,
    decreases a.len(),
{
    if a.len() > 0 && b.len() > 0 && c.len() > 0 {
        if a[0] == b[0] && b[0] == c[0] {
            lemma_lex_trans(a.drop_first(), b.drop_first(), c.drop_first());
        }
    }
}

/// The order of two processes by a column, ascending: texts by code point,
/// numbers by value, CPU usage as `compare_values` orders it, unordered (NaN)
/// counting as equal.
pub open spec fn column_order(key: SortKey, a: ProcessRow, b: ProcessRow) -> Order3 {
    match key {
        SortKey::Name => lex_order(a.name@, b.name@),
        SortKey::Pid => int_order(a.pid as int, b.pid as int),
        SortKey::Cpu => match value_order(a.cpu_usage, b.cpu_usage) {
            Some(o) => o,
            None => Order3::Equal,
        },
        SortKey::Memory => int_order(a.memory_bytes as int, b.memory_bytes as int),
        SortKey::Status => lex_order(a.status@, b.status@),
    }
}

/// The order of two processes by a column and a direction.
pub open spec fn row_order(key: SortKey, desc: bool, a: ProcessRow, b: ProcessRow) -> Order3 {
    if desc {
        flip(column_order(key, a, b))
    } else {
        column_order(key, a, b)
    }
}

/// Whether the rows order totally by the column: true unless the column is
/// CPU usage and some usage is NaN.
pub open spec fn orderable(key: SortKey, rows: Seq<ProcessRow>) -> bool {
    key == SortKey::Cpu ==> forall|i: int| 0 <= i < rows.len() ==> !is_nan(#[trigger] rows[i].cpu_usage)
}

proof fn lemma_row_flip(key: SortKey, desc: bool, a: ProcessRow, b: ProcessRow)
    ensures
        row_order(key, desc, a, b) == flip(row_order(key, desc, b, a)),
{
    match key {
        SortKey::Name => lemma_lex_flip(a.name@, b.name@),
        SortKey::Status => lemma_lex_flip(a.status@, b.status@),
        _ => {},
    }
}

proof fn lemma_row_trans(key: SortKey, desc: bool, a: ProcessRow, b: ProcessRow, c: ProcessRow)
    requires
        key == SortKey::Cpu ==> !is_nan(a.cpu_usage) && !is_nan(b.cpu_usage) && !is_nan(
            c.cpu_usage,
        ),
        row_order(key, desc, a, b) != Order3::Greater,
        row_order(key, desc, b, c) != Order3::Greater,
    ensures
        row_order(key, desc, a, c) != Order3::Greater,
{
    match key {
        SortKey::Name => {
            if desc {
                lemma_lex_flip(a.name@, b.name@);
                lemma_lex_flip(b.name@, c.name@);
                lemma_lex_flip(a.name@, c.name@);
                lemma_lex_trans(c.name@, b.name@, a.name@);
            } else {
                lemma_lex_trans(a.name@, b.name@, c.name@);
            }
        },
        SortKey::Status => {
            if desc {
                lemma_lex_flip(a.status@, b.status@);
                lemma_lex_flip(b.status@, c.status@);
                lemma_lex_flip(a.status@, c.status@);
                lemma_lex_trans(c.status@, b.status@, a.status@);
            } else {
                lemma_lex_trans(a.status@, b.status@, c.status@);
            }
        },
        _ => {},
    }
}

/// The lexicographic order of two texts.
fn lex_compare(a: &[char], b: &[char]) -> (r: Order3)
    ensures
        r == lex_order(a@, b@),
{
    let mut i: usize = 0;
    assert(a@.skip(0) =~= a@);
    assert(b@.skip(0) =~= b@);
    while i < a.len() && i < b.len()
        invariant
            i <= a.len(),
            i <= b.len(),
            lex_order(a@, b@) == lex_order(a@.skip(i as int), b@.skip(i as int)),
        decreases a.len() - i,
    {
        let x = a[i];
        let y = b[i];
        if x < y {
            return Order3::Less;
        }
        if x > y {
            return Order3::Greater;
        }
        assert(a@.skip(i as int).drop_first() =~= a@.skip(i + 1));
        assert(b@.skip(i as int).drop_first() =~= b@.skip(i + 1));
        i += 1;
    }
    if a.len() == i && b.len() == i {
        Order3::Equal
    } else if a.len() == i {
        Order3::Less
    } else {
        Order3::Greater
    }
}

/// The order of two processes by a column and a direction.
pub fn compare_rows(key: SortKey, desc: bool, a: &ProcessRow, b: &ProcessRow) -> (r: Order3)
    ensures
        r == row_order(key, desc, *a, *b),
{
    let o = match key {
        SortKey::Name => {
            let x = chars_of(a.name.as_str());
            let y = chars_of(b.name.as_str());
            lex_compare(x.as_slice(), y.as_slice())
        },
        SortKey::Pid => if a.pid < b.pid {
            Order3::Less
        } else if a.pid == b.pid {
            Order3::Equal
        } else {
            Order3::Greater
        },
        SortKey::Cpu => match compare_values(a.cpu_usage, b.cpu_usage) {
            Some(o) => o,
            None => Order3::Equal,
        },
        SortKey::Memory => if a.memory_bytes < b.memory_bytes {
            Order3::Less
        } else if a.memory_bytes == b.memory_bytes {
            Order3::Equal
        } else {
            Order3::Greater
        },
        SortKey::Status => {
            let x = chars_of(a.status.as_str());
            let y = chars_of(b.status.as_str());
            lex_compare(x.as_slice(), y.as_slice())
        },
    };
    if desc {
        match o {
            Order3::Less => Order3::Greater,
            Order3::Equal => Order3::Equal,
            Order3::Greater => Order3::Less,
        }
    } else {
        o
    }
}


/// Whether `r` holds the rows of `s` rearranged: `r[k]` is `s[perm[k]]`,
/// each row of `s` used once.
pub open spec fn rearranges(r: Seq<ProcessRow>, s: Seq<ProcessRow>, perm: Seq<int>) -> bool {
    &&& perm.len() == r.len() == s.len()
    &&& forall|k: int| 0 <= k < perm.len() ==> 0 <= #[trigger] perm[k] < s.len() && r[k] == s[perm[k]]
    &&& forall|a: int, b: int| 0 <= a < b < perm.len() ==> perm[a] != perm[b]
}

/// Whether `r` is in order by a column and a direction.
pub open spec fn sorted_by(r: Seq<ProcessRow>, key: SortKey, desc: bool) -> bool {
    forall|a: int, b: int| 0 <= a < b < r.len() ==> row_order(key, desc, #[trigger] r[a], #[trigger] r[b]) != Order3::Greater
}

/// Whether rows that compare equal keep their original relative order.
pub open spec fn stable(r: Seq<ProcessRow>, perm: Seq<int>, key: SortKey, desc: bool) -> bool {
    forall|a: int, b: int|
        0 <= a < b < r.len() && row_order(key, desc, #[trigger] r[a], #[trigger] r[b]) == Order3::Equal ==> perm[a]
            < perm[b]
}

/// Whether `r` is `s` sorted stably by a column and a direction: always a
/// rearrangement of `s`; in order, equal rows keeping their relative order,
/// whenever the rows order totally by that column.
pub open spec fn stable_sort_of(r: Seq<ProcessRow>, s: Seq<ProcessRow>, key: SortKey, desc: bool) -> bool {
    exists|perm: Seq<int>|
        rearranges(r, s, perm) && (orderable(key, s) ==> sorted_by(r, key, desc) && stable(
            r,
            perm,
            key,
            desc,
        ))
}

/// No row's CPU usage is NaN when the column is CPU usage.
pub open spec fn row_orderable(key: SortKey, x: ProcessRow) -> bool {
    key == SortKey::Cpu ==> !is_nan(x.cpu_usage)
}

proof fn lemma_insert_sorted(o: Seq<ProcessRow>, x: ProcessRow, j: int, key: SortKey, desc: bool)
    requires
        0 <= j <= o.len(),
        sorted_by(o, key, desc),
        forall|k: int| 0 <= k < o.len() ==> row_orderable(key, #[trigger] o[k]),
        row_orderable(key, x),
        j > 0 ==> row_order(key, desc, o[j - 1], x) != Order3::Greater,
        forall|m: int| j <= m < o.len() ==> row_order(key, desc, #[trigger] o[m], x) == Order3::Greater,
    ensures
        sorted_by(o.insert(j, x), key, desc),
{
    let n = o.insert(j, x);
    assert forall|a: int, b: int| 0 <= a < b < n.len() implies row_order(
        key,
        desc,
        #[trigger] n[a],
        #[trigger] n[b],
    ) != Order3::Greater by {
        if b < j {
            assert(n[a] == o[a] && n[b] == o[b]);
        } else if b == j {
            assert(n[a] == o[a]);
            if a < j - 1 {
                assert(row_order(key, desc, o[a], o[j - 1]) != Order3::Greater);
                assert(row_orderable(key, o[a]) && row_orderable(key, o[j - 1]));
                lemma_row_trans(key, desc, o[a], o[j - 1], x);
            }
        } else if a == j {
            assert(n[b] == o[b - 1]);
            assert(row_order(key, desc, o[b - 1], x) == Order3::Greater);
            lemma_row_flip(key, desc, o[b - 1], x);
        } else if a < j {
            assert(n[a] == o[a] && n[b] == o[b - 1]);
        } else {
            assert(n[a] == o[a - 1] && n[b] == o[b - 1]);
        }
    }
}

proof fn lemma_insert_stable(
    o: Seq<ProcessRow>,
    p: Seq<int>,
    x: ProcessRow,
    j: int,
    i: int,
    key: SortKey,
    desc: bool,
)
    requires
        0 <= j <= o.len(),
        p.len() == o.len(),
        forall|k: int| 0 <= k < p.len() ==> #[trigger] p[k] < i,
        stable(o, p, key, desc),
        forall|m: int| j <= m < o.len() ==> row_order(key, desc, #[trigger] o[m], x) == Order3::Greater,
    ensures
        stable(o.insert(j, x), p.insert(j, i), key, desc),
{
    let n = o.insert(j, x);
    let q = p.insert(j, i);
    assert forall|a: int, b: int|
        0 <= a < b < n.len() && row_order(key, desc, #[trigger] n[a], #[trigger] n[b])
            == Order3::Equal implies q[a] < q[b] by {
        if b < j {
            assert(n[a] == o[a] && n[b] == o[b]);
            assert(q[a] == p[a] && q[b] == p[b]);
        } else if b == j {
            assert(q[a] == p[a]);
        } else if a == j {
            assert(n[b] == o[b - 1]);
            assert(row_order(key, desc, o[b - 1], x) == Order3::Greater);
            lemma_row_flip(key, desc, o[b - 1], x);
        } else if a < j {
            assert(n[a] == o[a] && n[b] == o[b - 1]);
            assert(q[a] == p[a] && q[b] == p[b - 1]);
        } else {
            assert(n[a] == o[a - 1] && n[b] == o[b - 1]);
            assert(q[a] == p[a - 1] && q[b] == p[b - 1]);
        }
    }
}

proof fn lemma_insert_rearranges(
    o: Seq<ProcessRow>,
    p: Seq<int>,
    s: Seq<ProcessRow>,
    j: int,
    i: int,
)
    requires
        0 <= j <= o.len(),
        i == o.len() == p.len(),
        i < s.len(),
        forall|k: int| 0 <= k < i ==> 0 <= #[trigger] p[k] < i && o[k] == s[p[k]],
        forall|a: int, b: int| 0 <= a < b < i ==> p[a] != p[b],
    ensures
        forall|k: int|
            0 <= k < i + 1 ==> 0 <= #[trigger] p.insert(j, i)[k] < i + 1 && o.insert(j, s[i])[k]
                == s[p.insert(j, i)[k]],
        forall|a: int, b: int| 0 <= a < b < i + 1 ==> p.insert(j, i)[a] != p.insert(j, i)[b],
{
    let q = p.insert(j, i);
    let n = o.insert(j, s[i]);
    assert forall|k: int| 0 <= k < i + 1 implies 0 <= #[trigger] q[k] < i + 1 && n[k] == s[q[k]] by {
        if k < j {
            assert(q[k] == p[k] && n[k] == o[k]);
        } else if k > j {
            assert(q[k] == p[k - 1] && n[k] == o[k - 1]);
        }
    }
    assert forall|a: int, b: int| 0 <= a < b < i + 1 implies q[a] != q[b] by {
        if b < j {
            assert(q[a] == p[a] && q[b] == p[b]);
        } else if b == j {
            assert(q[a] == p[a]);
        } else if a == j {
            assert(q[b] == p[b - 1]);
        } else if a < j {
            assert(q[a] == p[a] && q[b] == p[b - 1]);
        } else {
            assert(q[a] == p[a - 1] && q[b] == p[b - 1]);
        }
    }
}

/// The rows sorted stably by a column and a direction (insertion sort; each
/// row goes after the rows already placed that do not compare greater).
pub fn sort_rows(rows: &[ProcessRow], key: SortKey, desc: bool) -> (r: Vec<ProcessRow>)
    ensures
        stable_sort_of(r@, rows@, key, desc),
{
    let ghost s = rows@;
    let ghost ok = orderable(key, s);
    let mut out: Vec<ProcessRow> = Vec::new();
    let ghost mut perm: Seq<int> = seq![];
    let mut i: usize = 0;
    while i < rows.len()
        invariant
            i <= rows.len(),
            s == rows@,
            ok == orderable(key, s),
            out@.len() == i,
            perm.len() == i,
            forall|k: int| 0 <= k < i ==> 0 <= #[trigger] perm[k] < i && out@[k] == s[perm[k]],
            forall|a: int, b: int| 0 <= a < b < i ==> perm[a] != perm[b],
            ok ==> sorted_by(out@, key, desc),
            ok ==> stable(out@, perm, key, desc),
        decreases rows.len() - i,
    {
        let x = rows[i].copy();
        let mut j: usize = out.len();
        while j > 0 && compare_rows(key, desc, &out[j - 1], &x) == Order3::Greater
            invariant
                j <= out@.len(),
                forall|m: int| j <= m < out@.len() ==> row_order(key, desc, #[trigger] out@[m], x) == Order3::Greater,
            decreases j,
        {
            j -= 1;
        }
        let ghost o = out@;
        let ghost p = perm;
        proof {
            lemma_insert_rearranges(o, p, s, j as int, i as int);
            if ok {
                assert forall|k: int| 0 <= k < o.len() implies row_orderable(key, #[trigger] o[k]) by {
                    assert(o[k] == s[p[k]]);
                }
                assert(row_orderable(key, x)) by {
                    assert(x == s[i as int]);
                }
                lemma_insert_sorted(o, x, j as int, key, desc);
                lemma_insert_stable(o, p, x, j as int, i as int, key, desc);
            }
        }
        out.insert(j, x);
        proof {
            perm = p.insert(j as int, i as int);
        }
        i += 1;
    }
    assert(rearranges(out@, s, perm));
    out
}


/// Whether a name passes a (lowercase) filter: the filter is empty, or the
/// name's lowercase holds it.
pub open spec fn passes(name: Seq<char>, needle: Seq<char>) -> bool {
    needle.len() == 0 || contains(lowercase(name), needle)
}

/// The processes whose name passes the filter, in order.
pub open spec fn filter_rows(ps: Seq<ProcessRow>, needle: Seq<char>) -> Seq<ProcessRow>
    decreases ps.len(),
{
    if ps.len() == 0 {
        seq![]
    } else if passes(ps.last().name@, needle) {
        filter_rows(ps.drop_last(), needle).push(ps.last())
    } else {
        filter_rows(ps.drop_last(), needle)
    }
}

/// The services whose name or description passes the filter, in order.
pub open spec fn filter_services(ss: Seq<ServiceSpec>, needle: Seq<char>) -> Seq<ServiceSpec>
    decreases ss.len(),
{
    if ss.len() == 0 {
        seq![]
    } else if needle.len() == 0 || contains(lowercase(ss.last().name), needle) || contains(
        lowercase(ss.last().description),
        needle,
    ) {
        filter_services(ss.drop_last(), needle).push(ss.last())
    } else {
        filter_services(ss.drop_last(), needle)
    }
}

/// Whether the lowercase of `text` holds `needle`.
fn lower_contains(text: &String, needle: &[char]) -> (r: bool)
    ensures
        r == contains(lowercase(text@), needle@),
{
    let low = to_lowercase(text.as_str());
    let l = chars_of(low.as_str());
    contains_chars(l.as_slice(), needle)
}

/// The processes whose name passes `filter` (both compared in lowercase),
/// in order.
pub fn filter_processes(processes: &[ProcessRow], filter: &str) -> (r: Vec<ProcessRow>)
    ensures
        r@ == filter_rows(processes@, lowercase(filter@)),
{
    let low = to_lowercase(filter);
    let needle = chars_of(low.as_str());
    let mut kept: Vec<ProcessRow> = Vec::new();
    let mut i: usize = 0;
    while i < processes.len()
        invariant
            i <= processes.len(),
            needle@ == lowercase(filter@),
            kept@ == filter_rows(processes@.take(i as int), needle@),
        decreases processes.len() - i,
    {
        assert(processes@.take(i + 1).drop_last() =~= processes@.take(i as int));
        assert(processes@.take(i + 1).last() == processes@[i as int]);
        if needle.len() == 0 || lower_contains(&processes[i].name, needle.as_slice()) {
            kept.push(processes[i].copy());
        }
        i += 1;
    }
    assert(processes@.take(processes.len() as int) =~= processes@);
    kept
}

/// Whether `needle` occurs somewhere in `hay`, at any position.
proof fn lemma_contains_any_position(hay: Seq<char>, needle: Seq<char>)
    ensures
        contains(hay, needle) == exists|i: int|
            0 <= i && i + needle.len() <= hay.len() && #[trigger] hay.subrange(i, i + needle.len()) == needle,
{
    if contains(hay, needle) {
        let i = choose|i: int| occurs_at(hay, needle, i);
        assert(hay.subrange(i, i + needle.len()) == needle);
    }
    if exists|i: int|
        0 <= i && i + needle.len() <= hay.len() && #[trigger] hay.subrange(i, i + needle.len()) == needle {
        let i = choose|i: int|
            0 <= i && i + needle.len() <= hay.len() && #[trigger] hay.subrange(i, i + needle.len()) == needle;
        assert(occurs_at(hay, needle, i));
    }
}

/// The process filter keeps, in their order, exactly the processes whose
/// lowercase name holds the filter somewhere (at any position), and all of
/// them when the filter is empty.
pub proof fn law_process_filter_is_substring_match(ps: Seq<ProcessRow>, needle: Seq<char>)
    ensures
        filter_rows(ps, needle) == ps.filter(
            |p: ProcessRow|
                needle.len() == 0 || exists|i: int|
                    0 <= i && i + needle.len() <= lowercase(p.name@).len() && #[trigger] lowercase(
                        p.name@,
                    ).subrange(i, i + needle.len()) == needle,
        ),
    decreases ps.len(),
{
    reveal(Seq::filter);
    if ps.len() > 0 {
        law_process_filter_is_substring_match(ps.drop_last(), needle);
        lemma_contains_any_position(lowercase(ps.last().name@), needle);
    }
}

/// The service filter keeps, in their order, exactly the services whose
/// lowercase name or lowercase description holds the filter somewhere, and
/// all of them when the filter is empty.
pub proof fn law_service_filter_is_substring_match(ss: Seq<ServiceSpec>, needle: Seq<char>)
    ensures
        filter_services(ss, needle) == ss.filter(
            |s: ServiceSpec|
                needle.len() == 0 || (exists|i: int|
                    0 <= i && i + needle.len() <= lowercase(s.name).len() && #[trigger] lowercase(
                        s.name,
                    ).subrange(i, i + needle.len()) == needle) || (exists|i: int|
                    0 <= i && i + needle.len() <= lowercase(s.description).len() && #[trigger] lowercase(
                        s.description,
                    ).subrange(i, i + needle.len()) == needle),
        ),
    decreases ss.len(),
{
    reveal(Seq::filter);
    if ss.len() > 0 {
        law_service_filter_is_substring_match(ss.drop_last(), needle);
        lemma_contains_any_position(lowercase(ss.last().name), needle);
        lemma_contains_any_position(lowercase(ss.last().description), needle);
    }
}

/// What the user interface keeps between events.
pub struct Shared {
    pub filtered_rows: Vec<ProcessRow>,
    pub sort_key: SortKey,
    pub sort_desc: bool,
    pub filter_text: String,
    pub selected_pid: Option<u32>,
    pub service_filter_text: String,
    pub filtered_services: Vec<ServiceRow>,
    pub selected_service: Option<String>,
    pub selected_startup: Option<(String, StartupSource)>,
}

impl Shared {
    /// The state at start: by CPU usage, descending; no filter, no selection.
    pub fn new() -> (s: Self)
        ensures
            s.filtered_rows@.len() == 0,
            s.sort_key == SortKey::Cpu,
            s.sort_desc,
            s.filter_text@.len() == 0,
            s.selected_pid is None,
            s.service_filter_text@.len() == 0,
            s.filtered_services@.len() == 0,
            s.selected_service is None,
            s.selected_startup is None,
    {
        Shared {
            filtered_rows: Vec::new(),
            sort_key: SortKey::Cpu,
            sort_desc: true,
            filter_text: String::new(),
            selected_pid: None,
            service_filter_text: String::new(),
            filtered_services: Vec::new(),
            selected_service: None,
            selected_startup: None,
        }
    }

    /// Recomputes the shown processes from the current ones: those whose
    /// name passes the filter (compared in lowercase), sorted stably by the
    /// sort column and direction.
    pub fn recompute_rows(&mut self, processes: &[ProcessRow])
        ensures
            stable_sort_of(
                final(self).filtered_rows@,
                filter_rows(processes@, lowercase(old(self).filter_text@)),
                old(self).sort_key,
                old(self).sort_desc,
            ),
            final(self).sort_key == old(self).sort_key,
            final(self).sort_desc == old(self).sort_desc,
            final(self).filter_text == old(self).filter_text,
            final(self).selected_pid == old(self).selected_pid,
            final(self).service_filter_text == old(self).service_filter_text,
            final(self).filtered_services == old(self).filtered_services,
            final(self).selected_service == old(self).selected_service,
            final(self).selected_startup == old(self).selected_startup,
    {
        let kept = filter_processes(processes, self.filter_text.as_str());
        self.filtered_rows = sort_rows(kept.as_slice(), self.sort_key, self.sort_desc);
    }

    /// Recomputes the shown services from the current ones: those whose
    /// name or description passes the service filter (in lowercase).
    pub fn recompute_services(&mut self, services: &[ServiceRow])
        ensures
            rows_view(final(self).filtered_services@) == filter_services(
                rows_view(services@),
                lowercase(old(self).service_filter_text@),
            ),
            final(self).filtered_rows == old(self).filtered_rows,
            final(self).sort_key == old(self).sort_key,
            final(self).sort_desc == old(self).sort_desc,
            final(self).filter_text == old(self).filter_text,
            final(self).selected_pid == old(self).selected_pid,
            final(self).service_filter_text == old(self).service_filter_text,
            final(self).selected_service == old(self).selected_service,
            final(self).selected_startup == old(self).selected_startup,
    {
        let low = to_lowercase(self.service_filter_text.as_str());
        let needle = chars_of(low.as_str());
        let mut kept: Vec<ServiceRow> = Vec::new();
        let mut i: usize = 0;
        assert(rows_view(kept@) =~= seq![]);
        while i < services.len()
            invariant
                i <= services.len(),
                needle@ == lowercase(self.service_filter_text@),
                rows_view(kept@) == filter_services(rows_view(services@).take(i as int), needle@),
            decreases services.len() - i,
        {
            assert(rows_view(services@).take(i + 1).drop_last() =~= rows_view(services@).take(
                i as int,
            ));
            assert(rows_view(services@).take(i + 1).last() == services@[i as int]@);
            if needle.len() == 0 || lower_contains(&services[i].name, needle.as_slice())
                || lower_contains(&services[i].description, needle.as_slice()) {
                kept.push(services[i].copy());
                assert(rows_view(kept@) =~= filter_services(
                    rows_view(services@).take(i + 1),
                    needle@,
                ));
            }
            i += 1;
        }
        assert(rows_view(services@).take(services.len() as int) =~= rows_view(services@));
        self.filtered_services = kept;
    }

    /// A click on the header of column `col`: a click on the sort column
    /// reverses the direction, a click on another column sorts by it,
    /// descending. Returns whether `col` is a column of the table (other
    /// clicks change nothing).
    pub fn click_column(&mut self, col: usize) -> (handled: bool)
        ensures
            handled == (col < 5),
            handled && old(self).sort_key == COLUMN_KEYS[col as int] ==> final(self).sort_key
                == old(self).sort_key && final(self).sort_desc == !old(self).sort_desc,
            handled && old(self).sort_key != COLUMN_KEYS[col as int] ==> final(self).sort_key
                == COLUMN_KEYS[col as int] && final(self).sort_desc,
            !handled ==> final(self).sort_key == old(self).sort_key && final(self).sort_desc
                == old(self).sort_desc,
            final(self).filtered_rows == old(self).filtered_rows,
            final(self).filter_text == old(self).filter_text,
            final(self).selected_pid == old(self).selected_pid,
    {
        if col >= 5 {
            return false;
        }
        let k = COLUMN_KEYS[col];
        if self.sort_key == k {
            self.sort_desc = !self.sort_desc;
        } else {
            self.sort_key = k;
            self.sort_desc = true;
        }
        true
    }

    /// The arrow shown in the header of column `col`: `" ▼"` or `" ▲"` on
    /// the sort column (descending or ascending), none elsewhere.
    pub fn sort_arrow(&self, col: usize) -> (r: Option<&'static str>)
        ensures
            match r {
                Some(a) => col < 5 && COLUMN_KEYS[col as int] == self.sort_key && a@ == (if self.sort_desc {
                    " ▼"@
                } else {
                    " ▲"@
                }),
                None => col >= 5 || COLUMN_KEYS[col as int] != self.sort_key,
            },
    {
        if col < 5 && COLUMN_KEYS[col] == self.sort_key {
            Some(
                if self.sort_desc {
                    " ▼"
                } else {
                    " ▲"
                },
            )
        } else {
            None
        }
    }

    /// Selects the process shown at `row`, if there is one; returns it.
    pub fn select_process(&mut self, row: usize) -> (r: Option<&ProcessRow>)
        ensures
            row < old(self).filtered_rows@.len() ==> r == Some(&old(self).filtered_rows@[row as int])
                && final(self).selected_pid == Some(old(self).filtered_rows@[row as int].pid),
            row >= old(self).filtered_rows@.len() ==> r is None && final(self).selected_pid == old(
                self,
            ).selected_pid,
            final(self).filtered_rows == old(self).filtered_rows,
    {
        if row < self.filtered_rows.len() {
            self.selected_pid = Some(self.filtered_rows[row].pid);
            Some(&self.filtered_rows[row])
        } else {
            None
        }
    }
}

} // verus!

//! Decisions behind the drawing of tables and graphs: colors, header
//! labels, and how the width of a table is shared among its columns.

use vstd::prelude::*;
use crate::ui_style::{ACCENT, ROW_BG_EVEN, ROW_BG_ODD, TEXT_DARK, TEXT_LIGHT};

verus! {

/// An RGB color.
pub type Rgb = (u8, u8, u8);

/// The background of a table cell: the accent color when its row is
/// selected, else alternating colors by row parity.
pub open spec fn row_background_spec(row: i32, is_selected: bool) -> Rgb {
    if is_selected {
        ACCENT
    } else if row % 2 == 0 {
        ROW_BG_EVEN
    } else {
        ROW_BG_ODD
    }
}

/// The background of a table cell.
pub fn row_background(row: i32, is_selected: bool) -> (c: Rgb)
    ensures
        c == row_background_spec(row, is_selected),
{
    if is_selected {
        ACCENT
    } else if row % 2 == 0 {
        ROW_BG_EVEN
    } else {
        ROW_BG_ODD
    }
}

/// The text color of a table cell: dark on a selected row, light elsewhere.
pub fn row_text_color(is_selected: bool) -> (c: Rgb)
    ensures
        c == (if is_selected {
            TEXT_DARK
        } else {
            TEXT_LIGHT
        }),
{
    if is_selected {
        TEXT_DARK
    } else {
        TEXT_LIGHT
    }
}

/// The label of a column header: its title, followed by the sort arrow if
/// the column is the sort column.
pub fn header_label(title: &str, sort_arrow: Option<&str>) -> (r: String)
    ensures
        r@ == match sort_arrow {
            Some(a) => title@ + a@,
            None => title@,
        },
{
    let mut r = String::from_str(title);
    match sort_arrow {
        Some(a) => r.append(a),
        None => {},
    }
    r
}

/// The count of input rows as an `i32`, as `as` converts it.
pub open spec fn field_count(fields: usize) -> int {
    (#[verifier::truncate] (fields as i32)) as int
}

/// The height of an input dialog with `fields` input rows (their count
/// taken as an `i32`, as `as` converts it), where each step of computing it
/// stays an `i32`.
pub fn prompt_height(fields: usize) -> (h: i32)
    requires
        i32::MIN <= field_count(fields) * 34,
        70 + field_count(fields) * 34 + 50 <= i32::MAX,
    ensures
        h == 70 + field_count(fields) * 34 + 50,
{
    let n: i32 = #[verifier::truncate] (fields as i32);
    70 + n * 34 + 50
}

/// Whether the initial column widths are to be applied now: once every
/// table is wider than a sane minimum, or when no retry is left.
pub fn initial_widths_ready(widths: &[i32], min_sane: i32, retries_left: u32) -> (r: bool)
    ensures
        r == ((forall|i: int| 0 <= i < widths.len() ==> widths@[i] > min_sane) || retries_left == 0),
{
    let mut i: usize = 0;
    while i < widths.len()
        invariant
            i <= widths.len(),
            forall|j: int| 0 <= j < i ==> widths@[j] > min_sane,
        decreases widths.len() - i,
    {
        if widths[i] <= min_sane {
            return retries_left == 0;
        }
        i += 1;
    }
    true
}

/// Where applying the initial column widths stands: how many retries are
/// left, and whether the widths have been applied.
#[derive(Clone, Copy, Debug)]
pub struct InitialWidths {
    retries_left: u32,
    applied: bool,
}

impl View for InitialWidths {
    type V = (nat, bool);

    closed spec fn view(&self) -> (nat, bool) {
        (self.retries_left as nat, self.applied)
    }
}

/// One look at the tables' widths: once applied, nothing more happens;
/// otherwise the widths are applied when every table is wider than
/// `min_sane` or no retry is left, and else one retry is used up. Gives the
/// new state and whether to apply the widths now.
pub open spec fn width_step(s: (nat, bool), widths: Seq<i32>, min_sane: i32) -> ((nat, bool), bool) {
    if s.1 {
        (s, false)
    } else if (forall|i: int| 0 <= i < widths.len() ==> widths[i] > min_sane) || s.0 == 0 {
        ((s.0, true), true)
    } else {
        (((s.0 - 1) as nat, false), false)
    }
}

/// Whether the widths are applied at each of a series of looks.
pub open spec fn width_run(s: (nat, bool), looks: Seq<Seq<i32>>, min_sane: i32) -> Seq<bool>
    decreases looks.len(),
{
    if looks.len() == 0 {
        seq![]
    } else {
        let (t, apply) = width_step(s, looks[0], min_sane);
        seq![apply] + width_run(t, looks.drop_first(), min_sane)
    }
}

impl InitialWidths {
    /// Nothing applied yet, with `retries` retries allowed.
    pub fn new(retries: u32) -> (s: Self)
        ensures
            s@ == (retries as nat, false),
    {
        InitialWidths { retries_left: retries, applied: false }
    }

    /// One look at the tables' widths; whether to apply the widths now.
    pub fn observe(&mut self, widths: &[i32], min_sane: i32) -> (apply: bool)
        ensures
            (final(self)@, apply) == width_step(old(self)@, widths@, min_sane),
    {
        if self.applied {
            return false;
        }
        if initial_widths_ready(widths, min_sane, self.retries_left) {
            self.applied = true;
            true
        } else {
            self.retries_left = self.retries_left - 1;
            false
        }
    }

    /// Whether the widths are still to be applied (and the tables looked at
    /// again later).
    pub fn pending(&self) -> (r: bool)
        ensures
            r == !self@.1,
    {
        !self.applied
    }
}

proof fn lemma_width_run_done(s: (nat, bool), looks: Seq<Seq<i32>>, min_sane: i32)
    requires
        s.1,
    ensures
        width_run(s, looks, min_sane).len() == looks.len(),
        forall|j: int| 0 <= j < looks.len() ==> !#[trigger] width_run(s, looks, min_sane)[j],
    decreases looks.len(),
{
    if looks.len() > 0 {
        lemma_width_run_done(s, looks.drop_first(), min_sane);
        let r = width_run(s, looks, min_sane);
        assert forall|j: int| 0 <= j < looks.len() implies !#[trigger] r[j] by {
            if j > 0 {
                assert(r[j] == width_run(s, looks.drop_first(), min_sane)[j - 1]);
            }
        }
    }
}

/// Starting with `retries` retries, the widths are applied exactly once,
/// at one of the first `retries + 1` looks, and never again.
pub proof fn law_initial_widths_applied_once(retries: nat, looks: Seq<Seq<i32>>, min_sane: i32)
    requires
        looks.len() > retries,
    ensures
        width_run((retries, false), looks, min_sane).len() == looks.len(),
        exists|i: int|
            0 <= i <= retries && #[trigger] width_run((retries, false), looks, min_sane)[i] && forall|j: int|
                0 <= j < looks.len() && j != i ==> !#[trigger] width_run((retries, false), looks, min_sane)[j],
    decreases retries,
{
    let s = (retries, false);
    let r = width_run(s, looks, min_sane);
    let (t, apply) = width_step(s, looks[0], min_sane);
    let rest = width_run(t, looks.drop_first(), min_sane);
    assert(r == seq![apply] + rest);
    if apply {
        lemma_width_run_done(t, looks.drop_first(), min_sane);
        assert(r[0]);
        assert forall|j: int| 0 <= j < looks.len() && j != 0 implies !#[trigger] r[j] by {
            assert(r[j] == rest[j - 1]);
        }
    } else {
        assert(retries > 0);
        law_initial_widths_applied_once((retries - 1) as nat, looks.drop_first(), min_sane);
        let i = choose|i: int|
            0 <= i <= retries - 1 && #[trigger] width_run(((retries - 1) as nat, false), looks.drop_first(), min_sane)[i]
                && forall|j: int|
                0 <= j < looks.len() - 1 && j != i ==> !#[trigger] width_run(
                    ((retries - 1) as nat, false),
                    looks.drop_first(),
                    min_sane,
                )[j];
        assert(t == ((retries - 1) as nat, false));
        assert(r[i + 1] == rest[i]);
        assert forall|j: int| 0 <= j < looks.len() && j != i + 1 implies !#[trigger] r[j] by {
            if j > 0 {
                assert(r[j] == rest[j - 1]);
            }
        }
    }
}

/// `a / b` truncated toward zero, as integer division does in Rust.
pub open spec fn trunc_div(a: int, b: int) -> int {
    if a >= 0 {
        a / b
    } else {
        -((-a) / b)
    }
}

/// The sum of some integers.
pub open spec fn sum(ws: Seq<int>) -> int
    decreases ws.len(),
{
    if ws.len() == 0 {
        0
    } else {
        sum(ws.drop_last()) + ws.last()
    }
}

/// The integers of a sequence of `i32`.
pub open spec fn ints(ws: Seq<i32>) -> Seq<int> {
    ws.map_values(|w: i32| w as int)
}

/// The larger of an integer and 20.
pub open spec fn at_least_20(x: int) -> int {
    if x > 20 {
        x
    } else {
        20
    }
}

/// An integer as `as` converts it to an `i32`.
pub open spec fn wrap32(x: int) -> int {
    (#[verifier::truncate] (x as i32)) as int
}

/// The widths of all columns but the last: each takes its weight's share
/// of `available` (truncated), and at least 20, converted to an `i32`.
pub open spec fn leading_widths(available: int, ws: Seq<int>, total: int) -> Seq<int>
    decreases ws.len(),
{
    if ws.len() == 0 {
        seq![]
    } else {
        leading_widths(available, ws.drop_last(), total).push(
            wrap32(at_least_20(trunc_div(available * ws.last(), total))),
        )
    }
}

/// The column widths for a table `available` pixels wide: the leading
/// columns by weight, the last taking what remains, each at least 20.
pub open spec fn weighted_widths(available: int, ws: Seq<int>) -> Seq<int> {
    let n = ws.len();
    let lead = leading_widths(available, ws.subrange(0, n - 1), sum(ws));
    lead.push(at_least_20(available - sum(lead)))
}

/// Whether every partial sum of `xs` is an `i32`.
pub open spec fn sums_fit(xs: Seq<int>) -> bool {
    forall|k: int| 0 <= k <= xs.len() ==> i32::MIN <= #[trigger] sum(xs.take(k)) <= i32::MAX
}

proof fn lemma_sum_take(xs: Seq<int>, k: int)
    requires
        0 <= k < xs.len(),
    ensures
        sum(xs.take(k + 1)) == sum(xs.take(k)) + xs[k],
{
    assert(xs.take(k + 1).drop_last() =~= xs.take(k));
}

/// The widths of the columns of a table `available` pixels wide, shared by
/// weight; `None` when the weights do not add up to a positive total (the
/// widths are then left as they are). Defined where the sums of the weights
/// and of the widths stay within `i32`.
pub fn weighted_col_widths(available: i32, weights: &[i32]) -> (r: Option<Vec<i32>>)
    requires
        sums_fit(ints(weights@)),
        sum(ints(weights@)) > 0 ==> {
            let w = weighted_widths(available as int, ints(weights@));
            &&& sums_fit(w)
            &&& i32::MIN <= available - sum(w.drop_last()) <= i32::MAX
        },
    ensures
        sum(ints(weights@)) <= 0 ==> r is None,
        sum(ints(weights@)) > 0 ==> (r matches Some(v) && ints(v@) == weighted_widths(
            available as int,
            ints(weights@),
        )),
{
    let ghost ws = ints(weights@);
    let mut total: i32 = 0;
    let mut i: usize = 0;
    while i < weights.len()
        invariant
            i <= weights.len(),
            ws == ints(weights@),
            sums_fit(ws),
            total == sum(ws.take(i as int)),
        decreases weights.len() - i,
    {
        proof {
            lemma_sum_take(ws, i as int);
        }
        assert(sum(ws.take(i + 1)) <= i32::MAX && sum(ws.take(i + 1)) >= i32::MIN);
        total = total + weights[i];
        i += 1;
    }
    assert(ws.take(weights.len() as int) =~= ws);
    if total <= 0 {
        return None;
    }
    let n = weights.len();
    let ghost lead_all = leading_widths(available as int, ws.subrange(0, n - 1), total as int);
    let ghost w = weighted_widths(available as int, ws);
    let mut out: Vec<i32> = Vec::new();
    let mut used: i32 = 0;
    let mut k: usize = 0;
    while k + 1 < n
        invariant
            n == weights.len() >= 1,
            ws == ints(weights@),
            total as int == sum(ws),
            total > 0,
            k < n,
            lead_all == leading_widths(available as int, ws.subrange(0, n - 1), total as int),
            w == weighted_widths(available as int, ws),
            sums_fit(w),
            ints(out@) == leading_widths(available as int, ws.subrange(0, k as int), total as int),
            used == sum(ints(out@)),
        decreases n - k,
    {
        let a64 = available as i64;
        let w64 = weights[k] as i64;
        assert(-0x4000_0000_0000_0000 <= a64 * w64 <= 0x4000_0000_0000_0000) by (nonlinear_arith)
            requires
                -0x8000_0000 <= a64 <= 0x8000_0000,
                -0x8000_0000 <= w64 <= 0x8000_0000,
        ;
        let prod: i64 = a64 * w64;
        let q: i64 = if prod >= 0 {
            prod / (total as i64)
        } else {
            -((-prod) / (total as i64))
        };
        let width: i64 = if q > 20 {
            q
        } else {
            20
        };
        proof {
            assert(ws.subrange(0, k + 1).drop_last() =~= ws.subrange(0, k as int));
            assert(ws.subrange(0, k + 1).last() == ws[k as int]);
            assert(leading_widths(available as int, ws.subrange(0, k + 1), total as int)
                == leading_widths(available as int, ws.subrange(0, k as int), total as int).push(
                wrap32(width as int),
            ));
            lemma_leading_prefix(available as int, ws.subrange(0, n - 1), total as int, k + 1);
            assert(ws.subrange(0, n - 1).take(k + 1) =~= ws.subrange(0, k + 1));
            assert(w[k as int] == lead_all[k as int]);
            assert(lead_all.take(k + 1) == leading_widths(available as int, ws.subrange(0, k + 1), total as int));
            assert(w.take(k + 1) =~= lead_all.take(k + 1));
            lemma_sum_take(w, k as int);
        }
        let wi: i32 = #[verifier::truncate] (width as i32);
        assert(wi as int == wrap32(width as int));
        let ghost old_ints = ints(out@);
        out.push(wi);
        assert(ints(out@) =~= leading_widths(available as int, ws.subrange(0, k + 1), total as int));
        assert(ints(out@).drop_last() =~= old_ints);
        assert(w.take(k + 1) =~= ints(out@));
        assert(sum(w.take(k + 1)) <= i32::MAX && sum(w.take(k + 1)) >= i32::MIN);
        used = used + wi;
        k += 1;
    }
    proof {
        assert(ints(out@) == lead_all);
        assert(w.drop_last() =~= lead_all);
    }
    let rest = available - used;
    let last = if rest > 20 {
        rest
    } else {
        20
    };
    out.push(last);
    assert(ints(out@) =~= w);
    Some(out)
}

/// The first `k` leading widths depend on the first `k` weights only.
proof fn lemma_leading_prefix(available: int, ws: Seq<int>, total: int, k: int)
    requires
        0 <= k <= ws.len(),
    ensures
        leading_widths(available, ws, total).len() == ws.len(),
        leading_widths(available, ws, total).take(k) == leading_widths(available, ws.take(k), total),
    decreases ws.len(),
{
    if ws.len() > 0 {
        if k == ws.len() {
            lemma_leading_prefix(available, ws.drop_last(), total, k - 1);
            assert(ws.take(k) =~= ws);
            assert(leading_widths(available, ws, total).take(k) =~= leading_widths(available, ws, total));
        } else {
            lemma_leading_prefix(available, ws.drop_last(), total, k);
            assert(ws.drop_last().take(k) =~= ws.take(k));
            assert(leading_widths(available, ws, total).take(k) =~= leading_widths(
                available,
                ws.drop_last(),
                total,
            ).take(k));
        }
    } else {
        assert(ws.take(k) =~= ws);
        assert(leading_widths(available, ws, total).take(k) =~= leading_widths(available, ws, total));
    }
}

} // verus!

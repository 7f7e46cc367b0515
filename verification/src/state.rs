//! What the application keeps between refreshes: byte sizes for display,
//! bounded histories, the choice of the temperature to plot, and when to
//! list services again.

use vstd::prelude::*;
use std::collections::VecDeque;
use crate::ieee::{gt, key, order_key, value_order, Order3, ONE_BITS};
use crate::text::{
    chars_of, contains, contains_chars, dec, dec_u128, digit, digit_char, lowercase, occurs_at, to_lowercase,
};

verus! {

/// `2^e`.
pub open spec fn p2(e: nat) -> nat
    decreases e,
{
    if e == 0 {
        1
    } else {
        2 * p2((e - 1) as nat)
    }
}

/// `1024^k`.
pub open spec fn p1024(k: nat) -> nat
    decreases k,
{
    if k == 0 {
        1
    } else {
        1024 * p1024((k - 1) as nat)
    }
}

/// `2^53`: integers below it are exact as `f64`.
pub const F64_SPAN: u128 = 9007199254740992u128;

/// The smallest shift `s >= from` with `n < 2^53 * 2^s`: the number of low
/// bits that `n as f64` rounds away.
pub open spec fn shift_for(n: nat, from: nat) -> nat
    decreases 64 - from,
{
    if from >= 64 || n < F64_SPAN * p2(from) {
        from
    } else {
        shift_for(n, from + 1)
    }
}

/// `num / den` rounded to the nearest integer, ties to even.
pub open spec fn round_half_even(num: nat, den: nat) -> nat {
    let q = num / den;
    let r = num % den;
    if 2 * r > den || (2 * r == den && q % 2 == 1) {
        q + 1
    } else {
        q
    }
}

/// The value of `n as f64`, as an integer: `n` rounded to 53 significant
/// bits, ties to even.
pub open spec fn as_f64(n: nat) -> nat {
    let p = p2(shift_for(n, 0));
    round_half_even(n, p) * p
}

/// How many times `v` is divided by 1024, from `k` on, while it stays at or
/// above 1024 and a larger unit remains.
pub open spec fn unit_index(v: nat, k: nat) -> nat
    decreases 4 - k,
{
    if k >= 4 || v < p1024(k + 1) {
        k
    } else {
        unit_index(v, k + 1)
    }
}

/// The name of unit `k`.
pub open spec fn unit_name(k: nat) -> Seq<char> {
    if k == 0 {
        "B"@
    } else if k == 1 {
        "KB"@
    } else if k == 2 {
        "MB"@
    } else if k == 3 {
        "GB"@
    } else {
        "TB"@
    }
}

/// A byte count for display, as the `f64` computation
/// `format!("{value:.1} {unit}")` gives it: the count as an `f64`, divided
/// by 1024 while at or above 1024 (up to terabytes), then written with one
/// decimal, rounded to nearest with ties to even.
pub open spec fn human_bytes_spec(bytes: nat) -> Seq<char> {
    let v = as_f64(bytes);
    let k = unit_index(v, 0);
    let t = round_half_even(v * 10, p1024(k));
    dec(t / 10) + seq!['.', digit_char(t % 10), ' '] + unit_name(k)
}

/// The unit that `human_bytes` picks keeps the displayed value at or above
/// 1 and below 1024, except that terabytes go beyond: the value as `f64` is
/// at least `1024^k` (for `k > 0`) and below `1024^(k+1)` (for `k < 4`).
pub proof fn law_human_bytes_unit(bytes: nat)
    ensures
        unit_index(as_f64(bytes), 0) <= 4,
        unit_index(as_f64(bytes), 0) > 0 ==> as_f64(bytes) >= p1024(unit_index(as_f64(bytes), 0)),
        unit_index(as_f64(bytes), 0) < 4 ==> as_f64(bytes) < p1024(unit_index(as_f64(bytes), 0) + 1),
{
    lemma_unit_index(as_f64(bytes), 0);
}

proof fn lemma_unit_index(v: nat, k: nat)
    requires
        k <= 4,
        k > 0 ==> v >= p1024(k),
    ensures
        k <= unit_index(v, k) <= 4,
        unit_index(v, k) > 0 ==> v >= p1024(unit_index(v, k)),
        unit_index(v, k) < 4 ==> v < p1024(unit_index(v, k) + 1),
    decreases 4 - k,
{
    if k < 4 && v >= p1024(k + 1) {
        lemma_unit_index(v, k + 1);
    }
}

proof fn lemma_p2_small(s: nat)
    requires
        s <= 10,
    ensures
        p2(s) <= 1024,
    decreases s,
{
    if s > 0 {
        lemma_p2_small((s - 1) as nat);
    }
    reveal_with_fuel(p2, 11);
}

proof fn lemma_shift_for_step(n: nat, from: nat)
    requires
        from < 64,
        n >= F64_SPAN * p2(from),
    ensures
        shift_for(n, from) == shift_for(n, from + 1),
{
}

/// `n as f64`, as an integer.
fn f64_value(n: u64) -> (v: u128)
    ensures
        v == as_f64(n as nat),
        v <= 18446744073709551616u128,
{
    let mut s: usize = 0;
    let mut p: u128 = 1;
    while (n as u128) >= F64_SPAN * p
        invariant
            s <= 11,
            p == p2(s as nat),
            1 <= p <= 2048,
            shift_for(n as nat, s as nat) == shift_for(n as nat, 0),
        decreases 11 - s,
    {
        proof {
            if s <= 10 {
                lemma_p2_small(s as nat);
            } else {
                reveal_with_fuel(p2, 12);
                assert(p == 2048);
            }
            lemma_shift_for_step(n as nat, s as nat);
        }
        p = p * 2;
        s += 1;
    }
    let q = (n as u128) / p;
    let r = (n as u128) % p;
    let q2 = if 2 * r > p || (2 * r == p && q % 2 == 1) {
        q + 1
    } else {
        q
    };
    assert(q < F64_SPAN) by (nonlinear_arith)
        requires
            (n as u128) < F64_SPAN * p,
            q == (n as u128) / p,
            p > 0,
    ;
    assert(q2 * p <= 18446744073709551616u128) by (nonlinear_arith)
        requires
            q2 <= F64_SPAN,
            p <= 2048,
    ;
    q2 * p
}

/// The name of unit `k`.
fn unit_str(k: usize) -> (r: &'static str)
    requires
        k <= 4,
    ensures
        r@ == unit_name(k as nat),
{
    if k == 0 {
        "B"
    } else if k == 1 {
        "KB"
    } else if k == 2 {
        "MB"
    } else if k == 3 {
        "GB"
    } else {
        "TB"
    }
}

/// A byte count for display, with one decimal and the largest unit (up to
/// `TB`) that keeps the value at or above 1: `human_bytes(1536)` is
/// `"1.5 KB"`.
pub fn human_bytes(bytes: u64) -> (r: String)
    ensures
        r@ == human_bytes_spec(bytes as nat),
{
    let v = f64_value(bytes);
    let mut k: usize = 0;
    let mut d: u128 = 1;
    while k < 4 && v >= d * 1024
        invariant
            k <= 4,
            d == p1024(k as nat),
            1 <= d <= 1099511627776u128,
            unit_index(v as nat, k as nat) == unit_index(v as nat, 0),
        decreases 4 - k,
    {
        proof {
            reveal_with_fuel(p1024, 5);
        }
        d = d * 1024;
        k += 1;
    }
    let num = v * 10;
    let q = num / d;
    let rem = num % d;
    let t = if 2 * rem > d || (2 * rem == d && q % 2 == 1) {
        q + 1
    } else {
        q
    };
    let mut out = dec_u128(t / 10);
    out.push('.');
    out.push(digit(t % 10));
    out.push(' ');
    let u = crate::text::chars_of(unit_str(k));
    out.extend_from_slice(u.as_slice());
    assert(out@ =~= human_bytes_spec(bytes as nat));
    crate::text::string_of(out.as_slice())
}


// ---------------------------------------------------------------------
// Histories
// ---------------------------------------------------------------------

/// How many values a history keeps (about four minutes at one per tick).
pub const HISTORY_LEN: usize = 120;

/// The history after `value` is pushed onto `buf`: the oldest value goes
/// when the history is full.
pub open spec fn pushed<T>(buf: Seq<T>, value: T) -> Seq<T> {
    if buf.len() >= HISTORY_LEN {
        buf.drop_first().push(value)
    } else {
        buf.push(value)
    }
}

/// Appends `value` to the history, first dropping its oldest value when it
/// already holds `HISTORY_LEN` values.
pub fn push_capped<T>(buf: &mut VecDeque<T>, value: T)
    ensures
        final(buf)@ == pushed(old(buf)@, value),
{
    if buf.len() >= HISTORY_LEN {
        buf.pop_front();
    }
    buf.push_back(value);
}

/// The last `HISTORY_LEN` values of `xs` (all of them if fewer).
pub open spec fn last_values<T>(xs: Seq<T>) -> Seq<T> {
    if xs.len() > HISTORY_LEN {
        xs.subrange(xs.len() - HISTORY_LEN, xs.len() as int)
    } else {
        xs
    }
}

/// The history that pushing each of `xs` in turn onto an empty one gives.
pub open spec fn history_of<T>(xs: Seq<T>) -> Seq<T>
    decreases xs.len(),
{
    if xs.len() == 0 {
        seq![]
    } else {
        pushed(history_of(xs.drop_last()), xs.last())
    }
}

/// A history built by pushes holds exactly the last `HISTORY_LEN` values
/// pushed, oldest first.
pub proof fn law_history_keeps_last_values<T>(xs: Seq<T>)
    ensures
        history_of(xs) == last_values(xs),
        history_of(xs).len() <= HISTORY_LEN,
    decreases xs.len(),
{
    if xs.len() > 0 {
        law_history_keeps_last_values(xs.drop_last());
        let p = xs.drop_last();
        if p.len() >= HISTORY_LEN {
            assert(last_values(p).drop_first().push(xs.last()) =~= last_values(xs));
        } else {
            assert(last_values(p).push(xs.last()) =~= last_values(xs));
        }
    }
}

// ---------------------------------------------------------------------
// When to list services again
// ---------------------------------------------------------------------

/// Services are listed again once every this many ticks.
pub const SERVICE_REFRESH_EVERY_N_TICKS: u32 = 4;

/// The tick counter after one more tick (it wraps around).
pub open spec fn next_tick(t: u32) -> u32 {
    if t == u32::MAX {
        0
    } else {
        (t + 1) as u32
    }
}

/// Counts refresh ticks and says on which ones the services are listed
/// again: listing spawns a process, and services rarely change from one
/// tick to the next.
pub struct ServiceRefreshClock {
    tick_count: u32,
}

impl View for ServiceRefreshClock {
    type V = u32;

    closed spec fn view(&self) -> u32 {
        self.tick_count
    }
}

impl ServiceRefreshClock {
    /// A clock at tick 0.
    pub fn new() -> (c: Self)
        ensures
            c@ == 0,
    {
        ServiceRefreshClock { tick_count: 0 }
    }

    /// Counts one tick; tells whether the services are to be listed on it.
    pub fn tick(&mut self) -> (refresh: bool)
        ensures
            final(self)@ == next_tick(old(self)@),
            refresh == (final(self)@ % SERVICE_REFRESH_EVERY_N_TICKS == 0),
    {
        self.tick_count = self.tick_count.wrapping_add(1);
        self.tick_count % SERVICE_REFRESH_EVERY_N_TICKS == 0
    }
}

/// Of any four consecutive ticks, exactly one lists the services, the
/// counter's wrap-around included.
pub proof fn law_services_listed_every_fourth_tick(t: u32)
    ensures
        next_tick(t) % 4 == 0 ==> next_tick(next_tick(t)) % 4 != 0 && next_tick(
            next_tick(next_tick(t)),
        ) % 4 != 0 && next_tick(next_tick(next_tick(next_tick(t)))) % 4 != 0,
        next_tick(next_tick(next_tick(next_tick(t)))) % 4 == t % 4,
{
}

// ---------------------------------------------------------------------
// Temperatures
// ---------------------------------------------------------------------

/// One temperature sensor's reading, its values in degrees Celsius given by
/// their single-precision bit patterns.
#[derive(Clone, Debug)]
pub struct SensorReading {
    pub label: String,
    pub temperature: u32,
    pub max: Option<u32>,
    pub critical: Option<u32>,
}

/// A reading as text and bit patterns.
pub struct SensorSpec {
    pub label: Seq<char>,
    pub temperature: u32,
    pub max: Option<u32>,
    pub critical: Option<u32>,
}

impl View for SensorReading {
    type V = SensorSpec;

    open spec fn view(&self) -> SensorSpec {
        SensorSpec {
            label: self.label@,
            temperature: self.temperature,
            max: self.max,
            critical: self.critical,
        }
    }
}

/// The reading of a sensor, if it has a temperature; a maximum that is not
/// above zero is dropped.
pub open spec fn reading_spec(
    label: Seq<char>,
    temperature: Option<u32>,
    max: Option<u32>,
    critical: Option<u32>,
) -> Option<SensorSpec> {
    match temperature {
        None => None,
        Some(t) => Some(
            SensorSpec {
                label,
                temperature: t,
                max: match max {
                    Some(m) => if value_order(m, 0) == Some(Order3::Greater) {
                        Some(m)
                    } else {
                        None
                    },
                    None => None,
                },
                critical,
            },
        ),
    }
}

/// The reading of a sensor from what it reports.
pub fn reading_of(label: String, temperature: Option<u32>, max: Option<u32>, critical: Option<u32>) -> (r:
    Option<SensorReading>)
    ensures
        match r {
            Some(x) => reading_spec(label@, temperature, max, critical) == Some(x@),
            None => reading_spec(label@, temperature, max, critical) is None,
        },
{
    match temperature {
        None => None,
        Some(t) => {
            let m = match max {
                Some(v) => if gt(v, 0) {
                    Some(v)
                } else {
                    None
                },
                None => None,
            };
            Some(SensorReading { label, temperature: t, max: m, critical })
        },
    }
}

/// Whether a temperature counts: above 1 °C (many drivers expose unwired
/// sensors that read exactly 0).
pub open spec fn significant(t: u32) -> bool {
    value_order(t, ONE_BITS) == Some(Order3::Greater)
}

/// Whether a sensor label names a processor sensor: its lowercase holds
/// `package`, `tctl`, `tdie` or `cpu`.
pub open spec fn cpu_like(label: Seq<char>) -> bool {
    let l = lowercase(label);
    contains(l, "package"@) || contains(l, "tctl"@) || contains(l, "tdie"@) || contains(l, "cpu"@)
}

/// The first significant processor reading among `rs`.
pub open spec fn first_cpu_reading(rs: Seq<SensorSpec>) -> Option<SensorSpec>
    decreases rs.len(),
{
    if rs.len() == 0 {
        None
    } else {
        match first_cpu_reading(rs.drop_last()) {
            Some(x) => Some(x),
            None => if significant(rs.last().temperature) && cpu_like(rs.last().label) {
                Some(rs.last())
            } else {
                None
            },
        }
    }
}

/// The hottest significant reading among `rs`; of equally hot ones, the last.
pub open spec fn hottest_reading(rs: Seq<SensorSpec>) -> Option<SensorSpec>
    decreases rs.len(),
{
    if rs.len() == 0 {
        None
    } else {
        let x = rs.last();
        match hottest_reading(rs.drop_last()) {
            Some(m) => if significant(x.temperature) && order_key(x.temperature) >= order_key(
                m.temperature,
            ) {
                Some(x)
            } else {
                Some(m)
            },
            None => if significant(x.temperature) {
                Some(x)
            } else {
                None
            },
        }
    }
}

/// The temperature to plot: that of the first significant processor
/// reading, else the hottest significant reading; none without a
/// significant reading.
pub open spec fn primary_spec(rs: Seq<SensorSpec>) -> Option<u32> {
    match first_cpu_reading(rs) {
        Some(x) => Some(x.temperature),
        None => match hottest_reading(rs) {
            Some(x) => Some(x.temperature),
            None => None,
        },
    }
}

proof fn lemma_no_cpu_reading(rs: Seq<SensorSpec>)
    requires
        forall|j: int| 0 <= j < rs.len() ==> !(significant(rs[j].temperature) && cpu_like(#[trigger] rs[j].label)),
    ensures
        first_cpu_reading(rs) is None,
    decreases rs.len(),
{
    if rs.len() > 0 {
        assert(rs.last() == rs[rs.len() - 1]);
        lemma_no_cpu_reading(rs.drop_last());
    }
}

proof fn lemma_first_cpu_reading_at(rs: Seq<SensorSpec>, i: int)
    requires
        0 <= i < rs.len(),
        significant(rs[i].temperature) && cpu_like(rs[i].label),
        forall|j: int| 0 <= j < i ==> !(significant(rs[j].temperature) && cpu_like(#[trigger] rs[j].label)),
    ensures
        first_cpu_reading(rs) == Some(rs[i]),
    decreases rs.len(),
{
    if rs.len() == i + 1 {
        let p = rs.drop_last();
        assert forall|j: int| 0 <= j < p.len() implies !(significant(p[j].temperature) && cpu_like(
            #[trigger] p[j].label,
        )) by {
            assert(p[j] == rs[j]);
        }
        lemma_no_cpu_reading(p);
        assert(rs.last() == rs[i]);
    } else {
        let p = rs.drop_last();
        assert(p[i] == rs[i]);
        assert forall|j: int| 0 <= j < i implies !(significant(p[j].temperature) && cpu_like(
            #[trigger] p[j].label,
        )) by {
            assert(p[j] == rs[j]);
        }
        lemma_first_cpu_reading_at(p, i);
    }
}

/// A significant reading whose lowercase label holds `package`, `tctl`,
/// `tdie` or `cpu` (at any position) is the one plotted when no earlier
/// significant reading's lowercase label holds any of these words, whatever
/// the later readings are (a hotter disk or chipset sensor included).
pub proof fn law_processor_reading_preferred(rs: Seq<SensorSpec>, i: int, w: Seq<char>, k: int)
    requires
        0 <= i < rs.len(),
        significant(rs[i].temperature),
        w == "package"@ || w == "tctl"@ || w == "tdie"@ || w == "cpu"@,
        0 <= k && k + w.len() <= lowercase(rs[i].label).len(),
        lowercase(rs[i].label).subrange(k, k + w.len()) == w,
        forall|j: int, m: int, e: int|
            0 <= j < i && significant(rs[j].temperature) && 0 <= m <= e <= lowercase(rs[j].label).len()
                ==> {
                let sub = #[trigger] lowercase(rs[j].label).subrange(m, e);
                sub != "package"@ && sub != "tctl"@ && sub != "tdie"@ && sub != "cpu"@
            },
    ensures
        primary_spec(rs) == Some(rs[i].temperature),
{
    reveal_strlit("package");
    reveal_strlit("tctl");
    reveal_strlit("tdie");
    reveal_strlit("cpu");
    assert(occurs_at(lowercase(rs[i].label), w, k));
    assert(cpu_like(rs[i].label));
    assert forall|j: int| 0 <= j < i implies !(significant(rs[j].temperature) && cpu_like(
        #[trigger] rs[j].label,
    )) by {
        if significant(rs[j].temperature) && cpu_like(rs[j].label) {
            let l = lowercase(rs[j].label);
            if contains(l, "package"@) {
                let m = choose|m: int| occurs_at(l, "package"@, m);
                assert(l.subrange(m, m + 7) == "package"@);
            } else if contains(l, "tctl"@) {
                let m = choose|m: int| occurs_at(l, "tctl"@, m);
                assert(l.subrange(m, m + 4) == "tctl"@);
            } else if contains(l, "tdie"@) {
                let m = choose|m: int| occurs_at(l, "tdie"@, m);
                assert(l.subrange(m, m + 4) == "tdie"@);
            } else {
                let m = choose|m: int| occurs_at(l, "cpu"@, m);
                assert(l.subrange(m, m + 3) == "cpu"@);
            }
        }
    }
    lemma_first_cpu_reading_at(rs, i);
}

proof fn lemma_no_word_not_cpu_like(label: Seq<char>)
    requires
        forall|m: int, e: int|
            0 <= m <= e <= lowercase(label).len() ==> {
                let sub = #[trigger] lowercase(label).subrange(m, e);
                sub != "package"@ && sub != "tctl"@ && sub != "tdie"@ && sub != "cpu"@
            },
    ensures
        !cpu_like(label),
{
    reveal_strlit("package");
    reveal_strlit("tctl");
    reveal_strlit("tdie");
    reveal_strlit("cpu");
    let l = lowercase(label);
    if contains(l, "package"@) {
        let m = choose|m: int| occurs_at(l, "package"@, m);
        assert(l.subrange(m, m + 7) == "package"@);
    } else if contains(l, "tctl"@) {
        let m = choose|m: int| occurs_at(l, "tctl"@, m);
        assert(l.subrange(m, m + 4) == "tctl"@);
    } else if contains(l, "tdie"@) {
        let m = choose|m: int| occurs_at(l, "tdie"@, m);
        assert(l.subrange(m, m + 4) == "tdie"@);
    } else if contains(l, "cpu"@) {
        let m = choose|m: int| occurs_at(l, "cpu"@, m);
        assert(l.subrange(m, m + 3) == "cpu"@);
    }
}

proof fn lemma_hottest(rs: Seq<SensorSpec>)
    ensures
        hottest_reading(rs) is None <==> forall|j: int| 0 <= j < rs.len() ==> !significant(#[trigger] rs[j].temperature),
        hottest_reading(rs) matches Some(x) ==> exists|j: int|
            0 <= j < rs.len() && #[trigger] rs[j] == x && significant(x.temperature) && forall|k: int|
                0 <= k < rs.len() && significant(#[trigger] rs[k].temperature) ==> order_key(rs[k].temperature)
                    <= order_key(x.temperature),
    decreases rs.len(),
{
    if rs.len() > 0 {
        let p = rs.drop_last();
        lemma_hottest(p);
        let x = rs.last();
        assert(x == rs[rs.len() - 1]);
        assert forall|k: int| 0 <= k < p.len() implies #[trigger] p[k] == rs[k] by {}
        match hottest_reading(p) {
            Some(m) => {
                let j = choose|j: int|
                    0 <= j < p.len() && #[trigger] p[j] == m && significant(m.temperature) && forall|k: int|
                        0 <= k < p.len() && significant(#[trigger] p[k].temperature) ==> order_key(
                            p[k].temperature,
                        ) <= order_key(m.temperature);
                assert(rs[j] == m);
                assert(significant(rs[j].temperature));
                assert forall|k: int| 0 <= k < rs.len() && significant(#[trigger] rs[k].temperature) implies order_key(
                    rs[k].temperature,
                ) <= order_key(hottest_reading(rs).unwrap().temperature) by {
                    if k < p.len() {
                        assert(p[k] == rs[k]);
                    }
                }
            },
            None => {
                if significant(x.temperature) {
                    assert forall|k: int| 0 <= k < rs.len() && significant(#[trigger] rs[k].temperature) implies order_key(
                        rs[k].temperature,
                    ) <= order_key(x.temperature) by {
                        if k < p.len() {
                            assert(p[k] == rs[k]);
                        }
                    }
                } else {
                    assert forall|j: int| 0 <= j < rs.len() implies !significant(#[trigger] rs[j].temperature) by {
                        if j < p.len() {
                            assert(p[j] == rs[j]);
                        }
                    }
                }
            },
        }
    }
}

/// When no significant reading's lowercase label holds `package`, `tctl`,
/// `tdie` or `cpu`, the temperature plotted is the highest significant
/// one; with no significant reading, none is plotted.
pub proof fn law_hottest_without_processor_reading(rs: Seq<SensorSpec>)
    requires
        forall|j: int, m: int, e: int|
            0 <= j < rs.len() && significant(rs[j].temperature) && 0 <= m <= e <= lowercase(rs[j].label).len()
                ==> {
                let sub = #[trigger] lowercase(rs[j].label).subrange(m, e);
                sub != "package"@ && sub != "tctl"@ && sub != "tdie"@ && sub != "cpu"@
            },
    ensures
        (forall|j: int| 0 <= j < rs.len() ==> !significant(#[trigger] rs[j].temperature)) ==> primary_spec(rs) is None,
        (exists|j: int| 0 <= j < rs.len() && significant(#[trigger] rs[j].temperature)) ==> exists|j: int|
            0 <= j < rs.len() && significant(rs[j].temperature) && primary_spec(rs) == Some(
                #[trigger] rs[j].temperature,
            ) && forall|k: int|
                0 <= k < rs.len() && significant(#[trigger] rs[k].temperature) ==> order_key(rs[k].temperature)
                    <= order_key(rs[j].temperature),
{
    assert forall|j: int| 0 <= j < rs.len() implies !(significant(rs[j].temperature) && cpu_like(
        #[trigger] rs[j].label,
    )) by {
        if significant(rs[j].temperature) {
            lemma_no_word_not_cpu_like(rs[j].label);
        }
    }
    lemma_no_cpu_reading(rs);
    lemma_hottest(rs);
    if exists|j: int| 0 <= j < rs.len() && significant(#[trigger] rs[j].temperature) {
        let x = hottest_reading(rs).unwrap();
        let j = choose|j: int|
            0 <= j < rs.len() && #[trigger] rs[j] == x && significant(x.temperature) && forall|k: int|
                0 <= k < rs.len() && significant(#[trigger] rs[k].temperature) ==> order_key(rs[k].temperature)
                    <= order_key(x.temperature);
        assert(primary_spec(rs) == Some(rs[j].temperature));
    }
}

/// The views of a sequence of readings.
pub open spec fn readings_view(rs: Seq<SensorReading>) -> Seq<SensorSpec> {
    rs.map_values(|r: SensorReading| r@)
}

/// Whether a label names a processor sensor.
fn is_cpu_like(label: &String) -> (r: bool)
    ensures
        r == cpu_like(label@),
{
    let low = to_lowercase(label.as_str());
    let l = chars_of(low.as_str());
    let a = chars_of("package");
    let b = chars_of("tctl");
    let c = chars_of("tdie");
    let d = chars_of("cpu");
    contains_chars(l.as_slice(), a.as_slice()) || contains_chars(l.as_slice(), b.as_slice())
        || contains_chars(l.as_slice(), c.as_slice()) || contains_chars(
        l.as_slice(),
        d.as_slice(),
    )
}

/// The one temperature to plot, as a bit pattern: that of the first
/// significant processor reading, else of the hottest significant reading.
pub fn primary_temperature(readings: &[SensorReading]) -> (r: Option<u32>)
    ensures
        r == primary_spec(readings_view(readings@)),
{
    let ghost rs = readings_view(readings@);
    let mut first: Option<usize> = None;
    let mut hot: Option<usize> = None;
    let mut i: usize = 0;
    while i < readings.len()
        invariant
            i <= readings.len(),
            rs == readings_view(readings@),
            match first {
                Some(j) => j < i && first_cpu_reading(rs.take(i as int)) == Some(rs[j as int]),
                None => first_cpu_reading(rs.take(i as int)) is None,
            },
            match hot {
                Some(j) => j < i && hottest_reading(rs.take(i as int)) == Some(rs[j as int]),
                None => hottest_reading(rs.take(i as int)) is None,
            },
        decreases readings.len() - i,
    {
        assert(rs.take(i + 1).drop_last() =~= rs.take(i as int));
        assert(rs.take(i + 1).last() == rs[i as int]);
        let t = readings[i].temperature;
        let sig = gt(t, ONE_BITS);
        if first.is_none() && sig && is_cpu_like(&readings[i].label) {
            first = Some(i);
        }
        if sig {
            match hot {
                Some(j) => {
                    if key(t) >= key(readings[j].temperature) {
                        hot = Some(i);
                    }
                },
                None => {
                    hot = Some(i);
                },
            }
        }
        i += 1;
    }
    assert(rs.take(readings.len() as int) =~= rs);
    match first {
        Some(j) => Some(readings[j].temperature),
        None => match hot {
            Some(j) => Some(readings[j].temperature),
            None => None,
        },
    }
}

// ---------------------------------------------------------------------
// One refresh tick
// ---------------------------------------------------------------------

/// What the monitor keeps from one refresh tick to the next: the CPU usage
/// and temperature histories (single-precision bit patterns, oldest first)
/// and the clock that says when to list the services again.
pub struct TickState {
    pub cpu_history: VecDeque<u32>,
    pub temp_history: VecDeque<u32>,
    pub clock: ServiceRefreshClock,
}

impl TickState {
    /// Empty histories and a clock at tick 0.
    pub fn new() -> (s: Self)
        ensures
            s.cpu_history@.len() == 0,
            s.temp_history@.len() == 0,
            s.clock@ == 0,
    {
        TickState { cpu_history: VecDeque::new(), temp_history: VecDeque::new(), clock: ServiceRefreshClock::new() }
    }

    /// One refresh tick, given the CPU usage and the sensor readings read on
    /// it: the clock counts the tick, the CPU usage joins its history, and the
    /// representative temperature joins its own if the readings give one (at
    /// most one per tick). Returns whether the services are to be listed
    /// again on this tick. Histories never grow beyond `HISTORY_LEN`.
    pub fn tick(&mut self, cpu_usage: u32, readings: &[SensorReading]) -> (list_services: bool)
        ensures
            final(self).clock@ == next_tick(old(self).clock@),
            list_services == (final(self).clock@ % SERVICE_REFRESH_EVERY_N_TICKS == 0),
            final(self).cpu_history@ == pushed(old(self).cpu_history@, cpu_usage),
            final(self).temp_history@ == match primary_spec(readings_view(readings@)) {
                Some(t) => pushed(old(self).temp_history@, t),
                None => old(self).temp_history@,
            },
            old(self).cpu_history@.len() <= HISTORY_LEN ==> final(self).cpu_history@.len() <= HISTORY_LEN,
            old(self).temp_history@.len() <= HISTORY_LEN ==> final(self).temp_history@.len() <= HISTORY_LEN,
    {
        let list_services = self.clock.tick();
        push_capped(&mut self.cpu_history, cpu_usage);
        if let Some(t) = primary_temperature(readings) {
            push_capped(&mut self.temp_history, t);
        }
        list_services
    }
}

} // verus!

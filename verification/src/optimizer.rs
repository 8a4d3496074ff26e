//! The schedule optimizer: a pure, deterministic function from a day's
//! hourly price vector and a rule to a feasible, cost-minimal sequence of
//! ON time slots.
//!
//! The selection is modeled hour by hour as a boolean mask over the day.
//! The base selection takes the cheapest allowed hours one at a time, ties
//! broken by earliest hour. When a minimum run length is set, selection
//! proceeds by cheapest whole blocks of that length, then extends existing
//! runs; when a switch cap is set, ON islands are merged by filling the
//! cheapest gaps. Every executable phase is proved equal to its
//! specification twin, so the whole computation is a mathematical function
//! of its inputs: recomputation with identical inputs is byte-identical.

use vstd::prelude::*;

use crate::rule::params_valid;
use crate::rule::RuleParams;
use crate::rule::TimeWindow;
use crate::schedule::slot_wf;
use crate::schedule::slots_wf;
use crate::schedule::SlotAction;
use crate::schedule::TimeSlot;
use crate::CoreError;

verus! {

/// Prices are fixed-point integers; a day's price must lie within this
/// bound, so that any day's total cost fits comfortably in `i64`.
pub const PRICE_ABS_MAX: i64 = 1_000_000_000_000;

/// Strict order on hours by (price, hour): cheaper first, ties to the
/// earliest hour. Total on distinct hours.
pub open spec fn key_lt(p: Seq<i64>, a: int, b: int) -> bool {
    p[a] < p[b] || (p[a] == p[b] && a < b)
}

/// How many of the first `n` hours are selected.
pub open spec fn count_pre(sel: Seq<bool>, n: int) -> nat
    decreases n,
{
    if n <= 0 {
        0
    } else {
        count_pre(sel, n - 1) + (if sel[n - 1] {
            1nat
        } else {
            0nat
        })
    }
}

/// How many hours are selected.
pub open spec fn count_on(sel: Seq<bool>) -> nat {
    count_pre(sel, sel.len() as int)
}

/// The sum of the selected hours' prices over the first `n` hours.
pub open spec fn sum_pre(p: Seq<i64>, sel: Seq<bool>, n: int) -> int
    decreases n,
{
    if n <= 0 {
        0
    } else {
        sum_pre(p, sel, n - 1) + (if sel[n - 1] {
            p[n - 1]
        } else {
            0
        })
    }
}

/// The total cost of a selection: the sum of the selected hours' prices.
pub open spec fn sum_on(p: Seq<i64>, sel: Seq<bool>) -> int {
    sum_pre(p, sel, p.len() as int)
}

/// How many of the first `n` hours are allowed and not yet selected.
pub open spec fn free_pre(allow: Seq<bool>, sel: Seq<bool>, n: int) -> nat
    decreases n,
{
    if n <= 0 {
        0
    } else {
        free_pre(allow, sel, n - 1) + (if allow[n - 1] && !sel[n - 1] {
            1nat
        } else {
            0nat
        })
    }
}

/// How many hours are still allowed and free.
pub open spec fn count_free(allow: Seq<bool>, sel: Seq<bool>) -> nat {
    free_pre(allow, sel, sel.len() as int)
}

/// The lex-least (price, hour) among allowed, unselected hours at index
/// `i` or later; `p.len()` when none remains.
pub open spec fn best_from(p: Seq<i64>, allow: Seq<bool>, sel: Seq<bool>, i: int) -> int
    decreases p.len() - i,
{
    if i < 0 || i >= p.len() {
        p.len() as int
    } else {
        let rest = best_from(p, allow, sel, i + 1);
        if allow[i] && !sel[i] && (rest == p.len() || key_lt(p, i, rest)) {
            i
        } else {
            rest
        }
    }
}

/// `best_from` returns a free allowed hour that beats every other free
/// allowed hour in the (price, hour) order, or `p.len()` when none is left.
pub proof fn lemma_best_from_props(p: Seq<i64>, allow: Seq<bool>, sel: Seq<bool>, i: int)
    requires
        0 <= i <= p.len(),
        allow.len() == p.len(),
        sel.len() == p.len(),
    ensures
        ({
            let b = best_from(p, allow, sel, i);
            &&& i <= b <= p.len()
            &&& (b < p.len() ==> allow[b] && !sel[b])
            &&& (b < p.len() ==> forall|j: int|
                i <= j < p.len() && (#[trigger] allow[j]) && !sel[j] && j != b ==> key_lt(p, b, j))
            &&& (b == p.len() ==> forall|j: int|
                i <= j < p.len() ==> !((#[trigger] allow[j]) && !sel[j]))
        }),
    decreases p.len() - i,
{
    if i < p.len() {
        lemma_best_from_props(p, allow, sel, i + 1);
    }
}

/// Greedy selection: starting from `sel`, take the lex-least free allowed
/// hour, up to `k` times, stopping early when none remains.
pub open spec fn select_upto(p: Seq<i64>, allow: Seq<bool>, sel: Seq<bool>, k: nat) -> Seq<bool>
    decreases k,
{
    if k == 0 {
        sel
    } else {
        let b = best_from(p, allow, sel, 0);
        if b == p.len() {
            sel
        } else {
            select_upto(p, allow, sel.update(b, true), (k - 1) as nat)
        }
    }
}

/// Flipping hour `j` adjusts the prefix count exactly where `n` covers `j`.
proof fn lemma_count_pre_update(sel: Seq<bool>, j: int, v: bool, n: int)
    requires
        0 <= j < sel.len(),
        n <= sel.len(),
    ensures
        count_pre(sel.update(j, v), n) as int == count_pre(sel, n) + (if j < n {
            (if v {
                1int
            } else {
                0int
            }) - (if sel[j] {
                1int
            } else {
                0int
            })
        } else {
            0int
        }),
    decreases n,
{
    if n > 0 {
        lemma_count_pre_update(sel, j, v, n - 1);
    }
}

/// Flipping hour `j` adjusts the prefix sum exactly where `n` covers `j`.
proof fn lemma_sum_pre_update(p: Seq<i64>, sel: Seq<bool>, j: int, v: bool, n: int)
    requires
        0 <= j < sel.len(),
        sel.len() == p.len(),
        n <= sel.len(),
    ensures
        sum_pre(p, sel.update(j, v), n) == if j < n {
            sum_pre(p, sel, n) - (if sel[j] {
                p[j]
            } else {
                0
            }) + (if v {
                p[j]
            } else {
                0
            })
        } else {
            sum_pre(p, sel, n)
        },
    decreases n,
{
    if n > 0 {
        lemma_sum_pre_update(p, sel, j, v, n - 1);
    }
}

/// Flipping hour `j` adjusts the free count exactly where `n` covers `j`.
proof fn lemma_free_pre_update(allow: Seq<bool>, sel: Seq<bool>, j: int, v: bool, n: int)
    requires
        0 <= j < sel.len(),
        allow.len() == sel.len(),
        n <= sel.len(),
    ensures
        free_pre(allow, sel.update(j, v), n) as int == free_pre(allow, sel, n) + (if j < n {
            (if allow[j] && !v {
                1int
            } else {
                0int
            }) - (if allow[j] && !sel[j] {
                1int
            } else {
                0int
            })
        } else {
            0int
        }),
    decreases n,
{
    if n > 0 {
        lemma_free_pre_update(allow, sel, j, v, n - 1);
    }
}

/// The sum of a bounded selection is bounded by `n` prices.
proof fn lemma_sum_pre_bound(p: Seq<i64>, sel: Seq<bool>, n: int)
    requires
        0 <= n <= p.len(),
        forall|i: int| 0 <= i < p.len() ==> -PRICE_ABS_MAX <= #[trigger] p[i] <= PRICE_ABS_MAX,
    ensures
        -n * PRICE_ABS_MAX <= sum_pre(p, sel, n) <= n * PRICE_ABS_MAX,
    decreases n,
{
    if n > 0 {
        lemma_sum_pre_bound(p, sel, n - 1);
        assert((n - 1) * PRICE_ABS_MAX + PRICE_ABS_MAX == n * PRICE_ABS_MAX) by (nonlinear_arith);
    }
}

/// The hours `[a, a+r)` are all allowed and unselected.
pub open spec fn block_free(allow: Seq<bool>, sel: Seq<bool>, a: int, r: int) -> bool {
    forall|t: int| a <= t < a + r ==> (#[trigger] allow[t]) && !sel[t]
}

/// The sum of `r` consecutive prices starting at hour `a`.
pub open spec fn block_sum(p: Seq<i64>, a: int, r: int) -> int
    decreases r,
{
    if r <= 0 {
        0
    } else {
        p[a] + block_sum(p, a + 1, r - 1)
    }
}

/// The cost of a block is bounded by `r` prices.
proof fn lemma_block_sum_bound(p: Seq<i64>, a: int, r: int)
    requires
        0 <= a,
        0 <= r,
        a + r <= p.len(),
        forall|i: int| 0 <= i < p.len() ==> -PRICE_ABS_MAX <= #[trigger] p[i] <= PRICE_ABS_MAX,
    ensures
        -r * PRICE_ABS_MAX <= block_sum(p, a, r) <= r * PRICE_ABS_MAX,
    decreases r,
{
    if r > 0 {
        lemma_block_sum_bound(p, a + 1, r - 1);
        assert((r - 1) * PRICE_ABS_MAX + PRICE_ABS_MAX == r * PRICE_ABS_MAX) by (nonlinear_arith);
    }
}

/// The cheapest free block of length `r` starting at `a` or later, ties to
/// the earliest; `p.len()` when none fits.
pub open spec fn best_block_from(p: Seq<i64>, allow: Seq<bool>, sel: Seq<bool>, r: int, a: int) -> int
    decreases p.len() - a,
{
    if a < 0 || r <= 0 || a + r > p.len() {
        p.len() as int
    } else {
        let rest = best_block_from(p, allow, sel, r, a + 1);
        if block_free(allow, sel, a, r) && (rest == p.len() || block_sum(p, a, r) <= block_sum(
            p,
            rest,
            r,
        )) {
            a
        } else {
            rest
        }
    }
}

/// `best_block_from` returns a start with a whole free block before the
/// day's end, or `p.len()`.
proof fn lemma_best_block_props(p: Seq<i64>, allow: Seq<bool>, sel: Seq<bool>, r: int, a: int)
    requires
        0 <= a <= p.len(),
        0 < r,
    ensures
        ({
            let b = best_block_from(p, allow, sel, r, a);
            &&& a <= b <= p.len()
            &&& (b < p.len() ==> b + r <= p.len() && block_free(allow, sel, b, r))
        }),
    decreases p.len() - a,
{
    if a + r <= p.len() {
        lemma_best_block_props(p, allow, sel, r, a + 1);
    }
}

/// `sel` with the hours `[a, b)` switched ON.
pub open spec fn set_range(sel: Seq<bool>, a: int, b: int) -> Seq<bool> {
    Seq::new(
        sel.len(),
        |i: int|
            if a <= i < b {
                true
            } else {
                sel[i]
            },
    )
}

/// Block selection: take the cheapest whole free block of length `r`,
/// repeatedly, until at least `target` hours are ON or no block fits.
pub open spec fn select_blocks(
    p: Seq<i64>,
    allow: Seq<bool>,
    sel: Seq<bool>,
    r: int,
    target: nat,
    fuel: nat,
) -> Seq<bool>
    decreases fuel,
{
    if fuel == 0 || count_on(sel) >= target {
        sel
    } else {
        let b = best_block_from(p, allow, sel, r, 0);
        if b == p.len() {
            sel
        } else {
            select_blocks(p, allow, set_range(sel, b, b + r), r, target, (fuel - 1) as nat)
        }
    }
}

/// An hour that could extend an existing ON run: allowed, free, and
/// adjacent to an ON hour.
pub open spec fn ext_candidate(allow: Seq<bool>, sel: Seq<bool>, h: int) -> bool {
    &&& 0 <= h < sel.len()
    &&& allow[h]
    &&& !sel[h]
    &&& ((h > 0 && sel[h - 1]) || (h + 1 < sel.len() && sel[h + 1]))
}

/// The cheapest run-extending hour at `i` or later, ties to the earliest;
/// `p.len()` when none exists.
pub open spec fn best_ext_from(p: Seq<i64>, allow: Seq<bool>, sel: Seq<bool>, i: int) -> int
    decreases p.len() - i,
{
    if i < 0 || i >= p.len() {
        p.len() as int
    } else {
        let rest = best_ext_from(p, allow, sel, i + 1);
        if ext_candidate(allow, sel, i) && (rest == p.len() || key_lt(p, i, rest)) {
            i
        } else {
            rest
        }
    }
}

/// `best_ext_from` returns a run-extending hour, or `p.len()`.
proof fn lemma_best_ext_props(p: Seq<i64>, allow: Seq<bool>, sel: Seq<bool>, i: int)
    requires
        0 <= i <= p.len(),
        sel.len() == p.len(),
    ensures
        ({
            let b = best_ext_from(p, allow, sel, i);
            &&& i <= b <= p.len()
            &&& (b < p.len() ==> ext_candidate(allow, sel, b))
        }),
    decreases p.len() - i,
{
    if i < p.len() {
        lemma_best_ext_props(p, allow, sel, i + 1);
    }
}

/// Run extension: switch ON the cheapest hour adjacent to an existing run,
/// repeatedly, until `target` hours are ON or no such hour exists.
pub open spec fn extend_runs(p: Seq<i64>, allow: Seq<bool>, sel: Seq<bool>, target: nat, fuel: nat) -> Seq<
    bool,
>
    decreases fuel,
{
    if fuel == 0 || count_on(sel) >= target {
        sel
    } else {
        let h = best_ext_from(p, allow, sel, 0);
        if h == p.len() {
            sel
        } else {
            extend_runs(p, allow, sel.update(h, true), target, (fuel - 1) as nat)
        }
    }
}

/// How many ON islands (maximal runs) start among the first `n` hours.
pub open spec fn islands_pre(sel: Seq<bool>, n: int) -> nat
    decreases n,
{
    if n <= 0 {
        0
    } else {
        islands_pre(sel, n - 1) + (if sel[n - 1] && (n - 1 == 0 || !sel[n - 2]) {
            1nat
        } else {
            0nat
        })
    }
}

/// How many ON islands the selection has. Each island costs two ON/OFF
/// transitions (switch ON at its start, OFF at its end).
pub open spec fn islands(sel: Seq<bool>) -> nat {
    islands_pre(sel, sel.len() as int)
}

/// The first ON hour at `a` or later; `sel.len()` when the rest is OFF.
pub open spec fn gap_end(sel: Seq<bool>, a: int) -> int
    decreases sel.len() - a,
{
    if a < 0 || a >= sel.len() {
        sel.len() as int
    } else if sel[a] {
        a
    } else {
        gap_end(sel, a + 1)
    }
}

/// `gap_end` lies between `a` and the day's end, the hours before it are
/// OFF, and it is ON when inside the day.
proof fn lemma_gap_end_props(sel: Seq<bool>, a: int)
    requires
        0 <= a <= sel.len(),
    ensures
        ({
            let e = gap_end(sel, a);
            &&& a <= e <= sel.len()
            &&& (e < sel.len() ==> sel[e])
            &&& forall|t: int| a <= t < e ==> !(#[trigger] sel[t])
        }),
    decreases sel.len() - a,
{
    if a < sel.len() && !sel[a] {
        lemma_gap_end_props(sel, a + 1);
    }
}

/// A fillable gap: a maximal OFF run strictly between two ON hours whose
/// hours are all allowed.
pub open spec fn gap_candidate(allow: Seq<bool>, sel: Seq<bool>, a: int) -> bool {
    &&& 0 < a < sel.len()
    &&& sel[a - 1]
    &&& !sel[a]
    &&& gap_end(sel, a) < sel.len()
    &&& forall|t: int| a <= t < gap_end(sel, a) ==> #[trigger] allow[t]
}

/// The cheapest fillable gap starting at `a` or later, ties to the
/// earliest; `p.len()` when none exists.
pub open spec fn best_gap_from(p: Seq<i64>, allow: Seq<bool>, sel: Seq<bool>, a: int) -> int
    decreases p.len() - a,
{
    if a < 0 || a >= p.len() {
        p.len() as int
    } else {
        let rest = best_gap_from(p, allow, sel, a + 1);
        if gap_candidate(allow, sel, a) && (rest == p.len() || block_sum(
            p,
            a,
            gap_end(sel, a) - a,
        ) <= block_sum(p, rest, gap_end(sel, rest) - rest)) {
            a
        } else {
            rest
        }
    }
}

/// `best_gap_from` returns a fillable gap start, or `p.len()`.
proof fn lemma_best_gap_props(p: Seq<i64>, allow: Seq<bool>, sel: Seq<bool>, a: int)
    requires
        0 <= a <= p.len(),
        sel.len() == p.len(),
    ensures
        ({
            let g = best_gap_from(p, allow, sel, a);
            &&& a <= g <= p.len()
            &&& (g < p.len() ==> gap_candidate(allow, sel, g))
            &&& (g == p.len() ==> forall|b: int|
                a <= b < p.len() ==> !gap_candidate(allow, sel, b))
        }),
    decreases p.len() - a,
{
    if a < p.len() {
        lemma_best_gap_props(p, allow, sel, a + 1);
    }
}

/// Island merging: while the selection needs more than `cap` transitions
/// (two per island), fill the cheapest fillable gap, joining two islands.
pub open spec fn merge_islands(
    p: Seq<i64>,
    allow: Seq<bool>,
    sel: Seq<bool>,
    cap: nat,
    fuel: nat,
) -> Seq<bool>
    decreases fuel,
{
    if fuel == 0 || 2 * islands(sel) <= cap {
        sel
    } else {
        let g = best_gap_from(p, allow, sel, 0);
        if g == p.len() {
            sel
        } else {
            merge_islands(p, allow, set_range(sel, g, gap_end(sel, g)), cap, (fuel - 1) as nat)
        }
    }
}

/// The all-allowed mask of a `MinHoursCheapest` day.
pub open spec fn all_allowed(len: nat) -> Seq<bool> {
    Seq::new(len as nat, |i: int| true)
}

/// Whether hour `h` lies wholly inside one of the allowed windows.
pub open spec fn hour_allowed(ws: Seq<TimeWindow>, h: int) -> bool {
    exists|k: int| 0 <= k < ws.len() && (#[trigger] ws[k]).start <= 60 * h && 60 * (h + 1) <= ws[k].end
}

/// The allowed-hours mask of a rule over a day of `len` hours.
pub open spec fn allow_of(rule: RuleParams, len: nat) -> Seq<bool> {
    match rule {
        RuleParams::MinHoursCheapest(_) => all_allowed(len),
        RuleParams::XHoursWithinWindows(q) => Seq::new(
            len as nat,
            |h: int| hour_allowed(q.allowed_windows@, h),
        ),
    }
}

/// The daily hour target of a rule.
pub open spec fn hours_of(rule: RuleParams) -> nat {
    match rule {
        RuleParams::MinHoursCheapest(q) => q.min_hours_per_day as nat,
        RuleParams::XHoursWithinWindows(q) => q.target_hours_per_day as nat,
    }
}

/// The optional minimum run length of a rule.
pub open spec fn run_of(rule: RuleParams) -> Option<u8> {
    match rule {
        RuleParams::MinHoursCheapest(q) => q.min_run_block,
        RuleParams::XHoursWithinWindows(q) => q.min_run_block,
    }
}

/// The optional daily switch cap of a rule.
pub open spec fn switches_of(rule: RuleParams) -> Option<u8> {
    match rule {
        RuleParams::MinHoursCheapest(q) => q.max_switches_per_day,
        RuleParams::XHoursWithinWindows(q) => q.max_switches_per_day,
    }
}

/// The whole selection pipeline: greedy hours, or blocks plus extension
/// when a minimum run length (at least 2) is set; then island merging when
/// a switch cap is set.
pub open spec fn selection_model(
    p: Seq<i64>,
    allow: Seq<bool>,
    hours: nat,
    min_run: Option<u8>,
    max_sw: Option<u8>,
) -> Seq<bool> {
    let empty = Seq::new(p.len(), |i: int| false);
    let base = match min_run {
        Some(r) => if r >= 2 {
            extend_runs(
                p,
                allow,
                select_blocks(p, allow, empty, r as int, hours, p.len()),
                hours,
                p.len(),
            )
        } else {
            select_upto(p, allow, empty, hours)
        },
        None => select_upto(p, allow, empty, hours),
    };
    match max_sw {
        Some(m) => merge_islands(p, allow, base, m as nat, p.len()),
        None => base,
    }
}

/// The selection `compute` produces for a price vector and a rule.
pub open spec fn compute_sel_model(p: Seq<i64>, rule: RuleParams) -> Seq<bool> {
    selection_model(p, allow_of(rule, p.len()), hours_of(rule), run_of(rule), switches_of(rule))
}

/// Every price of the day lies within the fixed-point bound.
pub open spec fn prices_in_range(p: Seq<i64>) -> bool {
    forall|i: int| 0 <= i < p.len() ==> -PRICE_ABS_MAX <= #[trigger] p[i] <= PRICE_ABS_MAX
}

/// The inputs `compute` accepts: a day of 23, 24 or 25 hourly prices in
/// range, schema-valid parameters, and hour/run targets that fit the day.
pub open spec fn compute_ok(p: Seq<i64>, rule: RuleParams) -> bool {
    &&& 23 <= p.len() <= 25
    &&& prices_in_range(p)
    &&& params_valid(rule)
    &&& hours_of(rule) <= p.len()
    &&& (run_of(rule) matches Some(r) ==> r as int <= p.len())
}

/// The ON slot covering hours `[s, e)`, in minutes.
pub open spec fn slot_run(s: int, e: int) -> TimeSlot {
    TimeSlot { start: (60 * s) as u16, end: (60 * e) as u16, action: SlotAction::On }
}

/// The slots of a selection from hour `i` on, with `cur` the start of the
/// ON run currently open.
pub open spec fn slots_from(sel: Seq<bool>, i: int, cur: Option<int>) -> Seq<TimeSlot>
    decreases sel.len() - i,
{
    if i < 0 || i >= sel.len() {
        match cur {
            Some(s) => seq![slot_run(s, sel.len() as int)],
            None => Seq::empty(),
        }
    } else if sel[i] {
        slots_from(
            sel,
            i + 1,
            Some(
                match cur {
                    Some(s) => s,
                    None => i,
                },
            ),
        )
    } else {
        match cur {
            Some(s) => seq![slot_run(s, i)] + slots_from(sel, i + 1, None),
            None => slots_from(sel, i + 1, None),
        }
    }
}

/// The ON slots of a selection: one maximal run each, in order.
pub open spec fn slots_of(sel: Seq<bool>) -> Seq<TimeSlot> {
    slots_from(sel, 0, None)
}

/// A prefix count never exceeds the prefix length.
proof fn lemma_count_pre_le(sel: Seq<bool>, n: int)
    requires
        0 <= n,
    ensures
        count_pre(sel, n) <= n,
    decreases n,
{
    if n > 0 {
        lemma_count_pre_le(sel, n - 1);
    }
}

/// The lex-least free allowed hour at `i` or later, executable.
fn exec_best_from(p: &Vec<i64>, allow: &Vec<bool>, sel: &Vec<bool>, i: usize) -> (r: usize)
    requires
        allow@.len() == p@.len(),
        sel@.len() == p@.len(),
        i <= p@.len(),
    ensures
        r == best_from(p@, allow@, sel@, i as int),
    decreases p@.len() - i,
{
    if i >= p.len() {
        p.len()
    } else {
        let rest = exec_best_from(p, allow, sel, i + 1);
        proof {
            lemma_best_from_props(p@, allow@, sel@, i + 1);
        }
        if allow[i] && !sel[i] && (rest == p.len() || p[i] < p[rest] || (p[i] == p[rest] && i
            < rest)) {
            i
        } else {
            rest
        }
    }
}

/// Greedy selection of up to `k` cheapest free allowed hours, executable.
fn exec_select_upto(p: &Vec<i64>, allow: &Vec<bool>, sel: Vec<bool>, k: u8) -> (r: Vec<bool>)
    requires
        allow@.len() == p@.len(),
        sel@.len() == p@.len(),
    ensures
        r@ == select_upto(p@, allow@, sel@, k as nat),
        r@.len() == p@.len(),
    decreases k,
{
    if k == 0 {
        sel
    } else {
        let b = exec_best_from(p, allow, &sel, 0);
        proof {
            lemma_best_from_props(p@, allow@, sel@, 0);
        }
        if b == p.len() {
            sel
        } else {
            let mut s2 = sel;
            s2.set(b, true);
            exec_select_upto(p, allow, s2, k - 1)
        }
    }
}

/// How many hours of the selection are ON, executable.
fn exec_count(sel: &Vec<bool>) -> (n: usize)
    ensures
        n == count_on(sel@),
{
    let mut n: usize = 0;
    let mut i: usize = 0;
    while i < sel.len()
        invariant
            i <= sel@.len(),
            n == count_pre(sel@, i as int),
            n <= i,
        decreases sel.len() - i,
    {
        if sel[i] {
            n = n + 1;
        }
        i = i + 1;
    }
    n
}

/// The total cost of the selection, executable.
fn exec_sum(p: &Vec<i64>, sel: &Vec<bool>) -> (s: i64)
    requires
        sel@.len() == p@.len(),
        p@.len() <= 25,
        prices_in_range(p@),
    ensures
        s == sum_on(p@, sel@),
{
    let mut s: i64 = 0;
    let mut i: usize = 0;
    while i < p.len()
        invariant
            i <= p@.len() <= 25,
            sel@.len() == p@.len(),
            prices_in_range(p@),
            s == sum_pre(p@, sel@, i as int),
        decreases p.len() - i,
    {
        proof {
            lemma_sum_pre_bound(p@, sel@, i as int);
            assert(i * PRICE_ABS_MAX <= 25 * PRICE_ABS_MAX && -25 * PRICE_ABS_MAX <= -i
                * PRICE_ABS_MAX) by (nonlinear_arith)
                requires
                    0 <= i <= 25,
            ;
        }
        if sel[i] {
            s = s + p[i];
        }
        i = i + 1;
    }
    s
}

/// Whether the hours `[a, a+r)` are all allowed and free, executable.
fn exec_block_free(allow: &Vec<bool>, sel: &Vec<bool>, a: usize, r: usize) -> (res: bool)
    requires
        allow@.len() == sel@.len(),
        a + r <= sel@.len(),
    ensures
        res == block_free(allow@, sel@, a as int, r as int),
{
    let n = sel.len();
    assert(a + r <= n);
    let end = a + r;
    let mut t: usize = a;
    while t < end
        invariant
            a <= t <= end,
            end == a + r,
            end <= sel@.len(),
            allow@.len() == sel@.len(),
            block_free(allow@, sel@, a as int, t - a),
        decreases end - t,
    {
        if !(allow[t] && !sel[t]) {
            assert(!block_free(allow@, sel@, a as int, r as int));
            return false;
        }
        assert(block_free(allow@, sel@, a as int, t + 1 - a)) by {
            assert(forall|u: int|
                a <= u < t + 1 ==> (#[trigger] allow@[u]) && !sel@[u]);
        }
        t = t + 1;
    }
    true
}

/// The sum of `r` consecutive prices from `a`, executable.
fn exec_block_sum(p: &Vec<i64>, a: usize, r: usize) -> (s: i64)
    requires
        a + r <= p@.len(),
        p@.len() <= 25,
        prices_in_range(p@),
    ensures
        s == block_sum(p@, a as int, r as int),
    decreases r,
{
    if r == 0 {
        0
    } else {
        let rest = exec_block_sum(p, a + 1, r - 1);
        proof {
            lemma_block_sum_bound(p@, a + 1, r - 1);
            assert((r - 1) * PRICE_ABS_MAX <= 25 * PRICE_ABS_MAX && -25 * PRICE_ABS_MAX <= -(r - 1)
                * PRICE_ABS_MAX) by (nonlinear_arith)
                requires
                    1 <= r <= 26,
            ;
        }
        p[a] + rest
    }
}

/// The cheapest free block of length `r` at `a` or later, executable.
fn exec_best_block_from(p: &Vec<i64>, allow: &Vec<bool>, sel: &Vec<bool>, r: usize, a: usize) -> (g:
    usize)
    requires
        allow@.len() == p@.len(),
        sel@.len() == p@.len(),
        a <= p@.len(),
        1 <= r <= 25,
        p@.len() <= 25,
        prices_in_range(p@),
    ensures
        g == best_block_from(p@, allow@, sel@, r as int, a as int),
    decreases p@.len() - a,
{
    if a + r > p.len() {
        p.len()
    } else {
        let rest = exec_best_block_from(p, allow, sel, r, a + 1);
        proof {
            lemma_best_block_props(p@, allow@, sel@, r as int, a + 1);
        }
        let here_free = exec_block_free(allow, sel, a, r);
        if here_free && (rest == p.len() || {
            let sa = exec_block_sum(p, a, r);
            let sr = exec_block_sum(p, rest, r);
            sa <= sr
        }) {
            a
        } else {
            rest
        }
    }
}

/// The selection with hours `[a, b)` switched ON, executable.
fn exec_set_range(sel: Vec<bool>, a: usize, b: usize) -> (r: Vec<bool>)
    requires
        a <= b,
        b <= sel@.len(),
    ensures
        r@ == set_range(sel@, a as int, b as int),
        r@.len() == sel@.len(),
{
    let ghost orig = sel@;
    let mut s = sel;
    let mut t: usize = a;
    while t < b
        invariant
            a <= t <= b <= orig.len(),
            s@.len() == orig.len(),
            forall|i: int|
                0 <= i < orig.len() ==> s@[i] == (if a <= i < t {
                    true
                } else {
                    orig[i]
                }),
        decreases b - t,
    {
        s.set(t, true);
        t = t + 1;
    }
    proof {
        assert(s@ =~= set_range(orig, a as int, b as int));
    }
    s
}

/// Block selection toward `target` ON hours, executable.
fn exec_select_blocks(
    p: &Vec<i64>,
    allow: &Vec<bool>,
    sel: Vec<bool>,
    r: usize,
    target: usize,
    fuel: usize,
) -> (out: Vec<bool>)
    requires
        allow@.len() == p@.len(),
        sel@.len() == p@.len(),
        1 <= r <= 25,
        p@.len() <= 25,
        prices_in_range(p@),
    ensures
        out@ == select_blocks(p@, allow@, sel@, r as int, target as nat, fuel as nat),
        out@.len() == p@.len(),
    decreases fuel,
{
    let c = exec_count(&sel);
    if fuel == 0 || c >= target {
        sel
    } else {
        let b = exec_best_block_from(p, allow, &sel, r, 0);
        proof {
            lemma_best_block_props(p@, allow@, sel@, r as int, 0);
        }
        if b == p.len() {
            sel
        } else {
            let s2 = exec_set_range(sel, b, b + r);
            exec_select_blocks(p, allow, s2, r, target, fuel - 1)
        }
    }
}

/// The cheapest run-extending hour at `i` or later, executable.
fn exec_best_ext_from(p: &Vec<i64>, allow: &Vec<bool>, sel: &Vec<bool>, i: usize) -> (r: usize)
    requires
        allow@.len() == p@.len(),
        sel@.len() == p@.len(),
        i <= p@.len(),
    ensures
        r == best_ext_from(p@, allow@, sel@, i as int),
    decreases p@.len() - i,
{
    if i >= p.len() {
        p.len()
    } else {
        let rest = exec_best_ext_from(p, allow, sel, i + 1);
        proof {
            lemma_best_ext_props(p@, allow@, sel@, i + 1);
        }
        let cand = allow[i] && !sel[i] && ((i > 0 && sel[i - 1]) || (i + 1 < sel.len() && sel[i
            + 1]));
        if cand && (rest == p.len() || p[i] < p[rest] || (p[i] == p[rest] && i < rest)) {
            i
        } else {
            rest
        }
    }
}

/// Run extension toward `target` ON hours, executable.
fn exec_extend_runs(
    p: &Vec<i64>,
    allow: &Vec<bool>,
    sel: Vec<bool>,
    target: usize,
    fuel: usize,
) -> (out: Vec<bool>)
    requires
        allow@.len() == p@.len(),
        sel@.len() == p@.len(),
    ensures
        out@ == extend_runs(p@, allow@, sel@, target as nat, fuel as nat),
        out@.len() == p@.len(),
    decreases fuel,
{
    let c = exec_count(&sel);
    if fuel == 0 || c >= target {
        sel
    } else {
        let h = exec_best_ext_from(p, allow, &sel, 0);
        proof {
            lemma_best_ext_props(p@, allow@, sel@, 0);
        }
        if h == p.len() {
            sel
        } else {
            let mut s2 = sel;
            s2.set(h, true);
            exec_extend_runs(p, allow, s2, target, fuel - 1)
        }
    }
}

/// How many ON islands the selection has, executable.
fn exec_islands(sel: &Vec<bool>) -> (n: usize)
    ensures
        n == islands(sel@),
{
    let mut n: usize = 0;
    let mut i: usize = 0;
    while i < sel.len()
        invariant
            i <= sel@.len(),
            n == islands_pre(sel@, i as int),
            n <= i,
        decreases sel.len() - i,
    {
        if sel[i] && (i == 0 || !sel[i - 1]) {
            n = n + 1;
        }
        i = i + 1;
    }
    n
}

/// The first ON hour at `a` or later, executable.
fn exec_gap_end(sel: &Vec<bool>, a: usize) -> (e: usize)
    requires
        a <= sel@.len(),
    ensures
        e == gap_end(sel@, a as int),
    decreases sel@.len() - a,
{
    if a >= sel.len() {
        sel.len()
    } else if sel[a] {
        a
    } else {
        exec_gap_end(sel, a + 1)
    }
}

/// Whether `a` starts a fillable gap, executable.
fn exec_gap_candidate(allow: &Vec<bool>, sel: &Vec<bool>, a: usize) -> (res: bool)
    requires
        allow@.len() == sel@.len(),
        a <= sel@.len(),
    ensures
        res == gap_candidate(allow@, sel@, a as int),
{
    if a == 0 || a >= sel.len() {
        return false;
    }
    if !sel[a - 1] || sel[a] {
        return false;
    }
    let e = exec_gap_end(sel, a);
    proof {
        lemma_gap_end_props(sel@, a as int);
    }
    if e >= sel.len() {
        return false;
    }
    let mut t: usize = a;
    while t < e
        invariant
            a <= t <= e,
            e <= sel@.len(),
            allow@.len() == sel@.len(),
            e == gap_end(sel@, a as int),
            a < sel@.len(),
            0 < a,
            sel@[a - 1],
            !sel@[a as int],
            e < sel@.len(),
            forall|u: int| a <= u < t ==> #[trigger] allow@[u],
        decreases e - t,
    {
        if !allow[t] {
            return false;
        }
        t = t + 1;
    }
    true
}

/// The cheapest fillable gap at `a` or later, executable.
fn exec_best_gap_from(p: &Vec<i64>, allow: &Vec<bool>, sel: &Vec<bool>, a: usize) -> (g: usize)
    requires
        allow@.len() == p@.len(),
        sel@.len() == p@.len(),
        a <= p@.len(),
        p@.len() <= 25,
        prices_in_range(p@),
    ensures
        g == best_gap_from(p@, allow@, sel@, a as int),
    decreases p@.len() - a,
{
    if a >= p.len() {
        p.len()
    } else {
        let rest = exec_best_gap_from(p, allow, sel, a + 1);
        proof {
            lemma_best_gap_props(p@, allow@, sel@, a + 1);
        }
        let cand = exec_gap_candidate(allow, sel, a);
        if cand && (rest == p.len() || {
            let ea = exec_gap_end(sel, a);
            let er = exec_gap_end(sel, rest);
            proof {
                lemma_gap_end_props(sel@, a as int);
                lemma_gap_end_props(sel@, rest as int);
            }
            let sa = exec_block_sum(p, a, ea - a);
            let sr = exec_block_sum(p, rest, er - rest);
            sa <= sr
        }) {
            a
        } else {
            rest
        }
    }
}

/// Island merging under a transition cap, executable.
fn exec_merge_islands(
    p: &Vec<i64>,
    allow: &Vec<bool>,
    sel: Vec<bool>,
    cap: usize,
    fuel: usize,
) -> (out: Vec<bool>)
    requires
        allow@.len() == p@.len(),
        sel@.len() == p@.len(),
        p@.len() <= 25,
        prices_in_range(p@),
    ensures
        out@ == merge_islands(p@, allow@, sel@, cap as nat, fuel as nat),
        out@.len() == p@.len(),
    decreases fuel,
{
    let isl = exec_islands(&sel);
    proof {
        lemma_islands_pre_le(sel@, sel@.len() as int);
    }
    if fuel == 0 || 2 * isl <= cap {
        sel
    } else {
        let g = exec_best_gap_from(p, allow, &sel, 0);
        proof {
            lemma_best_gap_props(p@, allow@, sel@, 0);
        }
        if g == p.len() {
            sel
        } else {
            proof {
                lemma_gap_end_props(sel@, g as int);
            }
            let e = exec_gap_end(&sel, g);
            let s2 = exec_set_range(sel, g, e);
            exec_merge_islands(p, allow, s2, cap, fuel - 1)
        }
    }
}

/// A prefix island count never exceeds the prefix length.
proof fn lemma_islands_pre_le(sel: Seq<bool>, n: int)
    requires
        0 <= n,
    ensures
        islands_pre(sel, n) <= n,
    decreases n,
{
    if n > 0 {
        lemma_islands_pre_le(sel, n - 1);
    }
}

/// Whether hour `h` lies wholly inside one of the windows, executable.
fn exec_hour_allowed(ws: &Vec<TimeWindow>, h: usize) -> (res: bool)
    requires
        h <= 24,
    ensures
        res == hour_allowed(ws@, h as int),
{
    let start_min: u16 = (h as u16) * 60;
    let end_min: u16 = (h as u16 + 1) * 60;
    let mut k: usize = 0;
    while k < ws.len()
        invariant
            k <= ws@.len(),
            h <= 24,
            start_min == 60 * h,
            end_min == 60 * (h + 1),
            forall|j: int|
                0 <= j < k ==> !((#[trigger] ws@[j]).start <= 60 * h && 60 * (h + 1) <= ws@[j].end),
        decreases ws.len() - k,
    {
        if ws[k].start <= start_min && end_min <= ws[k].end {
            return true;
        }
        k = k + 1;
    }
    false
}

/// The allowed-hours mask of a rule over a day of `len` hours, executable.
fn build_allow(rule: &RuleParams, len: usize) -> (allow: Vec<bool>)
    requires
        len <= 25,
    ensures
        allow@ == allow_of(*rule, len as nat),
        allow@.len() == len,
{
    match rule {
        RuleParams::MinHoursCheapest(_) => {
            let mut v: Vec<bool> = Vec::new();
            let mut i: usize = 0;
            while i < len
                invariant
                    i <= len,
                    v@.len() == i,
                    forall|j: int| 0 <= j < i ==> #[trigger] v@[j],
                decreases len - i,
            {
                v.push(true);
                i = i + 1;
            }
            proof {
                assert(v@ =~= all_allowed(len as nat));
            }
            v
        },
        RuleParams::XHoursWithinWindows(q) => {
            let mut v: Vec<bool> = Vec::new();
            let mut i: usize = 0;
            while i < len
                invariant
                    i <= len <= 25,
                    v@.len() == i,
                    forall|j: int|
                        0 <= j < i ==> v@[j] == hour_allowed(q.allowed_windows@, j),
                decreases len - i,
            {
                let a = exec_hour_allowed(&q.allowed_windows, i);
                v.push(a);
                i = i + 1;
            }
            proof {
                assert(v@ =~= Seq::new(len as nat, |h: int| hour_allowed(q.allowed_windows@, h)));
            }
            v
        },
    }
}

/// The maximal ON runs of a selection as minute slots, executable.
fn exec_slots(sel: &Vec<bool>) -> (out: Vec<TimeSlot>)
    requires
        sel@.len() <= 25,
    ensures
        out@ == slots_of(sel@),
{
    let mut out: Vec<TimeSlot> = Vec::new();
    let mut cur: Option<usize> = None;
    let mut i: usize = 0;
    while i < sel.len()
        invariant
            i <= sel@.len() <= 25,
            match cur {
                Some(s) => s < i && slots_of(sel@) == out@ + slots_from(
                    sel@,
                    i as int,
                    Some(s as int),
                ),
                None => slots_of(sel@) == out@ + slots_from(sel@, i as int, None::<int>),
            },
        decreases sel.len() - i,
    {
        if sel[i] {
            if cur.is_none() {
                cur = Some(i);
            }
        } else {
            match cur {
                Some(s) => {
                    let slot = TimeSlot {
                        start: (s as u16) * 60,
                        end: (i as u16) * 60,
                        action: SlotAction::On,
                    };
                    proof {
                        assert(slot == slot_run(s as int, i as int));
                        assert(out@ + (seq![slot_run(s as int, i as int)] + slots_from(
                            sel@,
                            i + 1,
                            None::<int>,
                        )) =~= (out@ + seq![slot_run(s as int, i as int)]) + slots_from(
                            sel@,
                            i + 1,
                            None::<int>,
                        ));
                    }
                    out.push(slot);
                    cur = None;
                },
                None => {},
            }
        }
        i = i + 1;
    }
    match cur {
        Some(s) => {
            let slot = TimeSlot {
                start: (s as u16) * 60,
                end: (sel.len() as u16) * 60,
                action: SlotAction::On,
            };
            proof {
                assert(slot == slot_run(s as int, sel@.len() as int));
                assert(out@ + seq![slot_run(s as int, sel@.len() as int)] =~= out@.push(
                    slot_run(s as int, sel@.len() as int),
                ));
            }
            out.push(slot);
        },
        None => {
            proof {
                assert(out@ + Seq::<TimeSlot>::empty() =~= out@);
            }
        },
    }
    out
}

/// Generalization of the slot invariant over the scan state: the slots
/// produced from hour `i` on are well-formed and start no earlier than the
/// open run (or the current hour).
#[verifier::rlimit(60)]
proof fn lemma_slots_from_wf(sel: Seq<bool>, i: int, cur: Option<int>)
    requires
        sel.len() <= 25,
        0 <= i <= sel.len(),
        match cur {
            Some(s) => 0 <= s < i,
            None => true,
        },
    ensures
        ({
            let out = slots_from(sel, i, cur);
            &&& slots_wf(out)
            &&& forall|k: int|
                0 <= k < out.len() ==> (#[trigger] out[k]).start >= 60 * (match cur {
                    Some(s) => s,
                    None => i,
                })
        }),
    decreases sel.len() - i,
{
    if i >= sel.len() {
    } else if sel[i] {
        match cur {
            Some(s) => {
                lemma_slots_from_wf(sel, i + 1, Some(s));
            },
            None => {
                lemma_slots_from_wf(sel, i + 1, Some(i));
            },
        }
    } else {
        lemma_slots_from_wf(sel, i + 1, None);
        match cur {
            Some(s) => {
                let rest = slots_from(sel, i + 1, None);
                let out = seq![slot_run(s, i)] + rest;
                assert(out[0] == slot_run(s, i));
                assert(forall|k: int| 1 <= k < out.len() ==> out[k] == rest[k - 1]);
            },
            None => {},
        }
    }
}

/// Slot invariant: for any selection over a day of at most 25 hours, the
/// computed slots are sorted, pairwise disjoint (separated by at least one
/// OFF minute), and the selected ON hours number at most the day's hours.
pub proof fn lemma_slots_invariant(sel: Seq<bool>)
    requires
        sel.len() <= 25,
    ensures
        slots_wf(slots_of(sel)),
        count_on(sel) <= sel.len(),
{
    lemma_slots_from_wf(sel, 0, None);
    lemma_count_pre_le(sel, sel.len() as int);
}

/// Every selected hour is an allowed hour.
pub open spec fn sel_within(allow: Seq<bool>, sel: Seq<bool>) -> bool {
    forall|h: int| 0 <= h < sel.len() && (#[trigger] sel[h]) ==> allow[h]
}

/// The greedy characterization: every selected hour beats every free
/// allowed hour in the (price, hour) order. Together with the hour count it
/// pins the selection down: it is exactly the cheapest hours, ties resolved
/// to the earliest hour.
pub open spec fn greedy_char(p: Seq<i64>, allow: Seq<bool>, sel: Seq<bool>) -> bool {
    forall|x: int, y: int|
        0 <= x < sel.len() && 0 <= y < sel.len() && (#[trigger] sel[x]) && allow[y] && !(
        #[trigger] sel[y]) ==> key_lt(p, x, y)
}

/// An all-OFF prefix counts zero.
proof fn lemma_count_pre_false(sel: Seq<bool>, n: int)
    requires
        0 <= n <= sel.len(),
        forall|j: int| 0 <= j < sel.len() ==> !(#[trigger] sel[j]),
    ensures
        count_pre(sel, n) == 0,
    decreases n,
{
    if n > 0 {
        lemma_count_pre_false(sel, n - 1);
    }
}

/// With every hour allowed and none selected, all hours are free.
proof fn lemma_free_pre_full(allow: Seq<bool>, sel: Seq<bool>, n: int)
    requires
        0 <= n <= sel.len(),
        allow.len() == sel.len(),
        forall|j: int| 0 <= j < sel.len() ==> (#[trigger] allow[j]) && !sel[j],
    ensures
        free_pre(allow, sel, n) == n,
    decreases n,
{
    if n > 0 {
        lemma_free_pre_full(allow, sel, n - 1);
    }
}

/// A concrete free hour puts the free count at one or more.
proof fn lemma_free_pre_at(allow: Seq<bool>, sel: Seq<bool>, j: int, n: int)
    requires
        0 <= j < n <= sel.len(),
        allow.len() == sel.len(),
        allow[j] && !sel[j],
    ensures
        free_pre(allow, sel, n) >= 1,
    decreases n,
{
    if j < n - 1 {
        lemma_free_pre_at(allow, sel, j, n - 1);
    }
}

/// With no free hour below `n`, the free count is zero.
proof fn lemma_free_pre_zero(allow: Seq<bool>, sel: Seq<bool>, n: int)
    requires
        0 <= n <= sel.len(),
        allow.len() == sel.len(),
        forall|j: int| 0 <= j < n ==> !((#[trigger] allow[j]) && !sel[j]),
    ensures
        free_pre(allow, sel, n) == 0,
    decreases n,
{
    if n > 0 {
        lemma_free_pre_zero(allow, sel, n - 1);
    }
}

/// Greedy selection preserves the characterization and takes exactly
/// `min(k, free)` further hours.
proof fn lemma_select_upto_char(p: Seq<i64>, allow: Seq<bool>, sel: Seq<bool>, k: nat)
    requires
        allow.len() == p.len(),
        sel.len() == p.len(),
        greedy_char(p, allow, sel),
        sel_within(allow, sel),
    ensures
        ({
            let out = select_upto(p, allow, sel, k);
            &&& out.len() == sel.len()
            &&& greedy_char(p, allow, out)
            &&& sel_within(allow, out)
            &&& count_on(out) as int == count_on(sel) + (if k <= count_free(allow, sel) {
                k as int
            } else {
                count_free(allow, sel) as int
            })
        }),
    decreases k,
{
    let n = p.len() as int;
    if k > 0 {
        lemma_best_from_props(p, allow, sel, 0);
        let b = best_from(p, allow, sel, 0);
        if b == p.len() {
            lemma_free_pre_zero(allow, sel, n);
        } else {
            let sel2 = sel.update(b, true);
            assert(greedy_char(p, allow, sel2)) by {
                assert forall|x: int, y: int|
                    0 <= x < sel2.len() && 0 <= y < sel2.len() && (#[trigger] sel2[x]) && allow[y]
                        && !(#[trigger] sel2[y]) implies key_lt(p, x, y) by {
                    if x == b {
                    } else {
                        assert(sel[x] && !sel[y]);
                    }
                }
            }
            assert(sel_within(allow, sel2));
            lemma_count_pre_update(sel, b, true, n);
            lemma_free_pre_update(allow, sel, b, true, n);
            lemma_free_pre_at(allow, sel, b, n);
            lemma_select_upto_char(p, allow, sel2, (k - 1) as nat);
        }
    }
}

/// Positions selected in `a` but not in `b`, among the first `n`.
pub open spec fn diff_pre(a: Seq<bool>, b: Seq<bool>, n: int) -> nat
    decreases n,
{
    if n <= 0 {
        0
    } else {
        diff_pre(a, b, n - 1) + (if a[n - 1] && !b[n - 1] {
            1nat
        } else {
            0nat
        })
    }
}

/// Positions selected in both, among the first `n`.
spec fn common_pre(a: Seq<bool>, b: Seq<bool>, n: int) -> nat
    decreases n,
{
    if n <= 0 {
        0
    } else {
        common_pre(a, b, n - 1) + (if a[n - 1] && b[n - 1] {
            1nat
        } else {
            0nat
        })
    }
}

/// A count splits into the shared part and the exclusive part.
proof fn lemma_count_decomp(a: Seq<bool>, b: Seq<bool>, n: int)
    ensures
        count_pre(a, n) == common_pre(a, b, n) + diff_pre(a, b, n),
        common_pre(a, b, n) == common_pre(b, a, n),
    decreases n,
{
    if n > 0 {
        lemma_count_decomp(a, b, n - 1);
    }
}

/// A zero exclusive count means pointwise inclusion.
proof fn lemma_diff_zero(a: Seq<bool>, b: Seq<bool>, n: int)
    requires
        diff_pre(a, b, n) == 0,
    ensures
        forall|i: int| 0 <= i < n && (#[trigger] a[i]) ==> b[i],
    decreases n,
{
    if n > 0 {
        lemma_diff_zero(a, b, n - 1);
    }
}

/// A positive exclusive count exhibits a position.
proof fn lemma_diff_witness(a: Seq<bool>, b: Seq<bool>, n: int)
    requires
        diff_pre(a, b, n) > 0,
    ensures
        exists|i: int| 0 <= i < n && (#[trigger] a[i]) && !b[i],
    decreases n,
{
    if n > 0 {
        if a[n - 1] && !b[n - 1] {
        } else {
            lemma_diff_witness(a, b, n - 1);
        }
    }
}

/// Flipping `b` at `j` adjusts the exclusive count exactly where `n`
/// covers `j`.
proof fn lemma_diff_pre_update(a: Seq<bool>, b: Seq<bool>, j: int, v: bool, n: int)
    requires
        0 <= j < b.len(),
        n <= b.len(),
    ensures
        diff_pre(a, b.update(j, v), n) as int == diff_pre(a, b, n) + (if j < n {
            (if a[j] && !v {
                1int
            } else {
                0int
            }) - (if a[j] && !b[j] {
                1int
            } else {
                0int
            })
        } else {
            0int
        }),
    decreases n,
{
    if n > 0 {
        lemma_diff_pre_update(a, b, j, v, n - 1);
    }
}

/// Pointwise inclusion with equal counts forces pointwise equality.
proof fn lemma_subset_equal(a: Seq<bool>, b: Seq<bool>, n: int)
    requires
        0 <= n,
        forall|i: int| 0 <= i < n && (#[trigger] a[i]) ==> b[i],
        count_pre(a, n) == count_pre(b, n),
    ensures
        forall|i: int| 0 <= i < n ==> a[i] == b[i],
    decreases n,
{
    if n > 0 {
        lemma_count_monotone(a, b, n - 1);
        lemma_subset_equal(a, b, n - 1);
    }
}

/// Pointwise inclusion bounds the count.
proof fn lemma_count_monotone(a: Seq<bool>, b: Seq<bool>, n: int)
    requires
        0 <= n,
        forall|i: int| 0 <= i < n && (#[trigger] a[i]) ==> b[i],
    ensures
        count_pre(a, n) <= count_pre(b, n),
    decreases n,
{
    if n > 0 {
        lemma_count_monotone(a, b, n - 1);
    }
}

/// Cost optimality of the greedy characterization, by exchange: any other
/// selection of the same number of hours, drawn from the same allowed
/// hours, costs at least as much.
pub proof fn lemma_greedy_optimal(p: Seq<i64>, allow: Seq<bool>, sel: Seq<bool>, other: Seq<bool>)
    requires
        allow.len() == p.len(),
        sel.len() == p.len(),
        other.len() == p.len(),
        greedy_char(p, allow, sel),
        sel_within(allow, sel),
        sel_within(allow, other),
        count_on(other) == count_on(sel),
    ensures
        sum_on(p, other) >= sum_on(p, sel),
    decreases diff_pre(sel, other, sel.len() as int),
{
    let n = p.len() as int;
    if diff_pre(sel, other, n) == 0 {
        lemma_diff_zero(sel, other, n);
        lemma_subset_equal(sel, other, n);
        assert(sel =~= other);
    } else {
        lemma_diff_witness(sel, other, n);
        let i = choose|i: int| 0 <= i < n && (#[trigger] sel[i]) && !other[i];
        lemma_count_decomp(sel, other, n);
        lemma_count_decomp(other, sel, n);
        lemma_diff_witness(other, sel, n);
        let j = choose|j: int| 0 <= j < n && (#[trigger] other[j]) && !sel[j];
        assert(allow[j]);
        assert(key_lt(p, i, j));
        let o1 = other.update(j, false);
        let o2 = o1.update(i, true);
        lemma_count_pre_update(other, j, false, n);
        lemma_count_pre_update(o1, i, true, n);
        lemma_sum_pre_update(p, other, j, false, n);
        lemma_sum_pre_update(p, o1, i, true, n);
        lemma_diff_pre_update(sel, other, j, false, n);
        lemma_diff_pre_update(sel, o1, i, true, n);
        assert(sel_within(allow, o2)) by {
            assert forall|h: int| 0 <= h < o2.len() && (#[trigger] o2[h]) implies allow[h] by {
                if h == i {
                } else if h != j {
                    assert(other[h]);
                }
            }
        }
        lemma_greedy_optimal(p, allow, sel, o2);
    }
}

/// For `MinHoursCheapest` with no run or switch constraints, the computed
/// selection has exactly `min_hours_per_day` hours, and its total cost is
/// the sum of that many lowest prices: no other selection of that many
/// hours costs less. Ties between equal prices resolve to the earlier hour.
pub proof fn lemma_min_hours_cheapest_optimal(
    p: Seq<i64>,
    q: crate::rule::MinHoursCheapestParams,
    other: Seq<bool>,
)
    requires
        compute_ok(p, RuleParams::MinHoursCheapest(q)),
        q.min_run_block is None,
        q.max_switches_per_day is None,
        other.len() == p.len(),
        count_on(other) == q.min_hours_per_day as nat,
    ensures
        ({
            let sel = compute_sel_model(p, RuleParams::MinHoursCheapest(q));
            &&& count_on(sel) == q.min_hours_per_day as nat
            &&& sum_on(p, other) >= sum_on(p, sel)
        }),
{
    let n = p.len() as int;
    let allow = all_allowed(p.len());
    let empty = Seq::new(p.len(), |i: int| false);
    let sel = compute_sel_model(p, RuleParams::MinHoursCheapest(q));
    assert(sel == select_upto(p, allow, empty, q.min_hours_per_day as nat));
    lemma_count_pre_false(empty, n);
    lemma_free_pre_full(allow, empty, n);
    lemma_select_upto_char(p, allow, empty, q.min_hours_per_day as nat);
    assert(count_on(sel) == q.min_hours_per_day as nat);
    assert(sel_within(allow, other));
    lemma_greedy_optimal(p, allow, sel, other);
}

/// Determinism: the optimizer's output is a mathematical function of its
/// inputs, so two results computed from identical inputs are identical,
/// slot for slot and in cost.
pub proof fn lemma_compute_deterministic(
    p: Seq<i64>,
    rule: RuleParams,
    slots1: Seq<TimeSlot>,
    cost1: i64,
    slots2: Seq<TimeSlot>,
    cost2: i64,
)
    requires
        slots1 == slots_of(compute_sel_model(p, rule)),
        cost1 == sum_on(p, compute_sel_model(p, rule)),
        slots2 == slots_of(compute_sel_model(p, rule)),
        cost2 == sum_on(p, compute_sel_model(p, rule)),
    ensures
        slots1 == slots2,
        cost1 == cost2,
{
}

/// The result of one schedule computation: the ON slots, their total cost,
/// how many hours are ON, and (for a windows rule whose windows cannot hold
/// the target) the unmet hours.
#[derive(Debug)]
pub struct ComputeOutcome {
    pub slots: Vec<TimeSlot>,
    pub total_cost: i64,
    pub on_hours: usize,
    pub shortfall_hours: u8,
}

/// Turns a day's hourly prices and a rule into the cost-minimal ON slots
/// and their total cost.
///
/// Input validation: the day must have 23, 24 or 25 hourly prices, each in
/// range; the parameters must be schema-valid with hour and run targets
/// that fit the day. Violations fail with `InvalidRuleParameters` and are
/// never silently coerced. The result equals the selection model exactly,
/// so recomputation with identical inputs is byte-identical; a windows rule
/// whose windows cannot hold the target is clamped, with the shortfall
/// reported in the result rather than failing.
pub fn compute(prices: &Vec<i64>, rule: &RuleParams) -> (r: Result<ComputeOutcome, CoreError>)
    ensures
        match r {
            Ok(out) => {
                let sel = compute_sel_model(prices@, *rule);
                &&& compute_ok(prices@, *rule)
                &&& out.slots@ == slots_of(sel)
                &&& out.total_cost == sum_on(prices@, sel)
                &&& out.on_hours == count_on(sel)
                &&& out.shortfall_hours as int == (if hours_of(*rule) > count_on(sel) {
                    hours_of(*rule) - count_on(sel)
                } else {
                    0int
                })
                &&& slots_wf(out.slots@)
                &&& count_on(sel) <= prices@.len()
            },
            Err(e) => e == CoreError::InvalidRuleParameters && !compute_ok(prices@, *rule),
        },
{
    let len = prices.len();
    if len < 23 || len > 25 {
        return Err(CoreError::InvalidRuleParameters);
    }
    let mut i: usize = 0;
    while i < len
        invariant
            i <= len,
            len == prices@.len(),
            forall|j: int|
                0 <= j < i ==> -PRICE_ABS_MAX <= #[trigger] prices@[j] <= PRICE_ABS_MAX,
        decreases len - i,
    {
        if prices[i] < -PRICE_ABS_MAX || prices[i] > PRICE_ABS_MAX {
            return Err(CoreError::InvalidRuleParameters);
        }
        i = i + 1;
    }
    if !crate::rule::validate_params(rule) {
        return Err(CoreError::InvalidRuleParameters);
    }
    let (hours, run, sw): (u8, Option<u8>, Option<u8>) = match rule {
        RuleParams::MinHoursCheapest(q) => (
            q.min_hours_per_day,
            q.min_run_block,
            q.max_switches_per_day,
        ),
        RuleParams::XHoursWithinWindows(q) => (
            q.target_hours_per_day,
            q.min_run_block,
            q.max_switches_per_day,
        ),
    };
    if (hours as usize) > len {
        return Err(CoreError::InvalidRuleParameters);
    }
    match run {
        Some(rb) => {
            if (rb as usize) > len {
                return Err(CoreError::InvalidRuleParameters);
            }
        },
        None => {},
    }
    let allow = build_allow(rule, len);
    let mut empty_sel: Vec<bool> = Vec::new();
    let mut i: usize = 0;
    while i < len
        invariant
            i <= len,
            empty_sel@.len() == i,
            forall|j: int| 0 <= j < i ==> !(#[trigger] empty_sel@[j]),
        decreases len - i,
    {
        empty_sel.push(false);
        i = i + 1;
    }
    proof {
        assert(empty_sel@ =~= Seq::new(prices@.len(), |j: int| false));
    }
    let base = match run {
        Some(rb) => {
            if rb >= 2 {
                let blocks = exec_select_blocks(
                    prices,
                    &allow,
                    empty_sel,
                    rb as usize,
                    hours as usize,
                    len,
                );
                exec_extend_runs(prices, &allow, blocks, hours as usize, len)
            } else {
                exec_select_upto(prices, &allow, empty_sel, hours)
            }
        },
        None => exec_select_upto(prices, &allow, empty_sel, hours),
    };
    let final_sel = match sw {
        Some(m) => exec_merge_islands(prices, &allow, base, m as usize, len),
        None => base,
    };
    proof {
        assert(final_sel@ == compute_sel_model(prices@, *rule));
    }
    let on_hours = exec_count(&final_sel);
    proof {
        lemma_count_pre_le(final_sel@, final_sel@.len() as int);
        lemma_slots_invariant(final_sel@);
    }
    let total_cost = exec_sum(prices, &final_sel);
    let slots = exec_slots(&final_sel);
    let shortfall_hours: u8 = if (hours as usize) > on_hours {
        hours - (on_hours as u8)
    } else {
        0
    };
    Ok(ComputeOutcome { slots, total_cost, on_hours, shortfall_hours })
}

/// The hours `[a, a+r)` are all ON.
pub open spec fn run_on(sel: Seq<bool>, a: int, r: int) -> bool {
    0 <= a && a + r <= sel.len() && (forall|t: int| a <= t < a + r ==> #[trigger] sel[t])
}

/// Every ON hour lies inside a fully-ON run of length at least `r`.
pub open spec fn has_min_runs(sel: Seq<bool>, r: int) -> bool {
    forall|h: int|
        0 <= h < sel.len() && (#[trigger] sel[h]) ==> exists|a: int|
            #[trigger] run_on(sel, a, r) && a <= h < a + r
}

/// A fully-ON run survives switching further hours ON.
proof fn lemma_run_on_monotone(sel: Seq<bool>, sel2: Seq<bool>, a: int, r: int)
    requires
        run_on(sel, a, r),
        sel2.len() == sel.len(),
        forall|i: int| 0 <= i < sel.len() && (#[trigger] sel[i]) ==> sel2[i],
    ensures
        run_on(sel2, a, r),
{
    assert forall|t: int| a <= t < a + r implies #[trigger] sel2[t] by {
        assert(sel[t]);
    }
}

/// Block selection only ever switches whole length-`r` blocks ON, so the
/// minimum-run property is preserved.
proof fn lemma_select_blocks_min_runs(
    p: Seq<i64>,
    allow: Seq<bool>,
    sel: Seq<bool>,
    r: int,
    target: nat,
    fuel: nat,
)
    requires
        allow.len() == p.len(),
        sel.len() == p.len(),
        1 <= r,
        has_min_runs(sel, r),
    ensures
        ({
            let out = select_blocks(p, allow, sel, r, target, fuel);
            &&& out.len() == sel.len()
            &&& has_min_runs(out, r)
        }),
    decreases fuel,
{
    if fuel == 0 || count_on(sel) >= target {
    } else {
        lemma_best_block_props(p, allow, sel, r, 0);
        let b = best_block_from(p, allow, sel, r, 0);
        if b == p.len() {
        } else {
            let sel2 = set_range(sel, b, b + r);
            assert(has_min_runs(sel2, r)) by {
                assert forall|h: int| 0 <= h < sel2.len() && (#[trigger] sel2[h]) implies exists|
                    a: int,
                |
                    #[trigger] run_on(sel2, a, r) && a <= h < a + r by {
                    if b <= h < b + r {
                        assert(run_on(sel2, b, r)) by {
                            assert(forall|t: int| b <= t < b + r ==> #[trigger] sel2[t]);
                        }
                    } else {
                        assert(sel[h]);
                        let a = choose|a: int| #[trigger] run_on(sel, a, r) && a <= h < a + r;
                        lemma_run_on_monotone(sel, sel2, a, r);
                    }
                }
            }
            lemma_select_blocks_min_runs(p, allow, sel2, r, target, (fuel - 1) as nat);
        }
    }
}

/// Extending a run by an adjacent hour keeps every ON hour inside a
/// fully-ON run of length at least `r`.
proof fn lemma_extend_runs_min_runs(
    p: Seq<i64>,
    allow: Seq<bool>,
    sel: Seq<bool>,
    target: nat,
    fuel: nat,
    r: int,
)
    requires
        allow.len() == p.len(),
        sel.len() == p.len(),
        1 <= r,
        has_min_runs(sel, r),
    ensures
        ({
            let out = extend_runs(p, allow, sel, target, fuel);
            &&& out.len() == sel.len()
            &&& has_min_runs(out, r)
        }),
    decreases fuel,
{
    if fuel == 0 || count_on(sel) >= target {
    } else {
        lemma_best_ext_props(p, allow, sel, 0);
        let h0 = best_ext_from(p, allow, sel, 0);
        if h0 == p.len() {
        } else {
            let sel2 = sel.update(h0, true);
            assert(has_min_runs(sel2, r)) by {
                assert forall|h: int| 0 <= h < sel2.len() && (#[trigger] sel2[h]) implies exists|
                    a: int,
                |
                    #[trigger] run_on(sel2, a, r) && a <= h < a + r by {
                    if h != h0 {
                        assert(sel[h]);
                        let a = choose|a: int| #[trigger] run_on(sel, a, r) && a <= h < a + r;
                        lemma_run_on_monotone(sel, sel2, a, r);
                    } else {
                        if h0 > 0 && sel[h0 - 1] {
                            let a = choose|a: int|
                                #[trigger] run_on(sel, a, r) && a <= h0 - 1 < a + r;
                            // h0 is OFF in sel, so it sits just past the run's end
                            assert(!sel[h0]);
                            assert(h0 == a + r);
                            assert(run_on(sel2, a + 1, r)) by {
                                assert forall|t: int| a + 1 <= t < a + 1 + r implies
                                    #[trigger] sel2[t] by {
                                    if t < a + r {
                                        assert(sel[t]);
                                    }
                                }
                            }
                            assert(a + 1 <= h0 < a + 1 + r);
                        } else {
                            assert(h0 + 1 < sel.len() && sel[h0 + 1]);
                            let a = choose|a: int|
                                #[trigger] run_on(sel, a, r) && a <= h0 + 1 < a + r;
                            assert(!sel[h0]);
                            assert(h0 == a - 1);
                            assert(run_on(sel2, a - 1, r)) by {
                                assert forall|t: int| a - 1 <= t < a - 1 + r implies
                                    #[trigger] sel2[t] by {
                                    if t >= a {
                                        assert(sel[t]);
                                    }
                                }
                            }
                            assert(a - 1 <= h0 < a - 1 + r);
                        }
                    }
                }
            }
            lemma_extend_runs_min_runs(p, allow, sel2, target, (fuel - 1) as nat, r);
        }
    }
}

/// Filling a gap joins two runs, so the minimum-run property is preserved.
proof fn lemma_merge_islands_min_runs(
    p: Seq<i64>,
    allow: Seq<bool>,
    sel: Seq<bool>,
    cap: nat,
    fuel: nat,
    r: int,
)
    requires
        allow.len() == p.len(),
        sel.len() == p.len(),
        1 <= r,
        has_min_runs(sel, r),
    ensures
        ({
            let out = merge_islands(p, allow, sel, cap, fuel);
            &&& out.len() == sel.len()
            &&& has_min_runs(out, r)
        }),
    decreases fuel,
{
    if fuel == 0 || 2 * islands(sel) <= cap {
    } else {
        lemma_best_gap_props(p, allow, sel, 0);
        let g = best_gap_from(p, allow, sel, 0);
        if g == p.len() {
        } else {
            lemma_gap_end_props(sel, g);
            let e = gap_end(sel, g);
            let sel2 = set_range(sel, g, e);
            // the run that witnesses sel[g-1] ends exactly at the gap
            let a = choose|a: int| #[trigger] run_on(sel, a, r) && a <= g - 1 < a + r;
            assert(!sel[g]);
            assert(a + r == g);
            assert(has_min_runs(sel2, r)) by {
                assert forall|h: int| 0 <= h < sel2.len() && (#[trigger] sel2[h]) implies exists|
                    w: int,
                |
                    #[trigger] run_on(sel2, w, r) && w <= h < w + r by {
                    if g <= h < e {
                        let w = if h - r + 1 >= a {
                            h - r + 1
                        } else {
                            a
                        };
                        assert(run_on(sel2, w, r)) by {
                            assert forall|t: int| w <= t < w + r implies #[trigger] sel2[t] by {
                                if t < g {
                                    assert(a <= t);
                                    assert(sel[t]);
                                }
                            }
                            assert(w + r <= sel.len()) by {
                                assert(w + r <= h + 1);
                                assert(h < e <= sel.len());
                            }
                        }
                        assert(w <= h < w + r);
                    } else {
                        assert(sel[h]);
                        let w = choose|w: int| #[trigger] run_on(sel, w, r) && w <= h < w + r;
                        lemma_run_on_monotone(sel, sel2, w, r);
                    }
                }
            }
            lemma_merge_islands_min_runs(p, allow, sel2, cap, (fuel - 1) as nat, r);
        }
    }
}

/// With a minimum run length of at least two hours set, every ON hour of
/// the computed selection lies inside a fully-ON run of at least that
/// length: the schedule never switches a device on for less than the
/// configured block.
pub proof fn lemma_compute_min_run_blocks(p: Seq<i64>, rule: RuleParams, r: u8)
    requires
        run_of(rule) == Some(r),
        r >= 2,
    ensures
        has_min_runs(compute_sel_model(p, rule), r as int),
{
    let allow = allow_of(rule, p.len());
    let empty = Seq::new(p.len(), |i: int| false);
    assert(allow.len() == p.len());
    assert(has_min_runs(empty, r as int));
    lemma_select_blocks_min_runs(p, allow, empty, r as int, hours_of(rule), p.len());
    let blocks = select_blocks(p, allow, empty, r as int, hours_of(rule), p.len());
    lemma_extend_runs_min_runs(p, allow, blocks, hours_of(rule), p.len(), r as int);
    let base = extend_runs(p, allow, blocks, hours_of(rule), p.len());
    match switches_of(rule) {
        Some(m) => {
            lemma_merge_islands_min_runs(p, allow, base, m as nat, p.len(), r as int);
        },
        None => {},
    }
}

/// The first OFF hour at `a` or later; `sel.len()` when the rest is ON.
pub open spec fn run_end(sel: Seq<bool>, a: int) -> int
    decreases sel.len() - a,
{
    if a < 0 || a >= sel.len() {
        sel.len() as int
    } else if !sel[a] {
        a
    } else {
        run_end(sel, a + 1)
    }
}

/// `run_end` lies between `a` and the day's end, the hours before it are
/// ON, and it is OFF when inside the day.
proof fn lemma_run_end_props(sel: Seq<bool>, a: int)
    requires
        0 <= a <= sel.len(),
    ensures
        ({
            let e = run_end(sel, a);
            &&& a <= e <= sel.len()
            &&& (e < sel.len() ==> !sel[e])
            &&& forall|t: int| a <= t < e ==> #[trigger] sel[t]
        }),
    decreases sel.len() - a,
{
    if a < sel.len() && sel[a] {
        lemma_run_end_props(sel, a + 1);
    }
}

/// An OFF hour bounds `run_end` from above.
proof fn lemma_run_end_bound(sel: Seq<bool>, a: int, m: int)
    requires
        0 <= a <= m < sel.len(),
        !sel[m],
    ensures
        run_end(sel, a) <= m,
    decreases sel.len() - a,
{
    if a < m && sel[a] {
        lemma_run_end_bound(sel, a + 1, m);
    }
}

/// An ON hour bounds `gap_end` from above.
proof fn lemma_gap_end_bound(sel: Seq<bool>, a: int, m: int)
    requires
        0 <= a <= m < sel.len(),
        sel[m],
    ensures
        gap_end(sel, a) <= m,
    decreases sel.len() - a,
{
    if a < m && !sel[a] {
        lemma_gap_end_bound(sel, a + 1, m);
    }
}

/// One or more islands put an ON hour below `n`.
proof fn lemma_islands_pre_on(sel: Seq<bool>, n: int)
    requires
        islands_pre(sel, n) >= 1,
        n <= sel.len(),
    ensures
        exists|q: int| 0 <= q < n && #[trigger] sel[q],
    decreases n,
{
    if n > 0 {
        if sel[n - 1] {
        } else {
            lemma_islands_pre_on(sel, n - 1);
        }
    }
}

/// Two or more islands exhibit an island start with an ON hour before it.
proof fn lemma_islands_two(sel: Seq<bool>, n: int)
    requires
        islands_pre(sel, n) >= 2,
        n <= sel.len(),
    ensures
        exists|s: int|
            0 < s < n && (#[trigger] sel[s]) && !sel[s - 1] && exists|q: int|
                0 <= q < s && #[trigger] sel[q],
    decreases n,
{
    if n > 0 {
        if sel[n - 1] && (n - 1 == 0 || !sel[n - 2]) {
            if islands_pre(sel, n - 1) >= 2 {
                lemma_islands_two(sel, n - 1);
            } else {
                lemma_islands_pre_on(sel, n - 1);
                assert(0 < n - 1);
            }
        } else {
            lemma_islands_two(sel, n - 1);
        }
    }
}

/// With every hour allowed, two or more islands leave a fillable gap.
proof fn lemma_gap_exists(allow: Seq<bool>, sel: Seq<bool>)
    requires
        allow.len() == sel.len(),
        forall|i: int| 0 <= i < allow.len() ==> #[trigger] allow[i],
        islands(sel) >= 2,
    ensures
        exists|a: int| #[trigger] gap_candidate(allow, sel, a),
{
    lemma_islands_two(sel, sel.len() as int);
    let s = choose|s: int|
        0 < s < sel.len() && (#[trigger] sel[s]) && !sel[s - 1] && exists|q: int|
            0 <= q < s && #[trigger] sel[q];
    let q = choose|q: int| 0 <= q < s && #[trigger] sel[q];
    lemma_run_end_props(sel, q);
    let a = run_end(sel, q);
    assert(q < s - 1) by {
        assert(sel[q] && !sel[s - 1]);
    }
    lemma_run_end_bound(sel, q, s - 1);
    assert(a <= s - 1);
    assert(a > q) by {
        assert(sel[q]);
    }
    assert(sel[a - 1]);
    assert(!sel[a]);
    lemma_gap_end_props(sel, a);
    lemma_gap_end_bound(sel, a, s);
    assert(gap_end(sel, a) <= s < sel.len());
    assert(gap_candidate(allow, sel, a));
}

/// Filling a maximal gap removes exactly one island start: the right
/// island's start merges into the left island.
proof fn lemma_islands_fill(sel: Seq<bool>, g: int, e: int, n: int)
    requires
        0 < g <= e < sel.len(),
        sel[g - 1],
        !sel[g],
        e == gap_end(sel, g),
        sel[e],
        0 <= n <= sel.len(),
    ensures
        islands_pre(set_range(sel, g, e), n) as int == islands_pre(sel, n) - (if n > e {
            1int
        } else {
            0int
        }),
    decreases n,
{
    lemma_gap_end_props(sel, g);
    let fill = set_range(sel, g, e);
    if n > 0 {
        lemma_islands_fill(sel, g, e, n - 1);
        let h = n - 1;
        if h < g {
            assert(fill[h] == sel[h]);
            assert(h > 0 ==> fill[h - 1] == sel[h - 1]);
        } else if h < e {
            assert(fill[h]);
            assert(!sel[h]);
            assert(h > 0);
            if h == g {
                assert(fill[h - 1] == sel[g - 1]);
            } else {
                assert(fill[h - 1]);
            }
        } else if h == e {
            assert(e > g) by {
                assert(!sel[g] && sel[e]);
            }
            assert(fill[h] == sel[e]);
            assert(!sel[e - 1]);
            assert(fill[e - 1]);
        } else {
            assert(fill[h] == sel[h]);
            assert(fill[h - 1] == sel[h - 1]);
        }
    }
}

/// Selection length is preserved by greedy selection.
proof fn lemma_select_upto_len(p: Seq<i64>, allow: Seq<bool>, sel: Seq<bool>, k: nat)
    requires
        allow.len() == p.len(),
        sel.len() == p.len(),
    ensures
        select_upto(p, allow, sel, k).len() == sel.len(),
    decreases k,
{
    if k > 0 {
        lemma_best_from_props(p, allow, sel, 0);
        let b = best_from(p, allow, sel, 0);
        if b < p.len() {
            lemma_select_upto_len(p, allow, sel.update(b, true), (k - 1) as nat);
        }
    }
}

/// Island merging reaches the transition cap: with every hour allowed, a
/// cap of at least two, and fuel for every island, the merged selection
/// needs at most `cap` ON/OFF transitions (two per island).
proof fn lemma_merge_islands_cap(
    p: Seq<i64>,
    allow: Seq<bool>,
    sel: Seq<bool>,
    cap: nat,
    fuel: nat,
)
    requires
        allow.len() == p.len(),
        sel.len() == p.len(),
        forall|i: int| 0 <= i < allow.len() ==> #[trigger] allow[i],
        cap >= 2,
        fuel >= islands(sel),
    ensures
        2 * islands(merge_islands(p, allow, sel, cap, fuel)) <= cap,
    decreases fuel,
{
    if 2 * islands(sel) <= cap {
    } else {
        assert(islands(sel) >= 2);
        lemma_gap_exists(allow, sel);
        lemma_best_gap_props(p, allow, sel, 0);
        let g = best_gap_from(p, allow, sel, 0);
        assert(g < p.len()) by {
            if g == p.len() {
                let a = choose|a: int| #[trigger] gap_candidate(allow, sel, a);
                assert(0 <= a < p.len());
            }
        }
        lemma_gap_end_props(sel, g);
        let e = gap_end(sel, g);
        let sel2 = set_range(sel, g, e);
        lemma_islands_fill(sel, g, e, sel.len() as int);
        assert(islands(sel2) == islands(sel) - 1);
        lemma_merge_islands_cap(p, allow, sel2, cap, (fuel - 1) as nat);
    }
}

/// For `MinHoursCheapest` with a daily switch cap, the computed selection
/// respects it: at most `cap / 2` ON islands, so at most `cap` ON/OFF
/// transitions per day.
pub proof fn lemma_compute_switch_cap(p: Seq<i64>, q: crate::rule::MinHoursCheapestParams, m: u8)
    requires
        q.max_switches_per_day == Some(m),
        m >= 2,
    ensures
        2 * islands(compute_sel_model(p, RuleParams::MinHoursCheapest(q))) <= m,
{
    let rule = RuleParams::MinHoursCheapest(q);
    let allow = all_allowed(p.len());
    let empty = Seq::new(p.len(), |i: int| false);
    let base = match run_of(rule) {
        Some(r) => if r >= 2 {
            extend_runs(
                p,
                allow,
                select_blocks(p, allow, empty, r as int, hours_of(rule), p.len()),
                hours_of(rule),
                p.len(),
            )
        } else {
            select_upto(p, allow, empty, hours_of(rule))
        },
        None => select_upto(p, allow, empty, hours_of(rule)),
    };
    assert(base.len() == p.len()) by {
        match run_of(rule) {
            Some(r) => {
                if r >= 2 {
                    assert(has_min_runs(empty, r as int));
                    lemma_select_blocks_min_runs(p, allow, empty, r as int, hours_of(rule), p.len());
                    lemma_extend_runs_min_runs(
                        p,
                        allow,
                        select_blocks(p, allow, empty, r as int, hours_of(rule), p.len()),
                        hours_of(rule),
                        p.len(),
                        r as int,
                    );
                } else {
                    lemma_select_upto_len(p, allow, empty, hours_of(rule));
                }
            },
            None => {
                lemma_select_upto_len(p, allow, empty, hours_of(rule));
            },
        }
    }
    lemma_islands_pre_le(base, base.len() as int);
    lemma_merge_islands_cap(p, allow, base, m as nat, p.len());
}

/// For `XHoursWithinWindows` with no run or switch constraints, the
/// computed selection is clamped to the windows' capacity — it has exactly
/// `min(target_hours_per_day, allowed hours)` hours, all inside the
/// windows — and no other selection of that many allowed hours costs less.
pub proof fn lemma_windows_clamped_optimal(
    p: Seq<i64>,
    q: crate::rule::XHoursWithinWindowsParams,
    other: Seq<bool>,
)
    requires
        q.min_run_block is None,
        q.max_switches_per_day is None,
        other.len() == p.len(),
        sel_within(allow_of(RuleParams::XHoursWithinWindows(q), p.len()), other),
        count_on(other) == count_on(
            compute_sel_model(p, RuleParams::XHoursWithinWindows(q)),
        ),
    ensures
        ({
            let rule = RuleParams::XHoursWithinWindows(q);
            let allow = allow_of(rule, p.len());
            let empty = Seq::new(p.len(), |i: int| false);
            let sel = compute_sel_model(p, rule);
            let capacity = count_free(allow, empty);
            &&& count_on(sel) == (if q.target_hours_per_day as nat <= capacity {
                q.target_hours_per_day as nat
            } else {
                capacity
            })
            &&& sel_within(allow, sel)
            &&& sum_on(p, other) >= sum_on(p, sel)
        }),
{
    let rule = RuleParams::XHoursWithinWindows(q);
    let allow = allow_of(rule, p.len());
    let empty = Seq::new(p.len(), |i: int| false);
    let n = p.len() as int;
    let sel = compute_sel_model(p, rule);
    assert(sel == select_upto(p, allow, empty, q.target_hours_per_day as nat));
    lemma_count_pre_false(empty, n);
    lemma_select_upto_char(p, allow, empty, q.target_hours_per_day as nat);
    lemma_greedy_optimal(p, allow, sel, other);
}

} // verus!

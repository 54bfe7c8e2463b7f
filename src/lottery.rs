//! The weighted lottery: a draw in `[0, 10000)` is mapped to an item
//! identifier in `1..=12` through a table of twelve weights.
use vstd::prelude::*;
use vstd::set_lib::{lemma_int_range, set_int_range};

verus! {

/// Number of entries (and of item identifiers) in a weight table.
pub const TABLE_LEN: usize = 12;

/// Sum of the weights of a well-formed table; draws fall in `[0, TOTAL_WEIGHT)`.
pub const TOTAL_WEIGHT: u32 = 10000;

/// Sum of the first `n` weights of `w`.
pub open spec fn cumulative(w: Seq<u32>, n: int) -> int
    decreases n,
{
    if n <= 0 || w.len() == 0 {
        0
    } else if n > w.len() {
        cumulative(w, w.len() as int)
    } else {
        cumulative(w, n - 1) + w[n - 1] as int
    }
}

/// Identifier chosen by `d` when the walk over `w` starts at position `i`:
/// the 1-based position of the first weight whose cumulative sum exceeds `d`,
/// or 1 when there is none.
pub open spec fn select_from(w: Seq<u32>, d: int, i: int) -> int
    decreases w.len() - i,
{
    if i < 0 || i >= w.len() {
        1
    } else if d < cumulative(w, i + 1) {
        i + 1
    } else {
        select_from(w, d, i + 1)
    }
}

/// The identifier that the lottery picks for draw `d` under table `w`.
pub open spec fn select_spec(w: Seq<u32>, d: int) -> int {
    select_from(w, d, 0)
}

/// A table of twelve weights that sum to exactly 10000.
pub open spec fn well_formed_table(w: Seq<u32>) -> bool {
    w.len() == TABLE_LEN && cumulative(w, TABLE_LEN as int) == TOTAL_WEIGHT
}

pub open spec fn standard_weights() -> Seq<u32> {
    seq![2300, 2300, 2300, 700, 700, 700, 300, 300, 300, 49, 49, 2]
}

pub open spec fn premium_weights() -> Seq<u32> {
    seq![0, 0, 0, 2333, 2333, 2333, 833, 833, 833, 249, 249, 4]
}

/// Weights of the table that a request uses, by its premium-currency flag.
pub open spec fn table_for(premium: bool) -> Seq<u32> {
    if premium {
        premium_weights()
    } else {
        standard_weights()
    }
}

/// The standard table.
pub fn standard_table() -> (r: [u32; 12])
    ensures
        r@ == standard_weights(),
{
    let r: [u32; 12] = [2300, 2300, 2300, 700, 700, 700, 300, 300, 300, 49, 49, 2];
    assert(r@ =~= standard_weights());
    r
}

/// The premium ("crystal") table; its first three identifiers have weight 0.
pub fn premium_table() -> (r: [u32; 12])
    ensures
        r@ == premium_weights(),
{
    let r: [u32; 12] = [0, 0, 0, 2333, 2333, 2333, 833, 833, 833, 249, 249, 4];
    assert(r@ =~= premium_weights());
    r
}

/// Picks the identifier for `draw`: the 1-based position of the first weight
/// whose running sum strictly exceeds `draw`, or 1 when no running sum does.
pub fn select_item(draw: u32, table: &[u32; 12]) -> (r: u32)
    ensures
        r == select_spec(table@, draw as int),
{
    let mut sum: u64 = 0;
    let mut i: usize = 0;
    while i < TABLE_LEN
        invariant
            table@.len() == TABLE_LEN,
            0 <= i <= TABLE_LEN,
            sum == cumulative(table@, i as int),
            sum <= i * 0xffff_ffff,
            select_spec(table@, draw as int) == select_from(table@, draw as int, i as int),
        decreases TABLE_LEN - i,
    {
        sum = sum + table[i] as u64;
        if (draw as u64) < sum {
            return (i + 1) as u32;
        }
        i = i + 1;
    }
    1
}

/// Identifier for `draw` under the table selected by the premium-currency flag.
pub fn select_for_request(draw: u32, premium: bool) -> (r: u32)
    ensures
        r == select_spec(table_for(premium), draw as int),
{
    if premium {
        determine_token_id_crystal(draw)
    } else {
        determine_token_id(draw)
    }
}

/// Identifier for `random_number` under the standard table.
pub fn determine_token_id(random_number: u32) -> (r: u32)
    ensures
        r == select_spec(standard_weights(), random_number as int),
{
    let table = standard_table();
    select_item(random_number, &table)
}

/// Identifier for `random_number` under the premium table.
pub fn determine_token_id_crystal(random_number: u32) -> (r: u32)
    ensures
        r == select_spec(premium_weights(), random_number as int),
{
    let table = premium_table();
    select_item(random_number, &table)
}

proof fn lemma_cumulative_step(w: Seq<u32>, n: int)
    requires
        0 <= n < w.len(),
    ensures
        cumulative(w, n + 1) == cumulative(w, n) + w[n] as int,
{
}

proof fn lemma_cumulative_mono(w: Seq<u32>, a: int, b: int)
    requires
        0 <= a <= b <= w.len(),
    ensures
        cumulative(w, a) <= cumulative(w, b),
    decreases b - a,
{
    if a < b {
        lemma_cumulative_mono(w, a, b - 1);
        lemma_cumulative_step(w, b - 1);
    }
}

/// Starting the walk at `i` with `cumulative(w, i) <= d` below the total, the
/// walk stops at the bucket holding `d`.
proof fn lemma_select_from_bucket(w: Seq<u32>, d: int, i: int)
    requires
        0 <= i <= w.len(),
        cumulative(w, i) <= d < cumulative(w, w.len() as int),
    ensures
        i + 1 <= select_from(w, d, i) <= w.len(),
        cumulative(w, select_from(w, d, i) - 1) <= d < cumulative(w, select_from(w, d, i)),
    decreases w.len() - i,
{
    if i == w.len() {
    } else if d < cumulative(w, i + 1) {
    } else {
        lemma_select_from_bucket(w, d, i + 1);
    }
}

/// For a draw below the total, the selected identifier `k` is the one whose
/// bucket `[cumulative(w, k - 1), cumulative(w, k))` holds the draw.
proof fn lemma_select_bucket(w: Seq<u32>, d: int)
    requires
        0 <= d < cumulative(w, w.len() as int),
    ensures
        1 <= select_spec(w, d) <= w.len(),
        cumulative(w, select_spec(w, d) - 1) <= d < cumulative(w, select_spec(w, d)),
{
    lemma_select_from_bucket(w, d, 0);
}

/// A draw selects `k` exactly when it lies in the bucket of `k`.
proof fn lemma_select_iff_bucket(w: Seq<u32>, d: int, k: int)
    requires
        0 <= d < cumulative(w, w.len() as int),
        1 <= k <= w.len(),
    ensures
        select_spec(w, d) == k <==> cumulative(w, k - 1) <= d < cumulative(w, k),
{
    lemma_select_bucket(w, d);
    let r = select_spec(w, d);
    if cumulative(w, k - 1) <= d < cumulative(w, k) {
        if r < k {
            lemma_cumulative_mono(w, r, k - 1);
        } else if r > k {
            lemma_cumulative_mono(w, k, r - 1);
        }
    }
}

/// On a well-formed table every draw in `[0, 10000)` selects exactly one
/// identifier in `1..=12`, whose weight is positive, and the selected
/// identifier never decreases as the draw increases.
pub proof fn lemma_select_range_and_monotonic(w: Seq<u32>, d1: int, d2: int)
    requires
        well_formed_table(w),
        0 <= d1 <= d2 < TOTAL_WEIGHT,
    ensures
        1 <= select_spec(w, d1) <= TABLE_LEN,
        1 <= select_spec(w, d2) <= TABLE_LEN,
        w[select_spec(w, d1) - 1] > 0,
        w[select_spec(w, d2) - 1] > 0,
        select_spec(w, d1) <= select_spec(w, d2),
{
    lemma_select_bucket(w, d1);
    lemma_select_bucket(w, d2);
    let k1 = select_spec(w, d1);
    let k2 = select_spec(w, d2);
    lemma_cumulative_step(w, k1 - 1);
    lemma_cumulative_step(w, k2 - 1);
    if k2 < k1 {
        lemma_cumulative_mono(w, k2, k1 - 1);
    }
}

/// On a well-formed table the draws in `[0, 10000)` that select `k` form the
/// interval `[cumulative(w, k - 1), cumulative(w, k))`; there are exactly
/// `w[k - 1]` of them, so a uniform draw selects `k` with probability
/// `w[k - 1] / 10000`.
pub proof fn lemma_select_frequency(w: Seq<u32>, k: int)
    requires
        well_formed_table(w),
        1 <= k <= TABLE_LEN,
    ensures
        Set::new(|d: int| 0 <= d < TOTAL_WEIGHT && select_spec(w, d) == k) == set_int_range(
            cumulative(w, k - 1),
            cumulative(w, k),
        ),
        Set::new(|d: int| 0 <= d < TOTAL_WEIGHT && select_spec(w, d) == k).len() == w[k - 1],
{
    let hits = Set::new(|d: int| 0 <= d < TOTAL_WEIGHT && select_spec(w, d) == k);
    let lo = cumulative(w, k - 1);
    let hi = cumulative(w, k);
    lemma_cumulative_mono(w, 0, k - 1);
    lemma_cumulative_mono(w, k, TABLE_LEN as int);
    lemma_cumulative_step(w, k - 1);
    assert forall|d: int| hits.contains(d) <==> set_int_range(lo, hi).contains(d) by {
        if 0 <= d < TOTAL_WEIGHT {
            lemma_select_iff_bucket(w, d, k);
        }
    }
    assert(hits =~= set_int_range(lo, hi));
    lemma_int_range(lo, hi);
}

/// Both fixed tables are well formed.
pub proof fn lemma_fixed_tables_well_formed()
    ensures
        well_formed_table(standard_weights()),
        well_formed_table(premium_weights()),
{
    reveal_with_fuel(cumulative, 13);
    assert(cumulative(standard_weights(), 12) == 10000);
    assert(cumulative(premium_weights(), 12) == 10000);
}

/// Under the standard table a uniform draw selects identifier 1 for 2300 of
/// the 10000 draws and identifier 12 for 2 of them.
pub proof fn lemma_standard_frequencies()
    ensures
        Set::new(|d: int| 0 <= d < TOTAL_WEIGHT && select_spec(standard_weights(), d) == 1).len()
            == 2300,
        Set::new(|d: int| 0 <= d < TOTAL_WEIGHT && select_spec(standard_weights(), d) == 12).len()
            == 2,
{
    lemma_fixed_tables_well_formed();
    lemma_select_frequency(standard_weights(), 1);
    lemma_select_frequency(standard_weights(), 12);
}

/// Under the premium table no draw in `[0, 10000)` selects identifier 1, 2 or 3.
pub proof fn lemma_premium_never_first_three(d: int)
    requires
        0 <= d < TOTAL_WEIGHT,
    ensures
        4 <= select_spec(premium_weights(), d) <= TABLE_LEN,
{
    lemma_fixed_tables_well_formed();
    lemma_select_range_and_monotonic(premium_weights(), d, d);
}

} // verus!

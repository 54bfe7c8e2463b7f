//! Expands a mint request into its list of item identifiers, one lottery
//! draw per unit requested.
use crate::lottery::{
    lemma_fixed_tables_well_formed, lemma_select_range_and_monotonic, select_for_request,
    select_spec, table_for, TABLE_LEN, TOTAL_WEIGHT,
};
use crate::request::MintRequest;
use rand::Rng;
use vstd::prelude::*;

verus! {

/// Relies on rand's `thread_rng().gen_range(0..bound)`: a value of the
/// half-open range `[0, bound)`, drawn afresh on every call; it panics on an
/// empty range. The draws are made by this process and nobody else can verify
/// them.
#[verifier::external_body]
fn random_below(bound: u32) -> (r: u32)
    requires
        bound > 0,
    ensures
        r < bound,
{
    rand::thread_rng().gen_range(0..bound)
}

/// The identifiers that the draws `draws` give under the table chosen by `premium`.
pub open spec fn items_spec(premium: bool, draws: Seq<u32>) -> Seq<u32> {
    draws.map_values(|d: u32| select_spec(table_for(premium), d as int) as u32)
}

/// An identifier that the table chosen by `premium` can give: in `1..=12`,
/// with a positive weight.
pub open spec fn in_support(premium: bool, id: u32) -> bool {
    1 <= id <= TABLE_LEN && table_for(premium)[id - 1] > 0
}

/// `count` fresh draws, each in `[0, 10000)`.
pub fn draw_numbers(count: u64) -> (r: Vec<u32>)
    ensures
        r@.len() == count,
        forall|i: int| 0 <= i < r@.len() ==> r@[i] < TOTAL_WEIGHT,
{
    let mut out: Vec<u32> = Vec::new();
    let mut i: u64 = 0;
    while i < count
        invariant
            0 <= i <= count,
            out@.len() == i,
            forall|j: int| 0 <= j < out@.len() ==> out@[j] < TOTAL_WEIGHT,
        decreases count - i,
    {
        let d = random_below(TOTAL_WEIGHT);
        out.push(d);
        i = i + 1;
    }
    out
}

/// The identifiers for the given draws, in the order of the draws, under the
/// table chosen by `premium`.
pub fn items_from_draws(premium: bool, draws: &Vec<u32>) -> (r: Vec<u32>)
    ensures
        r@ == items_spec(premium, draws@),
{
    let mut out: Vec<u32> = Vec::new();
    let mut i: usize = 0;
    while i < draws.len()
        invariant
            0 <= i <= draws@.len(),
            out@ == items_spec(premium, draws@.take(i as int)),
        decreases draws@.len() - i,
    {
        let id = select_for_request(draws[i], premium);
        out.push(id);
        assert(out@ =~= items_spec(premium, draws@.take(i as int + 1)));
        i = i + 1;
    }
    assert(draws@.take(draws@.len() as int) =~= draws@);
    out
}

/// Every identifier that draws in `[0, 10000)` give is in the support of the
/// table.
pub proof fn lemma_items_in_support(premium: bool, draws: Seq<u32>)
    requires
        forall|i: int| 0 <= i < draws.len() ==> draws[i] < TOTAL_WEIGHT,
    ensures
        forall|i: int|
            0 <= i < draws.len() ==> in_support(premium, #[trigger] items_spec(premium, draws)[i]),
{
    lemma_fixed_tables_well_formed();
    assert forall|i: int| 0 <= i < draws.len() implies in_support(
        premium,
        #[trigger] items_spec(premium, draws)[i],
    ) by {
        lemma_select_range_and_monotonic(table_for(premium), draws[i] as int, draws[i] as int);
    }
}

/// The item list of `request`: one fresh draw per unit of its quantity, each
/// turned into an identifier under the request's table, in draw order.
pub fn build_item_list(request: &MintRequest) -> (r: Vec<u32>)
    ensures
        r@.len() == request.quantity,
        exists|draws: Seq<u32>|
            draws.len() == request.quantity && (forall|i: int|
                0 <= i < draws.len() ==> draws[i] < TOTAL_WEIGHT) && r@ == items_spec(
                request.premium,
                draws,
            ),
        forall|i: int| 0 <= i < r@.len() ==> in_support(request.premium, #[trigger] r@[i]),
{
    let draws = draw_numbers(request.quantity);
    let items = items_from_draws(request.premium, &draws);
    proof {
        lemma_items_in_support(request.premium, draws@);
    }
    items
}

} // verus!

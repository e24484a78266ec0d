use vstd::prelude::*;

use crate::aggregate::{
    absorb_list, add_amounts, aggregate, identified, lemma_aggregate, lemma_identified_add, lemma_sum_add, present, sum_amounts,
    total, views,
};
use crate::balance::{chain_identified, flow, law_cancellation, lemma_cancel_nothing, net, shared};
use crate::error::RecipeError;
use crate::ingredients::{Fluid, IngredientView, Item};
use crate::recipe::{recipe_views, side_of, GregtechRecipe, RecipeView};

verus! {

/// The stacks of one side of one channel of all recipes of `rs`, in order.
pub open spec fn gathered(rs: Seq<RecipeView>, input: bool, fluid: bool) -> Seq<IngredientView>
    decreases rs.len(),
{
    if rs.len() == 0 {
        Seq::empty()
    } else {
        gathered(rs.drop_last(), input, fluid) + side_of(rs.last(), input, fluid)
    }
}

/// Every stack of every recipe of `rs` has an identity.
pub open spec fn all_identified(rs: Seq<RecipeView>) -> bool {
    &&& identified(gathered(rs, true, false))
    &&& identified(gathered(rs, false, false))
    &&& identified(gathered(rs, true, true))
    &&& identified(gathered(rs, false, true))
}

/// The gross totals of running a set of recipes once each: the aggregates of
/// all their inputs and of all their outputs, per channel, with nothing
/// cancelled.
pub struct RecipeStats {
    pub total_input_items: Vec<Item>,
    pub total_input_fluids: Vec<Fluid>,
    pub total_output_items: Vec<Item>,
    pub total_output_fluids: Vec<Fluid>,
}

/// Gathering a concatenation concatenates what is gathered.
pub proof fn lemma_gathered_add(a: Seq<RecipeView>, b: Seq<RecipeView>, input: bool, fluid: bool)
    ensures
        gathered(a + b, input, fluid) == gathered(a, input, fluid) + gathered(b, input, fluid),
    decreases b.len(),
{
    if b.len() == 0 {
        assert(a + b =~= a);
        assert(gathered(a, input, fluid) + Seq::empty() =~= gathered(a, input, fluid));
    } else {
        assert((a + b).drop_last() =~= a + b.drop_last());
        lemma_gathered_add(a, b.drop_last(), input, fluid);
        assert(gathered(a + b, input, fluid) =~= gathered(a, input, fluid) + gathered(b, input, fluid));
    }
}

/// What is gathered from two recipes is the first's list then the second's.
pub proof fn lemma_gathered_two(re1: RecipeView, re2: RecipeView, input: bool, fluid: bool)
    ensures
        gathered(seq![re1, re2], input, fluid) == side_of(re1, input, fluid) + side_of(re2, input, fluid),
{
    let s = seq![re1, re2];
    assert(s.drop_last() =~= seq![re1]);
    assert(seq![re1].drop_last() =~= Seq::<RecipeView>::empty());
    assert(Seq::<IngredientView>::empty() + side_of(re1, input, fluid) =~= side_of(re1, input, fluid));
    assert(gathered(Seq::<RecipeView>::empty(), input, fluid) == Seq::<IngredientView>::empty());
    assert(seq![re1].last() == re1);
    assert(gathered(seq![re1], input, fluid) == side_of(re1, input, fluid));
    assert(s.last() == re2);
}

/// Sums grow recipe by recipe, and a sum too large for a prefix is too
/// large for the whole.
proof fn lemma_fits_step(rs: Seq<RecipeView>, i: int, input: bool, fluid: bool)
    requires
        0 <= i < rs.len(),
    ensures
        sum_amounts(gathered(rs.take(i + 1), input, fluid)) == sum_amounts(gathered(rs.take(i), input, fluid))
            + sum_amounts(side_of(rs[i], input, fluid)),
        sum_amounts(gathered(rs.take(i + 1), input, fluid)) <= sum_amounts(gathered(rs, input, fluid)),
{
    lemma_step(rs, i, input, fluid);
    lemma_sum_add(gathered(rs.take(i), input, fluid), side_of(rs[i], input, fluid));
}

/// Folds one side of one channel of recipe `i` into its aggregate.
proof fn lemma_step(rs: Seq<RecipeView>, i: int, input: bool, fluid: bool)
    requires
        0 <= i < rs.len(),
    ensures
        gathered(rs.take(i + 1), input, fluid) == gathered(rs.take(i), input, fluid) + side_of(rs[i], input, fluid),
        sum_amounts(gathered(rs.take(i + 1), input, fluid)) <= sum_amounts(gathered(rs, input, fluid)),
        identified(gathered(rs, input, fluid)) ==> identified(gathered(rs.take(i + 1), input, fluid)),
{
    assert(rs.take(i + 1).drop_last() =~= rs.take(i));
    assert(rs =~= rs.take(i + 1) + rs.skip(i + 1));
    lemma_gathered_add(rs.take(i + 1), rs.skip(i + 1), input, fluid);
    lemma_sum_add(gathered(rs.take(i + 1), input, fluid), gathered(rs.skip(i + 1), input, fluid));
    lemma_identified_add(gathered(rs.take(i + 1), input, fluid), gathered(rs.skip(i + 1), input, fluid));
}

impl RecipeStats {
    /// Whether the amounts of `input` are small enough for
    /// [`RecipeStats::new`]: on each side of each channel their sum fits in a
    /// size.
    pub fn fits(input: &Vec<GregtechRecipe>) -> (r: bool)
        ensures
            r == {
                let rs = recipe_views(input@);
                &&& sum_amounts(gathered(rs, true, false)) <= usize::MAX
                &&& sum_amounts(gathered(rs, false, false)) <= usize::MAX
                &&& sum_amounts(gathered(rs, true, true)) <= usize::MAX
                &&& sum_amounts(gathered(rs, false, true)) <= usize::MAX
            },
    {
        let ghost rs = recipe_views(input@);
        let mut sums: [usize; 4] = [0, 0, 0, 0];
        let mut i: usize = 0;
        while i < input.len()
            invariant
                rs == recipe_views(input@),
                0 <= i <= input.len(),
                sums[0] == sum_amounts(gathered(rs.take(i as int), true, false)),
                sums[1] == sum_amounts(gathered(rs.take(i as int), false, false)),
                sums[2] == sum_amounts(gathered(rs.take(i as int), true, true)),
                sums[3] == sum_amounts(gathered(rs.take(i as int), false, true)),
            decreases input.len() - i,
        {
            let rec = &input[i];
            proof {
                assert(rs[i as int] == rec@);
                lemma_fits_step(rs, i as int, true, false);
                lemma_fits_step(rs, i as int, false, false);
                lemma_fits_step(rs, i as int, true, true);
                lemma_fits_step(rs, i as int, false, true);
            }
            let a = add_amounts(sums[0], &rec.item_inputs);
            let b = add_amounts(sums[1], &rec.item_outputs);
            let c = add_amounts(sums[2], &rec.fluid_inputs);
            let d = add_amounts(sums[3], &rec.fluid_outputs);
            match (a, b, c, d) {
                (Some(a), Some(b), Some(c), Some(d)) => {
                    sums = [a, b, c, d];
                },
                _ => {
                    return false;
                },
            }
            i = i + 1;
        }
        proof {
            assert(rs.take(i as int) =~= rs);
        }
        true
    }

    /// The gross totals of `input`: per channel, the aggregate of all the
    /// recipes' inputs and the aggregate of all their outputs.
    pub fn new(input: Vec<GregtechRecipe>) -> (r: Result<RecipeStats, RecipeError>)
        requires
            sum_amounts(gathered(recipe_views(input@), true, false)) <= usize::MAX,
            sum_amounts(gathered(recipe_views(input@), false, false)) <= usize::MAX,
            sum_amounts(gathered(recipe_views(input@), true, true)) <= usize::MAX,
            sum_amounts(gathered(recipe_views(input@), false, true)) <= usize::MAX,
        ensures
            r == Err::<RecipeStats, RecipeError>(RecipeError::EmptyRecipeSet) <==> input@.len() == 0,
            r == Err::<RecipeStats, RecipeError>(RecipeError::MissingIdentity) <==> input@.len() > 0
                && !all_identified(recipe_views(input@)),
            r is Ok ==> {
                let s = r->Ok_0;
                let rs = recipe_views(input@);
                &&& views(s.total_input_items@) == aggregate(gathered(rs, true, false))
                &&& views(s.total_output_items@) == aggregate(gathered(rs, false, false))
                &&& views(s.total_input_fluids@) == aggregate(gathered(rs, true, true))
                &&& views(s.total_output_fluids@) == aggregate(gathered(rs, false, true))
            },
    {
        if input.len() == 0 {
            return Err(RecipeError::EmptyRecipeSet);
        }
        let ghost rs = recipe_views(input@);
        let mut input_items: Vec<Item> = Vec::new();
        let mut output_items: Vec<Item> = Vec::new();
        let mut input_fluids: Vec<Fluid> = Vec::new();
        let mut output_fluids: Vec<Fluid> = Vec::new();
        proof {
            assert(rs.take(0) =~= Seq::<RecipeView>::empty());
            assert(views(input_items@) =~= aggregate(Seq::empty()));
            assert(views(input_fluids@) =~= aggregate(Seq::empty()));
        }
        let mut i: usize = 0;
        while i < input.len()
            invariant
                rs == recipe_views(input@),
                0 <= i <= input.len(),
                sum_amounts(gathered(rs, true, false)) <= usize::MAX,
                sum_amounts(gathered(rs, false, false)) <= usize::MAX,
                sum_amounts(gathered(rs, true, true)) <= usize::MAX,
                sum_amounts(gathered(rs, false, true)) <= usize::MAX,
                all_identified(rs.take(i as int)),
                views(input_items@) == aggregate(gathered(rs.take(i as int), true, false)),
                views(output_items@) == aggregate(gathered(rs.take(i as int), false, false)),
                views(input_fluids@) == aggregate(gathered(rs.take(i as int), true, true)),
                views(output_fluids@) == aggregate(gathered(rs.take(i as int), false, true)),
            decreases input.len() - i,
        {
            let rec = &input[i];
            proof {
                assert(rs[i as int] == rec@);
                lemma_step(rs, i as int, true, false);
                lemma_step(rs, i as int, false, false);
                lemma_step(rs, i as int, true, true);
                lemma_step(rs, i as int, false, true);
                lemma_identified_add(gathered(rs.take(i as int), true, false), rec@.item_inputs);
                lemma_identified_add(gathered(rs.take(i as int), false, false), rec@.item_outputs);
                lemma_identified_add(gathered(rs.take(i as int), true, true), rec@.fluid_inputs);
                lemma_identified_add(gathered(rs.take(i as int), false, true), rec@.fluid_outputs);
            }
            match absorb_list(&mut input_items, &rec.item_inputs, Ghost(gathered(rs.take(i as int), true, false))) {
                Ok(()) => {},
                Err(e) => {
                    return Err(e);
                },
            }
            match absorb_list(&mut output_items, &rec.item_outputs, Ghost(gathered(rs.take(i as int), false, false))) {
                Ok(()) => {},
                Err(e) => {
                    return Err(e);
                },
            }
            match absorb_list(&mut input_fluids, &rec.fluid_inputs, Ghost(gathered(rs.take(i as int), true, true))) {
                Ok(()) => {},
                Err(e) => {
                    return Err(e);
                },
            }
            match absorb_list(&mut output_fluids, &rec.fluid_outputs, Ghost(gathered(rs.take(i as int), false, true))) {
                Ok(()) => {},
                Err(e) => {
                    return Err(e);
                },
            }
            i = i + 1;
        }
        proof {
            assert(rs.take(i as int) =~= rs);
        }
        Ok(RecipeStats {
            total_input_items: input_items,
            total_input_fluids: input_fluids,
            total_output_items: output_items,
            total_output_fluids: output_fluids,
        })
    }
}

/// Stats and balance agree: for each identity, on the item channel
/// (`fluid` false) or the fluid channel (`fluid` true), the balance of
/// `re1` feeding `re2` holds the gross totals of the stats of the two
/// recipes, less the cancelled intermediate quantity on the input side and on
/// the output side, so twice that quantity in all. This holds wherever the
/// intermediate quantity does not exceed either gross total.
pub proof fn law_stats_balance(re1: RecipeView, re2: RecipeView, fluid: bool, id: Seq<char>)
    requires
        chain_identified(re1, re2),
        shared(side_of(re1, false, fluid), side_of(re2, true, fluid), id) ==> {
            let k = flow(side_of(re1, false, fluid), side_of(re2, true, fluid), id);
            &&& k <= total(aggregate(gathered(seq![re1, re2], true, fluid)), id)
            &&& k <= total(aggregate(gathered(seq![re1, re2], false, fluid)), id)
        },
    ensures
        ({
            let outs = side_of(re1, false, fluid);
            let ins = side_of(re2, true, fluid);
            let k: int = if shared(outs, ins, id) { flow(outs, ins, id) as int } else { 0 };
            let stats_in = total(aggregate(gathered(seq![re1, re2], true, fluid)), id);
            let stats_out = total(aggregate(gathered(seq![re1, re2], false, fluid)), id);
            let net_in = total(net(side_of(re1, true, fluid) + side_of(re2, true, fluid), outs, ins), id);
            let net_out = total(net(side_of(re1, false, fluid) + side_of(re2, false, fluid), outs, ins), id);
            &&& net_in == stats_in - k
            &&& net_out == stats_out - k
            &&& net_in + net_out == stats_in + stats_out - 2 * k
        }),
{
    let outs = side_of(re1, false, fluid);
    let ins = side_of(re2, true, fluid);
    let gross_in = side_of(re1, true, fluid) + side_of(re2, true, fluid);
    let gross_out = side_of(re1, false, fluid) + side_of(re2, false, fluid);
    lemma_gathered_two(re1, re2, true, fluid);
    lemma_gathered_two(re1, re2, false, fluid);
    lemma_aggregate(gross_in);
    lemma_aggregate(gross_out);
    law_cancellation(gross_in, outs, ins, id);
    law_cancellation(gross_out, outs, ins, id);
    if shared(outs, ins, id) {
        if total(gross_in, id) <= flow(outs, ins, id) {
            crate::aggregate::lemma_total_absent(net(gross_in, outs, ins), id);
        }
        if total(gross_out, id) <= flow(outs, ins, id) {
            crate::aggregate::lemma_total_absent(net(gross_out, outs, ins), id);
        }
    }
}

/// When no identity flows from `re1`'s outputs to `re2`'s inputs on a
/// channel, the balance of the chain on that channel is exactly the stats of
/// the two recipes: same entries, same amounts, same order.
pub proof fn law_unlinked_chain(re1: RecipeView, re2: RecipeView, fluid: bool)
    requires
        chain_identified(re1, re2),
        forall|id: Seq<char>| !#[trigger] shared(side_of(re1, false, fluid), side_of(re2, true, fluid), id),
    ensures
        net(
            side_of(re1, true, fluid) + side_of(re2, true, fluid),
            side_of(re1, false, fluid),
            side_of(re2, true, fluid),
        ) == aggregate(gathered(seq![re1, re2], true, fluid)),
        net(
            side_of(re1, false, fluid) + side_of(re2, false, fluid),
            side_of(re1, false, fluid),
            side_of(re2, true, fluid),
        ) == aggregate(gathered(seq![re1, re2], false, fluid)),
{
    let outs = side_of(re1, false, fluid);
    let ins = side_of(re2, true, fluid);
    lemma_gathered_two(re1, re2, true, fluid);
    lemma_gathered_two(re1, re2, false, fluid);
    lemma_cancel_nothing(aggregate(side_of(re1, true, fluid) + side_of(re2, true, fluid)), outs, ins);
    lemma_cancel_nothing(aggregate(side_of(re1, false, fluid) + side_of(re2, false, fluid)), outs, ins);
}

} // verus!

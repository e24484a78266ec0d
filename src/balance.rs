use vstd::prelude::*;

use crate::aggregate::{
    absorb_list, add_amounts, aggregate, identified, identity_of, keyed, lemma_aggregate, lemma_identified_add, lemma_keyed_drop_last,
    lemma_push, lemma_sum_add, lemma_total_absent, present, sum_amounts, total, views,
};
use crate::error::RecipeError;
use crate::ingredients::{copy_name, identity, Fluid, Ingredient, IngredientView, Item};
use crate::recipe::{GregtechRecipe, RecipeView};

verus! {

/// What one upstream stack of `amount` hands to the downstream stacks of
/// `ins` keyed by `id`: the smaller of the two amounts, for each such stack.
pub open spec fn row(amount: nat, ins: Seq<IngredientView>, id: Seq<char>) -> nat
    decreases ins.len(),
{
    if ins.len() == 0 {
        0
    } else {
        row(amount, ins.drop_last(), id) + if identity(ins.last()) == Some(id) {
            if amount <= ins.last().amount {
                amount
            } else {
                ins.last().amount
            }
        } else {
            0
        }
    }
}

/// The intermediate flow of identity `id` from the upstream outputs `outs`
/// to the downstream inputs `ins`: the smaller amount of every
/// (output, input) pair keyed by `id`, summed.
pub open spec fn flow(outs: Seq<IngredientView>, ins: Seq<IngredientView>, id: Seq<char>) -> nat
    decreases outs.len(),
{
    if outs.len() == 0 {
        0
    } else {
        flow(outs.drop_last(), ins, id) + if identity(outs.last()) == Some(id) {
            row(outs.last().amount, ins, id)
        } else {
            0
        }
    }
}

/// Identity `id` flows from `outs` to `ins`: both sides hold it.
pub open spec fn shared(outs: Seq<IngredientView>, ins: Seq<IngredientView>, id: Seq<char>) -> bool {
    present(outs, id) && present(ins, id)
}

/// Cancels the intermediate flow from `outs` to `ins` out of the aggregate
/// `agg`: an entry of a shared identity loses the flow, and is dropped when
/// nothing is left of it; any other entry stays as it is.
pub open spec fn cancel(agg: Seq<IngredientView>, outs: Seq<IngredientView>, ins: Seq<IngredientView>) -> Seq<
    IngredientView,
>
    decreases agg.len(),
{
    if agg.len() == 0 {
        Seq::empty()
    } else {
        let rest = cancel(agg.drop_last(), outs, ins);
        let e = agg.last();
        let id = identity(e).unwrap();
        if shared(outs, ins, id) {
            let k = flow(outs, ins, id);
            if e.amount > k {
                rest.push(IngredientView { amount: (e.amount - k) as nat, ..e })
            } else {
                rest
            }
        } else {
            rest.push(e)
        }
    }
}

/// The net list of one side of one channel of a two-recipe chain: the
/// aggregate of both recipes' stacks `gross`, with the flow from the upstream
/// outputs `outs` to the downstream inputs `ins` cancelled.
pub open spec fn net(gross: Seq<IngredientView>, outs: Seq<IngredientView>, ins: Seq<IngredientView>) -> Seq<
    IngredientView,
> {
    cancel(aggregate(gross), outs, ins)
}

/// A number, capped at the largest size.
pub open spec fn capped(n: nat) -> nat {
    if n > usize::MAX {
        usize::MAX as nat
    } else {
        n
    }
}

/// The net inputs and outputs of running an upstream and a downstream recipe
/// once each, after the intermediate flow between them has cancelled out.
pub struct RecipeBalance {
    pub input_items: Vec<Item>,
    pub input_fluids: Vec<Fluid>,
    pub output_items: Vec<Item>,
    pub output_fluids: Vec<Fluid>,
}

/// Adds two numbers, stopping at the largest size.
pub(crate) fn add_capped(a: usize, b: usize) -> (r: usize)
    ensures
        r == if a + b > usize::MAX { usize::MAX as int } else { a + b },
{
    if a > usize::MAX - b {
        usize::MAX
    } else {
        a + b
    }
}

/// Whether some stack of `list` has identity `id`.
fn holds_identity<T: Ingredient>(list: &Vec<T>, id: &String) -> (r: bool)
    ensures
        r == present(views(list@), id@),
{
    let ghost v = views(list@);
    let mut i: usize = 0;
    while i < list.len()
        invariant
            v == views(list@),
            0 <= i <= list.len(),
            forall|k: int| 0 <= k < i ==> identity(#[trigger] v[k]) != Some(id@),
        decreases list.len() - i,
    {
        proof {
            assert(v[i as int] == list@[i as int]@);
        }
        match identity_of(&list[i]) {
            Ok(n) => {
                if *n == *id {
                    return true;
                }
            },
            Err(_) => {},
        }
        i = i + 1;
    }
    false
}

/// The intermediate flow of `id` from `outs` to `ins`, capped at the largest
/// size, or `None` when the identity does not flow between them.
fn find_intermediate<T: Ingredient>(outs: &Vec<T>, ins: &Vec<T>, id: &String) -> (r: Option<usize>)
    ensures
        r is None <==> !shared(views(outs@), views(ins@), id@),
        r is Some ==> r->Some_0 == capped(flow(views(outs@), views(ins@), id@)),
{
    if !holds_identity(outs, id) || !holds_identity(ins, id) {
        return None;
    }
    let ghost vo = views(outs@);
    let ghost vi = views(ins@);
    let mut acc: usize = 0;
    let mut a: usize = 0;
    while a < outs.len()
        invariant
            vo == views(outs@),
            vi == views(ins@),
            0 <= a <= outs.len(),
            acc == capped(flow(vo.take(a as int), vi, id@)),
        decreases outs.len() - a,
    {
        let o = &outs[a];
        proof {
            assert(vo.take(a as int + 1).drop_last() =~= vo.take(a as int));
            assert(vo.take(a as int + 1).last() == o@);
        }
        let keyed_here = match identity_of(o) {
            Ok(n) => *n == *id,
            Err(_) => false,
        };
        if keyed_here {
            let oa = o.quantity();
            let ghost base = flow(vo.take(a as int), vi, id@);
            let mut b: usize = 0;
            while b < ins.len()
                invariant
                    vi == views(ins@),
                    0 <= b <= ins.len(),
                    oa == o@.amount,
                    acc == capped(base + row(oa as nat, vi.take(b as int), id@)),
                decreases ins.len() - b,
            {
                let x = &ins[b];
                proof {
                    assert(vi.take(b as int + 1).drop_last() =~= vi.take(b as int));
                    assert(vi.take(b as int + 1).last() == x@);
                }
                let hit = match identity_of(x) {
                    Ok(n) => *n == *id,
                    Err(_) => false,
                };
                if hit {
                    let m = if oa <= x.quantity() {
                        oa
                    } else {
                        x.quantity()
                    };
                    acc = add_capped(acc, m);
                }
                b = b + 1;
            }
            proof {
                assert(vi.take(b as int) =~= vi);
            }
        }
        a = a + 1;
    }
    proof {
        assert(vo.take(a as int) =~= vo);
    }
    Some(acc)
}

/// `items` with the intermediate flow from `outs` to `ins` cancelled.
fn remove_intermediate<T: Ingredient>(items: &Vec<T>, outs: &Vec<T>, ins: &Vec<T>) -> (r: Vec<T>)
    requires
        identified(views(items@)),
    ensures
        views(r@) == cancel(views(items@), views(outs@), views(ins@)),
{
    let ghost v = views(items@);
    let ghost vo = views(outs@);
    let ghost vi = views(ins@);
    let mut out: Vec<T> = Vec::new();
    let mut i: usize = 0;
    while i < items.len()
        invariant
            v == views(items@),
            vo == views(outs@),
            vi == views(ins@),
            identified(v),
            0 <= i <= items.len(),
            views(out@) == cancel(v.take(i as int), vo, vi),
        decreases items.len() - i,
    {
        let e = &items[i];
        proof {
            assert(v.take(i as int + 1).drop_last() =~= v.take(i as int));
            assert(v.take(i as int + 1).last() == e@);
            assert(v[i as int] == e@);
            assert(identity(v[i as int]) is Some);
        }
        let id = match identity_of(e) {
            Ok(n) => n,
            Err(_) => {
                proof {
                    assert(false);
                }
                return out;
            },
        };
        let ghost old_out = out@;
        match find_intermediate(outs, ins, id) {
            Some(k) => {
                if e.quantity() > k {
                    out.push(T::assemble(e.quantity() - k, copy_name(e.unlocalized()), copy_name(e.localized())));
                    proof {
                        assert(views(out@) =~= views(old_out).push(views(out@).last()));
                    }
                }
            },
            None => {
                out.push(T::assemble(e.quantity(), copy_name(e.unlocalized()), copy_name(e.localized())));
                proof {
                    assert(views(out@) =~= views(old_out).push(e@));
                }
            },
        }
        i = i + 1;
    }
    proof {
        assert(v.take(i as int) =~= v);
    }
    out
}

/// The aggregate of two lists of stacks.
fn combine_pair<T: Ingredient>(first: &Vec<T>, second: &Vec<T>) -> (r: Result<Vec<T>, RecipeError>)
    requires
        sum_amounts(views(first@) + views(second@)) <= usize::MAX,
    ensures
        r is Err <==> !identified(views(first@) + views(second@)),
        r is Err ==> r == Err::<Vec<T>, RecipeError>(RecipeError::MissingIdentity),
        r is Ok ==> views(r->Ok_0@) == aggregate(views(first@) + views(second@)),
{
    let ghost a = views(first@);
    let ghost b = views(second@);
    let mut acc: Vec<T> = Vec::new();
    proof {
        assert(views(acc@) =~= aggregate(Seq::empty()));
        assert(Seq::<IngredientView>::empty() + a =~= a);
        assert(a =~= a + Seq::empty());
        lemma_sum_add(a, b);
        lemma_sum_add(Seq::empty(), a);
        lemma_identified_add(a, b);
    }
    match absorb_list(&mut acc, first, Ghost(Seq::empty())) {
        Ok(()) => {},
        Err(e) => {
            return Err(e);
        },
    }
    match absorb_list(&mut acc, second, Ghost(a)) {
        Ok(()) => {},
        Err(e) => {
            return Err(e);
        },
    }
    Ok(acc)
}

/// Whether the amounts of two lists sum to a size.
fn pair_fits<T: Ingredient>(first: &Vec<T>, second: &Vec<T>) -> (r: bool)
    ensures
        r == (sum_amounts(views(first@) + views(second@)) <= usize::MAX),
{
    proof {
        lemma_sum_add(views(first@), views(second@));
    }
    match add_amounts(0, first) {
        Some(n) => add_amounts(n, second).is_some(),
        None => false,
    }
}

impl RecipeBalance {
    /// Whether the amounts of `re1` and `re2` are small enough for
    /// [`RecipeBalance::new`]: on each side of each channel their sum fits in
    /// a size.
    pub fn fits(re1: &GregtechRecipe, re2: &GregtechRecipe) -> (r: bool)
        ensures
            r == {
                &&& sum_amounts(re1@.item_inputs + re2@.item_inputs) <= usize::MAX
                &&& sum_amounts(re1@.item_outputs + re2@.item_outputs) <= usize::MAX
                &&& sum_amounts(re1@.fluid_inputs + re2@.fluid_inputs) <= usize::MAX
                &&& sum_amounts(re1@.fluid_outputs + re2@.fluid_outputs) <= usize::MAX
            },
    {
        pair_fits(&re1.item_inputs, &re2.item_inputs) && pair_fits(&re1.item_outputs, &re2.item_outputs)
            && pair_fits(&re1.fluid_inputs, &re2.fluid_inputs) && pair_fits(
            &re1.fluid_outputs,
            &re2.fluid_outputs,
        )
    }

    /// The balance of running `re1` and then `re2` once each, where `re1`'s
    /// outputs feed `re2`'s inputs. On each channel the inputs and the outputs
    /// of both recipes are aggregated and the intermediate flow from `re1`'s
    /// outputs to `re2`'s inputs is cancelled out of both.
    pub fn new(re1: &GregtechRecipe, re2: &GregtechRecipe) -> (r: Result<RecipeBalance, RecipeError>)
        requires
            sum_amounts(re1@.item_inputs + re2@.item_inputs) <= usize::MAX,
            sum_amounts(re1@.item_outputs + re2@.item_outputs) <= usize::MAX,
            sum_amounts(re1@.fluid_inputs + re2@.fluid_inputs) <= usize::MAX,
            sum_amounts(re1@.fluid_outputs + re2@.fluid_outputs) <= usize::MAX,
        ensures
            r is Err <==> !chain_identified(re1@, re2@),
            r is Err ==> r == Err::<RecipeBalance, RecipeError>(RecipeError::MissingIdentity),
            r is Ok ==> {
                let b = r->Ok_0;
                &&& views(b.input_items@) == net(
                    re1@.item_inputs + re2@.item_inputs,
                    re1@.item_outputs,
                    re2@.item_inputs,
                )
                &&& views(b.output_items@) == net(
                    re1@.item_outputs + re2@.item_outputs,
                    re1@.item_outputs,
                    re2@.item_inputs,
                )
                &&& views(b.input_fluids@) == net(
                    re1@.fluid_inputs + re2@.fluid_inputs,
                    re1@.fluid_outputs,
                    re2@.fluid_inputs,
                )
                &&& views(b.output_fluids@) == net(
                    re1@.fluid_outputs + re2@.fluid_outputs,
                    re1@.fluid_outputs,
                    re2@.fluid_inputs,
                )
            },
    {
        let input_items = match combine_pair(&re1.item_inputs, &re2.item_inputs) {
            Ok(v) => v,
            Err(e) => {
                return Err(e);
            },
        };
        let output_items = match combine_pair(&re1.item_outputs, &re2.item_outputs) {
            Ok(v) => v,
            Err(e) => {
                return Err(e);
            },
        };
        let input_fluids = match combine_pair(&re1.fluid_inputs, &re2.fluid_inputs) {
            Ok(v) => v,
            Err(e) => {
                return Err(e);
            },
        };
        let output_fluids = match combine_pair(&re1.fluid_outputs, &re2.fluid_outputs) {
            Ok(v) => v,
            Err(e) => {
                return Err(e);
            },
        };
        proof {
            lemma_aggregate(re1@.item_inputs + re2@.item_inputs);
            lemma_aggregate(re1@.item_outputs + re2@.item_outputs);
            lemma_aggregate(re1@.fluid_inputs + re2@.fluid_inputs);
            lemma_aggregate(re1@.fluid_outputs + re2@.fluid_outputs);
        }
        Ok(RecipeBalance {
            input_items: remove_intermediate(&input_items, &re1.item_outputs, &re2.item_inputs),
            output_items: remove_intermediate(&output_items, &re1.item_outputs, &re2.item_inputs),
            input_fluids: remove_intermediate(&input_fluids, &re1.fluid_outputs, &re2.fluid_inputs),
            output_fluids: remove_intermediate(&output_fluids, &re1.fluid_outputs, &re2.fluid_inputs),
        })
    }
}

/// Every stack of both recipes has an identity.
pub open spec fn chain_identified(re1: RecipeView, re2: RecipeView) -> bool {
    &&& identified(re1.item_inputs + re2.item_inputs)
    &&& identified(re1.item_outputs + re2.item_outputs)
    &&& identified(re1.fluid_inputs + re2.fluid_inputs)
    &&& identified(re1.fluid_outputs + re2.fluid_outputs)
}

/// Cancellation on a keyed aggregate, one identity at a time.
proof fn lemma_cancel(agg: Seq<IngredientView>, outs: Seq<IngredientView>, ins: Seq<IngredientView>, id: Seq<char>)
    requires
        keyed(agg),
    ensures
        !shared(outs, ins, id) ==> total(cancel(agg, outs, ins), id) == total(agg, id) && (present(
            cancel(agg, outs, ins),
            id,
        ) <==> present(agg, id)),
        shared(outs, ins, id) && total(agg, id) > flow(outs, ins, id) ==> present(cancel(agg, outs, ins), id)
            && total(cancel(agg, outs, ins), id) == total(agg, id) - flow(outs, ins, id),
        shared(outs, ins, id) && total(agg, id) <= flow(outs, ins, id) ==> !present(cancel(agg, outs, ins), id)
            && total(cancel(agg, outs, ins), id) == 0,
    decreases agg.len(),
{
    if agg.len() == 0 {
        assert(!present(agg, id));
        assert(!present(cancel(agg, outs, ins), id));
    } else {
        let d = agg.drop_last();
        let e = agg.last();
        let eid = identity(e).unwrap();
        let rest = cancel(d, outs, ins);
        lemma_keyed_drop_last(agg);
        lemma_cancel(d, outs, ins, id);
        assert(agg =~= d.push(e));
        lemma_push(d, e, id);
        assert(e == agg[agg.len() - 1]);
        assert(e.unlocalized_name is Some);
        if shared(outs, ins, eid) {
            let k = flow(outs, ins, eid);
            if e.amount > k {
                lemma_push(rest, IngredientView { amount: (e.amount - k) as nat, ..e }, id);
            }
        } else {
            lemma_push(rest, e, id);
        }
        if eid == id {
            assert(!present(d, id)) by {
                if present(d, id) {
                    let i = choose|i: int| 0 <= i < d.len() && identity(d[i]) == Some(id);
                    assert(d[i] == agg[i]);
                    assert(agg[i].unlocalized_name is Some);
                    assert(agg[i].unlocalized_name != agg[agg.len() - 1].unlocalized_name);
                }
            }
            lemma_total_absent(d, id);
        }
    }
}

/// Cancellation is the same on both sides: an identity `id` that flows from
/// the upstream outputs `outs` to the downstream inputs `ins` loses exactly
/// its flow from the aggregate of `gross`, and its entry disappears when the
/// flow covers the whole aggregate amount; an identity that does not flow
/// keeps its aggregate amount. The balance's input and output lists are both
/// formed this way, with the same flow.
pub proof fn law_cancellation(gross: Seq<IngredientView>, outs: Seq<IngredientView>, ins: Seq<IngredientView>, id: Seq<char>)
    requires
        identified(gross),
    ensures
        !shared(outs, ins, id) ==> total(net(gross, outs, ins), id) == total(gross, id) && (present(
            net(gross, outs, ins),
            id,
        ) <==> present(gross, id)),
        shared(outs, ins, id) && total(gross, id) > flow(outs, ins, id) ==> present(net(gross, outs, ins), id)
            && total(net(gross, outs, ins), id) == total(gross, id) - flow(outs, ins, id),
        shared(outs, ins, id) && total(gross, id) <= flow(outs, ins, id) ==> !present(net(gross, outs, ins), id),
{
    lemma_aggregate(gross);
    lemma_cancel(aggregate(gross), outs, ins, id);
}

/// Nothing is cancelled from an aggregate none of whose identities flows.
pub proof fn lemma_cancel_nothing(agg: Seq<IngredientView>, outs: Seq<IngredientView>, ins: Seq<IngredientView>)
    requires
        forall|i: int| 0 <= i < agg.len() ==> !shared(outs, ins, #[trigger] identity(agg[i]).unwrap()),
    ensures
        cancel(agg, outs, ins) == agg,
    decreases agg.len(),
{
    if agg.len() > 0 {
        let d = agg.drop_last();
        assert forall|i: int| 0 <= i < d.len() implies !shared(outs, ins, #[trigger] identity(d[i]).unwrap()) by {
            assert(d[i] == agg[i]);
        }
        lemma_cancel_nothing(d, outs, ins);
        assert(!shared(outs, ins, identity(agg[agg.len() - 1]).unwrap()));
        assert(d.push(agg.last()) =~= agg);
    }
}

} // verus!

use vstd::prelude::*;

use crate::aggregate::views;
use crate::ingredients::{copy_name, Fluid, Ingredient, IngredientView, Item};

verus! {

broadcast use vstd::seq_lib::group_seq_properties;

/// The mathematical content of a recipe.
pub ghost struct RecipeView {
    pub enabled: bool,
    pub duration: nat,
    pub eut: nat,
    pub item_inputs: Seq<IngredientView>,
    pub item_outputs: Seq<IngredientView>,
    pub fluid_inputs: Seq<IngredientView>,
    pub fluid_outputs: Seq<IngredientView>,
}

/// One machine operation: item and fluid stacks in, item and fluid stacks
/// out, taking `duration` at a draw of `eut` per tick.
#[derive(Debug, PartialEq, Eq, Hash)]
pub struct GregtechRecipe {
    pub enabled: bool,
    pub duration: usize,
    pub eut: usize,
    pub item_inputs: Vec<Item>,
    pub item_outputs: Vec<Item>,
    pub fluid_inputs: Vec<Fluid>,
    pub fluid_outputs: Vec<Fluid>,
}

impl View for GregtechRecipe {
    type V = RecipeView;

    open spec fn view(&self) -> RecipeView {
        RecipeView {
            enabled: self.enabled,
            duration: self.duration as nat,
            eut: self.eut as nat,
            item_inputs: views(self.item_inputs@),
            item_outputs: views(self.item_outputs@),
            fluid_inputs: views(self.fluid_inputs@),
            fluid_outputs: views(self.fluid_outputs@),
        }
    }
}

/// A copy of a list of stacks.
pub fn copy_list<T: Ingredient>(list: &Vec<T>) -> (r: Vec<T>)
    ensures
        views(r@) == views(list@),
{
    let mut r: Vec<T> = Vec::new();
    let mut i: usize = 0;
    while i < list.len()
        invariant
            0 <= i <= list.len(),
            views(r@) == views(list@).take(i as int),
        decreases list.len() - i,
    {
        let x = &list[i];
        let e = T::assemble(x.quantity(), copy_name(x.unlocalized()), copy_name(x.localized()));
        assert(e@ == x@);
        let ghost old_r = r@;
        r.push(e);
        proof {
            assert(views(old_r).len() == i);
            assert(r@ == old_r.push(e));
            assert forall|k: int| 0 <= k <= i implies views(r@)[k] == views(list@).take(i as int + 1)[k] by {
                if k < i {
                    assert(r@[k] == old_r[k]);
                    assert(views(old_r)[k] == views(list@).take(i as int)[k]);
                }
            }
            assert(views(r@) =~= views(list@).take(i as int + 1));
        }
        i = i + 1;
    }
    proof {
        assert(views(list@).take(i as int) =~= views(list@));
    }
    r
}

impl Clone for GregtechRecipe {
    fn clone(&self) -> (r: Self)
        ensures
            r@ == self@,
    {
        GregtechRecipe {
            enabled: self.enabled,
            duration: self.duration,
            eut: self.eut,
            item_inputs: copy_list(&self.item_inputs),
            item_outputs: copy_list(&self.item_outputs),
            fluid_inputs: copy_list(&self.fluid_inputs),
            fluid_outputs: copy_list(&self.fluid_outputs),
        }
    }
}

/// The views of a sequence of recipes.
pub open spec fn recipe_views(s: Seq<GregtechRecipe>) -> Seq<RecipeView> {
    s.map_values(|r: GregtechRecipe| r@)
}

/// Some stack of `list` has localized name `name` and, when `amount` is
/// given, that amount.
pub open spec fn lists_name(list: Seq<IngredientView>, name: Seq<char>, amount: Option<nat>) -> bool {
    exists|i: int|
        0 <= i < list.len() && (#[trigger] list[i]).localized_name == Some(name) && (amount is None
            || list[i].amount == amount.unwrap())
}

/// The list of a recipe on one side (`input` or output) of one channel
/// (`fluid` or item).
pub open spec fn side_of(r: RecipeView, input: bool, fluid: bool) -> Seq<IngredientView> {
    if input {
        if fluid {
            r.fluid_inputs
        } else {
            r.item_inputs
        }
    } else {
        if fluid {
            r.fluid_outputs
        } else {
            r.item_outputs
        }
    }
}

/// The recipes of `s`, in order, whose list on the given side and channel
/// names `name` (with `amount`, when given).
pub open spec fn selected(s: Seq<RecipeView>, input: bool, fluid: bool, name: Seq<char>, amount: Option<nat>) -> Seq<
    RecipeView,
> {
    s.filter(|r: RecipeView| lists_name(side_of(r, input, fluid), name, amount))
}

/// An optional size as an optional number.
pub open spec fn amount_view(amount: Option<usize>) -> Option<nat> {
    match amount {
        Some(a) => Some(a as nat),
        None => None,
    }
}

/// Whether some stack of `list` has localized name `name` and, when
/// `amount` is given, that amount.
fn list_names<T: Ingredient>(list: &Vec<T>, name: &String, amount: Option<usize>) -> (r: bool)
    ensures
        r == lists_name(views(list@), name@, amount_view(amount)),
{
    let ghost v = views(list@);
    let mut i: usize = 0;
    while i < list.len()
        invariant
            v == views(list@),
            0 <= i <= list.len(),
            forall|k: int|
                0 <= k < i ==> !((#[trigger] v[k]).localized_name == Some(name@) && (amount_view(amount) is None
                    || v[k].amount == amount_view(amount).unwrap())),
        decreases list.len() - i,
    {
        let x = &list[i];
        let same_name = match x.localized() {
            Some(n) => *n == *name,
            None => false,
        };
        let same_amount = match amount {
            Some(a) => x.quantity() == a,
            None => true,
        };
        proof {
            assert(v[i as int] == x@);
        }
        if same_name && same_amount {
            return true;
        }
        i = i + 1;
    }
    false
}

/// The recipes of `recipes`, copied in order, that have a stack with
/// localized name exactly `name` (and exactly `amount`, when given) in their
/// inputs (`input`) or outputs, of fluids (`fluid`) or items.
pub fn filter_by_ingredient(recipes: &Vec<GregtechRecipe>, input: bool, fluid: bool, name: &str, amount: Option<usize>) -> (r: Vec<
    GregtechRecipe,
>)
    ensures
        recipe_views(r@) == selected(recipe_views(recipes@), input, fluid, name@, amount_view(amount)),
{
    let key = name.to_string();
    let ghost vs = recipe_views(recipes@);
    let mut out: Vec<GregtechRecipe> = Vec::new();
    let mut i: usize = 0;
    while i < recipes.len()
        invariant
            vs == recipe_views(recipes@),
            key@ == name@,
            0 <= i <= recipes.len(),
            recipe_views(out@) == selected(vs.take(i as int), input, fluid, name@, amount_view(amount)),
        decreases recipes.len() - i,
    {
        let rec = &recipes[i];
        let hit = if input {
            if fluid {
                list_names(&rec.fluid_inputs, &key, amount)
            } else {
                list_names(&rec.item_inputs, &key, amount)
            }
        } else {
            if fluid {
                list_names(&rec.fluid_outputs, &key, amount)
            } else {
                list_names(&rec.item_outputs, &key, amount)
            }
        };
        let ghost old_out = out@;
        proof {
            assert(vs.take(i as int + 1) =~= vs.take(i as int).push(rec@));
            vs.take(i as int).lemma_filter_push(
                rec@,
                |r: RecipeView| lists_name(side_of(r, input, fluid), name@, amount_view(amount)),
            );
        }
        if hit {
            out.push(rec.clone());
            proof {
                assert(recipe_views(out@) =~= recipe_views(old_out).push(rec@));
            }
        }
        i = i + 1;
    }
    proof {
        assert(vs.take(i as int) =~= vs);
    }
    out
}

/// The recipes that take the item localized as `item_name`.
pub fn filter_recipes_by_input_item(recipes: &Vec<GregtechRecipe>, item_name: &str) -> (r: Vec<GregtechRecipe>)
    ensures
        recipe_views(r@) == selected(recipe_views(recipes@), true, false, item_name@, None),
{
    filter_by_ingredient(recipes, true, false, item_name, None)
}

/// The recipes that produce the item localized as `item_name`.
pub fn filter_recipes_by_output_item(recipes: &Vec<GregtechRecipe>, item_name: &str) -> (r: Vec<GregtechRecipe>)
    ensures
        recipe_views(r@) == selected(recipe_views(recipes@), false, false, item_name@, None),
{
    filter_by_ingredient(recipes, false, false, item_name, None)
}

/// The recipes that take the fluid localized as `fluid_name`, in exactly
/// `amount` when it is given.
pub fn filter_recipes_by_input_fluid(recipes: &Vec<GregtechRecipe>, fluid_name: &str, amount: Option<usize>) -> (r:
    Vec<GregtechRecipe>)
    ensures
        recipe_views(r@) == selected(recipe_views(recipes@), true, true, fluid_name@, amount_view(amount)),
{
    filter_by_ingredient(recipes, true, true, fluid_name, amount)
}

/// The recipes that produce the fluid localized as `fluid_name`, in exactly
/// `amount` when it is given.
pub fn filter_recipes_by_output_fluid(recipes: &Vec<GregtechRecipe>, fluid_name: &str, amount: Option<usize>) -> (r:
    Vec<GregtechRecipe>)
    ensures
        recipe_views(r@) == selected(recipe_views(recipes@), false, true, fluid_name@, amount_view(amount)),
{
    filter_by_ingredient(recipes, false, true, fluid_name, amount)
}

/// Filtering is idempotent: selecting again, by the same side, channel,
/// name and amount, from what a filter returned gives the same sequence.
pub proof fn law_filter_idempotent(
    s: Seq<RecipeView>,
    input: bool,
    fluid: bool,
    name: Seq<char>,
    amount: Option<nat>,
)
    ensures
        selected(selected(s, input, fluid, name, amount), input, fluid, name, amount) == selected(
            s,
            input,
            fluid,
            name,
            amount,
        ),
    decreases s.len(),
{
    let p = |r: RecipeView| lists_name(side_of(r, input, fluid), name, amount);
    if s.len() > 0 {
        let d = s.drop_last();
        law_filter_idempotent(d, input, fluid, name, amount);
        assert(s =~= d.push(s.last()));
        d.lemma_filter_push(s.last(), p);
        d.filter(p).lemma_filter_push(s.last(), p);
    } else {
        reveal(Seq::filter);
    }
}

/// A list of recipes, shown one per line.
pub struct Recipes(pub Vec<GregtechRecipe>);

impl From<Vec<GregtechRecipe>> for Recipes {
    fn from(vec: Vec<GregtechRecipe>) -> Self {
        Recipes(vec)
    }
}

impl vstd::std_specs::convert::FromSpecImpl<Vec<GregtechRecipe>> for Recipes {
    open spec fn obeys_from_spec() -> bool {
        true
    }

    open spec fn from_spec(v: Vec<GregtechRecipe>) -> Self {
        Recipes(v)
    }
}

} // verus!

use vstd::prelude::*;
use vstd::string::StringExecFns;

use crate::aggregate::views;
use crate::balance::RecipeBalance;
use crate::ingredients::{display_name, Fluid, Ingredient, IngredientView, Item};
use crate::recipe::{recipe_views, GregtechRecipe, RecipeView, Recipes};
use crate::stats::RecipeStats;

verus! {

/// The decimal digit of `d`.
pub open spec fn digit(d: nat) -> char {
    if d == 0 {
        '0'
    } else if d == 1 {
        '1'
    } else if d == 2 {
        '2'
    } else if d == 3 {
        '3'
    } else if d == 4 {
        '4'
    } else if d == 5 {
        '5'
    } else if d == 6 {
        '6'
    } else if d == 7 {
        '7'
    } else if d == 8 {
        '8'
    } else {
        '9'
    }
}

/// The decimal notation of `n`, without leading zeros.
pub open spec fn decimal(n: nat) -> Seq<char>
    decreases n,
{
    if n < 10 {
        seq![digit(n)]
    } else {
        decimal(n / 10).push(digit(n % 10))
    }
}

/// Appends the digit `d` to `s`.
fn push_digit(s: &mut String, d: usize)
    requires
        d < 10,
    ensures
        final(s)@ == old(s)@.push(digit(d as nat)),
{
    let t: &str = if d == 0 {
        "0"
    } else if d == 1 {
        "1"
    } else if d == 2 {
        "2"
    } else if d == 3 {
        "3"
    } else if d == 4 {
        "4"
    } else if d == 5 {
        "5"
    } else if d == 6 {
        "6"
    } else if d == 7 {
        "7"
    } else if d == 8 {
        "8"
    } else {
        "9"
    };
    proof {
        reveal_strlit("0");
        reveal_strlit("1");
        reveal_strlit("2");
        reveal_strlit("3");
        reveal_strlit("4");
        reveal_strlit("5");
        reveal_strlit("6");
        reveal_strlit("7");
        reveal_strlit("8");
        reveal_strlit("9");
    }
    s.append(t);
    proof {
        assert(final(s)@ =~= old(s)@.push(digit(d as nat)));
    }
}

/// Appends the decimal notation of `n` to `s`.
pub fn push_decimal(s: &mut String, n: usize)
    ensures
        final(s)@ == old(s)@ + decimal(n as nat),
    decreases n,
{
    if n < 10 {
        push_digit(s, n);
        proof {
            assert(final(s)@ =~= old(s)@ + decimal(n as nat));
        }
    } else {
        push_decimal(s, n / 10);
        push_digit(s, n % 10);
        proof {
            assert(final(s)@ =~= old(s)@ + decimal(n as nat));
        }
    }
}

/// A stack as text: its amount, the unit, a space and its display name.
pub open spec fn stack_text(v: IngredientView, unit: Seq<char>) -> Seq<char> {
    decimal(v.amount) + unit + seq![' '] + display_name(v)
}

/// The stacks of `list` as text, joined by " + ".
pub open spec fn list_text(list: Seq<IngredientView>, unit: Seq<char>) -> Seq<char>
    decreases list.len(),
{
    if list.len() == 0 {
        Seq::empty()
    } else if list.len() == 1 {
        stack_text(list[0], unit)
    } else {
        list_text(list.drop_last(), unit) + " + "@ + stack_text(list.last(), unit)
    }
}

/// One side of a recipe as text: the items, then the fluids after ", " when
/// there are both.
pub open spec fn side_text(items: Seq<char>, fluids: Seq<char>) -> Seq<char> {
    if items.len() > 0 && fluids.len() > 0 {
        items + ", "@ + fluids
    } else if items.len() > 0 {
        items
    } else {
        fluids
    }
}

/// A whole conversion as text: inputs, " -> ", outputs; items count with
/// "x", fluids with "l".
pub open spec fn conversion_text(
    item_inputs: Seq<IngredientView>,
    fluid_inputs: Seq<IngredientView>,
    item_outputs: Seq<IngredientView>,
    fluid_outputs: Seq<IngredientView>,
) -> Seq<char> {
    side_text(list_text(item_inputs, "x"@), list_text(fluid_inputs, "l"@)) + " -> "@ + side_text(
        list_text(item_outputs, "x"@),
        list_text(fluid_outputs, "l"@),
    )
}

/// Appends stack `x` as text to `s`.
pub fn push_stack<T: Ingredient>(s: &mut String, x: &T, unit: &str)
    ensures
        final(s)@ == old(s)@ + stack_text(x@, unit@),
{
    push_decimal(s, x.quantity());
    s.append(unit);
    proof {
        reveal_strlit(" ");
    }
    s.append(" ");
    let name = crate::ingredients::label_of(x);
    s.append(name.as_str());
    proof {
        assert(final(s)@ =~= old(s)@ + stack_text(x@, unit@));
    }
}

/// The stacks of `list` as text.
pub fn list_string<T: Ingredient>(list: &Vec<T>, unit: &str) -> (r: String)
    ensures
        r@ == list_text(views(list@), unit@),
{
    let ghost v = views(list@);
    let mut s = String::new();
    let mut i: usize = 0;
    proof {
        reveal_strlit(" + ");
        assert(s@ =~= list_text(v.take(0), unit@));
    }
    while i < list.len()
        invariant
            v == views(list@),
            0 <= i <= list.len(),
            s@ == list_text(v.take(i as int), unit@),
        decreases list.len() - i,
    {
        proof {
            assert(v.take(i as int + 1).drop_last() =~= v.take(i as int));
            assert(v.take(i as int + 1).last() == list@[i as int]@);
            assert(v.take(1)[0] == v[0]);
        }
        if i > 0 {
            s.append(" + ");
        }
        push_stack(&mut s, &list[i], unit);
        proof {
            if i == 0 {
                assert(s@ =~= list_text(v.take(1), unit@));
            }
        }
        i = i + 1;
    }
    proof {
        assert(v.take(i as int) =~= v);
    }
    s
}

/// One side of a conversion as text.
pub fn side_string(items: String, fluids: String) -> (r: String)
    ensures
        r@ == side_text(items@, fluids@),
{
    if !items.as_str().is_empty() && !fluids.as_str().is_empty() {
        let mut s = items;
        proof {
            reveal_strlit(", ");
        }
        s.append(", ");
        s.append(fluids.as_str());
        s
    } else if !items.as_str().is_empty() {
        items
    } else {
        fluids
    }
}

/// A conversion as text.
fn conversion_string(
    item_inputs: &Vec<Item>,
    fluid_inputs: &Vec<Fluid>,
    item_outputs: &Vec<Item>,
    fluid_outputs: &Vec<Fluid>,
) -> (r: String)
    ensures
        r@ == conversion_text(views(item_inputs@), views(fluid_inputs@), views(item_outputs@), views(fluid_outputs@)),
{
    proof {
        reveal_strlit("x");
        reveal_strlit("l");
        reveal_strlit(" -> ");
    }
    let mut s = side_string(list_string(item_inputs, "x"), list_string(fluid_inputs, "l"));
    s.append(" -> ");
    let outputs = side_string(list_string(item_outputs, "x"), list_string(fluid_outputs, "l"));
    s.append(outputs.as_str());
    s
}

/// Recipes as text, one per line.
pub open spec fn recipes_text(rs: Seq<RecipeView>) -> Seq<char>
    decreases rs.len(),
{
    if rs.len() == 0 {
        Seq::empty()
    } else if rs.len() == 1 {
        recipe_text(rs[0])
    } else {
        recipes_text(rs.drop_last()) + "\n"@ + recipe_text(rs.last())
    }
}

/// A recipe as text.
pub open spec fn recipe_text(r: RecipeView) -> Seq<char> {
    conversion_text(r.item_inputs, r.fluid_inputs, r.item_outputs, r.fluid_outputs)
}

impl Item {
    /// The item as text: amount, "x", a space and its display name.
    pub fn describe(&self) -> (r: String)
        ensures
            r@ == stack_text(self@, "x"@),
    {
        let mut s = String::new();
        proof {
            reveal_strlit("x");
        }
        push_stack(&mut s, self, "x");
        s
    }
}

impl Fluid {
    /// The fluid as text: amount, "l", a space and its display name.
    pub fn describe(&self) -> (r: String)
        ensures
            r@ == stack_text(self@, "l"@),
    {
        let mut s = String::new();
        proof {
            reveal_strlit("l");
        }
        push_stack(&mut s, self, "l");
        s
    }
}

impl GregtechRecipe {
    /// The recipe as text: inputs, " -> ", outputs.
    pub fn describe(&self) -> (r: String)
        ensures
            r@ == recipe_text(self@),
    {
        conversion_string(&self.item_inputs, &self.fluid_inputs, &self.item_outputs, &self.fluid_outputs)
    }
}

impl Recipes {
    /// The recipes as text, one per line.
    pub fn describe(&self) -> (r: String)
        ensures
            r@ == recipes_text(recipe_views(self.0@)),
    {
        let ghost rs = recipe_views(self.0@);
        let mut s = String::new();
        let mut i: usize = 0;
        proof {
            reveal_strlit("\n");
            assert(s@ =~= recipes_text(rs.take(0)));
        }
        while i < self.0.len()
            invariant
                rs == recipe_views(self.0@),
                0 <= i <= rs.len(),
                s@ == recipes_text(rs.take(i as int)),
            decreases rs.len() - i,
        {
            proof {
                assert(rs.take(i as int + 1).drop_last() =~= rs.take(i as int));
                assert(rs.take(i as int + 1).last() == self.0@[i as int]@);
                assert(rs.take(1)[0] == rs[0]);
            }
            if i > 0 {
                s.append("\n");
            }
            let line = self.0[i].describe();
            s.append(line.as_str());
            proof {
                if i == 0 {
                    assert(s@ =~= recipes_text(rs.take(1)));
                } else {
                    assert(s@ =~= recipes_text(rs.take(i as int + 1)));
                }
            }
            i = i + 1;
        }
        proof {
            assert(rs.take(i as int) =~= rs);
        }
        s
    }
}

impl RecipeStats {
    /// The gross totals as text: inputs, " -> ", outputs.
    pub fn describe(&self) -> (r: String)
        ensures
            r@ == conversion_text(
                views(self.total_input_items@),
                views(self.total_input_fluids@),
                views(self.total_output_items@),
                views(self.total_output_fluids@),
            ),
    {
        conversion_string(
            &self.total_input_items,
            &self.total_input_fluids,
            &self.total_output_items,
            &self.total_output_fluids,
        )
    }
}

impl RecipeBalance {
    /// The net balance as text: inputs, " -> ", outputs.
    pub fn describe(&self) -> (r: String)
        ensures
            r@ == conversion_text(
                views(self.input_items@),
                views(self.input_fluids@),
                views(self.output_items@),
                views(self.output_fluids@),
            ),
    {
        conversion_string(&self.input_items, &self.input_fluids, &self.output_items, &self.output_fluids)
    }
}

} // verus!

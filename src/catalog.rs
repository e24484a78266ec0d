use vstd::prelude::*;

use crate::aggregate::views;
use crate::balance::{add_capped, capped};
use crate::ingredients::{Ingredient, IngredientView};
use crate::recipe::{recipe_views, GregtechRecipe, RecipeView};

verus! {

broadcast use vstd::seq_lib::group_seq_properties;

/// Declares serde_json::Value, the type of a flat source's raw records, so
/// that a `Source` can carry them. It is opaque: nothing is assumed about a
/// value's content, and no method of it is called.
#[verifier::external_type_specification]
#[verifier::external_body]
pub struct ExValue(serde_json::Value);

/// A named machine and the recipes it runs.
#[derive(Debug)]
pub struct GregtechMachine {
    pub name: String,
    pub recipes: Vec<GregtechRecipe>,
}

/// One source of a catalog: machine-based sources list machines; flat sources
/// list raw records.
#[derive(Debug)]
pub struct Source {
    pub source_type: String,
    pub recipes: Vec<serde_json::Value>,
    pub machines: Vec<GregtechMachine>,
}

/// A recipe catalog.
#[derive(Debug)]
pub struct JsonFormat {
    pub sources: Vec<Source>,
}

/// Number of recipes of the machines `ms`.
pub open spec fn machine_recipe_count(ms: Seq<GregtechMachine>) -> nat
    decreases ms.len(),
{
    if ms.len() == 0 {
        0
    } else {
        machine_recipe_count(ms.drop_last()) + ms.last().recipes@.len()
    }
}

/// Number of recipes of the sources `ss`: raw records and machine recipes.
pub open spec fn source_recipe_count(ss: Seq<Source>) -> nat
    decreases ss.len(),
{
    if ss.len() == 0 {
        0
    } else {
        source_recipe_count(ss.drop_last()) + ss.last().recipes@.len() + machine_recipe_count(
            ss.last().machines@,
        )
    }
}

/// The characters of each name of `names`.
pub open spec fn name_views(names: Seq<String>) -> Seq<Seq<char>> {
    names.map_values(|n: String| n@)
}

/// One of the names of stack `v` is among `names`.
pub open spec fn named_in(v: IngredientView, names: Seq<Seq<char>>) -> bool {
    ||| (v.unlocalized_name is Some && names.contains(v.unlocalized_name.unwrap()))
    ||| (v.localized_name is Some && names.contains(v.localized_name.unwrap()))
}

/// Some stack of `list` has one of its names among `names`.
pub open spec fn list_named(list: Seq<IngredientView>, names: Seq<Seq<char>>) -> bool {
    exists|i: int| 0 <= i < list.len() && named_in(#[trigger] list[i], names)
}

/// Some stack of recipe `r`, on either side of either channel, has one of
/// its names among `names`.
pub open spec fn mentions(r: RecipeView, names: Seq<Seq<char>>) -> bool {
    ||| list_named(r.item_inputs, names)
    ||| list_named(r.item_outputs, names)
    ||| list_named(r.fluid_inputs, names)
    ||| list_named(r.fluid_outputs, names)
}

/// The (machine name, recipe) pairs of the recipes `rs` of machine `name`
/// that mention one of `names`, in order.
pub open spec fn found_in_machine(name: Seq<char>, rs: Seq<RecipeView>, names: Seq<Seq<char>>) -> Seq<
    (Seq<char>, RecipeView),
>
    decreases rs.len(),
{
    if rs.len() == 0 {
        Seq::empty()
    } else if mentions(rs.last(), names) {
        found_in_machine(name, rs.drop_last(), names).push((name, rs.last()))
    } else {
        found_in_machine(name, rs.drop_last(), names)
    }
}

/// The matches of the machines `ms`, machine by machine.
pub open spec fn found_in_machines(ms: Seq<GregtechMachine>, names: Seq<Seq<char>>) -> Seq<(Seq<char>, RecipeView)>
    decreases ms.len(),
{
    if ms.len() == 0 {
        Seq::empty()
    } else {
        found_in_machines(ms.drop_last(), names) + found_in_machine(
            ms.last().name@,
            recipe_views(ms.last().recipes@),
            names,
        )
    }
}

/// The matches of the sources `ss`, source by source.
pub open spec fn found_in_sources(ss: Seq<Source>, names: Seq<Seq<char>>) -> Seq<(Seq<char>, RecipeView)>
    decreases ss.len(),
{
    if ss.len() == 0 {
        Seq::empty()
    } else {
        found_in_sources(ss.drop_last(), names) + found_in_machines(ss.last().machines@, names)
    }
}

/// The views of search results.
pub open spec fn result_views(r: Seq<(String, GregtechRecipe)>) -> Seq<(Seq<char>, RecipeView)> {
    r.map_values(|p: (String, GregtechRecipe)| (p.0@, p.1@))
}

/// Whether `name` is among `names`.
fn listed(name: &String, names: &Vec<String>) -> (r: bool)
    ensures
        r == name_views(names@).contains(name@),
{
    let mut i: usize = 0;
    while i < names.len()
        invariant
            0 <= i <= names.len(),
            forall|k: int| 0 <= k < i ==> (#[trigger] name_views(names@)[k]) != name@,
        decreases names.len() - i,
    {
        if names[i] == *name {
            proof {
                assert(name_views(names@)[i as int] == name@);
            }
            return true;
        }
        proof {
            assert(name_views(names@)[i as int] == names@[i as int]@);
        }
        i = i + 1;
    }
    false
}

/// Whether some stack of `list` has one of its names among `names`.
fn list_mentions<T: Ingredient>(list: &Vec<T>, names: &Vec<String>) -> (r: bool)
    ensures
        r == list_named(views(list@), name_views(names@)),
{
    let ghost v = views(list@);
    let mut i: usize = 0;
    while i < list.len()
        invariant
            v == views(list@),
            0 <= i <= list.len(),
            forall|k: int| 0 <= k < i ==> !named_in(#[trigger] v[k], name_views(names@)),
        decreases list.len() - i,
    {
        let x = &list[i];
        proof {
            assert(v[i as int] == x@);
        }
        let by_unlocalized = match x.unlocalized() {
            Some(n) => listed(n, names),
            None => false,
        };
        let by_localized = match x.localized() {
            Some(n) => listed(n, names),
            None => false,
        };
        if by_unlocalized || by_localized {
            return true;
        }
        i = i + 1;
    }
    false
}

/// Whether recipe `r` mentions one of `names`.
fn recipe_mentions(r: &GregtechRecipe, names: &Vec<String>) -> (b: bool)
    ensures
        b == mentions(r@, name_views(names@)),
{
    list_mentions(&r.item_inputs, names) || list_mentions(&r.item_outputs, names) || list_mentions(
        &r.fluid_inputs,
        names,
    ) || list_mentions(&r.fluid_outputs, names)
}

impl JsonFormat {
    /// Number of recipes in the catalog: the raw records of every source and
    /// the recipes of every machine (at most the largest size).
    pub fn get_recipe_count(&self) -> (r: usize)
        ensures
            r == capped(source_recipe_count(self.sources@)),
    {
        let ghost ss = self.sources@;
        let mut count: usize = 0;
        let mut a: usize = 0;
        while a < self.sources.len()
            invariant
                ss == self.sources@,
                0 <= a <= ss.len(),
                count == capped(source_recipe_count(ss.take(a as int))),
            decreases ss.len() - a,
        {
            let source = &self.sources[a];
            proof {
                assert(ss.take(a as int + 1).drop_last() =~= ss.take(a as int));
                assert(ss.take(a as int + 1).last() == *source);
            }
            let ghost base = source_recipe_count(ss.take(a as int)) + source.recipes@.len();
            count = add_capped(count, source.recipes.len());
            let ghost ms = source.machines@;
            let mut b: usize = 0;
            while b < source.machines.len()
                invariant
                    ms == source.machines@,
                    0 <= b <= ms.len(),
                    count == capped(base + machine_recipe_count(ms.take(b as int))),
                decreases ms.len() - b,
            {
                proof {
                    assert(ms.take(b as int + 1).drop_last() =~= ms.take(b as int));
                }
                count = add_capped(count, source.machines[b].recipes.len());
                b = b + 1;
            }
            proof {
                assert(ms.take(b as int) =~= ms);
            }
            a = a + 1;
        }
        proof {
            assert(ss.take(a as int) =~= ss);
        }
        count
    }
}

impl JsonFormat {
    /// The recipes of every machine of every source that mention one of
    /// `matching_names` (as the unlocalized or localized name of any stack),
    /// each once and paired with its machine's name, in catalog order.
    pub fn search(&self, matching_names: &Vec<String>) -> (r: Vec<(String, GregtechRecipe)>)
        ensures
            result_views(r@) == found_in_sources(self.sources@, name_views(matching_names@)),
    {
        let ghost ss = self.sources@;
        let ghost names = name_views(matching_names@);
        let mut results: Vec<(String, GregtechRecipe)> = Vec::new();
        let mut a: usize = 0;
        proof {
            assert(result_views(results@) =~= found_in_sources(ss.take(0), names));
        }
        while a < self.sources.len()
            invariant
                ss == self.sources@,
                names == name_views(matching_names@),
                0 <= a <= ss.len(),
                result_views(results@) == found_in_sources(ss.take(a as int), names),
            decreases ss.len() - a,
        {
            let source = &self.sources[a];
            let ghost ms = source.machines@;
            let ghost before_source = found_in_sources(ss.take(a as int), names);
            proof {
                assert(ss.take(a as int + 1).drop_last() =~= ss.take(a as int));
                assert(before_source =~= before_source + found_in_machines(ms.take(0), names));
            }
            let mut b: usize = 0;
            while b < source.machines.len()
                invariant
                    ms == source.machines@,
                    names == name_views(matching_names@),
                    0 <= b <= ms.len(),
                    result_views(results@) == before_source + found_in_machines(ms.take(b as int), names),
                decreases ms.len() - b,
            {
                let machine = &source.machines[b];
                let ghost rs = recipe_views(machine.recipes@);
                let ghost before_machine = before_source + found_in_machines(ms.take(b as int), names);
                proof {
                    assert(ms.take(b as int + 1).drop_last() =~= ms.take(b as int));
                    assert(before_machine =~= before_machine + found_in_machine(machine.name@, rs.take(0), names));
                }
                let mut c: usize = 0;
                while c < machine.recipes.len()
                    invariant
                        rs == recipe_views(machine.recipes@),
                        names == name_views(matching_names@),
                        0 <= c <= rs.len(),
                        result_views(results@) == before_machine + found_in_machine(
                            machine.name@,
                            rs.take(c as int),
                            names,
                        ),
                    decreases rs.len() - c,
                {
                    let recipe = &machine.recipes[c];
                    proof {
                        assert(rs.take(c as int + 1).drop_last() =~= rs.take(c as int));
                        assert(rs.take(c as int + 1).last() == recipe@);
                    }
                    if recipe_mentions(recipe, matching_names) {
                        let ghost old_results = results@;
                        results.push((machine.name.clone(), recipe.clone()));
                        proof {
                            assert(result_views(results@) =~= result_views(old_results).push(
                                (machine.name@, recipe@),
                            ));
                        }
                    }
                    c = c + 1;
                }
                proof {
                    assert(rs.take(c as int) =~= rs);
                    assert(ms.take(b as int + 1).last() == *machine);
                    assert(before_source + found_in_machines(ms.take(b as int + 1), names) =~= before_machine
                        + found_in_machine(machine.name@, rs, names));
                }
                b = b + 1;
            }
            proof {
                assert(ms.take(b as int) =~= ms);
                assert(ss.take(a as int + 1).last() == *source);
            }
            a = a + 1;
        }
        proof {
            assert(ss.take(a as int) =~= ss);
        }
        results
    }
}

/// The names a stack carries: its unlocalized name, then its localized name,
/// each where present.
pub open spec fn stack_names(v: IngredientView) -> Seq<Seq<char>> {
    (if v.unlocalized_name is Some {
        seq![v.unlocalized_name.unwrap()]
    } else {
        Seq::empty()
    }) + (if v.localized_name is Some {
        seq![v.localized_name.unwrap()]
    } else {
        Seq::empty()
    })
}

/// The names of the stacks of `list`, in order.
pub open spec fn list_names_of(list: Seq<IngredientView>) -> Seq<Seq<char>>
    decreases list.len(),
{
    if list.len() == 0 {
        Seq::empty()
    } else {
        list_names_of(list.drop_last()) + stack_names(list.last())
    }
}

/// The names of a recipe's stacks: item inputs, item outputs, fluid inputs,
/// fluid outputs.
pub open spec fn recipe_names(r: RecipeView) -> Seq<Seq<char>> {
    list_names_of(r.item_inputs) + list_names_of(r.item_outputs) + list_names_of(r.fluid_inputs)
        + list_names_of(r.fluid_outputs)
}

/// The names of the recipes `rs`, in order.
pub open spec fn recipes_names(rs: Seq<RecipeView>) -> Seq<Seq<char>>
    decreases rs.len(),
{
    if rs.len() == 0 {
        Seq::empty()
    } else {
        recipes_names(rs.drop_last()) + recipe_names(rs.last())
    }
}

/// The names of the recipes of the machines `ms`, in order.
pub open spec fn machines_names(ms: Seq<GregtechMachine>) -> Seq<Seq<char>>
    decreases ms.len(),
{
    if ms.len() == 0 {
        Seq::empty()
    } else {
        machines_names(ms.drop_last()) + recipes_names(recipe_views(ms.last().recipes@))
    }
}

/// The names of the machine recipes of the sources `ss`, in order.
pub open spec fn sources_names(ss: Seq<Source>) -> Seq<Seq<char>>
    decreases ss.len(),
{
    if ss.len() == 0 {
        Seq::empty()
    } else {
        sources_names(ss.drop_last()) + machines_names(ss.last().machines@)
    }
}

/// Appends the names of the stacks of `list` to `out`.
fn push_list_names<T: Ingredient>(out: &mut Vec<String>, list: &Vec<T>)
    ensures
        name_views(final(out)@) == name_views(old(out)@) + list_names_of(views(list@)),
{
    let ghost start = name_views(out@);
    let ghost v = views(list@);
    let mut i: usize = 0;
    proof {
        assert(start =~= start + list_names_of(v.take(0)));
    }
    while i < list.len()
        invariant
            v == views(list@),
            0 <= i <= list.len(),
            name_views(out@) == start + list_names_of(v.take(i as int)),
        decreases list.len() - i,
    {
        let x = &list[i];
        let ghost before = out@;
        proof {
            assert(v.take(i as int + 1).drop_last() =~= v.take(i as int));
            assert(v.take(i as int + 1).last() == x@);
        }
        match x.unlocalized() {
            Some(n) => {
                out.push(n.clone());
            },
            None => {},
        }
        match x.localized() {
            Some(n) => {
                out.push(n.clone());
            },
            None => {},
        }
        proof {
            assert(name_views(out@) =~= name_views(before) + stack_names(x@));
        }
        i = i + 1;
    }
    proof {
        assert(v.take(i as int) =~= v);
    }
}

impl GregtechRecipe {
    /// Every name of the recipe's stacks, in order: item inputs, item
    /// outputs, fluid inputs, fluid outputs; per stack the unlocalized name,
    /// then the localized one.
    pub fn ingredient_names(&self) -> (r: Vec<String>)
        ensures
            name_views(r@) == recipe_names(self@),
    {
        let mut out: Vec<String> = Vec::new();
        proof {
            assert(name_views(out@) =~= Seq::empty());
        }
        push_list_names(&mut out, &self.item_inputs);
        push_list_names(&mut out, &self.item_outputs);
        push_list_names(&mut out, &self.fluid_inputs);
        push_list_names(&mut out, &self.fluid_outputs);
        proof {
            assert(Seq::<Seq<char>>::empty() + list_names_of(self@.item_inputs) =~= list_names_of(self@.item_inputs));
        }
        out
    }
}

impl JsonFormat {
    /// Every name of every stack of every machine recipe, in catalog order:
    /// the names that a keyword search weighs.
    pub fn ingredient_names(&self) -> (r: Vec<String>)
        ensures
            name_views(r@) == sources_names(self.sources@),
    {
        let ghost ss = self.sources@;
        let mut out: Vec<String> = Vec::new();
        let mut a: usize = 0;
        proof {
            assert(name_views(out@) =~= sources_names(ss.take(0)));
        }
        while a < self.sources.len()
            invariant
                ss == self.sources@,
                0 <= a <= ss.len(),
                name_views(out@) == sources_names(ss.take(a as int)),
            decreases ss.len() - a,
        {
            let source = &self.sources[a];
            let ghost ms = source.machines@;
            let ghost s0 = name_views(out@);
            proof {
                assert(ss.take(a as int + 1).drop_last() =~= ss.take(a as int));
                assert(ss.take(a as int + 1).last() == *source);
                assert(s0 =~= s0 + machines_names(ms.take(0)));
            }
            let mut b: usize = 0;
            while b < source.machines.len()
                invariant
                    ms == source.machines@,
                    0 <= b <= ms.len(),
                    name_views(out@) == s0 + machines_names(ms.take(b as int)),
                decreases ms.len() - b,
            {
                let machine = &source.machines[b];
                let ghost rs = recipe_views(machine.recipes@);
                let ghost m0 = name_views(out@);
                proof {
                    assert(ms.take(b as int + 1).drop_last() =~= ms.take(b as int));
                    assert(ms.take(b as int + 1).last() == *machine);
                    assert(m0 =~= m0 + recipes_names(rs.take(0)));
                }
                let mut c: usize = 0;
                while c < machine.recipes.len()
                    invariant
                        rs == recipe_views(machine.recipes@),
                        0 <= c <= rs.len(),
                        name_views(out@) == m0 + recipes_names(rs.take(c as int)),
                    decreases rs.len() - c,
                {
                    let recipe = &machine.recipes[c];
                    let ghost before = name_views(out@);
                    proof {
                        assert(rs.take(c as int + 1).drop_last() =~= rs.take(c as int));
                        assert(rs.take(c as int + 1).last() == recipe@);
                    }
                    let names = recipe.ingredient_names();
                    let mut d: usize = 0;
                    proof {
                        assert(before =~= before + name_views(names@).take(0));
                    }
                    while d < names.len()
                        invariant
                            0 <= d <= names.len(),
                            name_views(out@) == before + name_views(names@).take(d as int),
                        decreases names.len() - d,
                    {
                        let ghost prev = out@;
                        out.push(names[d].clone());
                        proof {
                            assert(name_views(out@) =~= name_views(prev).push(names@[d as int]@));
                            assert(name_views(names@).take(d as int + 1) =~= name_views(names@).take(d as int).push(
                                names@[d as int]@,
                            ));
                        }
                        d = d + 1;
                    }
                    proof {
                        assert(name_views(names@).take(d as int) =~= name_views(names@));
                    }
                    c = c + 1;
                }
                proof {
                    assert(rs.take(c as int) =~= rs);
                }
                b = b + 1;
            }
            proof {
                assert(ms.take(b as int) =~= ms);
            }
            a = a + 1;
        }
        proof {
            assert(ss.take(a as int) =~= ss);
        }
        out
    }
}

} // verus!

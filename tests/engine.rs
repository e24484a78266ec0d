use gtnh_recipe_lib::aggregate::combine;
use gtnh_recipe_lib::balance::RecipeBalance;
use gtnh_recipe_lib::catalog::{GregtechMachine, JsonFormat, Source};
use gtnh_recipe_lib::error::RecipeError;
use gtnh_recipe_lib::ingredients::{Fluid, Item};
use gtnh_recipe_lib::recipe::{
    filter_by_ingredient, filter_recipes_by_input_fluid, filter_recipes_by_input_item, filter_recipes_by_output_fluid,
    filter_recipes_by_output_item, GregtechRecipe,
};
use gtnh_recipe_lib::stats::RecipeStats;

fn item(amount: usize, un: &str, ln: &str) -> Item {
    Item {
        amount,
        unlocalized_name: Some(un.to_string()),
        localized_name: Some(ln.to_string()),
    }
}

fn fluid(amount: usize, un: &str, ln: &str) -> Fluid {
    Fluid {
        amount,
        unlocalized_name: Some(un.to_string()),
        localized_name: Some(ln.to_string()),
    }
}

fn recipe(ii: Vec<Item>, io: Vec<Item>, fi: Vec<Fluid>, fo: Vec<Fluid>) -> GregtechRecipe {
    GregtechRecipe {
        enabled: true,
        duration: 20,
        eut: 30,
        item_inputs: ii,
        item_outputs: io,
        fluid_inputs: fi,
        fluid_outputs: fo,
    }
}

fn amounts_of_items(list: &[Item]) -> Vec<(String, usize)> {
    let mut v: Vec<(String, usize)> = list
        .iter()
        .map(|i| (i.unlocalized_name.clone().unwrap(), i.amount))
        .collect();
    v.sort();
    v
}

fn amounts_of_fluids(list: &[Fluid]) -> Vec<(String, usize)> {
    let mut v: Vec<(String, usize)> = list
        .iter()
        .map(|i| (i.unlocalized_name.clone().unwrap(), i.amount))
        .collect();
    v.sort();
    v
}

#[test]
fn combine_sums_by_identity_in_first_appearance_order() {
    let a = vec![item(2, "iron", "Iron"), item(3, "gold", "Gold")];
    let b = vec![item(5, "iron", "Iron Ingot"), item(1, "tin", "Tin")];
    let r = combine(&vec![a, b]).unwrap();
    assert_eq!(
        r,
        vec![item(7, "iron", "Iron"), item(3, "gold", "Gold"), item(1, "tin", "Tin")]
    );
}

#[test]
fn combine_falls_back_to_localized_identity() {
    let a = vec![Item { amount: 4, unlocalized_name: None, localized_name: Some("Dust".to_string()) }];
    let b = vec![Item { amount: 6, unlocalized_name: None, localized_name: Some("Dust".to_string()) }];
    let r = combine(&vec![a, b]).unwrap();
    assert_eq!(r, vec![item(10, "Dust", "Dust")]);
}

#[test]
fn combine_keeps_first_localized_name_seen() {
    let a = vec![Item { amount: 1, unlocalized_name: Some("w".to_string()), localized_name: None }];
    let b = vec![item(2, "w", "Water"), item(3, "w", "Agua")];
    let r = combine(&vec![a, b]).unwrap();
    assert_eq!(r, vec![item(6, "w", "Water")]);
}

#[test]
fn combine_is_order_independent() {
    let a = vec![item(2, "iron", "Iron"), item(3, "gold", "Gold"), item(1, "iron", "Iron")];
    let b = vec![item(5, "copper", "Copper"), item(4, "gold", "Gold")];
    let ab = combine(&vec![a.clone(), b.clone()]).unwrap();
    let ba = combine(&vec![b.clone(), a.clone()]).unwrap();
    let merged = combine(&vec![combine(&vec![a]).unwrap(), combine(&vec![b]).unwrap()]).unwrap();
    assert_eq!(amounts_of_items(&ab), amounts_of_items(&ba));
    assert_eq!(amounts_of_items(&ab), amounts_of_items(&merged));
    assert_eq!(
        amounts_of_items(&ab),
        vec![("copper".to_string(), 5), ("gold".to_string(), 7), ("iron".to_string(), 3)]
    );
}

#[test]
fn combine_of_nothing_is_empty() {
    let r = combine::<Fluid>(&vec![]).unwrap();
    assert!(r.is_empty());
    let r = combine::<Fluid>(&vec![vec![], vec![]]).unwrap();
    assert!(r.is_empty());
}

#[test]
fn combine_reports_missing_identity() {
    let nameless = Item { amount: 0, unlocalized_name: None, localized_name: None };
    let r = combine(&vec![vec![nameless]]);
    assert_eq!(r, Err(RecipeError::MissingIdentity));
    let r = combine(&vec![vec![item(1, "a", "A")], vec![Item { amount: 3, unlocalized_name: None, localized_name: None }]]);
    assert_eq!(r, Err(RecipeError::MissingIdentity));
}

#[test]
fn balance_example_nitric_oxide() {
    let upstream = recipe(
        vec![],
        vec![],
        vec![fluid(1000, "nitricoxide", "Nitric Oxide")],
        vec![fluid(2000, "nitricoxide", "Nitric Oxide")],
    );
    let downstream = recipe(
        vec![item(1, "water", "Water")],
        vec![],
        vec![fluid(1000, "nitricoxide", "Nitric Oxide")],
        vec![],
    );
    let b = RecipeBalance::new(&upstream, &downstream).unwrap();
    assert_eq!(amounts_of_fluids(&b.input_fluids), vec![("nitricoxide".to_string(), 1000)]);
    assert_eq!(amounts_of_fluids(&b.output_fluids), vec![("nitricoxide".to_string(), 1000)]);
    assert_eq!(b.input_items, vec![item(1, "water", "Water")]);
    assert!(b.output_items.is_empty());
}

#[test]
fn balance_full_cancellation_removes_entry() {
    let upstream = recipe(
        vec![],
        vec![],
        vec![fluid(3000, "no2", "Nitrogen Dioxide")],
        vec![fluid(2000, "nitricacid", "Nitric Acid")],
    );
    let downstream = recipe(
        vec![],
        vec![],
        vec![fluid(2000, "nitricacid", "Nitric Acid"), fluid(1000, "water", "Water")],
        vec![fluid(500, "product", "Product")],
    );
    let b = RecipeBalance::new(&upstream, &downstream).unwrap();
    assert_eq!(
        amounts_of_fluids(&b.input_fluids),
        vec![("no2".to_string(), 3000), ("water".to_string(), 1000)]
    );
    assert_eq!(amounts_of_fluids(&b.output_fluids), vec![("product".to_string(), 500)]);
}

#[test]
fn balance_partial_cancellation_reduces_both_sides_by_the_flow() {
    let upstream = recipe(vec![item(4, "ore", "Ore")], vec![item(6, "dust", "Dust")], vec![], vec![]);
    let downstream = recipe(vec![item(10, "dust", "Dust")], vec![item(1, "ingot", "Ingot")], vec![], vec![]);
    let b = RecipeBalance::new(&upstream, &downstream).unwrap();
    // flow of dust is min(6, 10) = 6: inputs 10 - 6, outputs 6 - 6 (gone)
    assert_eq!(
        amounts_of_items(&b.input_items),
        vec![("dust".to_string(), 4), ("ore".to_string(), 4)]
    );
    assert_eq!(amounts_of_items(&b.output_items), vec![("ingot".to_string(), 1)]);
}

#[test]
fn balance_repeated_entries_cancel_pairwise() {
    let upstream = recipe(vec![], vec![item(5, "x", "X"), item(5, "x", "X")], vec![], vec![]);
    let downstream = recipe(vec![item(5, "x", "X"), item(5, "x", "X")], vec![], vec![], vec![]);
    let b = RecipeBalance::new(&upstream, &downstream).unwrap();
    assert!(b.input_items.is_empty());
    assert!(b.output_items.is_empty());
}

#[test]
fn balance_without_shared_identity_equals_stats() {
    let upstream = recipe(
        vec![item(2, "a", "A")],
        vec![item(3, "b", "B")],
        vec![fluid(100, "f", "F")],
        vec![fluid(50, "g", "G")],
    );
    let downstream = recipe(
        vec![item(4, "c", "C"), item(1, "a", "A")],
        vec![item(5, "d", "D")],
        vec![fluid(7, "h", "H")],
        vec![fluid(8, "g", "G")],
    );
    let b = RecipeBalance::new(&upstream, &downstream).unwrap();
    let s = RecipeStats::new(vec![upstream.clone(), downstream.clone()]).unwrap();
    assert_eq!(b.input_items, s.total_input_items);
    assert_eq!(b.output_items, s.total_output_items);
    assert_eq!(b.input_fluids, s.total_input_fluids);
    assert_eq!(b.output_fluids, s.total_output_fluids);
    assert_eq!(amounts_of_items(&s.total_input_items), vec![("a".to_string(), 3), ("c".to_string(), 4)]);
    assert_eq!(amounts_of_fluids(&s.total_output_fluids), vec![("g".to_string(), 58)]);
}

#[test]
fn stats_minus_twice_flow_equals_balance() {
    let upstream = recipe(vec![item(4, "ore", "Ore")], vec![item(6, "dust", "Dust")], vec![], vec![]);
    let downstream = recipe(vec![item(10, "dust", "Dust")], vec![item(1, "ingot", "Ingot")], vec![], vec![]);
    let b = RecipeBalance::new(&upstream, &downstream).unwrap();
    let s = RecipeStats::new(vec![upstream, downstream]).unwrap();
    let dust = |l: &[Item]| l.iter().filter(|i| i.unlocalized_name.as_deref() == Some("dust")).map(|i| i.amount).sum::<usize>();
    let gross = dust(&s.total_input_items) + dust(&s.total_output_items);
    let net = dust(&b.input_items) + dust(&b.output_items);
    assert_eq!(gross, 16);
    assert_eq!(net, gross - 2 * 6);
}

#[test]
fn balance_reports_missing_identity() {
    let upstream = recipe(vec![], vec![Item { amount: 1, unlocalized_name: None, localized_name: None }], vec![], vec![]);
    let downstream = recipe(vec![], vec![], vec![], vec![]);
    assert!(matches!(RecipeBalance::new(&upstream, &downstream), Err(RecipeError::MissingIdentity)));
}

#[test]
fn stats_sum_outputs_and_fluids() {
    let r1 = recipe(vec![], vec![item(3, "i3", "Item 3")], vec![fluid(10, "w", "Water")], vec![fluid(1, "s", "Steam")]);
    let r2 = recipe(vec![], vec![item(3, "i3", "Item 3"), item(4, "i5", "Item 5")], vec![fluid(5, "w", "Water")], vec![]);
    let r3 = recipe(vec![item(1, "i1", "Item 1")], vec![], vec![], vec![fluid(2, "s", "Steam")]);
    let s = RecipeStats::new(vec![r1, r2, r3]).unwrap();
    assert_eq!(s.total_output_items, vec![item(6, "i3", "Item 3"), item(4, "i5", "Item 5")]);
    assert_eq!(s.total_input_fluids, vec![fluid(15, "w", "Water")]);
    assert_eq!(s.total_output_fluids, vec![fluid(3, "s", "Steam")]);
    assert_eq!(s.total_input_items, vec![item(1, "i1", "Item 1")]);
}

#[test]
fn stats_of_no_recipes_is_an_error() {
    assert!(matches!(RecipeStats::new(vec![]), Err(RecipeError::EmptyRecipeSet)));
}

#[test]
fn stats_reports_missing_identity() {
    let r = recipe(vec![], vec![], vec![Fluid { amount: 2, unlocalized_name: None, localized_name: None }], vec![]);
    assert!(matches!(RecipeStats::new(vec![r]), Err(RecipeError::MissingIdentity)));
}

fn catalog_recipes() -> Vec<GregtechRecipe> {
    vec![
        recipe(vec![item(1, "cell", "Cell")], vec![], vec![fluid(3000, "no2", "Nitrogen Dioxide")], vec![fluid(2000, "nitricacid", "Nitric Acid")]),
        recipe(vec![], vec![item(2, "dust", "Dust")], vec![fluid(1000, "no", "Nitric Oxide")], vec![fluid(1000, "no2", "Nitrogen Dioxide")]),
        recipe(vec![item(1, "cell", "Cell")], vec![item(1, "cell", "Cell")], vec![], vec![fluid(1000, "nitricacid", "Nitric Acid")]),
    ]
}

#[test]
fn filters_match_localized_name_and_amount() {
    let rs = catalog_recipes();
    assert_eq!(filter_recipes_by_output_fluid(&rs, "Nitric Acid", None).len(), 2);
    let exact = filter_recipes_by_output_fluid(&rs, "Nitric Acid", Some(2000));
    assert_eq!(exact, vec![rs[0].clone()]);
    assert_eq!(filter_recipes_by_input_fluid(&rs, "Nitrogen Dioxide", Some(3000)), vec![rs[0].clone()]);
    assert!(filter_recipes_by_input_fluid(&rs, "Nitrogen Dioxide", Some(1000)).is_empty());
    assert_eq!(filter_recipes_by_input_item(&rs, "Cell"), vec![rs[0].clone(), rs[2].clone()]);
    assert_eq!(filter_recipes_by_output_item(&rs, "Dust"), vec![rs[1].clone()]);
    assert!(filter_recipes_by_output_item(&rs, "dust").is_empty());
    assert!(filter_recipes_by_input_item(&rs, "cell").is_empty());
}

#[test]
fn filtering_twice_changes_nothing() {
    let rs = catalog_recipes();
    let once = filter_recipes_by_input_item(&rs, "Cell");
    assert_eq!(filter_recipes_by_input_item(&once, "Cell"), once);
    let once = filter_recipes_by_output_fluid(&rs, "Nitric Acid", Some(1000));
    assert_eq!(filter_recipes_by_output_fluid(&once, "Nitric Acid", Some(1000)), once);
}

fn catalog() -> JsonFormat {
    JsonFormat {
        sources: vec![
            Source {
                source_type: "gregtech".to_string(),
                recipes: vec![],
                machines: vec![
                    GregtechMachine { name: "Large Chemical Reactor".to_string(), recipes: catalog_recipes() },
                    GregtechMachine {
                        name: "Mixer".to_string(),
                        recipes: vec![recipe(vec![item(1, "sand", "Sand")], vec![item(1, "glass", "Glass")], vec![], vec![])],
                    },
                ],
            },
            Source {
                source_type: "shaped".to_string(),
                recipes: vec![serde_json::Value::Null, serde_json::Value::Bool(true)],
                machines: vec![],
            },
        ],
    }
}

#[test]
fn recipe_count_includes_raw_records() {
    assert_eq!(catalog().get_recipe_count(), 6);
    assert_eq!(JsonFormat { sources: vec![] }.get_recipe_count(), 0);
}

#[test]
fn search_keeps_catalog_order_and_reports_each_recipe_once() {
    let c = catalog();
    let found = c.search(&vec!["Cell".to_string(), "cell".to_string()]);
    assert_eq!(found.len(), 2);
    assert_eq!(found[0].0, "Large Chemical Reactor");
    assert_eq!(found[0].1, catalog_recipes()[0]);
    assert_eq!(found[1].1, catalog_recipes()[2]);
    let found = c.search(&vec!["glass".to_string()]);
    assert_eq!(found.len(), 1);
    assert_eq!(found[0].0, "Mixer");
    assert!(c.search(&vec![]).is_empty());
}

#[test]
fn search_by_similar_name() {
    let c = JsonFormat {
        sources: vec![Source {
            source_type: "gregtech".to_string(),
            recipes: vec![],
            machines: vec![GregtechMachine {
                name: "Large Chemical Reactor".to_string(),
                recipes: vec![recipe(vec![], vec![], vec![], vec![fluid(1000, "nitricacid", "Nitric Acid")])],
            }],
        }],
    };
    let keyword = "Nitric Aci";
    let names: Vec<String> = c
        .ingredient_names()
        .into_iter()
        .filter(|n| strsim::jaro_winkler(n, keyword) > 0.7)
        .collect();
    assert!(names.contains(&"Nitric Acid".to_string()));
    let found = c.search(&names);
    assert_eq!(found.len(), 1);
    assert_eq!(found[0].0, "Large Chemical Reactor");
}

#[test]
fn ingredient_names_list_every_name_in_order() {
    let r = recipe(
        vec![Item { amount: 1, unlocalized_name: None, localized_name: Some("A".to_string()) }],
        vec![item(1, "b", "B")],
        vec![Fluid { amount: 1, unlocalized_name: Some("c".to_string()), localized_name: None }],
        vec![fluid(1, "d", "D")],
    );
    assert_eq!(r.ingredient_names(), vec!["A", "b", "B", "c", "d", "D"]);
    let names = catalog().ingredient_names();
    assert_eq!(names.len(), 22);
    assert_eq!(names[0], "cell");
    assert_eq!(names[names.len() - 1], "Glass");
}

#[test]
fn item_new_is_empty_and_names_fall_back() {
    let i = Item::new(&Some("u".to_string()), &None);
    assert_eq!(i, Item { amount: 0, unlocalized_name: Some("u".to_string()), localized_name: None });
    let f = Fluid { amount: 0, unlocalized_name: None, localized_name: None };
    assert_eq!(f.get_name(), "ERROR_NAME_NOT_FOUND");
    assert_eq!(fluid(1, "u", "L").get_name(), "L");
}

#[test]
fn general_filter_agrees_with_named_filters() {
    let rs = catalog_recipes();
    assert_eq!(filter_by_ingredient(&rs, false, true, "Nitric Acid", Some(2000)), filter_recipes_by_output_fluid(&rs, "Nitric Acid", Some(2000)));
    assert_eq!(filter_by_ingredient(&rs, true, false, "Cell", Some(1)), vec![rs[0].clone(), rs[2].clone()]);
    assert!(filter_by_ingredient(&rs, true, false, "Cell", Some(2)).is_empty());
    assert_eq!(filter_by_ingredient(&rs, false, false, "Cell", None), vec![rs[2].clone()]);
}

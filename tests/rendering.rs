use gtnh_recipe_lib::balance::RecipeBalance;
use gtnh_recipe_lib::ingredients::{Fluid, Item};
use gtnh_recipe_lib::recipe::{GregtechRecipe, Recipes};
use gtnh_recipe_lib::stats::RecipeStats;

fn item(amount: usize, un: &str, ln: &str) -> Item {
    Item { amount, unlocalized_name: Some(un.to_string()), localized_name: Some(ln.to_string()) }
}

fn fluid(amount: usize, un: &str, ln: &str) -> Fluid {
    Fluid { amount, unlocalized_name: Some(un.to_string()), localized_name: Some(ln.to_string()) }
}

fn no2_to_nitric_acid() -> GregtechRecipe {
    GregtechRecipe {
        enabled: true,
        duration: 240,
        eut: 30,
        item_inputs: vec![item(1, "cell", "Cell")],
        item_outputs: vec![],
        fluid_inputs: vec![fluid(3000, "no2", "Nitrogen Dioxide"), fluid(1000, "water", "Water")],
        fluid_outputs: vec![fluid(2000, "nitricacid", "Nitric Acid")],
    }
}

fn no_to_no2() -> GregtechRecipe {
    GregtechRecipe {
        enabled: true,
        duration: 160,
        eut: 30,
        item_inputs: vec![],
        item_outputs: vec![],
        fluid_inputs: vec![fluid(1000, "no", "Nitric Oxide"), fluid(1000, "oxygen", "Oxygen")],
        fluid_outputs: vec![fluid(1000, "no2", "Nitrogen Dioxide")],
    }
}

#[test]
fn stacks_render_amount_unit_and_name() {
    assert_eq!(item(10, "item1", "Item 1").describe(), "10x Item 1");
    assert_eq!(fluid(2000, "nitricacid", "Nitric Acid").describe(), "2000l Nitric Acid");
    let bare = Fluid { amount: 0, unlocalized_name: Some("steam".to_string()), localized_name: None };
    assert_eq!(bare.describe(), "0l steam");
    let nameless = Item { amount: 1234567890, unlocalized_name: None, localized_name: None };
    assert_eq!(nameless.describe(), "1234567890x ERROR_NAME_NOT_FOUND");
    assert_eq!(item(usize::MAX, "a", "A").describe(), format!("{}x A", usize::MAX));
}

#[test]
fn recipes_render_inputs_arrow_outputs() {
    assert_eq!(
        no2_to_nitric_acid().describe(),
        "1x Cell, 3000l Nitrogen Dioxide + 1000l Water -> 2000l Nitric Acid"
    );
    assert_eq!(no_to_no2().describe(), "1000l Nitric Oxide + 1000l Oxygen -> 1000l Nitrogen Dioxide");
    let items_only = GregtechRecipe {
        enabled: false,
        duration: 1,
        eut: 0,
        item_inputs: vec![item(2, "a", "A")],
        item_outputs: vec![item(1, "b", "B"), item(3, "c", "C")],
        fluid_inputs: vec![],
        fluid_outputs: vec![fluid(5, "d", "D")],
    };
    assert_eq!(items_only.describe(), "2x A -> 1x B + 3x C, 5l D");
    let list = Recipes::from(vec![no_to_no2(), items_only]);
    assert_eq!(
        list.describe(),
        "1000l Nitric Oxide + 1000l Oxygen -> 1000l Nitrogen Dioxide\n2x A -> 1x B + 3x C, 5l D"
    );
    assert_eq!(Recipes::from(vec![]).describe(), "");
}

#[test]
fn chain_balance_and_stats_render() {
    let up = no_to_no2();
    let down = no2_to_nitric_acid();
    let balance = RecipeBalance::new(&up, &down).unwrap();
    assert_eq!(
        balance.describe(),
        "1x Cell, 1000l Nitric Oxide + 1000l Oxygen + 2000l Nitrogen Dioxide + 1000l Water -> 2000l Nitric Acid"
    );
    let stats = RecipeStats::new(vec![up, down]).unwrap();
    assert_eq!(
        stats.describe(),
        "1x Cell, 1000l Nitric Oxide + 1000l Oxygen + 3000l Nitrogen Dioxide + 1000l Water -> 1000l Nitrogen Dioxide + 2000l Nitric Acid"
    );
}

#[test]
fn fits_detects_sums_too_large() {
    let small = no_to_no2();
    assert!(RecipeBalance::fits(&small, &no2_to_nitric_acid()));
    let mut huge = no_to_no2();
    huge.fluid_outputs = vec![fluid(usize::MAX, "no2", "Nitrogen Dioxide")];
    let mut no_fluid_out = no2_to_nitric_acid();
    no_fluid_out.fluid_outputs = vec![];
    assert!(RecipeBalance::fits(&huge, &no_fluid_out));
    assert!(!RecipeBalance::fits(&huge, &small));
    assert!(!RecipeBalance::fits(&huge, &huge));
    assert!(RecipeStats::fits(&vec![huge.clone(), no_fluid_out.clone()]));
    assert!(!RecipeStats::fits(&vec![huge.clone(), small.clone()]));
    assert!(!RecipeStats::fits(&vec![huge.clone(), huge.clone()]));
    assert!(RecipeStats::fits(&vec![]));
}

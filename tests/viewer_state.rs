use gtnh_recipe_lib::catalog::{GregtechMachine, JsonFormat, Source};
use gtnh_recipe_lib::ingredients::Fluid;
use gtnh_recipe_lib::recipe::GregtechRecipe;
use gtnh_recipe_lib::viewer::GtnhRecipeViewerApp;

fn acid_recipe(amount: usize) -> GregtechRecipe {
    GregtechRecipe {
        enabled: true,
        duration: 10,
        eut: 30,
        item_inputs: vec![],
        item_outputs: vec![],
        fluid_inputs: vec![],
        fluid_outputs: vec![Fluid {
            amount,
            unlocalized_name: Some("nitricacid".to_string()),
            localized_name: Some("Nitric Acid".to_string()),
        }],
    }
}

fn catalog() -> JsonFormat {
    JsonFormat {
        sources: vec![Source {
            source_type: "gregtech".to_string(),
            recipes: vec![serde_json::Value::Null],
            machines: vec![GregtechMachine {
                name: "Large Chemical Reactor".to_string(),
                recipes: vec![acid_recipe(1000), acid_recipe(2000), acid_recipe(3000)],
            }],
        }],
    }
}

#[test]
fn viewer_starts_empty() {
    let v = GtnhRecipeViewerApp::new();
    assert_eq!(v.label, "Hello World!");
    assert!(v.filename.is_none());
    assert!(v.recipes_json.is_none());
    assert!(v.search_results.is_empty());
    assert!(v.selection.is_empty());
    assert_eq!(v.status_line(), "No recipes loaded!");
}

#[test]
fn viewer_search_needs_a_catalog() {
    let mut v = GtnhRecipeViewerApp::new();
    v.search(&vec!["Nitric Acid".to_string()]);
    assert!(v.search_results.is_empty());
    v.load("recipes.json".to_string(), catalog());
    v.search(&vec!["Nitric Acid".to_string()]);
    assert_eq!(v.search_results.len(), 3);
    assert_eq!(v.status_line(), "Total recipes loaded: 4, search results: 3");
    v.open_new_file();
    assert!(v.recipes_json.is_none());
    assert_eq!(v.search_results.len(), 3);
}

#[test]
fn viewer_toggles_and_closes_rows() {
    let mut v = GtnhRecipeViewerApp::new();
    v.load("recipes.json".to_string(), catalog());
    v.search(&vec!["nitricacid".to_string()]);
    v.toggle_row_selection(2);
    v.toggle_row_selection(0);
    assert_eq!(v.selection, vec![2, 0]);
    assert!(v.is_selected(0));
    v.toggle_row_selection(2);
    assert_eq!(v.selection, vec![0]);
    v.toggle_row_selection(7);
    assert_eq!(v.selection, vec![0]);
    v.close_details(0);
    assert!(v.selection.is_empty());
    v.toggle_row_selection(1);
    v.search(&vec![]);
    assert!(v.selection.is_empty());
    assert!(v.search_results.is_empty());
}

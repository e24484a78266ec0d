use gtnh_recipe_lib::add;
use gtnh_recipe_lib::ingredients::Item;
use gtnh_recipe_lib::recipe::GregtechRecipe;
use gtnh_recipe_lib::stats::RecipeStats;

#[test]
fn it_works() {
    let result = add(2, 2);
    assert_eq!(result, 4);
}

#[test]
fn test_name() {
    let only_unlocalized_name = Item {
        amount: 0,
        unlocalized_name: Some("testitem".to_string()),
        localized_name: None,
    };
    assert_eq!(only_unlocalized_name.get_name(), "testitem");
    let both_names = Item {
        amount: 0,
        unlocalized_name: Some("testitem".to_string()),
        localized_name: Some("Test Item".to_string()),
    };
    assert_eq!(both_names.get_name(), "Test Item");
}

#[test]
fn test_item_stats() {
    let input_items = [
        Item {
            amount: 10,
            unlocalized_name: Some("item1".to_string()),
            localized_name: Some("Item 1".to_string()),
        },
        Item {
            amount: 12,
            unlocalized_name: Some("item2".to_string()),
            localized_name: Some("Item 2".to_string()),
        },
    ];
    let output_items = [Item {
        amount: 3,
        unlocalized_name: Some("item3".to_string()),
        localized_name: Some("Item 3".to_string()),
    }];
    let first_recipe = GregtechRecipe {
        enabled: false,
        duration: 0,
        eut: 0,
        item_inputs: Vec::<Item>::from(input_items),
        item_outputs: Vec::<Item>::from(output_items),
        fluid_inputs: vec![],
        fluid_outputs: vec![],
    };
    let input_items_2 = [
        Item {
            amount: 2,
            unlocalized_name: Some("item1".to_string()),
            localized_name: Some("Item 1".to_string()),
        },
        Item {
            amount: 1,
            unlocalized_name: Some("item4".to_string()),
            localized_name: Some("Item 4".to_string()),
        },
        Item {
            amount: 1,
            unlocalized_name: Some("item3".to_string()),
            localized_name: Some("Item 3".to_string()),
        },
    ];
    let output_items_2 = [
        Item {
            amount: 3,
            unlocalized_name: Some("item3".to_string()),
            localized_name: Some("Item 3".to_string()),
        },
        Item {
            amount: 4,
            unlocalized_name: Some("item5".to_string()),
            localized_name: Some("Item 5".to_string()),
        },
    ];
    let second_recipe = GregtechRecipe {
        enabled: false,
        duration: 0,
        eut: 0,
        item_inputs: Vec::<Item>::from(input_items_2),
        item_outputs: Vec::<Item>::from(output_items_2),
        fluid_inputs: vec![],
        fluid_outputs: vec![],
    };

    let mut both_recipes = Vec::<GregtechRecipe>::new();
    both_recipes.push(first_recipe);
    both_recipes.push(second_recipe);
    let stats = RecipeStats::new(both_recipes).unwrap();

    let total_input_items = [
        Item {
            amount: 12,
            unlocalized_name: Some("item1".to_string()),
            localized_name: Some("Item 1".to_string()),
        },
        Item {
            amount: 12,
            unlocalized_name: Some("item2".to_string()),
            localized_name: Some("Item 2".to_string()),
        },
        Item {
            amount: 1,
            unlocalized_name: Some("item4".to_string()),
            localized_name: Some("Item 4".to_string()),
        },
        Item {
            amount: 1,
            unlocalized_name: Some("item3".to_string()),
            localized_name: Some("Item 3".to_string()),
        },
    ];

    assert_eq!(stats.total_input_items, total_input_items);
}

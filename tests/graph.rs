use recipe_loader::graph::{ingredient_statements, MemoryGraph, RecipeNode, Statement};

fn node(id: i32) -> RecipeNode {
    RecipeNode {
        id,
        name: "Soup".to_string(),
        description: "hot".to_string(),
        minutes: 20,
        nutrition: vec!["1.5".to_string()],
        steps: vec!["boil".to_string()],
    }
}

fn attach(store: &mut MemoryGraph, id: i32, names: &[&str]) {
    let names: Vec<String> = names.iter().map(|s| s.to_string()).collect();
    store.run(&ingredient_statements(id, &names));
}

#[test]
fn statements_alternate_ingredient_and_edge() {
    let sts = ingredient_statements(3, &vec!["salt".to_string(), "pepper".to_string()]);
    assert_eq!(sts.len(), 4);
    assert!(matches!(&sts[0], Statement::MergeIngredient(n) if n == "salt"));
    assert!(matches!(&sts[1], Statement::MergeContains(3, n) if n == "salt"));
    assert!(matches!(&sts[2], Statement::MergeIngredient(n) if n == "pepper"));
    assert!(matches!(&sts[3], Statement::MergeContains(3, n) if n == "pepper"));
}

#[test]
fn attaching_twice_makes_nothing_twice() {
    let mut store = MemoryGraph::new();
    store.apply(&Statement::CreateRecipe(node(1)));
    attach(&mut store, 1, &["salt", "pepper"]);
    attach(&mut store, 1, &["salt", "pepper"]);
    assert_eq!(store.ingredient_count(), 2);
    assert_eq!(store.edge_count(), 2);
    assert!(store.has_edge(0, &"salt".to_string()));
    assert!(store.has_edge(0, &"pepper".to_string()));
}

#[test]
fn shared_ingredient_has_one_node() {
    let mut store = MemoryGraph::new();
    store.apply(&Statement::CreateRecipe(node(1)));
    store.apply(&Statement::CreateRecipe(node(2)));
    attach(&mut store, 1, &["salt"]);
    attach(&mut store, 2, &["salt", "salt"]);
    assert_eq!(store.ingredient_count(), 1);
    assert_eq!(store.edge_count(), 2);
    assert!(store.has_edge(1, &"salt".to_string()));
}

#[test]
fn creating_a_recipe_twice_makes_two_nodes() {
    let mut store = MemoryGraph::new();
    store.apply(&Statement::CreateRecipe(node(5)));
    store.apply(&Statement::CreateRecipe(node(5)));
    assert_eq!(store.recipe_count(), 2);
    assert_eq!(store.recipe(0).id, 5);
    assert_eq!(store.recipe(1).id, 5);
    attach(&mut store, 5, &["salt"]);
    assert_eq!(store.edge_count(), 2);
}

#[test]
fn edges_need_a_recipe_node() {
    let mut store = MemoryGraph::new();
    attach(&mut store, 9, &["salt"]);
    assert_eq!(store.ingredient_count(), 1);
    assert!(store.has_ingredient(&"salt".to_string()));
    assert_eq!(store.edge_count(), 0);
}

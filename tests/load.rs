use recipe_loader::decode::RecordError;
use recipe_loader::graph::MemoryGraph;
use recipe_loader::load::{load_rows, RowError};
use recipe_loader::record::{normalize_row, RawRow};

fn row(id: &str, name: &str, ingredients: &str, minutes: &str) -> RawRow {
    RawRow {
        id: id.to_string(),
        name: name.to_string(),
        description: "".to_string(),
        ingredients: ingredients.to_string(),
        minutes: minutes.to_string(),
        steps: "['boil water','steep leaves']".to_string(),
        nutrition: "[10.0, 0.0]".to_string(),
    }
}

fn tea() -> RawRow {
    row("1", "Tea", "['water','tea leaves']", "5")
}

#[test]
fn tea_row_normalizes() {
    let rec = normalize_row(&tea()).unwrap();
    assert_eq!(rec.id, 1);
    assert_eq!(rec.name, "Tea");
    assert_eq!(rec.minutes, 5);
    assert_eq!(rec.ingredients, vec!["water".to_string(), "tea leaves".to_string()]);
    assert_eq!(rec.steps, vec!["boil water".to_string(), "steep leaves".to_string()]);
    assert_eq!(rec.nutrition, vec!["10.0".to_string(), "0.0".to_string()]);
}

#[test]
fn tea_row_loads_end_to_end() {
    let mut store = MemoryGraph::new();
    assert_eq!(load_rows(&mut store, &vec![tea()], &vec![true]), Ok(()));
    assert_eq!(store.recipe_count(), 1);
    let node = store.recipe(0);
    assert_eq!(node.id, 1);
    assert_eq!(node.name, "Tea");
    assert_eq!(node.minutes, 5);
    assert_eq!(node.nutrition, vec!["10.0".to_string(), "0.0".to_string()]);
    assert_eq!(node.steps, vec!["boil water".to_string(), "steep leaves".to_string()]);
    assert_eq!(store.ingredient_count(), 2);
    assert!(store.has_ingredient(&"water".to_string()));
    assert!(store.has_ingredient(&"tea leaves".to_string()));
    assert_eq!(store.edge_count(), 2);
    assert!(store.has_edge(0, &"water".to_string()));
    assert!(store.has_edge(0, &"tea leaves".to_string()));
}

#[test]
fn non_numeric_id_is_a_malformed_row() {
    let r = normalize_row(&row("one", "Tea", "['water']", "5"));
    assert!(matches!(r, Err(RecordError::MalformedRow)));
}

#[test]
fn non_numeric_minutes_is_a_malformed_row() {
    let r = normalize_row(&row("1", "Tea", "['water']", "five"));
    assert!(matches!(r, Err(RecordError::MalformedRow)));
}

#[test]
fn bad_id_stops_before_writing_that_row() {
    let mut store = MemoryGraph::new();
    let rows = vec![tea(), row("x", "Coffee", "['beans']", "3"), row("3", "Milk", "['milk']", "1")];
    let r = load_rows(&mut store, &rows, &vec![true, true, true]);
    assert_eq!(r, Err(RowError { row: 1, error: RecordError::MalformedRow }));
    assert_eq!(store.recipe_count(), 1);
    assert_eq!(store.ingredient_count(), 2);
    assert!(!store.has_ingredient(&"beans".to_string()));
    assert!(!store.has_ingredient(&"milk".to_string()));
}

#[test]
fn bad_first_row_writes_nothing() {
    let mut store = MemoryGraph::new();
    let rows = vec![row("", "Tea", "['water']", "5"), tea()];
    let r = load_rows(&mut store, &rows, &vec![true, true]);
    assert_eq!(r, Err(RowError { row: 0, error: RecordError::MalformedRow }));
    assert_eq!(store.recipe_count(), 0);
    assert_eq!(store.ingredient_count(), 0);
}

#[test]
fn bad_numbers_stop_the_load() {
    let mut store = MemoryGraph::new();
    let rows = vec![tea(), row("2", "Coffee", "['beans']", "3")];
    let r = load_rows(&mut store, &rows, &vec![true, false]);
    assert_eq!(r, Err(RowError { row: 1, error: RecordError::MalformedNumericField }));
    assert_eq!(store.recipe_count(), 1);
}

#[test]
fn loading_the_same_rows_twice_duplicates_only_recipes() {
    let mut store = MemoryGraph::new();
    let rows = vec![tea()];
    assert_eq!(load_rows(&mut store, &rows, &vec![true]), Ok(()));
    assert_eq!(load_rows(&mut store, &rows, &vec![true]), Ok(()));
    assert_eq!(store.recipe_count(), 2);
    assert_eq!(store.ingredient_count(), 2);
    assert_eq!(store.edge_count(), 4);
}

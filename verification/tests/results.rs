use ci_diff::classify::{ModelChange, ModelChanges, ModelDiffStatus};
use ci_diff::columns::{ColumnChangeType, TypedColumn};
use ci_diff::order::ordered;
use ci_diff::results::{build_diff_results, DiffSummary, Schemas};
use ci_diff::string_map::StringMap;

fn column(name: &str, data_type: &str) -> TypedColumn {
    TypedColumn {
        name: name.into(),
        data_type: data_type.into(),
    }
}

fn model_change(name: &str, status: ModelDiffStatus) -> ModelChange {
    let (base_schema_name, head_schema_name) = match status {
        ModelDiffStatus::Added => (None, Some(name.to_string())),
        ModelDiffStatus::Removed => (Some(name.to_string()), None),
        ModelDiffStatus::Modified => (Some(name.to_string()), Some(name.to_string())),
        ModelDiffStatus::Unchanged => (None, None),
    };
    ModelChange {
        model_name: name.to_string(),
        base_schema_name,
        head_schema_name,
    }
}

fn no_schemas() -> Schemas {
    StringMap::new()
}

#[test]
fn build_results_sorts_by_name() {
    let mut model_changes: ModelChanges = StringMap::new();
    model_changes.insert(
        "c.s.zebra".into(),
        model_change("zebra", ModelDiffStatus::Added),
    );
    model_changes.insert(
        "c.s.alpha".into(),
        model_change("alpha", ModelDiffStatus::Modified),
    );

    let results = build_diff_results(&model_changes, &no_schemas(), &no_schemas());
    assert_eq!(results[0].model_name, "alpha");
    assert_eq!(results[1].model_name, "zebra");
}

#[test]
fn build_results_with_schemas() {
    let mut model_changes: ModelChanges = StringMap::new();
    model_changes.insert(
        "c.s.orders".into(),
        model_change("orders", ModelDiffStatus::Modified),
    );

    let mut base_schemas = no_schemas();
    base_schemas.insert(
        "orders".into(),
        vec![column("id", "INT"), column("price", "FLOAT")],
    );

    let mut head_schemas = no_schemas();
    head_schemas.insert(
        "orders".into(),
        vec![
            column("id", "INT"),
            column("price", "DOUBLE"),
            column("tax", "DECIMAL"),
        ],
    );

    let results = build_diff_results(&model_changes, &head_schemas, &base_schemas);
    assert_eq!(results.len(), 1);
    assert_eq!(results[0].model_name, "orders");
    assert_eq!(results[0].status, ModelDiffStatus::Modified);
    assert_eq!(results[0].column_changes.len(), 2); // price type-changed + tax added
}

#[test]
fn build_results_added_model_shows_all_columns() {
    let mut model_changes: ModelChanges = StringMap::new();
    model_changes.insert(
        "c.s.new_model".into(),
        model_change("new_model", ModelDiffStatus::Added),
    );

    let mut head_schemas = no_schemas();
    head_schemas.insert(
        "new_model".into(),
        vec![column("id", "INT"), column("name", "VARCHAR")],
    );

    let results = build_diff_results(&model_changes, &head_schemas, &no_schemas());
    assert_eq!(results.len(), 1);
    assert_eq!(results[0].column_changes.len(), 2);
    assert!(results[0]
        .column_changes
        .iter()
        .all(|c| c.change_type == ColumnChangeType::Added));
    assert_eq!(results[0].column_changes[1].new_type.as_deref(), Some("VARCHAR"));
    assert_eq!(results[0].column_changes[1].old_type, None);
}

#[test]
fn build_results_removed_model_shows_all_columns() {
    let mut model_changes: ModelChanges = StringMap::new();
    model_changes.insert(
        "c.s.old_model".into(),
        model_change("old_model", ModelDiffStatus::Removed),
    );

    let mut base_schemas = no_schemas();
    base_schemas.insert("old_model".into(), vec![column("id", "INT")]);

    let results = build_diff_results(&model_changes, &no_schemas(), &base_schemas);
    assert_eq!(results.len(), 1);
    assert_eq!(results[0].column_changes.len(), 1);
    assert_eq!(
        results[0].column_changes[0].change_type,
        ColumnChangeType::Removed
    );
}

#[test]
fn unknown_columns_show_no_change() {
    let mut model_changes: ModelChanges = StringMap::new();
    for (name, status) in [
        ("added", ModelDiffStatus::Added),
        ("modified", ModelDiffStatus::Modified),
        ("removed", ModelDiffStatus::Removed),
        ("unchanged", ModelDiffStatus::Unchanged),
    ] {
        model_changes.insert(name.into(), model_change(name, status));
    }
    let mut base_schemas = no_schemas();
    base_schemas.insert("modified".into(), vec![column("id", "INT")]);
    let results = build_diff_results(&model_changes, &no_schemas(), &base_schemas);
    assert_eq!(results.len(), 4);
    for result in &results {
        assert!(result.column_changes.is_empty());
        assert_eq!(result.row_count_before, None);
        assert_eq!(result.row_count_after, None);
        assert_eq!(result.sample_changed_rows, None);
    }
    let summary = DiffSummary::from_results(&results);
    assert_eq!(
        summary,
        DiffSummary {
            total_models: 4,
            unchanged: 1,
            modified: 1,
            added: 1,
            removed: 1,
        }
    );
}

#[test]
fn counts_add_up() {
    let mut model_changes: ModelChanges = StringMap::new();
    for name in ["a", "b", "c"] {
        model_changes.insert(name.into(), model_change(name, ModelDiffStatus::Added));
    }
    model_changes.insert("d".into(), model_change("d", ModelDiffStatus::Removed));
    let results = build_diff_results(&model_changes, &no_schemas(), &no_schemas());
    let summary = DiffSummary::from_results(&results);
    assert_eq!(summary.added, 3);
    assert_eq!(summary.removed, 1);
    assert_eq!(summary.modified, 0);
    assert_eq!(summary.unchanged, 0);
    assert_eq!(summary.total_models, 4);
    assert_eq!(DiffSummary::empty(), DiffSummary::from_results(&[]));
}

#[test]
fn report_does_not_depend_on_the_order_of_keys() {
    let names = ["m", "ma", "M", "\u{e9}", "z", ""];
    let mut forward: ModelChanges = StringMap::new();
    let mut backward: ModelChanges = StringMap::new();
    for name in names {
        forward.insert(name.into(), model_change(name, ModelDiffStatus::Modified));
    }
    for name in names.iter().rev() {
        backward.insert((*name).into(), model_change(name, ModelDiffStatus::Modified));
    }
    let one: Vec<String> = build_diff_results(&forward, &no_schemas(), &no_schemas())
        .into_iter()
        .map(|result| result.model_name)
        .collect();
    let other: Vec<String> = build_diff_results(&backward, &no_schemas(), &no_schemas())
        .into_iter()
        .map(|result| result.model_name)
        .collect();
    assert_eq!(one, other);
    let mut sorted: Vec<String> = names.iter().map(|name| name.to_string()).collect();
    sorted.sort();
    assert_eq!(one, sorted);
}

#[test]
fn order_of_texts_is_that_of_std() {
    let texts = ["", "a", "ab", "b", "A", "\u{7f}", "\u{80}", "\u{ffff}", "\u{10000}", "a\u{e9}"];
    for a in texts {
        for b in texts {
            assert_eq!(ordered(a, b), a <= b, "{a:?} {b:?}");
        }
    }
}

#[test]
fn maps_replace_values_and_keep_places() {
    let mut map: StringMap<u8> = StringMap::new();
    assert!(map.is_empty());
    map.insert("x".into(), 1);
    map.insert("y".into(), 2);
    map.insert("x".into(), 3);
    assert_eq!(map.len(), 2);
    assert_eq!(map.get("x"), Some(&3));
    assert_eq!(map.get("y"), Some(&2));
    assert_eq!(map.get("z"), None);
    assert_eq!(map.key_at(0), "x");
    assert_eq!(*map.value_at(0), 3);
    assert_eq!(map.key_at(1), "y");
}

use ci_diff::classify::{
    classify_model_changes, record_model_side, ModelChange, ModelChanges, ModelDiffStatus,
};
use ci_diff::columns::ColumnChangeType;
use ci_diff::compile::{typed_columns_from_compile, CompileResult, CompiledColumn};
use ci_diff::git::{parse_name_status, ChangedFile};
use ci_diff::models::{Model, ModelConfig, TargetConfig};
use ci_diff::results::build_diff_results;
use ci_diff::string_map::StringMap;

fn changed(path: &str, status: char) -> ChangedFile {
    ChangedFile {
        path: path.to_string(),
        old_path: None,
        status,
    }
}

fn status_of(changes: &ModelChanges, key: &str) -> ModelDiffStatus {
    changes.get(key).unwrap().status()
}

fn model(file: &str, name: &str, table: &str) -> Model<()> {
    Model {
        config: ModelConfig {
            name: name.to_string(),
            target: TargetConfig {
                catalog: "c".to_string(),
                schema: "s".to_string(),
                table: table.to_string(),
            },
        },
        file_path: format!("/tmp/project/{file}"),
        rest: (),
    }
}

fn compiled(models: Vec<Model<()>>, columns: &[(&str, &str)]) -> CompileResult<(), (), ()> {
    let mut typed_models = StringMap::new();
    for model in &models {
        let typed = columns
            .iter()
            .map(|(name, data_type)| CompiledColumn {
                name: name.to_string(),
                data_type: data_type.to_string(),
                nullable: true,
                rest: (),
            })
            .collect();
        typed_models.insert(model.config.name.clone(), typed);
    }
    CompileResult {
        models,
        typed_models,
        rest: (),
    }
}

#[test]
fn classify_sql_files() {
    let files = vec![
        changed("models/orders.sql", 'A'),
        changed("models/customers.sql", 'M'),
        changed("models/legacy.sql", 'D'),
    ];
    let changes = classify_model_changes::<()>(&files, Some("models"), None, None);
    assert_eq!(status_of(&changes, "orders"), ModelDiffStatus::Added);
    assert_eq!(status_of(&changes, "customers"), ModelDiffStatus::Modified);
    assert_eq!(status_of(&changes, "legacy"), ModelDiffStatus::Removed);
}

#[test]
fn classify_rocky_files() {
    let files = vec![changed("models/pipeline.rocky", 'A')];
    let changes = classify_model_changes::<()>(&files, Some("models"), None, None);
    assert_eq!(status_of(&changes, "pipeline"), ModelDiffStatus::Added);
}

#[test]
fn classify_toml_sidecars() {
    let files = vec![changed("models/orders.toml", 'M')];
    let changes = classify_model_changes::<()>(&files, Some("models"), None, None);
    assert_eq!(status_of(&changes, "orders"), ModelDiffStatus::Modified);
}

#[test]
fn classify_ignores_non_model_files() {
    let files = vec![
        changed("rocky.toml", 'M'),
        changed("Cargo.toml", 'M'),
        changed("models/_defaults.toml", 'M'),
        changed("models/groups/orders.toml", 'M'),
        changed("README.md", 'M'),
        changed("src/main.rs", 'M'),
    ];
    let changes = classify_model_changes::<()>(&files, Some("models"), None, None);
    assert!(changes.is_empty());
}

#[test]
fn classify_combined_sql_and_toml_prefers_significant() {
    // When both .sql (Added) and .toml (Modified) change for the same model,
    // the more significant status (Added) should win.
    let files = vec![
        changed("models/orders.toml", 'M'),
        changed("models/orders.sql", 'A'),
    ];
    let changes = classify_model_changes::<()>(&files, Some("models"), None, None);
    assert_eq!(status_of(&changes, "orders"), ModelDiffStatus::Added);
}

#[test]
fn significant_status_wins_in_either_order() {
    let files = vec![
        changed("models/orders.sql", 'A'),
        changed("models/orders.toml", 'M'),
    ];
    let changes = classify_model_changes::<()>(&files, Some("models"), None, None);
    assert_eq!(changes.len(), 1);
    assert_eq!(status_of(&changes, "orders"), ModelDiffStatus::Added);
    // Of two significant ones the first stays.
    let files = vec![
        changed("models/orders.sql", 'D'),
        changed("models/orders.rocky", 'A'),
    ];
    let changes = classify_model_changes::<()>(&files, Some("models"), None, None);
    assert_eq!(status_of(&changes, "orders"), ModelDiffStatus::Removed);
}

#[test]
fn classify_copy_as_added() {
    let files = parse_name_status(b"C100\tmodels/orders.sql\tmodels/purchases.sql\n").unwrap();
    let changes = classify_model_changes::<()>(&files, Some("models"), None, None);
    assert_eq!(status_of(&changes, "purchases"), ModelDiffStatus::Added);
}

#[test]
fn classify_rename_out_of_models_uses_old_path() {
    let files = parse_name_status(b"R100\tmodels/orders.sql\tarchive/orders.sql\n").unwrap();
    let changes = classify_model_changes::<()>(&files, Some("models"), None, None);
    assert_eq!(status_of(&changes, "orders"), ModelDiffStatus::Modified);
}

#[test]
fn filename_inferred_rename_is_removed_and_added() {
    let columns = [("id", "Int64"), ("status", "String")];
    let base_compile = compiled(vec![model("orders.sql", "orders", "orders")], &columns);
    let head_compile = compiled(
        vec![model("purchases.sql", "purchases", "purchases")],
        &columns,
    );
    let files = parse_name_status(
        b"R100\tmodels/orders.sql\tmodels/purchases.sql\n\
          R100\tmodels/orders.toml\tmodels/purchases.toml\n\
          R100\tmodels/orders.contract.toml\tmodels/purchases.contract.toml\n",
    )
    .unwrap();

    let changes = classify_model_changes(
        &files,
        Some("models"),
        Some(&base_compile.models),
        Some(&head_compile.models),
    );
    assert_eq!(changes.len(), 2);
    assert_eq!(status_of(&changes, "c.s.orders"), ModelDiffStatus::Removed);
    assert_eq!(status_of(&changes, "c.s.purchases"), ModelDiffStatus::Added);

    let results = build_diff_results(
        &changes,
        &typed_columns_from_compile(&head_compile),
        &typed_columns_from_compile(&base_compile),
    );
    let removed = results
        .iter()
        .find(|result| result.status == ModelDiffStatus::Removed)
        .unwrap();
    assert_eq!(removed.model_name, "orders");
    assert_eq!(removed.column_changes.len(), 2);
    assert!(removed
        .column_changes
        .iter()
        .all(|column| column.change_type == ColumnChangeType::Removed));
    let added = results
        .iter()
        .find(|result| result.status == ModelDiffStatus::Added)
        .unwrap();
    assert_eq!(added.model_name, "purchases");
    assert_eq!(added.column_changes.len(), 2);
    assert!(added
        .column_changes
        .iter()
        .all(|column| column.change_type == ColumnChangeType::Added));
}

#[test]
fn rename_with_stable_target_is_modified_and_fallback_stays_conservative() {
    let columns = [("id", "Int64")];
    let base_compile = compiled(
        vec![model("orders_v1.sql", "old_orders", "orders")],
        &columns,
    );
    let head_compile = compiled(
        vec![model("orders_v2.sql", "new_orders", "orders")],
        &columns,
    );
    let files = parse_name_status(
        b"R100\tmodels/orders_v1.sql\tmodels/orders_v2.sql\n\
          R100\tmodels/orders_v1.toml\tmodels/orders_v2.toml\n",
    )
    .unwrap();

    let changes = classify_model_changes(
        &files,
        Some("models"),
        Some(&base_compile.models),
        Some(&head_compile.models),
    );
    assert_eq!(changes.len(), 1);
    let change = changes.get("c.s.orders").unwrap();
    assert_eq!(change.status(), ModelDiffStatus::Modified);
    assert_eq!(change.model_name, "new_orders");
    assert_eq!(change.base_schema_name.as_deref(), Some("old_orders"));
    assert_eq!(change.head_schema_name.as_deref(), Some("new_orders"));

    let results = build_diff_results(
        &changes,
        &typed_columns_from_compile(&head_compile),
        &typed_columns_from_compile(&base_compile),
    );
    assert_eq!(results.len(), 1);
    assert_eq!(results[0].status, ModelDiffStatus::Modified);
    assert!(results[0].column_changes.is_empty());

    let fallback =
        classify_model_changes(&files, Some("models"), None, Some(&head_compile.models));
    assert_eq!(fallback.len(), 1);
    assert_eq!(
        status_of(&fallback, "orders_v2"),
        ModelDiffStatus::Modified
    );
}

#[test]
fn contract_sidecar_add_or_delete_keeps_existing_model_modified() {
    let compile = compiled(vec![model("orders.sql", "orders", "orders")], &[]);
    for status in ['A', 'D'] {
        let files = vec![changed("models/orders.contract.toml", status)];
        let changes = classify_model_changes(
            &files,
            Some("models"),
            Some(&compile.models),
            Some(&compile.models),
        );
        assert_eq!(changes.len(), 1);
        assert_eq!(status_of(&changes, "c.s.orders"), ModelDiffStatus::Modified);
    }
}

#[test]
fn added_sql_does_not_match_existing_same_stem_rocky_model() {
    let columns = [("id", "Int64")];
    let base_compile = compiled(vec![model("orders.rocky", "orders", "orders")], &columns);
    let head_compile = compiled(
        vec![
            model("orders.rocky", "orders", "orders"),
            model("orders.sql", "orders_sql", "orders_sql"),
        ],
        &columns,
    );
    let changes = classify_model_changes(
        &[changed("models/orders.sql", 'A')],
        Some("models"),
        Some(&base_compile.models),
        Some(&head_compile.models),
    );
    assert_eq!(changes.len(), 1);
    assert_eq!(
        status_of(&changes, "c.s.orders_sql"),
        ModelDiffStatus::Added
    );
}

#[test]
fn sightings_fill_both_sides() {
    let mut changes: ModelChanges = StringMap::new();
    record_model_side(&mut changes, "k".to_string(), "old", true);
    assert_eq!(status_of(&changes, "k"), ModelDiffStatus::Removed);
    assert_eq!(changes.get("k").unwrap().model_name, "old");
    record_model_side(&mut changes, "k".to_string(), "new", false);
    assert_eq!(status_of(&changes, "k"), ModelDiffStatus::Modified);
    assert_eq!(changes.get("k").unwrap().model_name, "new");
    record_model_side(&mut changes, "k".to_string(), "older", true);
    let change = changes.get("k").unwrap();
    assert_eq!(change.model_name, "new");
    assert_eq!(change.base_schema_name.as_deref(), Some("older"));
    assert_eq!(change.head_schema_name.as_deref(), Some("new"));
    record_model_side(&mut changes, "other".to_string(), "x", false);
    assert_eq!(status_of(&changes, "other"), ModelDiffStatus::Added);
    assert_eq!(changes.len(), 2);
    assert_eq!(
        ModelChange::default().status(),
        ModelDiffStatus::Unchanged
    );
}

#[test]
fn copies_do_not_count_at_the_old_path() {
    let base = vec![model("orders.sql", "orders", "orders")];
    let head = vec![
        model("orders.sql", "orders", "orders"),
        model("purchases.sql", "purchases", "purchases"),
    ];
    let files = parse_name_status(b"C100\tmodels/orders.sql\tmodels/purchases.sql\n").unwrap();
    let changes = classify_model_changes(&files, Some("models"), Some(&base), Some(&head));
    assert_eq!(changes.len(), 1);
    assert_eq!(status_of(&changes, "c.s.purchases"), ModelDiffStatus::Added);
}

#[test]
fn one_side_alone_does_not_count() {
    let models = vec![model("orders.sql", "orders", "elsewhere")];
    let files = vec![changed("models/orders.sql", 'M')];
    for (base, head) in [(Some(&models), None), (None, Some(&models)), (None, None)] {
        let base: Option<&[Model<()>]> = base.map(|models: &Vec<Model<()>>| models.as_slice());
        let head: Option<&[Model<()>]> = head.map(|models: &Vec<Model<()>>| models.as_slice());
        let changes = classify_model_changes(&files, Some("models"), base, head);
        assert_eq!(changes.len(), 1);
        assert_eq!(status_of(&changes, "orders"), ModelDiffStatus::Modified);
    }
}

use ci_diff::columns::{diff_columns, ColumnChangeType, ColumnDiff, TypedColumn};

fn column(name: &str, data_type: &str) -> TypedColumn {
    TypedColumn {
        name: name.into(),
        data_type: data_type.into(),
    }
}

#[test]
fn diff_columns_no_changes() {
    let base = vec![column("id", "INT"), column("name", "VARCHAR")];
    let diffs = diff_columns(&base, &base);
    assert!(diffs.is_empty());
}

#[test]
fn diff_columns_added() {
    let base = vec![column("id", "INT")];
    let head = vec![column("id", "INT"), column("email", "VARCHAR")];
    let diffs = diff_columns(&base, &head);
    assert_eq!(diffs.len(), 1);
    assert_eq!(diffs[0].column_name, "email");
    assert_eq!(diffs[0].change_type, ColumnChangeType::Added);
    assert_eq!(diffs[0].new_type, Some("VARCHAR".into()));
    assert_eq!(diffs[0].old_type, None);
}

#[test]
fn diff_columns_removed() {
    let base = vec![column("id", "INT"), column("legacy_flag", "BOOLEAN")];
    let head = vec![column("id", "INT")];
    let diffs = diff_columns(&base, &head);
    assert_eq!(diffs.len(), 1);
    assert_eq!(diffs[0].column_name, "legacy_flag");
    assert_eq!(diffs[0].change_type, ColumnChangeType::Removed);
    assert_eq!(diffs[0].old_type, Some("BOOLEAN".into()));
    assert_eq!(diffs[0].new_type, None);
}

#[test]
fn diff_columns_type_changed() {
    let base = vec![column("price", "FLOAT")];
    let head = vec![column("price", "DOUBLE")];
    let diffs = diff_columns(&base, &head);
    assert_eq!(diffs.len(), 1);
    assert_eq!(diffs[0].column_name, "price");
    assert_eq!(diffs[0].change_type, ColumnChangeType::TypeChanged);
    assert_eq!(diffs[0].old_type, Some("FLOAT".into()));
    assert_eq!(diffs[0].new_type, Some("DOUBLE".into()));
}

#[test]
fn diff_columns_mixed() {
    let base = vec![
        column("id", "INT"),
        column("old_col", "TEXT"),
        column("amount", "FLOAT"),
    ];
    let head = vec![
        column("id", "INT"),
        column("amount", "DECIMAL"),
        column("new_col", "VARCHAR"),
    ];
    let diffs = diff_columns(&base, &head);
    assert_eq!(diffs.len(), 3);

    let added: Vec<_> = diffs
        .iter()
        .filter(|d| d.change_type == ColumnChangeType::Added)
        .collect();
    let removed: Vec<_> = diffs
        .iter()
        .filter(|d| d.change_type == ColumnChangeType::Removed)
        .collect();
    let changed: Vec<_> = diffs
        .iter()
        .filter(|d| d.change_type == ColumnChangeType::TypeChanged)
        .collect();

    assert_eq!(added.len(), 1);
    assert_eq!(added[0].column_name, "new_col");
    assert_eq!(removed.len(), 1);
    assert_eq!(removed[0].column_name, "old_col");
    assert_eq!(changed.len(), 1);
    assert_eq!(changed[0].column_name, "amount");
}

#[test]
fn differences_keep_their_order() {
    let base = vec![column("z", "A"), column("y", "A"), column("x", "A")];
    let head = vec![column("n", "A"), column("x", "B"), column("m", "A")];
    let names: Vec<String> = diff_columns(&base, &head)
        .into_iter()
        .map(|diff| diff.column_name)
        .collect();
    assert_eq!(names, ["n", "x", "m", "z", "y"]);
}

#[test]
fn the_last_column_of_a_name_counts() {
    let twice = vec![column("a", "INT"), column("a", "TEXT")];
    let once = vec![column("a", "TEXT")];
    assert!(diff_columns(&twice, &once).is_empty());
    let diffs = diff_columns(&twice, &twice);
    assert_eq!(diffs.len(), 1);
    assert_eq!(diffs[0].change_type, ColumnChangeType::TypeChanged);
    assert_eq!(diffs[0].old_type.as_deref(), Some("TEXT"));
    assert_eq!(diffs[0].new_type.as_deref(), Some("INT"));
    assert_eq!(diff_columns(&twice, &[]).len(), 2);
}

#[test]
fn additions_mirror_removals() {
    let base = vec![column("a", "X"), column("b", "X")];
    let head = vec![column("b", "Y"), column("c", "X")];
    let one_way = diff_columns(&base, &head);
    let other_way = diff_columns(&head, &base);
    let added: Vec<&String> = one_way
        .iter()
        .filter(|diff| diff.change_type == ColumnChangeType::Added)
        .map(|diff| &diff.column_name)
        .collect();
    let removed: Vec<&String> = other_way
        .iter()
        .filter(|diff| diff.change_type == ColumnChangeType::Removed)
        .map(|diff| &diff.column_name)
        .collect();
    assert_eq!(added, removed);
    assert_eq!(added, ["c"]);
}

#[test]
fn differences_mirror() {
    let base = vec![column("a", "X"), column("b", "X"), column("d", "Z")];
    let head = vec![column("b", "Y"), column("c", "X"), column("d", "Z")];
    let tell = |diffs: Vec<ColumnDiff>, back: bool| {
        let mut told: Vec<String> = diffs
            .into_iter()
            .map(|diff| {
                let kind = match (diff.change_type, back) {
                    (ColumnChangeType::Added, true) => ColumnChangeType::Removed,
                    (ColumnChangeType::Removed, true) => ColumnChangeType::Added,
                    (kind, _) => kind,
                };
                let (old_type, new_type) = if back {
                    (diff.new_type, diff.old_type)
                } else {
                    (diff.old_type, diff.new_type)
                };
                format!("{} {kind:?} {old_type:?} {new_type:?}", diff.column_name)
            })
            .collect();
        told.sort();
        told
    };
    let one_way = tell(diff_columns(&base, &head), false);
    assert_eq!(one_way, tell(diff_columns(&head, &base), true));
    assert_eq!(
        one_way,
        [
            "a Removed Some(\"X\") None",
            "b TypeChanged Some(\"X\") Some(\"Y\")",
            "c Added None Some(\"X\")",
        ]
    );
}

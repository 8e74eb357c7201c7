use ci_diff::base::find_models_relative_path;
use ci_diff::models::{
    model_matches_path, model_stem, target_key, Model, ModelConfig, TargetConfig,
};
use std::path::Path;

fn model(file_path: &str) -> Model<()> {
    Model {
        config: ModelConfig {
            name: "orders".to_string(),
            target: TargetConfig {
                catalog: "c".to_string(),
                schema: "s".to_string(),
                table: "t".to_string(),
            },
        },
        file_path: file_path.to_string(),
        rest: (),
    }
}

#[test]
fn model_stem_normalizes_contract_and_rejects_nested_config() {
    assert_eq!(
        model_stem("models/orders.contract.toml", Some("models")).as_deref(),
        Some("orders")
    );
    assert_eq!(
        model_stem("models/groups/orders.toml", Some("models")),
        None
    );
    assert_eq!(
        model_stem("models/orders.sql", None).as_deref(),
        Some("orders")
    );
}

#[test]
fn model_files_share_a_stem() {
    for ending in [".sql", ".rocky", ".toml", ".contract.toml"] {
        for root in ["models", "a/b", "", "./x", "/abs"] {
            let path = if root.is_empty() {
                format!("orders.v1{ending}")
            } else {
                format!("{root}/orders.v1{ending}")
            };
            assert_eq!(
                model_stem(&path, Some(root)).as_deref(),
                Some("orders.v1"),
                "{path}"
            );
            assert_eq!(model_stem(&path, None).as_deref(), Some("orders.v1"));
        }
    }
}

#[test]
fn reserved_and_other_files_have_no_stem() {
    for path in [
        "models/_defaults.toml",
        "models/_defaults.contract.toml",
        "models/rocky.toml",
        "models/Cargo.toml",
        "models/.contract.toml",
        "models/.sql",
        "models/orders",
        "models/orders.txt",
        "models/orders.SQL",
        "models/..",
        "models",
        "modelsx/orders.sql",
        "",
    ] {
        assert_eq!(model_stem(path, Some("models")), None, "{path}");
    }
    assert_eq!(model_stem("..", None), None);
    assert_eq!(model_stem("/", None), None);
}

#[test]
fn paths_are_compared_by_component() {
    for path in [
        "models//orders.sql",
        "models/./orders.sql",
        "models/orders.sql/",
        "models/orders.sql/.",
    ] {
        assert_eq!(
            model_stem(path, Some("models")).as_deref(),
            Some("orders"),
            "{path}"
        );
    }
    assert_eq!(
        model_stem("models/orders.sql", Some("models/")).as_deref(),
        Some("orders")
    );
    assert_eq!(model_stem("./models/orders.sql", Some("models")), None);
    assert_eq!(
        model_stem("./models/orders.sql", Some("./models")).as_deref(),
        Some("orders")
    );
    assert_eq!(model_stem("models/x/../orders.sql", Some("models")), None);
}

/// The stem by way of `std::path`.
fn stem_by_std(path: &str, models_rel: Option<&str>) -> Option<String> {
    let path = Path::new(path);
    let relative = match models_rel {
        Some(root) => path.strip_prefix(root).ok()?,
        None => path,
    };
    if models_rel.is_some() && relative.components().count() != 1 {
        return None;
    }
    let file_name = relative.file_name()?.to_str()?;
    let stem = if let Some(stem) = file_name.strip_suffix(".contract.toml") {
        stem
    } else {
        match relative.extension().and_then(|ext| ext.to_str()) {
            Some("sql" | "rocky" | "toml") => relative.file_stem()?.to_str()?,
            _ => return None,
        }
    };
    if !stem.is_empty() && stem != "_defaults" && stem != "rocky" && stem != "Cargo" {
        Some(stem.to_string())
    } else {
        None
    }
}

/// Holds the stem against `std::path`.
#[test]
fn paths_come_apart_as_in_std() {
    let pieces = ["", ".", "..", "a", "b.sql", ".toml", "c.contract.toml", "d."];
    let mut paths: Vec<String> = Vec::new();
    for x in pieces {
        paths.push(x.to_string());
        for y in pieces {
            paths.push(format!("{x}/{y}"));
            for z in pieces {
                paths.push(format!("{x}/{y}/{z}"));
            }
        }
    }
    for path in &paths {
        assert_eq!(model_stem(path, None), stem_by_std(path, None), "{path}");
        for root in ["", ".", "..", "/", "a", "a/", "./a", "/a", "a/.", "a/b.sql"] {
            assert_eq!(
                model_stem(path, Some(root)),
                stem_by_std(path, Some(root)),
                "{path} below {root}"
            );
        }
    }
}

#[test]
fn query_files_keep_to_their_dialect() {
    let sql = model("/p/models/orders.sql");
    let rocky = model("/p/models/orders.rocky");
    let root = Some("models");
    assert!(model_matches_path(&sql, "models/orders.sql", root));
    assert!(!model_matches_path(&rocky, "models/orders.sql", root));
    assert!(model_matches_path(&rocky, "models/orders.rocky", root));
    assert!(model_matches_path(&sql, "models/orders.toml", root));
    assert!(model_matches_path(&rocky, "models/orders.toml", root));
    assert!(model_matches_path(&sql, "models/orders.contract.toml", root));
    assert!(!model_matches_path(&sql, "models/other.sql", root));
    assert!(!model_matches_path(&sql, "models/x/orders.sql", root));
    assert!(!model_matches_path(&sql, "README.md", root));
    assert!(!model_matches_path(&model(""), "models/orders.sql", root));
    assert!(!model_matches_path(&model("orders"), "models/orders.sql", root));
}

#[test]
fn target_key_joins_with_dots() {
    assert_eq!(target_key(&model("x.sql")), "c.s.t");
}

#[test]
fn relative_path_of_the_models_directory() {
    let find = find_models_relative_path;
    assert_eq!(find("/repo/models", "/repo").as_deref(), Some("models"));
    assert_eq!(find("/repo/a/b", "/repo").as_deref(), Some("a/b"));
    assert_eq!(find("/repo", "/repo").as_deref(), Some(""));
    assert_eq!(find("/a/b", "/").as_deref(), Some("a/b"));
    assert_eq!(find("/repository/models", "/repo"), None);
    assert_eq!(find("/elsewhere/models", "/repo"), None);
    assert_eq!(find("/a/b", "").as_deref(), Some("/a/b"));
}

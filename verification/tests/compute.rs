use ci_diff::base::{
    base_compiled, base_files, check_written, extract_base_compile, parse_tree, repo_root,
    BaseCompileError, ExtractEvent, ExtractStep,
};
use ci_diff::classify::ModelDiffStatus;
use ci_diff::columns::ColumnChangeType;
use ci_diff::compile::{
    project_ir_from_compile, semantic_findings, typed_columns_from_compile, CompileResult,
    CompiledColumn, ProjectIr,
};
use ci_diff::compute::{
    compare_step, compute_ci_diff, needs_compile, CiDiffData, CompareEvent, CompareStep,
};
use ci_diff::git::{parse_name_status_text, CommandOutput, ListingForm};
use ci_diff::models::{Model, ModelConfig, TargetConfig};
use ci_diff::report::{
    decimal_text, full_report_text, run_ci_diff, severity_label, BreakingFinding, BreakingSeverity,
    ReportForm,
};
use ci_diff::results::DiffSummary;
use ci_diff::string_map::StringMap;

/// A compiled project of one model. What is only handed on is a text for the model,
/// a number for each column and one for the project.
type Compiled = CompileResult<String, usize, u8>;

fn compiled(name: &str, columns: &[(&str, &str)]) -> Compiled {
    let mut typed_models = StringMap::new();
    typed_models.insert(
        name.to_string(),
        columns
            .iter()
            .enumerate()
            .map(|(at, (name, data_type))| CompiledColumn {
                name: name.to_string(),
                data_type: data_type.to_string(),
                nullable: true,
                rest: at,
            })
            .collect(),
    );
    CompileResult {
        models: vec![Model {
            config: ModelConfig {
                name: name.to_string(),
                target: TargetConfig {
                    catalog: "c".to_string(),
                    schema: "s".to_string(),
                    table: name.to_string(),
                },
            },
            file_path: format!("/tmp/models/{name}.sql"),
            rest: format!("rest of {name}"),
        }],
        typed_models,
        rest: 7,
    }
}

fn output(success: bool, stdout: &[u8]) -> CommandOutput {
    CommandOutput {
        success,
        stdout: stdout.to_vec(),
        stderr: Vec::new(),
    }
}

#[test]
fn project_ir_from_compile_stitches_typed_columns_from_type_check() {
    let result = compiled("orders", &[("id", "Int64"), ("name", "String")]);
    let ir = project_ir_from_compile(&result);

    assert_eq!(ir.models.len(), 1);
    let model = &ir.models[0];
    assert_eq!(&*model.name, "orders");
    assert!(
        !model.typed_columns.is_empty(),
        "typed_columns must be stitched from type_check.typed_models",
    );
    let names: Vec<&str> = model
        .typed_columns
        .iter()
        .map(|c| c.name.as_str())
        .collect();
    assert!(names.contains(&"id"));
    assert!(names.contains(&"name"));
    assert!(ir.dag.is_empty());
    assert!(ir.lineage_edges.is_empty());
    assert_eq!(model.typed_columns[0].data_type, "Int64");
    assert!(model.typed_columns[0].nullable);
    assert_eq!(model.target.table, "orders");
    assert_eq!(model.rest, "rest of orders");
    assert_eq!(model.typed_columns[1].rest, 1);
}

#[test]
fn models_without_columns_are_lowered_without() {
    let mut result = compiled("orders", &[("id", "Int64")]);
    result.models[0].config.name = "unchecked".to_string();
    let ir = project_ir_from_compile(&result);
    assert_eq!(ir.models.len(), 1);
    assert!(ir.models[0].typed_columns.is_empty());
}

type Lowered<'a> = ProjectIr<'a, String, usize>;

/// Reports each column of the base that HEAD lacks.
fn dropped_columns(base: &Lowered<'_>, head: &Lowered<'_>) -> Vec<BreakingFinding> {
    let mut findings = Vec::new();
    for model in &base.models {
        for column in &model.typed_columns {
            let kept = head
                .models
                .iter()
                .filter(|other| other.name == model.name)
                .any(|other| other.typed_columns.iter().any(|c| c.name == column.name));
            if !kept {
                findings.push(BreakingFinding {
                    severity: BreakingSeverity::Breaking,
                    change: format!("ColumnDropped {}.{}", model.name, column.name),
                });
            }
        }
    }
    findings
}

#[test]
fn semantic_findings_flag_column_drop_as_breaking() {
    let base_compile = compiled("orders", &[("id", "Int64"), ("legacy_flag", "String")]);
    let head_compile = compiled("orders", &[("id", "Int64")]);
    let findings = semantic_findings(Some(&base_compile), Some(&head_compile), dropped_columns);
    let dropped: Vec<_> = findings
        .iter()
        .filter(|f| f.change.starts_with("ColumnDropped"))
        .collect();
    assert_eq!(
        dropped.len(),
        1,
        "expected exactly one column_dropped finding, got findings: {findings:?}",
    );
    assert_eq!(
        dropped[0].severity,
        BreakingSeverity::Breaking,
        "column_dropped must surface as breaking severity",
    );
    assert_eq!(dropped[0].change, "ColumnDropped orders.legacy_flag");
}

#[test]
fn semantic_findings_empty_when_either_side_missing() {
    // No compile on either side: the classifier is skipped, empty vec.
    let always = |_: &Lowered<'_>, _: &Lowered<'_>| vec![1u8];
    let none: Option<&Compiled> = None;
    assert!(semantic_findings(none, none, always).is_empty());
    let one = compiled("orders", &[]);
    assert!(semantic_findings(Some(&one), None, always).is_empty());
    assert!(semantic_findings(None, Some(&one), always).is_empty());
    assert_eq!(semantic_findings(Some(&one), Some(&one), always), [1u8]);
}

#[test]
fn columns_are_read_off_a_compiled_project() {
    let schemas = typed_columns_from_compile(&compiled("orders", &[("id", "Int64")]));
    assert_eq!(schemas.len(), 1);
    let columns = schemas.get("orders").unwrap();
    assert_eq!(columns[0].name, "id");
    assert_eq!(columns[0].data_type, "Int64");
    assert!(schemas.get("other").is_none());
}

fn compare(text: &str) -> CiDiffData<String, usize, u8> {
    let files = parse_name_status_text(text);
    compute_ci_diff(
        &files,
        Some("models"),
        Some(compiled("orders", &[("id", "Int64"), ("tax", "Decimal")])),
        Some(compiled("orders", &[("id", "Int32")])),
    )
}

#[test]
fn comparison_of_a_modified_model() {
    let data = compare("M\tmodels/orders.sql\nM\tREADME.md\n");
    assert_eq!(data.changed_file_count, 2);
    assert_eq!(data.results.len(), 1);
    assert_eq!(data.results[0].model_name, "orders");
    assert_eq!(data.results[0].status, ModelDiffStatus::Modified);
    let changes = &data.results[0].column_changes;
    assert_eq!(changes.len(), 2);
    assert_eq!(changes[0].column_name, "id");
    assert_eq!(changes[0].change_type, ColumnChangeType::TypeChanged);
    assert_eq!(changes[1].column_name, "tax");
    assert_eq!(changes[1].change_type, ColumnChangeType::Added);
    assert_eq!(data.summary.modified, 1);
    assert_eq!(data.summary.total_models, 1);
    let head = data.head_compile.unwrap();
    assert_eq!(head.rest, 7);
    assert_eq!(head.models[0].rest, "rest of orders");
    assert!(data.base_compile.is_some());
}

#[test]
fn comparison_without_model_files_is_empty() {
    for (text, count) in [("", 0), ("M\tREADME.md\n", 1), ("M\tmodels/x/y.sql\n", 1)] {
        let files = parse_name_status_text(text);
        assert!(!needs_compile(&files, Some("models")));
        let data = compare(text);
        assert_eq!(data.changed_file_count, count);
        assert!(data.results.is_empty());
        assert_eq!(data.summary, DiffSummary::empty());
        assert!(data.head_compile.is_none());
        assert!(data.base_compile.is_none());
    }
    let files = parse_name_status_text("M\tmodels/orders.toml\n");
    assert!(needs_compile(&files, Some("models")));
}

#[test]
fn comparison_falls_back_to_file_names() {
    let files = parse_name_status_text("A\tmodels/b.sql\nD\tmodels/a.sql\n");
    let data = compute_ci_diff(&files, Some("models"), Some(compiled("b", &[("id", "X")])), None);
    assert_eq!(data.results.len(), 2);
    assert_eq!(data.results[0].model_name, "a");
    assert_eq!(data.results[0].status, ModelDiffStatus::Removed);
    assert!(data.results[0].column_changes.is_empty());
    assert_eq!(data.results[1].model_name, "b");
    assert_eq!(data.results[1].status, ModelDiffStatus::Added);
    assert_eq!(data.results[1].column_changes.len(), 1);
    assert!(data.base_compile.is_none());
}

#[test]
fn forms_of_the_report() {
    let nothing = compare("M\tREADME.md\n");
    let something = compare("M\tmodels/orders.sql\n");
    for semantic in [false, true] {
        match run_ci_diff(&nothing, "main", true, semantic) {
            ReportForm::Json {
                base_ref,
                head_ref,
                findings,
            } => {
                assert_eq!(base_ref, "main");
                assert_eq!(head_ref, "HEAD");
                assert!(!findings);
            }
            other => panic!("{other:?}"),
        }
        match run_ci_diff(&something, "main", true, semantic) {
            ReportForm::Json { findings, .. } => assert_eq!(findings, semantic),
            other => panic!("{other:?}"),
        }
        match run_ci_diff(&something, "main", false, semantic) {
            ReportForm::Full { findings } => assert_eq!(findings, semantic),
            other => panic!("{other:?}"),
        }
        match run_ci_diff(&nothing, "main", false, semantic) {
            ReportForm::Text(text) => assert_eq!(
                text,
                "Rocky CI Diff (main...HEAD)\n\n\
                 1 file(s) changed, but no model files (.sql, .rocky) were affected.\n"
            ),
            other => panic!("{other:?}"),
        }
    }
    match run_ci_diff(&compare(""), "main", false, false) {
        ReportForm::Text(text) => assert_eq!(
            text,
            "Rocky CI Diff (main...HEAD)\n\nNo changed model files detected.\n"
        ),
        other => panic!("{other:?}"),
    }
}

#[test]
fn findings_only_add_to_the_report() {
    let plain = full_report_text("main", "TABLE\n", "MARKDOWN\n", &[]);
    assert_eq!(
        plain,
        "Rocky CI Diff (main...HEAD)\n\nTABLE\n\n--- Markdown (for PR comment) ---\n\nMARKDOWN\n"
    );
    let findings = [
        BreakingFinding {
            severity: BreakingSeverity::Breaking,
            change: "Dropped".to_string(),
        },
        BreakingFinding {
            severity: BreakingSeverity::Warning,
            change: "Widened".to_string(),
        },
        BreakingFinding {
            severity: BreakingSeverity::Info,
            change: "Added".to_string(),
        },
    ];
    let full = full_report_text("main", "TABLE\n", "MARKDOWN\n", &findings);
    assert!(full.starts_with(&plain));
    assert_eq!(
        &full[plain.len()..],
        "\n--- Semantic Findings (3 total) ---\n\n\
         [BREAKING] Dropped\n[WARNING] Widened\n[INFO] Added\n"
    );
    assert_eq!(severity_label(BreakingSeverity::Info), "INFO");
}

#[test]
fn digits_stand_for_their_number() {
    for n in [0, 7, 10, 42, 100, 1999, usize::MAX] {
        assert_eq!(decimal_text(n), n.to_string());
    }
}

#[test]
fn root_of_the_repository() {
    assert_eq!(
        repo_root(&output(true, b"/home/me/repo\n")).as_deref(),
        Some("/home/me/repo")
    );
    assert_eq!(repo_root(&output(false, b"/home/me/repo\n")), None);
}

#[test]
fn files_go_where_they_lie() {
    let text = "models/a.sql\n\n models/sub/b.toml\nother/c.sql\n";
    let files = parse_tree("main", "models", text);
    assert_eq!(files.len(), 2);
    assert_eq!(files[0].destination, "a.sql");
    assert_eq!(files[0].git_args, ["show", "main:models/a.sql"]);
    assert_eq!(files[1].destination, "sub/b.toml");
    assert_eq!(files[1].git_args, ["show", "main:models/sub/b.toml"]);
    // No destination is absolute.
    let files = parse_tree("main", "", "//etc/x.sql\n");
    assert_eq!(files[0].destination, "etc/x.sql");
}

#[test]
fn failures_of_the_base() {
    let listed = output(true, b"models/a.sql\n");
    assert_eq!(base_files("main", "models", Some(&listed)).unwrap().len(), 1);
    let failed = output(false, b"");
    for listing in [None, Some(&failed)] {
        let error = base_files("main", "models", listing).unwrap_err();
        assert_eq!(
            error.message(),
            "git ls-tree failed for base ref 'main' \u{2014} models directory missing at that ref?"
        );
    }
    assert!(check_written("main", &[false, true]).is_ok());
    for written in [&[][..], &[false, false][..]] {
        let error = check_written("main", written).unwrap_err();
        assert_eq!(error.message(), "no model files found at base ref 'main'");
    }
    assert!(base_compiled("main", Ok(compiled("orders", &[]))).is_ok());
    let error = base_compiled::<Compiled>("main", Err("syntax".to_string())).unwrap_err();
    assert_eq!(error.message(), "base ref 'main' did not compile: syntax");
    assert_eq!(
        BaseCompileError::NoModelsPath.message(),
        "could not determine models directory relative to repo root"
    );
    let error = BaseCompileError::NoTempDir {
        error: "disk full".to_string(),
    };
    assert_eq!(
        error.message(),
        "failed to create temp dir for base extraction: disk full"
    );
}

#[test]
fn steps_to_the_compiled_base() {
    let step = |event: ExtractEvent<Compiled>| extract_base_compile("main", event);
    let located = ExtractEvent::Located {
        models_rel: Some("models".to_string()),
    };
    let models_rel = match step(located) {
        ExtractStep::MakeDirectory { models_rel } => models_rel,
        other => panic!("{other:?}"),
    };
    let made = ExtractEvent::DirectoryMade {
        models_rel,
        outcome: Ok(()),
    };
    let models_rel = match step(made) {
        ExtractStep::List {
            models_rel,
            git_args,
        } => {
            assert_eq!(
                git_args,
                ["ls-tree", "-r", "--name-only", "main", "models"]
            );
            models_rel
        }
        other => panic!("{other:?}"),
    };
    let listed = ExtractEvent::Listed {
        models_rel,
        listing: Some(output(true, b"models/a.sql\nmodels/b.sql\n")),
    };
    match step(listed) {
        ExtractStep::Fetch { files } => {
            assert_eq!(files.len(), 2);
            assert_eq!(files[1].destination, "b.sql");
        }
        other => panic!("{other:?}"),
    }
    let written = ExtractEvent::Written {
        written: vec![false, true],
    };
    assert!(matches!(step(written), ExtractStep::Compile));
    let compiled = ExtractEvent::Compiled {
        outcome: Ok(compiled("orders", &[])),
    };
    match step(compiled) {
        ExtractStep::Done(result) => assert_eq!(result.models[0].config.name, "orders"),
        other => panic!("{other:?}"),
    }
}

#[test]
fn steps_that_end_without_the_base() {
    let message = |event: ExtractEvent<Compiled>| match extract_base_compile("main", event) {
        ExtractStep::Failed(error) => error.message(),
        other => panic!("{other:?}"),
    };
    assert_eq!(
        message(ExtractEvent::Located { models_rel: None }),
        "could not determine models directory relative to repo root"
    );
    assert_eq!(
        message(ExtractEvent::DirectoryMade {
            models_rel: "models".to_string(),
            outcome: Err("disk full".to_string()),
        }),
        "failed to create temp dir for base extraction: disk full"
    );
    assert_eq!(
        message(ExtractEvent::Listed {
            models_rel: "models".to_string(),
            listing: Some(output(false, b"models/a.sql\n")),
        }),
        "git ls-tree failed for base ref 'main' \u{2014} models directory missing at that ref?"
    );
    assert_eq!(
        message(ExtractEvent::Written { written: vec![] }),
        "no model files found at base ref 'main'"
    );
    assert_eq!(
        message(ExtractEvent::Compiled {
            outcome: Err("syntax".to_string()),
        }),
        "base ref 'main' did not compile: syntax"
    );
}

type Event = CompareEvent<String, usize, u8>;

#[test]
fn refused_base_ref_ends_the_comparison() {
    for (base_ref, message) in [
        ("", "base ref must not be empty"),
        (
            "-x",
            "invalid base ref '-x': must not begin with '-' (git would read it as an option)",
        ),
    ] {
        match compare_step(base_ref, Event::Started) {
            CompareStep::Failed(error) => assert_eq!(error.message(), message),
            other => panic!("{other:?}"),
        }
    }
}

#[test]
fn steps_of_a_comparison() {
    let step = |event: Event| compare_step("main", event);
    match step(Event::Started) {
        CompareStep::List { form, git_args } => {
            assert!(matches!(form, ListingForm::ThreeDot));
            assert_eq!(git_args, ["diff", "--name-status", "main...HEAD"]);
        }
        other => panic!("{other:?}"),
    }
    let failed = Event::Listed {
        form: ListingForm::ThreeDot,
        outcome: Ok(output(false, b"")),
    };
    match step(failed) {
        CompareStep::List { form, git_args } => {
            assert!(matches!(form, ListingForm::TwoDot));
            assert_eq!(git_args, ["diff", "--name-status", "main", "HEAD"]);
        }
        other => panic!("{other:?}"),
    }
    let listed = Event::Listed {
        form: ListingForm::TwoDot,
        outcome: Ok(output(true, b"M\tmodels/orders.sql\n")),
    };
    let changed_files = match step(listed) {
        CompareStep::Locate { changed_files } => changed_files,
        other => panic!("{other:?}"),
    };
    let located = Event::Located {
        changed_files,
        models_rel: Some("models".to_string()),
        is_dir: true,
    };
    let (changed_files, models_rel) = match step(located) {
        CompareStep::Compile {
            changed_files,
            models_rel,
        } => (changed_files, models_rel),
        other => panic!("{other:?}"),
    };
    assert_eq!(changed_files[0].path, "models/orders.sql");
    assert_eq!(models_rel.as_deref(), Some("models"));
    let done = Event::Compiled {
        changed_files,
        models_rel,
        head: Ok(compiled("orders", &[("id", "Int64")])),
        base: Err("syntax".to_string()),
    };
    match step(done) {
        CompareStep::Done(data) => {
            assert!(data.head_compile.is_some());
            assert!(data.base_compile.is_none());
            assert_eq!(data.results.len(), 1);
            assert_eq!(data.results[0].status, ModelDiffStatus::Modified);
            assert!(data.results[0].column_changes.is_empty());
        }
        other => panic!("{other:?}"),
    }
}

#[test]
fn comparisons_that_end_early() {
    let step = |event: Event| compare_step("main", event);
    let nothing = Event::Listed {
        form: ListingForm::ThreeDot,
        outcome: Ok(output(true, b"\n")),
    };
    match step(nothing) {
        CompareStep::Done(data) => assert_eq!(data.changed_file_count, 0),
        other => panic!("{other:?}"),
    }
    for (path, is_dir, count) in [
        ("README.md", true, 0),
        ("README.md", false, 0),
        ("models/orders.sql", false, 1),
    ] {
        let located = Event::Located {
            changed_files: parse_name_status_text(&format!("A\t{path}\n")),
            models_rel: Some("models".to_string()),
            is_dir,
        };
        match step(located) {
            CompareStep::Done(data) => {
                assert_eq!(data.changed_file_count, 1);
                assert_eq!(data.results.len(), count);
                assert!(data.head_compile.is_none());
            }
            other => panic!("{other:?}"),
        }
    }
}

#[test]
fn comparisons_without_a_listing() {
    let message = |form, outcome| match compare_step("main", Event::Listed { form, outcome }) {
        CompareStep::Failed(error) => error.message(),
        other => panic!("{other:?}"),
    };
    assert_eq!(
        message(ListingForm::TwoDot, Ok(output(false, b""))),
        "git diff failed: "
    );
    assert_eq!(
        message(ListingForm::ThreeDot, Err("not found".to_string())),
        "failed to run `git diff` \u{2014} is git installed and is this a git repository?"
    );
}

#[test]
fn one_written_file_will_do() {
    let listed: ExtractEvent<Compiled> = ExtractEvent::Listed {
        models_rel: "models".to_string(),
        listing: Some(output(true, b"models/a.sql\nother\nmodels/b.sql\n")),
    };
    let files = match extract_base_compile("main", listed) {
        ExtractStep::Fetch { files } => files,
        other => panic!("{other:?}"),
    };
    assert_eq!(files[0].destination, "a.sql");
    assert_eq!(files[1].destination, "b.sql");
    for written in [[false, false], [true, false], [false, true], [true, true]] {
        assert_eq!(written.len(), files.len());
        let event: ExtractEvent<Compiled> = ExtractEvent::Written {
            written: written.to_vec(),
        };
        let goes_on = matches!(extract_base_compile("main", event), ExtractStep::Compile);
        assert_eq!(goes_on, written[0] || written[1]);
    }
}

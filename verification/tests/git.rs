use ci_diff::git::{
    git_changed_files, listing_args, parse_name_status, parse_name_status_text, show_args,
    tree_args, validate_base_ref, CiDiffError, CommandOutput, ListingForm, ListingStep,
};

fn output(success: bool, stdout: &[u8], stderr: &[u8]) -> CommandOutput {
    CommandOutput {
        success,
        stdout: stdout.to_vec(),
        stderr: stderr.to_vec(),
    }
}

#[test]
fn validate_base_ref_rejects_option_injection() {
    // A leading dash would otherwise smuggle flags into the git invocations.
    assert!(validate_base_ref("--upload-pack=touch /tmp/pwned").is_err());
    assert!(validate_base_ref("-foo").is_err());
    assert!(validate_base_ref("").is_err());
    // Legitimate revisions still pass.
    assert!(validate_base_ref("origin/main").is_ok());
    assert!(validate_base_ref("HEAD~3").is_ok());
    assert!(validate_base_ref("abc1234").is_ok());
}

#[test]
fn rejected_base_refs_say_why() {
    let empty = validate_base_ref("").unwrap_err();
    assert!(matches!(empty, CiDiffError::EmptyBaseRef));
    assert_eq!(empty.message(), "base ref must not be empty");
    let option = validate_base_ref("-x").unwrap_err();
    assert!(matches!(option, CiDiffError::OptionLikeBaseRef { .. }));
    assert_eq!(
        option.message(),
        "invalid base ref '-x': must not begin with '-' (git would read it as an option)"
    );
}

#[test]
fn parse_empty_output() {
    let files = parse_name_status(b"").unwrap();
    assert!(files.is_empty());
}

#[test]
fn parse_added_modified_deleted() {
    let raw = b"A\tmodels/orders.sql\nM\tmodels/customers.sql\nD\tmodels/legacy.sql\n";
    let files = parse_name_status(raw).unwrap();
    assert_eq!(files.len(), 3);
    assert_eq!(files[0].status, 'A');
    assert_eq!(files[0].path, "models/orders.sql");
    assert_eq!(files[1].status, 'M');
    assert_eq!(files[1].path, "models/customers.sql");
    assert_eq!(files[2].status, 'D');
    assert_eq!(files[2].path, "models/legacy.sql");
}

#[test]
fn parse_rename_preserves_both_paths() {
    let raw = b"R100\tmodels/old_name.sql\tmodels/new_name.sql\n";
    let files = parse_name_status(raw).unwrap();
    assert_eq!(files.len(), 1);
    assert_eq!(files[0].status, 'R');
    assert_eq!(files[0].path, "models/new_name.sql");
    assert_eq!(files[0].old_path.as_deref(), Some("models/old_name.sql"));
}

#[test]
fn parse_skips_blank_lines() {
    let raw = b"M\tmodels/foo.sql\n\n\nA\tmodels/bar.sql\n";
    let files = parse_name_status(raw).unwrap();
    assert_eq!(files.len(), 2);
}

#[test]
fn parse_takes_carriage_returns_and_missing_line_ends() {
    let files = parse_name_status(b"M\ta.sql\r\n  \r\nD\tb.sql").unwrap();
    assert_eq!(files.len(), 2);
    assert_eq!(files[0].path, "a.sql");
    assert_eq!(files[1].path, "b.sql");
    assert_eq!(files[1].status, 'D');
}

#[test]
fn parse_skips_lines_without_a_path() {
    assert!(parse_name_status(b"M\n").unwrap().is_empty());
    assert!(parse_name_status(b"M\t\tx\n").unwrap().is_empty());
    // A rename without a second path keeps the first.
    let files = parse_name_status(b"R100\tonly.sql\n").unwrap();
    assert_eq!(files[0].path, "only.sql");
    assert_eq!(files[0].old_path, None);
    // Only renames and copies have a second path.
    let files = parse_name_status(b"M\tfirst.sql\tsecond.sql\n").unwrap();
    assert_eq!(files[0].path, "first.sql");
    assert_eq!(files[0].old_path, None);
    // What follows the second tab of a rename is one path.
    let files = parse_name_status(b"C75\ta\tb\tc\n").unwrap();
    assert_eq!(files[0].path, "b\tc");
    assert_eq!(files[0].old_path.as_deref(), Some("a"));
}

#[test]
fn parse_replaces_malformed_bytes() {
    let files = parse_name_status(b"A\tmodels/caf\xc3\xa9.sql\nM\tbad\xff.sql\n").unwrap();
    assert_eq!(files[0].path, "models/caf\u{e9}.sql");
    assert_eq!(files[1].path, "bad\u{fffd}.sql");
}

#[test]
fn lines_are_read_one_by_one() {
    let above = "A\ta.sql\nM\tb.sql";
    let below = "D\tc.sql";
    let whole = format!("{above}\n{below}");
    let mut expected: Vec<String> = Vec::new();
    for text in [above, below] {
        for file in parse_name_status_text(text) {
            expected.push(file.path);
        }
    }
    let found: Vec<String> = parse_name_status_text(&whole)
        .into_iter()
        .map(|file| file.path)
        .collect();
    assert_eq!(found, expected);
    assert_eq!(found, ["a.sql", "b.sql", "c.sql"]);
}

#[test]
fn arguments_of_git() {
    assert_eq!(
        listing_args(ListingForm::ThreeDot, "origin/main"),
        ["diff", "--name-status", "origin/main...HEAD"]
    );
    assert_eq!(
        listing_args(ListingForm::TwoDot, "origin/main"),
        ["diff", "--name-status", "origin/main", "HEAD"]
    );
    assert_eq!(
        tree_args("main", "models"),
        ["ls-tree", "-r", "--name-only", "main", "models"]
    );
    assert_eq!(
        show_args("main", "models/a.sql"),
        ["show", "main:models/a.sql"]
    );
}

#[test]
fn accepted_base_ref_is_no_option() {
    let base_ref = "HEAD~3";
    assert!(validate_base_ref(base_ref).is_ok());
    assert!(!listing_args(ListingForm::ThreeDot, base_ref)[2].starts_with('-'));
    assert!(!listing_args(ListingForm::TwoDot, base_ref)[2].starts_with('-'));
    assert!(!tree_args(base_ref, "models")[3].starts_with('-'));
    assert!(!show_args(base_ref, "-x")[1].starts_with('-'));
}

#[test]
fn two_dot_form_is_the_fallback() {
    let failed = output(false, b"", b"fatal: bad revision\n");
    let good = output(true, b"A\tmodels/a.sql\n", b"");
    match git_changed_files(ListingForm::ThreeDot, &failed) {
        ListingStep::Retry(ListingForm::TwoDot) => {}
        other => panic!("{other:?}"),
    }
    for form in [ListingForm::ThreeDot, ListingForm::TwoDot] {
        match git_changed_files(form, &good) {
            ListingStep::Listed(files) => assert_eq!(files[0].path, "models/a.sql"),
            other => panic!("{other:?}"),
        }
    }
    match git_changed_files(ListingForm::TwoDot, &failed) {
        ListingStep::Failed(error) => {
            assert_eq!(error.message(), "git diff failed: fatal: bad revision\n");
        }
        other => panic!("{other:?}"),
    }
}

#[test]
fn written_changes_read_back() {
    let changes: [(char, &str, Option<&str>, &str); 6] = [
        ('A', "", None, "models/a b.sql"),
        ('R', "100", Some("models/old.sql"), "models/new.sql"),
        ('R', "", Some("old"), "new"),
        ('C', "075", Some(" from"), "to\ttab"),
        ('D', "", None, "caf\u{e9}.toml"),
        ('M', "100", None, "x"),
    ];
    let mut text = String::new();
    for (status, score, old_path, path) in changes {
        match old_path {
            Some(old_path) => text += &format!("{status}{score}\t{old_path}\t{path}\n"),
            None => text += &format!("{status}{score}\t{path}\n"),
        }
    }
    let files = parse_name_status(text.as_bytes()).unwrap();
    assert_eq!(files.len(), changes.len());
    for (file, (status, _, old_path, path)) in files.iter().zip(changes) {
        assert_eq!(file.status, status);
        assert_eq!(file.old_path.as_deref(), old_path);
        assert_eq!(file.path, path);
    }
}

#[test]
fn listed_changes_come_from_lines() {
    let text = "  \n\tA\tb\nM\nA\t\nD\tx\n\n";
    let files = parse_name_status_text(text);
    let lines = text.lines().filter(|line| !line.trim().is_empty()).count();
    assert!(files.len() <= lines);
    assert_eq!(files.len(), 2);
    for file in &files {
        assert!(!file.path.is_empty());
        assert!(!file.path.contains('\n'));
        assert!(!file.status.is_whitespace());
    }
    assert_eq!(files[0].status, 'A');
    assert_eq!(files[0].path, "b");
}

#[test]
fn git_that_cannot_be_run() {
    let error = |form| CiDiffError::GitNotRun {
        form,
        error: "not found".to_string(),
    };
    assert_eq!(
        error(ListingForm::ThreeDot).message(),
        "failed to run `git diff` \u{2014} is git installed and is this a git repository?"
    );
    assert_eq!(
        error(ListingForm::TwoDot).message(),
        "failed to run `git diff` with two-dot syntax"
    );
}

#[test]
fn output_is_read_line_by_line() {
    let above = "A\tcaf\u{e9}.sql".as_bytes();
    let below = "R100\ta.sql\tb.sql\n".as_bytes();
    let mut whole = above.to_vec();
    whole.push(10);
    whole.extend_from_slice(below);
    let paths = |bytes: &[u8]| -> Vec<String> {
        parse_name_status(bytes)
            .unwrap()
            .into_iter()
            .map(|file| file.path)
            .collect()
    };
    let mut parts = paths(above);
    parts.extend(paths(below));
    assert_eq!(paths(&whole), parts);
    assert_eq!(parts, ["caf\u{e9}.sql", "b.sql"]);
}

//! What is asked of git and what its answers mean: the base revision, the
//! argument lists, and the list of changed files.

use vstd::prelude::*;
use vstd::string::*;
use vstd::utf8::*;

use crate::seqs::lemma_filter_map_concat;
use crate::text::{
    after_first, before_first, chars_of, cut, cut_first, is_white_space, lemma_decode_concat,
    lemma_decode_line_end, lemma_first_mark_parts, lemma_first_mark_within, lemma_no_mark,
    lemma_pieces_free_of_mark, lemma_pieces_join, lemma_pieces_whole, lemma_trimmed,
    lemma_trimmed_last, output_text, pieces, read_output, strings, text_of, texts, trim, trimmed,
};

verus! {

/// A file change between two revisions.
#[derive(Debug, Clone)]
pub struct ChangedFile {
    /// Path relative to the repository root.
    pub path: String,
    /// Previous path, for a rename or a copy.
    pub old_path: Option<String>,
    /// Status letter: `A` (added), `D` (deleted), `M` (modified), `R` (renamed),
    /// `C` (copied) and so on.
    pub status: char,
}

/// What a [`ChangedFile`] holds.
#[verifier::ext_equal]
pub struct ChangedFileView {
    pub path: Seq<char>,
    pub old_path: Option<Seq<char>>,
    pub status: char,
}

/// The contents of an optional string.
pub open spec fn optional_text(s: Option<String>) -> Option<Seq<char>> {
    match s {
        Some(text) => Some(text@),
        None => None,
    }
}

impl View for ChangedFile {
    type V = ChangedFileView;

    open spec fn view(&self) -> ChangedFileView {
        ChangedFileView {
            path: self.path@,
            old_path: optional_text(self.old_path),
            status: self.status,
        }
    }
}

/// The contents of a list of changed files.
pub open spec fn file_views(files: Seq<ChangedFile>) -> Seq<ChangedFileView> {
    Seq::new(files.len(), |i: int| files[i]@)
}

/// Why the changed files of a repository are not known.
#[derive(Debug, Clone)]
pub enum CiDiffError {
    /// The base revision is empty.
    EmptyBaseRef,
    /// The base revision begins with `-`.
    OptionLikeBaseRef { base_ref: String },
    /// A form of `git diff` could not be run, and why.
    GitNotRun { form: ListingForm, error: String },
    /// Both forms of `git diff` failed; what the second one said.
    GitDiffFailed { stderr: String },
}

impl CiDiffError {
    /// What [`CiDiffError::message`] says.
    pub open spec fn message_text(self) -> Seq<char> {
        match self {
            CiDiffError::EmptyBaseRef => "base ref must not be empty"@,
            CiDiffError::OptionLikeBaseRef { base_ref } => "invalid base ref '"@ + base_ref@
                + "': must not begin with '-' (git would read it as an option)"@,
            CiDiffError::GitNotRun { form, .. } => match form {
                ListingForm::ThreeDot =>
                    "failed to run `git diff` — is git installed and is this a git repository?"@,
                ListingForm::TwoDot => "failed to run `git diff` with two-dot syntax"@,
            },
            CiDiffError::GitDiffFailed { stderr } => "git diff failed: "@ + stderr@,
        }
    }

    /// The error in words, without why git could not be run.
    pub fn message(&self) -> (r: String)
        ensures
            r@ == self.message_text(),
    {
        match self {
            CiDiffError::EmptyBaseRef => "base ref must not be empty".to_owned(),
            CiDiffError::OptionLikeBaseRef { base_ref } => {
                let mut r = "invalid base ref '".to_owned();
                r.append(base_ref.as_str());
                r.append("': must not begin with '-' (git would read it as an option)");
                r
            },
            CiDiffError::GitNotRun { form, .. } => match form {
                ListingForm::ThreeDot => {
                    let r = "failed to run `git diff` — is git installed and is this a git repository?";
                    r.to_owned()
                },
                ListingForm::TwoDot => "failed to run `git diff` with two-dot syntax".to_owned(),
            },
            CiDiffError::GitDiffFailed { stderr } => {
                let mut r = "git diff failed: ".to_owned();
                r.append(stderr.as_str());
                r
            },
        }
    }
}

/// Whether git would read an argument as an option.
pub open spec fn option_like(argument: Seq<char>) -> bool {
    argument.len() > 0 && argument[0] == '-'
}

/// The base revisions that are taken: neither empty nor like an option.
pub open spec fn acceptable_base_ref(base_ref: Seq<char>) -> bool {
    base_ref.len() > 0 && !option_like(base_ref)
}

/// Whether `error` is what is said of a base revision that is not taken.
pub open spec fn refuses(base_ref: Seq<char>, error: CiDiffError) -> bool {
    match error {
        CiDiffError::EmptyBaseRef => base_ref.len() == 0,
        CiDiffError::OptionLikeBaseRef { base_ref: named } => option_like(base_ref) && named@
            == base_ref,
        _ => false,
    }
}

/// Rejects a base revision that git would take for an option.
///
/// The revision often comes from a branch variable of a CI system and is handed
/// to git as an argument, so one that begins with `-` could carry options into
/// the call. No valid revision begins so, and an empty one means nothing here.
pub fn validate_base_ref(base_ref: &str) -> (r: Result<(), CiDiffError>)
    ensures
        r is Ok <==> acceptable_base_ref(base_ref@),
        r is Ok <==> base_ref@.len() > 0 && base_ref@[0] != '-',
        r matches Err(error) ==> refuses(base_ref@, error),
{
    if base_ref.is_empty() {
        return Err(CiDiffError::EmptyBaseRef);
    }
    if base_ref.get_char(0) == '-' {
        return Err(CiDiffError::OptionLikeBaseRef { base_ref: base_ref.to_owned() });
    }
    Ok(())
}

/// What one line of `git diff --name-status` says: nothing where it is blank or
/// names no path. The fields stand between tabs: the status, the path, and for
/// a rename or a copy the new path.
pub open spec fn line_change(line: Seq<char>) -> Option<ChangedFileView> {
    let line = trimmed(line);
    let letters = before_first(line, '\t');
    let rest = after_first(line, '\t');
    let first_path = match rest {
        Some(rest) => before_first(rest, '\t'),
        None => Seq::empty(),
    };
    let second_path = match rest {
        Some(rest) => after_first(rest, '\t'),
        None => None,
    };
    let status = if letters.len() > 0 {
        letters[0]
    } else {
        'M'
    };
    let change = if (status == 'R' || status == 'C') && second_path is Some {
        ChangedFileView { path: second_path->0, old_path: Some(first_path), status }
    } else {
        ChangedFileView { path: first_path, old_path: None, status }
    };
    if line.len() == 0 || change.path.len() == 0 {
        None
    } else {
        Some(change)
    }
}

/// What the output of `git diff --name-status` says, line by line.
pub open spec fn listed_changes(text: Seq<char>) -> Seq<ChangedFileView> {
    pieces(text, '\n').filter_map(|line: Seq<char>| line_change(line))
}

/// Reads one line of `git diff --name-status`.
fn parse_line(line: &Vec<char>) -> (r: Option<ChangedFile>)
    ensures
        match r {
            Some(file) => line_change(line@) == Some(file@),
            None => line_change(line@) is None,
        },
{
    let line = trim(line);
    if line.len() == 0 {
        return None;
    }
    let (letters, rest) = cut_first(&line, '\t');
    let status = if letters.len() > 0 {
        letters[0]
    } else {
        'M'
    };
    match rest {
        None => None,
        Some(rest) => {
            let (first_path, second_path) = cut_first(&rest, '\t');
            proof {
                assert(first_path@.subrange(0, first_path@.len() as int) =~= first_path@);
            }
            match second_path {
                Some(second_path) if status == 'R' || status == 'C' => {
                    if second_path.len() == 0 {
                        return None;
                    }
                    assert(second_path@.subrange(0, second_path@.len() as int) =~= second_path@);
                    Some(
                        ChangedFile {
                            path: text_of(&second_path, 0, second_path.len()),
                            old_path: Some(text_of(&first_path, 0, first_path.len())),
                            status,
                        },
                    )
                },
                _ => {
                    if first_path.len() == 0 {
                        return None;
                    }
                    Some(
                        ChangedFile {
                            path: text_of(&first_path, 0, first_path.len()),
                            old_path: None,
                            status,
                        },
                    )
                },
            }
        },
    }
}

/// Reads the text that `git diff --name-status` printed.
pub fn parse_name_status_text(text: &str) -> (r: Vec<ChangedFile>)
    ensures
        file_views(r@) == listed_changes(text@),
{
    let v = chars_of(text);
    let lines = cut(&v, '\n');
    let ghost all = pieces(text@, '\n');
    let ghost f = |line: Seq<char>| line_change(line);
    let mut files: Vec<ChangedFile> = Vec::new();
    let mut i: usize = 0;
    assert(all.len() == lines@.len());
    assert(file_views(files@) =~= all.take(0).filter_map(f));
    while i < lines.len()
        invariant
            i <= lines@.len(),
            all == texts(lines@),
            f == |line: Seq<char>| line_change(line),
            file_views(files@) == all.take(i as int).filter_map(f),
        decreases lines@.len() - i,
    {
        let ghost before = file_views(files@);
        proof {
            all.lemma_filter_map_take_succ(f, i as int);
            assert(all[i as int] == lines@[i as int]@);
        }
        match parse_line(&lines[i]) {
            Some(file) => {
                files.push(file);
                assert(file_views(files@) =~= before.push(file@));
            },
            None => {},
        }
        assert(file_views(files@) =~= all.take(i + 1).filter_map(f));
        i += 1;
    }
    assert(all.take(all.len() as int) =~= all);
    files
}

/// Reads the output of `git diff --name-status`.
pub fn parse_name_status(raw: &[u8]) -> (r: Result<Vec<ChangedFile>, CiDiffError>)
    ensures
        r is Ok,
        file_views(r->Ok_0@) == listed_changes(output_text(raw@)),
{
    let text = read_output(raw);
    Ok(parse_name_status_text(text.as_str()))
}

/// What a finished git command left behind.
#[derive(Debug, Clone)]
pub struct CommandOutput {
    /// Whether it exited with success.
    pub success: bool,
    pub stdout: Vec<u8>,
    pub stderr: Vec<u8>,
}

/// The two forms of `git diff` that list the changed files.
#[derive(Debug, Clone, Copy)]
pub enum ListingForm {
    /// `base...HEAD`: what changed since the branch left the base.
    ThreeDot,
    /// `base HEAD`: less precise, but it needs no common ancestor.
    TwoDot,
}

/// What to do after one form of `git diff` has run.
#[derive(Debug, Clone)]
pub enum ListingStep {
    /// The changed files are known.
    Listed(Vec<ChangedFile>),
    /// Run the other form.
    Retry(ListingForm),
    /// Give up.
    Failed(CiDiffError),
}

/// The arguments of a form of `git diff`.
pub open spec fn listing_arguments(form: ListingForm, base_ref: Seq<char>) -> Seq<Seq<char>> {
    match form {
        ListingForm::ThreeDot => seq!["diff"@, "--name-status"@, base_ref + "...HEAD"@],
        ListingForm::TwoDot => seq!["diff"@, "--name-status"@, base_ref, "HEAD"@],
    }
}

/// The arguments of git for a form of `git diff`.
pub fn listing_args(form: ListingForm, base_ref: &str) -> (r: Vec<String>)
    ensures
        strings(r@) == listing_arguments(form, base_ref@),
{
    let mut r: Vec<String> = Vec::new();
    r.push("diff".to_owned());
    r.push("--name-status".to_owned());
    match form {
        ListingForm::ThreeDot => {
            let mut range = base_ref.to_owned();
            range.append("...HEAD");
            r.push(range);
        },
        ListingForm::TwoDot => {
            r.push(base_ref.to_owned());
            r.push("HEAD".to_owned());
        },
    }
    assert(strings(r@) =~= listing_arguments(form, base_ref@));
    r
}

/// Decides what follows a form of `git diff`: its output is read where it
/// succeeded; where the first form failed, as in a shallow clone without the
/// base, the second is tried.
pub fn git_changed_files(form: ListingForm, output: &CommandOutput) -> (r: ListingStep)
    ensures
        match r {
            ListingStep::Listed(files) => output.success && file_views(files@) == listed_changes(
                output_text(output.stdout@),
            ),
            ListingStep::Retry(next) => !output.success && form is ThreeDot && next is TwoDot,
            ListingStep::Failed(error) => !output.success && form is TwoDot && error
                is GitDiffFailed && error->stderr@ == output_text(output.stderr@),
        },
{
    if output.success {
        let text = read_output(output.stdout.as_slice());
        return ListingStep::Listed(parse_name_status_text(text.as_str()));
    }
    match form {
        ListingForm::ThreeDot => ListingStep::Retry(ListingForm::TwoDot),
        ListingForm::TwoDot => {
            let stderr = read_output(output.stderr.as_slice());
            ListingStep::Failed(CiDiffError::GitDiffFailed { stderr })
        },
    }
}

/// The arguments that list the files below `models_rel` at a revision.
pub open spec fn tree_arguments(base_ref: Seq<char>, models_rel: Seq<char>) -> Seq<Seq<char>> {
    seq!["ls-tree"@, "-r"@, "--name-only"@, base_ref, models_rel]
}

/// The arguments of git that list the files below `models_rel` at a revision.
pub fn tree_args(base_ref: &str, models_rel: &str) -> (r: Vec<String>)
    ensures
        strings(r@) == tree_arguments(base_ref@, models_rel@),
{
    let mut r: Vec<String> = Vec::new();
    r.push("ls-tree".to_owned());
    r.push("-r".to_owned());
    r.push("--name-only".to_owned());
    r.push(base_ref.to_owned());
    r.push(models_rel.to_owned());
    assert(strings(r@) =~= tree_arguments(base_ref@, models_rel@));
    r
}

/// The arguments that print a file as it stands at a revision.
pub open spec fn show_arguments(base_ref: Seq<char>, path: Seq<char>) -> Seq<Seq<char>> {
    seq!["show"@, base_ref + ":"@ + path]
}

/// The arguments of git that print a file as it stands at a revision.
pub fn show_args(base_ref: &str, path: &str) -> (r: Vec<String>)
    ensures
        strings(r@) == show_arguments(base_ref@, path@),
{
    let mut object = base_ref.to_owned();
    object.append(":");
    object.append(path);
    let mut r: Vec<String> = Vec::new();
    r.push("show".to_owned());
    r.push(object);
    assert(strings(r@) =~= show_arguments(base_ref@, path@));
    r
}

/// An accepted base revision brings no option into a git call: none of the
/// arguments made from it begins with `-`, in either form of `git diff`, in
/// `git ls-tree` and in `git show`.
pub proof fn law_accepted_base_ref_is_no_option(
    base_ref: Seq<char>,
    models_rel: Seq<char>,
    path: Seq<char>,
)
    requires
        acceptable_base_ref(base_ref),
    ensures
        !option_like(listing_arguments(ListingForm::ThreeDot, base_ref)[2]),
        !option_like(listing_arguments(ListingForm::TwoDot, base_ref)[2]),
        !option_like(tree_arguments(base_ref, models_rel)[3]),
        !option_like(show_arguments(base_ref, path)[1]),
{
}

/// Each line is read by itself: the changes listed in two texts, one below the
/// other, are those of the first followed by those of the second.
pub proof fn law_lines_are_read_one_by_one(above: Seq<char>, below: Seq<char>)
    ensures
        listed_changes(above.push('\n') + below) == listed_changes(above) + listed_changes(below),
{
    lemma_pieces_join(above, '\n', below);
    lemma_filter_map_concat(
        pieces(above, '\n'),
        pieces(below, '\n'),
        |line: Seq<char>| line_change(line),
    );
}

/// Output is read line by line too: the changes listed in two pieces of UTF-8, one
/// below the other, are those of the first followed by those of the second.
pub proof fn law_output_is_read_line_by_line(above: Seq<u8>, below: Seq<u8>)
    requires
        valid_utf8(above),
        valid_utf8(below),
    ensures
        listed_changes(output_text(above.push(10) + below)) == listed_changes(output_text(above))
            + listed_changes(output_text(below)),
{
    let end = seq![10u8];
    lemma_decode_line_end();
    lemma_decode_concat(above, end);
    lemma_decode_concat(above + end, below);
    assert(above.push(10) =~= above + end);
    assert(decode_utf8(above) + seq!['\n'] =~= decode_utf8(above).push('\n'));
    law_lines_are_read_one_by_one(decode_utf8(above), decode_utf8(below));
}

/// A line that holds only white space lists nothing.
pub proof fn law_blank_line_lists_nothing(line: Seq<char>)
    requires
        trimmed(line).len() == 0,
    ensures
        line_change(line) is None,
{
}

proof fn lemma_line_change(line: Seq<char>)
    requires
        line_change(line) is Some,
    ensures
        ({
            let change = line_change(line)->0;
            &&& change.path.len() > 0
            &&& !is_white_space(change.status)
            &&& change.old_path is Some ==> change.status == 'R' || change.status == 'C'
            &&& forall|c: char| change.path.contains(c) ==> line.contains(c)
            &&& change.old_path matches Some(old_path) ==> forall|c: char|
                old_path.contains(c) ==> line.contains(c)
        }),
{
    let inner = trimmed(line);
    lemma_trimmed(line);
    lemma_first_mark_within(inner, '\t');
    assert(is_white_space('\t'));
    match after_first(inner, '\t') {
        Some(rest) => {
            lemma_first_mark_within(rest, '\t');
        },
        None => {},
    }
}

/// Every listed change names a path, and only renames and copies name an old
/// one. No path holds a line end, and no status letter is white space.
pub proof fn law_listed_changes_name_a_path(text: Seq<char>, i: int)
    requires
        0 <= i < listed_changes(text).len(),
    ensures
        ({
            let change = listed_changes(text)[i];
            &&& change.path.len() > 0
            &&& !change.path.contains('\n')
            &&& !is_white_space(change.status)
            &&& change.old_path matches Some(old_path) ==> (change.status == 'R' || change.status
                == 'C') && !old_path.contains('\n')
        }),
{
    let f = |line: Seq<char>| line_change(line);
    let lines = pieces(text, '\n');
    let change = listed_changes(text)[i];
    assert(listed_changes(text).contains(change));
    lines.lemma_filter_map_contains(f, change);
    let line = choose|line: Seq<char>| #[trigger] lines.contains(line) && f(line) == Some(change);
    let j = choose|j: int| 0 <= j < lines.len() && lines[j] == line;
    lemma_pieces_free_of_mark(text, '\n', j);
    lemma_line_change(line);
}

proof fn lemma_no_more_changes_than_lines(lines: Seq<Seq<char>>)
    ensures
        lines.filter_map(|line: Seq<char>| line_change(line)).len() <= lines.filter(
            |line: Seq<char>| trimmed(line).len() > 0,
        ).len(),
    decreases lines.len(),
{
    reveal(Seq::filter);
    if lines.len() > 0 {
        lemma_no_more_changes_than_lines(lines.drop_last());
    }
}

/// There are no more listed changes than lines that are not blank.
pub proof fn law_no_more_changes_than_lines(text: Seq<char>)
    ensures
        listed_changes(text).len() <= pieces(text, '\n').filter(
            |line: Seq<char>| trimmed(line).len() > 0,
        ).len(),
{
    lemma_no_more_changes_than_lines(pieces(text, '\n'));
}

/// What git may print behind a status letter, such as the similarity score of a
/// rename: anything without a tab or a line end.
pub open spec fn plain_score(score: Seq<char>) -> bool {
    !score.contains('\t') && !score.contains('\n')
}

/// How `git diff --name-status` writes a change, with what stands behind the
/// status letter and without the line end.
pub open spec fn written(file: ChangedFileView, score: Seq<char>) -> Seq<char> {
    let letters = seq![file.status] + score;
    match file.old_path {
        Some(old_path) => letters.push('\t') + (old_path.push('\t') + file.path),
        None => letters.push('\t') + file.path,
    }
}

/// The changes that a line can tell: the paths hold no line end and no tab,
/// except that the new path of a rename may hold tabs; neither the status letter
/// nor the end of the line is white space; and an old path goes with a rename or
/// a copy.
pub open spec fn tellable(file: ChangedFileView) -> bool {
    &&& file.path.len() > 0
    &&& !file.path.contains('\n')
    &&& !is_white_space(file.path.last())
    &&& !is_white_space(file.status)
    &&& match file.old_path {
        Some(old_path) => (file.status == 'R' || file.status == 'C') && !old_path.contains('\t')
            && !old_path.contains('\n'),
        None => !file.path.contains('\t'),
    }
}

/// Reading a written change gives it back, whatever stands behind the status
/// letter.
pub proof fn law_written_change_reads_back(file: ChangedFileView, score: Seq<char>)
    requires
        tellable(file),
        plain_score(score),
    ensures
        line_change(written(file, score)) == Some(file),
{
    let line = written(file, score);
    let letters = seq![file.status] + score;
    assert(is_white_space('\t'));
    assert(!letters.contains('\t')) by {
        if letters.contains('\t') {
            let i = choose|i: int| 0 <= i < letters.len() && letters[i] == '\t';
            if i > 0 {
                assert(score[i - 1] == '\t');
            }
        }
    }
    assert(line[0] == file.status);
    assert(line.last() == file.path.last());
    assert(trimmed(line) == line);
    match file.old_path {
        Some(old_path) => {
            let rest = old_path.push('\t') + file.path;
            lemma_first_mark_parts(letters, '\t', rest);
            lemma_first_mark_parts(old_path, '\t', file.path);
        },
        None => {
            lemma_first_mark_parts(letters, '\t', file.path);
            lemma_no_mark(file.path, '\t');
        },
    }
}

/// How `git diff --name-status` writes changes, line by line, each with what
/// stands behind its status letter.
pub open spec fn written_all(files: Seq<ChangedFileView>, scores: Seq<Seq<char>>) -> Seq<char>
    decreases files.len(),
{
    if files.len() == 0 {
        Seq::empty()
    } else {
        written_all(files.drop_last(), scores.drop_last()) + written(
            files.last(),
            scores.last(),
        ).push('\n')
    }
}

proof fn lemma_written_is_one_line(file: ChangedFileView, score: Seq<char>)
    requires
        tellable(file),
        plain_score(score),
    ensures
        !written(file, score).contains('\n'),
{
    let line = written(file, score);
    let first = score.len() + 2;
    assert(is_white_space('\n'));
    if line.contains('\n') {
        let i = choose|i: int| 0 <= i < line.len() && line[i] == '\n';
        if 1 <= i < first - 1 {
            assert(score[i - 1] == '\n');
        }
        match file.old_path {
            Some(old_path) => {
                let second = first + old_path.len() + 1;
                if first <= i < second - 1 {
                    assert(old_path[i - first] == '\n');
                } else if i >= second {
                    assert(file.path[i - second] == '\n');
                }
            },
            None => {
                if i >= first {
                    assert(file.path[i - first] == '\n');
                }
            },
        }
    }
}

/// Reading written changes gives them back, all and in order.
#[verifier::rlimit(40)]
pub proof fn law_written_changes_read_back(files: Seq<ChangedFileView>, scores: Seq<Seq<char>>)
    requires
        files.len() == scores.len(),
        forall|i: int| 0 <= i < files.len() ==> tellable(#[trigger] files[i]),
        forall|i: int| 0 <= i < scores.len() ==> plain_score(#[trigger] scores[i]),
    ensures
        listed_changes(written_all(files, scores)) == files,
    decreases files.len(),
{
    let f = |line: Seq<char>| line_change(line);
    let none = Seq::<char>::empty();
    Seq::lemma_filter_map_singleton(none, f);
    assert(f(none) is None);
    assert(listed_changes(none) =~= Seq::empty());
    if files.len() == 0 {
        assert(files =~= Seq::empty());
    } else {
        let front = files.drop_last();
        let others = scores.drop_last();
        let last = files.last();
        assert(forall|i: int| 0 <= i < front.len() ==> #[trigger] front[i] == files[i]);
        assert(forall|i: int| 0 <= i < others.len() ==> #[trigger] others[i] == scores[i]);
        assert(tellable(files[files.len() - 1]));
        assert(plain_score(scores[scores.len() - 1]));
        law_written_changes_read_back(front, others);
        let above = written_all(front, others);
        let line = written(last, scores.last());
        lemma_written_is_one_line(last, scores.last());
        law_written_change_reads_back(last, scores.last());
        lemma_pieces_whole(line, '\n');
        Seq::lemma_filter_map_singleton(line, f);
        assert(listed_changes(line) =~= seq![last]);
        law_lines_are_read_one_by_one(line, none);
        assert(line.push('\n') + none =~= line.push('\n'));
        assert(listed_changes(line.push('\n')) =~= seq![last]);
        if front.len() == 0 {
            assert(above + line.push('\n') =~= line.push('\n'));
            assert(files =~= seq![last]);
        } else {
            let earlier = written_all(front.drop_last(), others.drop_last()) + written(
                front.last(),
                others.last(),
            );
            assert(above =~= earlier.push('\n'));
            law_lines_are_read_one_by_one(earlier, line.push('\n'));
            law_lines_are_read_one_by_one(earlier, none);
            assert(earlier.push('\n') + none =~= above);
            assert(listed_changes(earlier) =~= front);
            assert(files =~= front + seq![last]);
        }
    }
}

/// Output that holds written changes as UTF-8 reads back as these changes.
pub proof fn law_encoded_changes_read_back(files: Seq<ChangedFileView>, scores: Seq<Seq<char>>)
    requires
        files.len() == scores.len(),
        forall|i: int| 0 <= i < files.len() ==> tellable(#[trigger] files[i]),
        forall|i: int| 0 <= i < scores.len() ==> plain_score(#[trigger] scores[i]),
    ensures
        listed_changes(output_text(encode_utf8(written_all(files, scores)))) == files,
{
    let text = written_all(files, scores);
    encode_utf8_valid_utf8(text);
    encode_utf8_decode_utf8(text);
    law_written_changes_read_back(files, scores);
}

/// The fields of a changed file, one by one, and the files of a list.
pub proof fn law_changed_files_are_their_fields(file: ChangedFile, files: Seq<ChangedFile>)
    ensures
        file@.path == file.path@,
        file@.status == file.status,
        match file.old_path {
            Some(old_path) => file@.old_path == Some(old_path@),
            None => file@.old_path is None,
        },
        file_views(files).len() == files.len(),
        forall|i: int| 0 <= i < files.len() ==> #[trigger] file_views(files)[i] == files[i]@,
{
}

/// An optional string stands for its text.
pub proof fn law_optional_strings_stand_for_their_text(text: String)
    ensures
        optional_text(Some(text)) == Some(text@),
        optional_text(None) is None,
{
}

/// A revision is taken exactly if it has a first character and that is no dash.
/// Otherwise the error says which of the two it is, and names the revision whole.
pub proof fn law_first_character_decides_on_a_revision(base_ref: Seq<char>, error: CiDiffError)
    ensures
        acceptable_base_ref(base_ref) <==> base_ref.len() > 0 && base_ref[0] != '-',
        refuses(base_ref, error) <==> match error {
            CiDiffError::EmptyBaseRef => base_ref.len() == 0,
            CiDiffError::OptionLikeBaseRef { base_ref: named } => base_ref.len() > 0
                && base_ref[0] == '-' && named@ == base_ref,
            CiDiffError::GitNotRun { .. } => false,
            CiDiffError::GitDiffFailed { .. } => false,
        },
{
}

/// A message holds the whole of what it speaks of: the revision between its two
/// halves, and all that git said behind its first words.
pub proof fn law_messages_hold_what_they_speak_of(error: CiDiffError)
    ensures
        ({
            let message = error.message_text();
            match error {
                CiDiffError::EmptyBaseRef => message == "base ref must not be empty"@,
                CiDiffError::OptionLikeBaseRef { base_ref } => message == "invalid base ref '"@
                    + base_ref@
                    + "': must not begin with '-' (git would read it as an option)"@,
                CiDiffError::GitNotRun { form: ListingForm::ThreeDot, .. } => message
                    == "failed to run `git diff` — is git installed and is this a git repository?"@,
                CiDiffError::GitNotRun { form: ListingForm::TwoDot, .. } => message
                    == "failed to run `git diff` with two-dot syntax"@,
                CiDiffError::GitDiffFailed { stderr } => "git diff failed: "@.is_prefix_of(message)
                    && message.skip("git diff failed: "@.len() as int) == stderr@,
            }
        }),
{
    let start = "git diff failed: "@;
    match error {
        CiDiffError::GitDiffFailed { stderr } => {
            let message = start + stderr@;
            assert(message.subrange(0, start.len() as int) =~= start);
            assert(message.skip(start.len() as int) =~= stderr@);
        },
        _ => {},
    }
}

/// What the fields of a line say. Without a tab it says nothing. With one tab it
/// names a path. With two, the third field, tabs and all, is the new path of a
/// rename or a copy and the second its old path; for any other letter the second
/// field is the path. The letter is the first character of the first field, and a
/// line without a path says nothing.
pub proof fn law_fields_of_a_line(
    line: Seq<char>,
    letters: Seq<char>,
    first: Seq<char>,
    second: Seq<char>,
)
    requires
        !letters.contains('\t'),
        !first.contains('\t'),
    ensures
        trimmed(line) == letters ==> line_change(line) is None,
        trimmed(line) == letters.push('\t') + first ==> line_change(line) == Some(
            ChangedFileView { path: first, old_path: None, status: letters[0] },
        ),
        trimmed(line) == letters.push('\t') + (first.push('\t') + second) ==> line_change(line)
            == if letters[0] == 'R' || letters[0] == 'C' {
            Some(ChangedFileView { path: second, old_path: Some(first), status: letters[0] })
        } else if first.len() > 0 {
            Some(ChangedFileView { path: first, old_path: None, status: letters[0] })
        } else {
            None
        },
{
    let inner = trimmed(line);
    let both = first.push('\t') + second;
    assert(is_white_space('\t'));
    lemma_trimmed(line);
    lemma_trimmed_last(line);
    if inner == letters {
        lemma_no_mark(letters, '\t');
    }
    if inner == letters.push('\t') + first {
        lemma_first_mark_parts(letters, '\t', first);
        lemma_no_mark(first, '\t');
        if first.len() == 0 {
            assert(inner.last() == '\t');
        }
        if letters.len() == 0 {
            assert(inner[0] == '\t');
        }
    }
    if inner == letters.push('\t') + both {
        lemma_first_mark_parts(letters, '\t', both);
        lemma_first_mark_parts(first, '\t', second);
        if second.len() == 0 {
            assert(inner.last() == '\t');
        }
        if letters.len() == 0 {
            assert(inner[0] == '\t');
        }
    }
}

/// A text of one line lists what that line says.
pub proof fn law_one_line_lists_one_change(line: Seq<char>)
    requires
        !line.contains('\n'),
    ensures
        listed_changes(line) == match line_change(line) {
            Some(change) => seq![change],
            None => Seq::empty(),
        },
{
    let f = |l: Seq<char>| line_change(l);
    lemma_pieces_whole(line, '\n');
    Seq::lemma_filter_map_singleton(line, f);
}

/// Git is asked for the changes of the whole base revision: the range begins with
/// all of it and goes on with `...HEAD`, in the other form it is an argument by
/// itself, and different revisions ask for different ranges.
pub proof fn law_listings_name_the_whole_revision(base_ref: Seq<char>, other: Seq<char>)
    ensures
        ({
            let range = listing_arguments(ListingForm::ThreeDot, base_ref);
            let pair = listing_arguments(ListingForm::TwoDot, base_ref);
            &&& range.len() == 3
            &&& range[0] == "diff"@
            &&& range[1] == "--name-status"@
            &&& base_ref.is_prefix_of(range[2])
            &&& range[2].len() == base_ref.len() + 7
            &&& range[2].skip(base_ref.len() as int) == "...HEAD"@
            &&& pair.len() == 4
            &&& pair[0] == "diff"@
            &&& pair[1] == "--name-status"@
            &&& pair[2] == base_ref
            &&& pair[3] == "HEAD"@
            &&& base_ref != other ==> range[2] != listing_arguments(
                ListingForm::ThreeDot,
                other,
            )[2]
        }),
{
    reveal_strlit("...HEAD");
    let tail = "...HEAD"@;
    let range = base_ref + tail;
    assert(range.subrange(0, base_ref.len() as int) =~= base_ref);
    assert(range.skip(base_ref.len() as int) =~= tail);
    let range_of_other = other + tail;
    if range == range_of_other {
        assert(range_of_other.subrange(0, other.len() as int) =~= other);
        assert(base_ref.len() == other.len());
    }
}

/// The files at a revision are listed below the whole models path, and a file is
/// printed by the whole revision, a colon and its whole path.
pub proof fn law_objects_are_named_whole(
    base_ref: Seq<char>,
    models_rel: Seq<char>,
    path: Seq<char>,
)
    ensures
        ({
            let tree = tree_arguments(base_ref, models_rel);
            let show = show_arguments(base_ref, path);
            &&& tree.len() == 5
            &&& tree[0] == "ls-tree"@
            &&& tree[1] == "-r"@
            &&& tree[2] == "--name-only"@
            &&& tree[3] == base_ref
            &&& tree[4] == models_rel
            &&& show.len() == 2
            &&& show[0] == "show"@
            &&& show[1] == base_ref.push(':') + path
        }),
{
    reveal_strlit(":");
    assert(base_ref + ":"@ =~= base_ref.push(':'));
}

} // verus!

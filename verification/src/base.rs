//! The models as they stood at the base revision: where they lie in the
//! repository, which files to fetch, and when that has failed.

use vstd::prelude::*;
use vstd::string::*;

use crate::git::{
    law_objects_are_named_whole, show_args, show_arguments, tree_args, tree_arguments,
    CommandOutput,
};
use crate::paths::{join_parts, joined, parts_below, strip_base};
use crate::seqs::lemma_filter_map_concat;
use crate::text::{
    begins_with, chars_of, cut, law_pieces_lie_between_marks, output_text, pieces, read_output,
    strings, text_of, texts, trim, trimmed,
};

verus! {

/// Reads the root of the repository off `git rev-parse --show-toplevel`.
pub fn repo_root(output: &CommandOutput) -> (r: Option<String>)
    ensures
        r is Some <==> output.success,
        r matches Some(root) ==> root@ == trimmed(output_text(output.stdout@)),
{
    if !output.success {
        return None;
    }
    let text = read_output(output.stdout.as_slice());
    let root = trim(&chars_of(text.as_str()));
    assert(root@.subrange(0, root@.len() as int) =~= root@);
    Some(text_of(&root, 0, root.len()))
}

/// The path of the models directory relative to the root of the repository,
/// both given as canonical paths.
pub fn find_models_relative_path(models_dir: &str, repo_root: &str) -> (r: Option<String>)
    ensures
        match r {
            Some(path) => parts_below(models_dir@, repo_root@) is Some && path@ == joined(
                parts_below(models_dir@, repo_root@)->0,
            ),
            None => parts_below(models_dir@, repo_root@) is None,
        },
{
    match strip_base(models_dir, repo_root) {
        Some(parts) => Some(join_parts(&parts)),
        None => None,
    }
}

/// Why the models at the base revision are not known.
#[derive(Debug, Clone)]
pub enum BaseCompileError {
    /// The models directory does not lie in the repository.
    NoModelsPath,
    /// No temporary directory could be made.
    NoTempDir { error: String },
    /// The files at the base could not be listed.
    ListingFailed { base_ref: String },
    /// Not one file could be fetched.
    NoFiles { base_ref: String },
    /// The fetched models do not compile.
    DidNotCompile { base_ref: String, error: String },
}

impl BaseCompileError {
    /// What [`BaseCompileError::message`] says.
    pub open spec fn message_text(self) -> Seq<char> {
        match self {
            BaseCompileError::NoModelsPath =>
                "could not determine models directory relative to repo root"@,
            BaseCompileError::NoTempDir { error } =>
                "failed to create temp dir for base extraction: "@ + error@,
            BaseCompileError::ListingFailed { base_ref } => "git ls-tree failed for base ref '"@
                + base_ref@ + "' — models directory missing at that ref?"@,
            BaseCompileError::NoFiles { base_ref } => "no model files found at base ref '"@
                + base_ref@ + "'"@,
            BaseCompileError::DidNotCompile { base_ref, error } => "base ref '"@ + base_ref@
                + "' did not compile: "@ + error@,
        }
    }

    /// The error in words.
    pub fn message(&self) -> (r: String)
        ensures
            r@ == self.message_text(),
    {
        match self {
            BaseCompileError::NoModelsPath =>
                "could not determine models directory relative to repo root".to_owned(),
            BaseCompileError::NoTempDir { error } => {
                let mut r = "failed to create temp dir for base extraction: ".to_owned();
                r.append(error.as_str());
                r
            },
            BaseCompileError::ListingFailed { base_ref } => {
                let mut r = "git ls-tree failed for base ref '".to_owned();
                r.append(base_ref.as_str());
                r.append("' — models directory missing at that ref?");
                r
            },
            BaseCompileError::NoFiles { base_ref } => {
                let mut r = "no model files found at base ref '".to_owned();
                r.append(base_ref.as_str());
                r.append("'");
                r
            },
            BaseCompileError::DidNotCompile { base_ref, error } => {
                let mut r = "base ref '".to_owned();
                r.append(base_ref.as_str());
                r.append("' did not compile: ");
                r.append(error.as_str());
                r
            },
        }
    }
}

/// A file to fetch from the base revision.
#[derive(Debug, Clone)]
pub struct BaseFile {
    /// The arguments of git that print it.
    pub git_args: Vec<String>,
    /// Where it goes, relative to the directory that is filled.
    pub destination: String,
}

/// What a [`BaseFile`] holds.
#[verifier::ext_equal]
pub struct BaseFileView {
    pub git_args: Seq<Seq<char>>,
    pub destination: Seq<char>,
}

impl View for BaseFile {
    type V = BaseFileView;

    open spec fn view(&self) -> BaseFileView {
        BaseFileView { git_args: strings(self.git_args@), destination: self.destination@ }
    }
}

/// The contents of a list of files to fetch.
pub open spec fn base_file_views(files: Seq<BaseFile>) -> Seq<BaseFileView> {
    Seq::new(files.len(), |i: int| files[i]@)
}

/// A path without its leading slashes.
pub open spec fn without_leading_slashes(path: Seq<char>) -> Seq<char>
    decreases path.len(),
{
    if path.len() > 0 && path[0] == '/' {
        without_leading_slashes(path.drop_first())
    } else {
        path
    }
}

/// What one line of `git ls-tree --name-only` asks for: the file it names, to go
/// where it lies below the models directory.
pub open spec fn line_file(
    base_ref: Seq<char>,
    models_rel: Seq<char>,
    line: Seq<char>,
) -> Option<BaseFileView> {
    let path = trimmed(line);
    if path.len() == 0 || !models_rel.is_prefix_of(path) {
        None
    } else {
        Some(
            BaseFileView {
                git_args: show_arguments(base_ref, path),
                destination: without_leading_slashes(path.skip(models_rel.len() as int)),
            },
        )
    }
}

/// The files that the output of `git ls-tree --name-only` asks for.
pub open spec fn listed_files(
    base_ref: Seq<char>,
    models_rel: Seq<char>,
    text: Seq<char>,
) -> Seq<BaseFileView> {
    pieces(text, '\n').filter_map(|line: Seq<char>| line_file(base_ref, models_rel, line))
}

/// Reads one line of `git ls-tree --name-only`.
fn read_line(base_ref: &str, models_rel: &Vec<char>, line: &Vec<char>) -> (r: Option<BaseFile>)
    ensures
        match r {
            Some(file) => line_file(base_ref@, models_rel@, line@) == Some(file@),
            None => line_file(base_ref@, models_rel@, line@) is None,
        },
{
    let path = trim(line);
    if path.len() == 0 || !begins_with(&path, models_rel) {
        return None;
    }
    let mut from: usize = models_rel.len();
    let ghost rest = path@.skip(models_rel@.len() as int);
    while from < path.len() && path[from] == '/'
        invariant
            from <= path@.len(),
            without_leading_slashes(path@.skip(from as int)) == without_leading_slashes(rest),
        decreases path@.len() - from,
    {
        assert(path@.skip(from as int).drop_first() =~= path@.skip(from + 1));
        from += 1;
    }
    assert(path@.subrange(0, path@.len() as int) =~= path@);
    assert(path@.subrange(from as int, path@.len() as int) =~= path@.skip(from as int));
    let whole = text_of(&path, 0, path.len());
    Some(
        BaseFile {
            git_args: show_args(base_ref, whole.as_str()),
            destination: text_of(&path, from, path.len()),
        },
    )
}

/// Reads the text that `git ls-tree --name-only` printed.
pub fn parse_tree(base_ref: &str, models_rel: &str, text: &str) -> (r: Vec<BaseFile>)
    ensures
        base_file_views(r@) == listed_files(base_ref@, models_rel@, text@),
{
    let lines = cut(&chars_of(text), '\n');
    let root = chars_of(models_rel);
    let ghost all = pieces(text@, '\n');
    let ghost f = |line: Seq<char>| line_file(base_ref@, models_rel@, line);
    let mut files: Vec<BaseFile> = Vec::new();
    let mut i: usize = 0;
    assert(all.len() == lines@.len());
    assert(base_file_views(files@) =~= all.take(0).filter_map(f));
    while i < lines.len()
        invariant
            i <= lines@.len(),
            all == texts(lines@),
            root@ == models_rel@,
            f == |line: Seq<char>| line_file(base_ref@, models_rel@, line),
            base_file_views(files@) == all.take(i as int).filter_map(f),
        decreases lines@.len() - i,
    {
        let ghost before = base_file_views(files@);
        proof {
            all.lemma_filter_map_take_succ(f, i as int);
            assert(all[i as int] == lines@[i as int]@);
        }
        match read_line(base_ref, &root, &lines[i]) {
            Some(file) => {
                files.push(file);
                assert(base_file_views(files@) =~= before.push(file@));
            },
            None => {},
        }
        assert(base_file_views(files@) =~= all.take(i + 1).filter_map(f));
        i += 1;
    }
    assert(all.take(all.len() as int) =~= all);
    files
}

/// The files to fetch, given what `git ls-tree` left behind, or nothing where it
/// could not be run.
pub fn base_files(base_ref: &str, models_rel: &str, listing: Option<&CommandOutput>) -> (r: Result<
    Vec<BaseFile>,
    BaseCompileError,
>)
    ensures
        r is Ok <==> listing is Some && listing->0.success,
        r matches Ok(files) ==> base_file_views(files@) == listed_files(
            base_ref@,
            models_rel@,
            output_text(listing->0.stdout@),
        ),
        r matches Err(error) ==> error is ListingFailed && error->ListingFailed_base_ref@
            == base_ref@,
{
    match listing {
        Some(output) if output.success => {
            let text = read_output(output.stdout.as_slice());
            Ok(parse_tree(base_ref, models_rel, text.as_str()))
        },
        _ => Err(BaseCompileError::ListingFailed { base_ref: base_ref.to_owned() }),
    }
}

/// Whether to go on, given which of the files were written: one will do.
pub fn check_written(base_ref: &str, written: &[bool]) -> (r: Result<(), BaseCompileError>)
    ensures
        r is Ok <==> written@.contains(true),
        r matches Err(error) ==> error is NoFiles && error->NoFiles_base_ref@ == base_ref@,
{
    let mut i: usize = 0;
    while i < written.len()
        invariant
            i <= written@.len(),
            forall|j: int| 0 <= j < i ==> !written@[j],
        decreases written@.len() - i,
    {
        if written[i] {
            assert(written@.contains(written@[i as int]));
            return Ok(());
        }
        i += 1;
    }
    Err(BaseCompileError::NoFiles { base_ref: base_ref.to_owned() })
}

/// The outcome of compiling the fetched models.
pub fn base_compiled<P>(base_ref: &str, outcome: Result<P, String>) -> (r: Result<
    P,
    BaseCompileError,
>)
    ensures
        match outcome {
            Ok(result) => r == Ok::<P, BaseCompileError>(result),
            Err(text) => r is Err && r->Err_0 is DidNotCompile && r->Err_0->DidNotCompile_base_ref@
                == base_ref@ && r->Err_0->DidNotCompile_error@ == text@,
        },
{
    match outcome {
        Ok(result) => Ok(result),
        Err(error) => Err(BaseCompileError::DidNotCompile { base_ref: base_ref.to_owned(), error }),
    }
}

/// What happened last on the way to the compiled base, a `P`.
#[derive(Debug)]
pub enum ExtractEvent<P> {
    /// The models directory was looked for in the repository.
    Located { models_rel: Option<String> },
    /// A temporary directory was asked for.
    DirectoryMade { models_rel: String, outcome: Result<(), String> },
    /// The files at the base were asked for; nothing where git could not be run.
    Listed { models_rel: String, listing: Option<CommandOutput> },
    /// Each of the files was fetched and written, or not.
    Written { written: Vec<bool> },
    /// The written files were compiled.
    Compiled { outcome: Result<P, String> },
}

/// What to do next on the way to the compiled base.
#[derive(Debug)]
pub enum ExtractStep<P> {
    /// Make a temporary directory.
    MakeDirectory { models_rel: String },
    /// Run git to list the files at the base.
    List { models_rel: String, git_args: Vec<String> },
    /// Fetch these files and write them to the temporary directory.
    Fetch { files: Vec<BaseFile> },
    /// Compile what was written.
    Compile,
    /// The base is known.
    Done(P),
    /// The base stays unknown.
    Failed(BaseCompileError),
}

/// Whether `step` is what an event asks for.
pub open spec fn follows<P>(
    base_ref: Seq<char>,
    event: ExtractEvent<P>,
    step: ExtractStep<P>,
) -> bool {
    match event {
        ExtractEvent::Located { models_rel } => match models_rel {
            Some(models_rel) => step matches ExtractStep::MakeDirectory { models_rel: root }
                && root@ == models_rel@,
            None => step matches ExtractStep::Failed(error) && error is NoModelsPath,
        },
        ExtractEvent::DirectoryMade { models_rel, outcome } => match outcome {
            Ok(_) => step matches ExtractStep::List { models_rel: root, git_args } && root@
                == models_rel@ && strings(git_args@) == tree_arguments(base_ref, models_rel@),
            Err(text) => step matches ExtractStep::Failed(error) && error is NoTempDir
                && error->NoTempDir_error@ == text@,
        },
        ExtractEvent::Listed { models_rel, listing } => if listing is Some && listing->0.success {
            step matches ExtractStep::Fetch { files } && base_file_views(files@) == listed_files(
                base_ref,
                models_rel@,
                output_text(listing->0.stdout@),
            )
        } else {
            step matches ExtractStep::Failed(error) && error is ListingFailed
                && error->ListingFailed_base_ref@ == base_ref
        },
        ExtractEvent::Written { written } => if written@.contains(true) {
            step is Compile
        } else {
            step matches ExtractStep::Failed(error) && error is NoFiles
                && error->NoFiles_base_ref@ == base_ref
        },
        ExtractEvent::Compiled { outcome } => match outcome {
            Ok(result) => step == ExtractStep::Done(result),
            Err(text) => step matches ExtractStep::Failed(error) && error is DidNotCompile
                && error->DidNotCompile_base_ref@ == base_ref && error->DidNotCompile_error@
                == text@,
        },
    }
}

/// Decides what comes next on the way to the compiled base: the models directory
/// is located, a temporary directory made, the files listed, fetched and
/// compiled, and the first of these to fail ends it.
pub fn extract_base_compile<P>(base_ref: &str, event: ExtractEvent<P>) -> (r: ExtractStep<P>)
    ensures
        follows(base_ref@, event, r),
{
    match event {
        ExtractEvent::Located { models_rel: Some(models_rel) } => ExtractStep::MakeDirectory {
            models_rel,
        },
        ExtractEvent::Located { models_rel: None } => ExtractStep::Failed(
            BaseCompileError::NoModelsPath,
        ),
        ExtractEvent::DirectoryMade { models_rel, outcome: Ok(_) } => {
            let git_args = tree_args(base_ref, models_rel.as_str());
            ExtractStep::List { models_rel, git_args }
        },
        ExtractEvent::DirectoryMade { outcome: Err(error), .. } => ExtractStep::Failed(
            BaseCompileError::NoTempDir { error },
        ),
        ExtractEvent::Listed { models_rel, listing } => {
            let listing: Option<&CommandOutput> = match &listing {
                Some(output) => Some(output),
                None => None,
            };
            match base_files(base_ref, models_rel.as_str(), listing) {
                Ok(files) => ExtractStep::Fetch { files },
                Err(error) => ExtractStep::Failed(error),
            }
        },
        ExtractEvent::Written { written } => match check_written(base_ref, written.as_slice()) {
            Ok(_) => ExtractStep::Compile,
            Err(error) => ExtractStep::Failed(error),
        },
        ExtractEvent::Compiled { outcome } => match base_compiled(base_ref, outcome) {
            Ok(result) => ExtractStep::Done(result),
            Err(error) => ExtractStep::Failed(error),
        },
    }
}

/// The base is known exactly where its files were compiled without an error: at
/// no earlier point, and from then on nothing else can fail.
pub proof fn law_base_is_known_once_compiled<P>(
    base_ref: Seq<char>,
    event: ExtractEvent<P>,
    step: ExtractStep<P>,
)
    requires
        follows(base_ref, event, step),
    ensures
        step is Done <==> (event matches ExtractEvent::Compiled { outcome } && outcome is Ok),
        step matches ExtractStep::Done(result) ==> event == (ExtractEvent::Compiled {
            outcome: Ok(result),
        }),
        event is Compiled ==> step is Done || step is Failed,
{
}

/// One file will do: once the files at the base are listed and each of them was
/// written or not, they are compiled exactly if one was written. The files are
/// the listed ones, in their order.
pub proof fn law_one_written_file_will_do<P>(
    base_ref: Seq<char>,
    models_rel: String,
    listing: CommandOutput,
    fetch: ExtractStep<P>,
    written: Vec<bool>,
    step: ExtractStep<P>,
)
    requires
        follows(base_ref, ExtractEvent::Listed { models_rel, listing: Some(listing) }, fetch),
        fetch is Fetch,
        written@.len() == fetch->files@.len(),
        follows(base_ref, ExtractEvent::Written { written }, step),
    ensures
        ({
            let files = listed_files(base_ref, models_rel@, output_text(listing.stdout@));
            &&& written@.len() == files.len()
            &&& forall|i: int| 0 <= i < files.len() ==> (#[trigger] fetch->files@[i])@ == files[i]
            &&& step is Compile <==> exists|i: int| 0 <= i < files.len() && #[trigger] written@[i]
            &&& step is Compile || (step matches ExtractStep::Failed(error) && error is NoFiles)
        }),
{
    let files = listed_files(base_ref, models_rel@, output_text(listing.stdout@));
    let views = base_file_views(fetch->files@);
    assert(views == files);
    assert(views.len() == fetch->files@.len());
    assert forall|i: int| 0 <= i < files.len() implies (#[trigger] fetch->files@[i])@
        == files[i] by {
        assert(views[i] == fetch->files@[i]@);
    }
    if exists|i: int| 0 <= i < files.len() && #[trigger] written@[i] {
        let i = choose|i: int| 0 <= i < files.len() && #[trigger] written@[i];
        assert(written@.contains(written@[i]));
    }
    if written@.contains(true) {
        let i = choose|i: int| 0 <= i < written@.len() && written@[i] == true;
        assert(written@[i]);
    }
}

/// The whole way to the compiled base, each event being what came of the step
/// before it: with a models directory in the repository, a temporary directory, a
/// listing, one written file and no error of the compiler, the base is what they
/// compile to, and what is listed and fetched goes by that models directory.
pub proof fn law_way_to_the_compiled_base<P>(
    base_ref: Seq<char>,
    models_rel: String,
    make: ExtractStep<P>,
    list: ExtractStep<P>,
    listing: CommandOutput,
    fetch: ExtractStep<P>,
    written: Vec<bool>,
    compile: ExtractStep<P>,
    result: P,
    end: ExtractStep<P>,
)
    requires
        follows(base_ref, ExtractEvent::Located { models_rel: Some(models_rel) }, make),
        follows(
            base_ref,
            ExtractEvent::DirectoryMade {
                models_rel: make->MakeDirectory_models_rel,
                outcome: Ok(()),
            },
            list,
        ),
        listing.success,
        follows(
            base_ref,
            ExtractEvent::Listed {
                models_rel: list->List_models_rel,
                listing: Some(listing),
            },
            fetch,
        ),
        written@.len() == fetch->files@.len(),
        written@.contains(true),
        follows(base_ref, ExtractEvent::Written { written }, compile),
        follows(base_ref, ExtractEvent::Compiled { outcome: Ok(result) }, end),
    ensures
        make is MakeDirectory,
        list is List,
        strings(list->git_args@) == tree_arguments(base_ref, models_rel@),
        fetch is Fetch,
        base_file_views(fetch->files@) == listed_files(
            base_ref,
            models_rel@,
            output_text(listing.stdout@),
        ),
        compile is Compile,
        end == ExtractStep::Done(result),
{
}

proof fn lemma_without_leading_slashes(path: Seq<char>)
    ensures
        without_leading_slashes(path).len() > 0 ==> without_leading_slashes(path)[0] != '/',
    decreases path.len(),
{
    if path.len() > 0 && path[0] == '/' {
        lemma_without_leading_slashes(path.drop_first());
    }
}

/// A fetched file never goes to an absolute path.
pub proof fn law_destinations_are_relative(
    base_ref: Seq<char>,
    models_rel: Seq<char>,
    text: Seq<char>,
    i: int,
)
    requires
        0 <= i < listed_files(base_ref, models_rel, text).len(),
    ensures
        ({
            let destination = listed_files(base_ref, models_rel, text)[i].destination;
            destination.len() > 0 ==> destination[0] != '/'
        }),
{
    let f = |line: Seq<char>| line_file(base_ref, models_rel, line);
    let lines = pieces(text, '\n');
    let files = listed_files(base_ref, models_rel, text);
    assert(files.contains(files[i]));
    lines.lemma_filter_map_contains(f, files[i]);
    let line = choose|line: Seq<char>| #[trigger] lines.contains(line) && f(line) == Some(files[i]);
    lemma_without_leading_slashes(trimmed(line).skip(models_rel.len() as int));
}

/// A file that lies below the models directory is fetched by its full path and
/// goes where it lies below that directory.
pub proof fn law_files_go_where_they_lie(
    base_ref: Seq<char>,
    models_rel: Seq<char>,
    below: Seq<char>,
)
    requires
        below.len() > 0,
        below[0] != '/',
        trimmed(models_rel.push('/') + below) == models_rel.push('/') + below,
    ensures
        line_file(base_ref, models_rel, models_rel.push('/') + below) == Some(
            BaseFileView {
                git_args: show_arguments(base_ref, models_rel.push('/') + below),
                destination: below,
            },
        ),
{
    let path = models_rel.push('/') + below;
    let tail = path.skip(models_rel.len() as int);
    assert(path.subrange(0, models_rel.len() as int) =~= models_rel);
    assert(tail.drop_first() =~= below);
    assert(without_leading_slashes(below) == below);
}

/// The fields of a file to fetch, one by one, and the files of a list.
pub proof fn law_base_files_are_their_fields(file: BaseFile, files: Seq<BaseFile>)
    ensures
        file@.git_args == strings(file.git_args@),
        file@.destination == file.destination@,
        base_file_views(files).len() == files.len(),
        forall|i: int| 0 <= i < files.len() ==> #[trigger] base_file_views(files)[i] == files[i]@,
{
}

/// A message holds the whole of what it speaks of.
pub proof fn law_base_messages_hold_what_they_speak_of(error: BaseCompileError)
    ensures
        ({
            let message = error.message_text();
            match error {
                BaseCompileError::NoModelsPath => message
                    == "could not determine models directory relative to repo root"@,
                BaseCompileError::NoTempDir { error } => message
                    == "failed to create temp dir for base extraction: "@ + error@,
                BaseCompileError::ListingFailed { base_ref } => message
                    == "git ls-tree failed for base ref '"@ + base_ref@
                    + "' — models directory missing at that ref?"@,
                BaseCompileError::NoFiles { base_ref } => message
                    == "no model files found at base ref '"@ + base_ref@ + "'"@,
                BaseCompileError::DidNotCompile { base_ref, error } => message == "base ref '"@
                    + base_ref@ + "' did not compile: "@ + error@,
            }
        }),
{
}

proof fn lemma_leading_slashes(slashes: Seq<char>, rest: Seq<char>)
    requires
        forall|i: int| 0 <= i < slashes.len() ==> #[trigger] slashes[i] == '/',
        rest.len() == 0 || rest[0] != '/',
    ensures
        without_leading_slashes(slashes + rest) == rest,
    decreases slashes.len(),
{
    let path = slashes + rest;
    if slashes.len() == 0 {
        assert(path =~= rest);
    } else {
        let fewer = slashes.drop_first();
        assert(forall|i: int| 0 <= i < fewer.len() ==> #[trigger] fewer[i] == slashes[i + 1]);
        assert(path[0] == slashes[0]);
        assert(path.drop_first() =~= fewer + rest);
        lemma_leading_slashes(fewer, rest);
    }
}

/// What one line of a listing asks for. A line that holds the models path, any
/// slashes and a rest asks for the whole path it names, to go to the rest; a blank
/// line and one that does not begin with the models path ask for nothing.
pub proof fn law_line_names_a_file_below_the_models(
    base_ref: Seq<char>,
    models_rel: Seq<char>,
    line: Seq<char>,
    slashes: Seq<char>,
    rest: Seq<char>,
)
    requires
        forall|i: int| 0 <= i < slashes.len() ==> #[trigger] slashes[i] == '/',
        rest.len() == 0 || rest[0] != '/',
    ensures
        trimmed(line) == models_rel + (slashes + rest) && trimmed(line).len() > 0 ==> line_file(
            base_ref,
            models_rel,
            line,
        ) == Some(
            BaseFileView {
                git_args: seq!["show"@, base_ref.push(':') + trimmed(line)],
                destination: rest,
            },
        ),
        trimmed(line).len() == 0 ==> line_file(base_ref, models_rel, line) is None,
        !models_rel.is_prefix_of(trimmed(line)) ==> line_file(base_ref, models_rel, line) is None,
{
    let path = trimmed(line);
    lemma_leading_slashes(slashes, rest);
    if path == models_rel + (slashes + rest) {
        assert(path.subrange(0, models_rel.len() as int) =~= models_rel);
        assert(path.skip(models_rel.len() as int) =~= slashes + rest);
        law_objects_are_named_whole(base_ref, models_rel, path);
        assert(show_arguments(base_ref, path) =~= seq!["show"@, base_ref.push(':') + path]);
    }
}

/// A listing is read line by line: two texts, one below the other, ask for the files
/// of the first and then those of the second, and one line for what it asks for.
pub proof fn law_listing_of_the_base_is_read_line_by_line(
    base_ref: Seq<char>,
    models_rel: Seq<char>,
    above: Seq<char>,
    below: Seq<char>,
)
    ensures
        listed_files(base_ref, models_rel, above.push('\n') + below) == listed_files(
            base_ref,
            models_rel,
            above,
        ) + listed_files(base_ref, models_rel, below),
        !above.contains('\n') ==> listed_files(base_ref, models_rel, above) == match line_file(
            base_ref,
            models_rel,
            above,
        ) {
            Some(file) => seq![file],
            None => Seq::empty(),
        },
{
    let f = |line: Seq<char>| line_file(base_ref, models_rel, line);
    law_pieces_lie_between_marks(above, '\n', below);
    lemma_filter_map_concat(pieces(above, '\n'), pieces(below, '\n'), f);
    Seq::lemma_filter_map_singleton(above, f);
}

/// The first thing to fail ends the way to the compiled base, with an error that
/// says which it was and holds the whole of what went wrong.
pub proof fn law_first_failure_ends_the_way<P>(
    base_ref: Seq<char>,
    event: ExtractEvent<P>,
    step: ExtractStep<P>,
)
    requires
        follows(base_ref, event, step),
    ensures
        match event {
            ExtractEvent::Located { models_rel } => (step is Failed <==> models_rel is None) && (
            step matches ExtractStep::Failed(error) ==> error is NoModelsPath),
            ExtractEvent::DirectoryMade { outcome, .. } => (step is Failed <==> outcome is Err) && (
            step matches ExtractStep::Failed(error) ==> error is NoTempDir
                && error->NoTempDir_error@ == outcome->Err_0@),
            ExtractEvent::Listed { listing, .. } => (step is Failed <==> listing is None
                || !listing->0.success) && (step matches ExtractStep::Failed(error) ==> error
                is ListingFailed && error->ListingFailed_base_ref@ == base_ref),
            ExtractEvent::Written { written } => (step is Failed <==> forall|i: int|
                0 <= i < written@.len() ==> !#[trigger] written@[i]) && (
            step matches ExtractStep::Failed(error) ==> error is NoFiles && error->NoFiles_base_ref@
                == base_ref),
            ExtractEvent::Compiled { outcome } => (step is Failed <==> outcome is Err) && (
            step matches ExtractStep::Failed(error) ==> error is DidNotCompile
                && error->DidNotCompile_base_ref@ == base_ref && error->DidNotCompile_error@
                == outcome->Err_0@),
        },
{
    match event {
        ExtractEvent::Written { written } => {
            if written@.contains(true) {
                let i = choose|i: int| 0 <= i < written@.len() && written@[i] == true;
                assert(written@[i]);
            } else {
                assert forall|i: int| 0 <= i < written@.len() implies !#[trigger] written@[i] by {
                    assert(written@.contains(written@[i]));
                }
            }
        },
        _ => {},
    }
}

/// What succeeds leads on: a located directory to a temporary one, that to a listing
/// of the whole models path at the whole revision, a listing to fetching what it
/// names, one written file to compiling, and what compiles to the end.
pub proof fn law_success_leads_on<P>(
    base_ref: Seq<char>,
    event: ExtractEvent<P>,
    step: ExtractStep<P>,
)
    requires
        follows(base_ref, event, step),
    ensures
        match event {
            ExtractEvent::Located { models_rel: Some(models_rel) } => step
                matches ExtractStep::MakeDirectory { models_rel: kept } && kept@ == models_rel@,
            ExtractEvent::DirectoryMade { models_rel, outcome: Ok(_) } => step
                matches ExtractStep::List { models_rel: kept, git_args } && kept@ == models_rel@
                && strings(git_args@) == tree_arguments(base_ref, models_rel@),
            ExtractEvent::Listed { models_rel, listing: Some(listing) } => listing.success ==> (step
                matches ExtractStep::Fetch { files } && base_file_views(files@) == listed_files(
                base_ref,
                models_rel@,
                output_text(listing.stdout@),
            )),
            ExtractEvent::Written { written } => (exists|i: int|
                0 <= i < written@.len() && #[trigger] written@[i]) ==> step is Compile,
            ExtractEvent::Compiled { outcome: Ok(result) } => step == ExtractStep::Done(result),
            _ => true,
        },
{
    match event {
        ExtractEvent::Written { written } => {
            if exists|i: int| 0 <= i < written@.len() && #[trigger] written@[i] {
                let i = choose|i: int| 0 <= i < written@.len() && #[trigger] written@[i];
                assert(written@.contains(written@[i]));
            }
        },
        _ => {},
    }
}

} // verus!

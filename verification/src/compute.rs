//! The whole comparison: from the changed files and the two compiled projects to
//! the report.

use vstd::prelude::*;
use vstd::string::*;

use crate::classify::{
    change_views, changed_stem, classified, classify_model_changes, law_old_path_stands_in,
    law_significant_status_wins, stem_at, ModelChange, ModelChangeView,
};
use crate::columns::TypedColumnView;
use crate::compile::{typed_columns, typed_columns_from_compile, CompileResult};
use crate::git::{
    acceptable_base_ref, file_views, git_changed_files, listed_changes, listing_args,
    listing_arguments, option_like, optional_text, refuses, validate_base_ref, ChangedFile,
    ChangedFileView, CiDiffError, CommandOutput, ListingForm, ListingStep,
};
use crate::models::{facts_of, optional_str, stem_of_path, Model, ModelFacts};
use crate::order::in_order;
use crate::results::{
    build_diff_results, described, is_report, law_one_result_for_each_change,
    law_report_holds_every_result_in_order, law_report_is_determined, names_differ, result_views,
    schema_views, summarizes, DiffResult, DiffResultView, DiffSummary, Schemas,
};
use crate::string_map::StringMap;
use crate::text::{output_text, strings};

verus! {

/// The outcome of a comparison.
#[derive(Debug)]
pub struct CiDiffData<R, C, G> {
    pub summary: DiffSummary,
    pub results: Vec<DiffResult>,
    /// HEAD as compiled, where it compiles.
    pub head_compile: Option<CompileResult<R, C, G>>,
    /// The base as compiled, where it could be fetched and compiles.
    pub base_compile: Option<CompileResult<R, C, G>>,
    /// How many files changed, models or not: tells a change that touches no
    /// model from no change at all.
    pub changed_file_count: usize,
}

/// Whether one of the changed files belongs to a model, by its name.
pub open spec fn touches_models(
    files: Seq<ChangedFileView>,
    models_rel: Option<Seq<char>>,
) -> bool {
    exists|i: int|
        0 <= i < files.len() && changed_stem(#[trigger] files[i], models_rel) is Some
}

/// Whether there is anything to compile for: not without a changed file that
/// belongs to a model.
pub fn needs_compile(changed_files: &[ChangedFile], models_rel: Option<&str>) -> (r: bool)
    ensures
        r == touches_models(file_views(changed_files@), optional_str(models_rel)),
{
    let changes = classify_model_changes::<()>(changed_files, models_rel, None, None);
    let ghost files = file_views(changed_files@);
    let ghost root = optional_str(models_rel);
    proof {
        law_touched_models_are_classified(files, root);
        let views = change_views(changes);
        if changes@ == Map::<Seq<char>, ModelChange>::empty() {
            assert(views =~= Map::empty());
        }
        if views == Map::<Seq<char>, ModelChangeView>::empty() {
            assert forall|key: Seq<char>| !changes@.contains_key(key) by {
                assert(!views.contains_key(key));
            }
            assert(changes@ =~= Map::empty());
        }
    }
    !changes.is_empty()
}

/// A changed file belongs to a model exactly if file names alone report one.
pub proof fn law_touched_models_are_classified(
    files: Seq<ChangedFileView>,
    models_rel: Option<Seq<char>>,
)
    ensures
        touches_models(files, models_rel) <==> classified(files, models_rel, None, None)
            != Map::<Seq<char>, ModelChangeView>::empty(),
{
    let changes = classified(files, models_rel, None, None);
    if touches_models(files, models_rel) {
        let i = choose|i: int|
            0 <= i < files.len() && changed_stem(#[trigger] files[i], models_rel) is Some;
        let stem = changed_stem(files[i], models_rel)->0;
        law_significant_status_wins(files, models_rel, stem);
        assert(stem_at(files, models_rel, stem, i));
        assert(changes.contains_key(stem));
        assert(!Map::<Seq<char>, ModelChangeView>::empty().contains_key(stem));
    } else {
        assert forall|stem: Seq<char>| !changes.contains_key(stem) by {
            law_significant_status_wins(files, models_rel, stem);
            if changes.contains_key(stem) {
                let i = choose|i: int| #[trigger] stem_at(files, models_rel, stem, i);
                assert(changed_stem(files[i], models_rel) is Some);
            }
        }
        assert(changes =~= Map::empty());
    }
}

/// The models of an optional compiled project.
pub open spec fn compiled_models<R, C, G>(result: Option<CompileResult<R, C, G>>) -> Option<
    Seq<ModelFacts>,
> {
    match result {
        Some(result) => Some(facts_of(result.models@)),
        None => None,
    }
}

/// The columns of an optional compiled project, by model name.
pub open spec fn compiled_schemas<R, C, G>(result: Option<CompileResult<R, C, G>>) -> Map<
    Seq<char>,
    Seq<TypedColumnView>,
> {
    match result {
        Some(result) => typed_columns(result),
        None => Map::empty(),
    }
}

/// Whether `results` is the report on the changed files, with what is known of
/// HEAD and of the base.
pub open spec fn reports<R, C, G>(
    results: Seq<DiffResultView>,
    files: Seq<ChangedFileView>,
    models_rel: Option<Seq<char>>,
    head: Option<CompileResult<R, C, G>>,
    base: Option<CompileResult<R, C, G>>,
) -> bool {
    let changes = classified(files, models_rel, compiled_models(base), compiled_models(head));
    exists|keys: Seq<Seq<char>>|
        {
            &&& keys.no_duplicates()
            &&& keys.to_set() == changes.dom()
            &&& #[trigger] is_report(
                results,
                keys,
                changes,
                compiled_schemas(head),
                compiled_schemas(base),
            )
        }
}

/// Reads the columns off an optional compiled project.
fn schemas_of<R, C, G>(result: &Option<CompileResult<R, C, G>>) -> (r: Schemas)
    ensures
        schema_views(r) == compiled_schemas(*result),
{
    match result {
        Some(result) => typed_columns_from_compile(result),
        None => {
            let r: Schemas = StringMap::new();
            assert(schema_views(r) =~= Map::empty());
            r
        },
    }
}

/// Whether `data` is the outcome of comparing HEAD with the base. What the two
/// compile to counts only if a changed file belongs to a model.
pub open spec fn compares<R, C, G>(
    data: CiDiffData<R, C, G>,
    files: Seq<ChangedFileView>,
    models_rel: Option<Seq<char>>,
    head: Option<CompileResult<R, C, G>>,
    base: Option<CompileResult<R, C, G>>,
) -> bool {
    &&& data.changed_file_count == files.len()
    &&& summarizes(data.summary, result_views(data.results@))
    &&& if touches_models(files, models_rel) {
        &&& data.head_compile == head
        &&& data.base_compile == base
        &&& reports(result_views(data.results@), files, models_rel, head, base)
    } else {
        &&& data.head_compile is None
        &&& data.base_compile is None
        &&& data.results@.len() == 0
    }
}

/// Compares HEAD with the base.
///
/// `head` and `base` are what the two revisions compile to, where they do; they
/// count only if a changed file belongs to a model.
pub fn compute_ci_diff<R, C, G>(
    changed_files: &[ChangedFile],
    models_rel: Option<&str>,
    head: Option<CompileResult<R, C, G>>,
    base: Option<CompileResult<R, C, G>>,
) -> (r: CiDiffData<R, C, G>)
    ensures
        compares(r, file_views(changed_files@), optional_str(models_rel), head, base),
{
    let changed_file_count: usize = changed_files.len();
    if !needs_compile(changed_files, models_rel) {
        let results: Vec<DiffResult> = Vec::new();
        assert(result_views(results@) =~= Seq::empty());
        return CiDiffData {
            summary: DiffSummary::empty(),
            results,
            head_compile: None,
            base_compile: None,
            changed_file_count,
        };
    }
    let head_schemas = schemas_of(&head);
    let base_schemas = schemas_of(&base);
    let base_models: Option<&[Model<R>]> = match &base {
        Some(result) => Some(result.models.as_slice()),
        None => None,
    };
    let head_models: Option<&[Model<R>]> = match &head {
        Some(result) => Some(result.models.as_slice()),
        None => None,
    };
    let model_changes = classify_model_changes(changed_files, models_rel, base_models, head_models);
    let results = build_diff_results(&model_changes, &head_schemas, &base_schemas);
    let summary = DiffSummary::from_results(results.as_slice());
    CiDiffData { summary, results, head_compile: head, base_compile: base, changed_file_count }
}

/// What happened last in a comparison.
#[derive(Debug)]
pub enum CompareEvent<R, C, G> {
    /// A comparison was asked for.
    Started,
    /// A form of `git diff` was run, or could not be.
    Listed { form: ListingForm, outcome: Result<CommandOutput, String> },
    /// The models directory was looked for: below the root of the repository, and
    /// on disk.
    Located { changed_files: Vec<ChangedFile>, models_rel: Option<String>, is_dir: bool },
    /// HEAD and the base were compiled, each with or without success.
    Compiled {
        changed_files: Vec<ChangedFile>,
        models_rel: Option<String>,
        head: Result<CompileResult<R, C, G>, String>,
        base: Result<CompileResult<R, C, G>, String>,
    },
}

/// What to do next in a comparison.
#[derive(Debug)]
pub enum CompareStep<R, C, G> {
    /// Run git to list the changed files.
    List { form: ListingForm, git_args: Vec<String> },
    /// Look for the models directory.
    Locate { changed_files: Vec<ChangedFile> },
    /// Compile HEAD and the base.
    Compile { changed_files: Vec<ChangedFile>, models_rel: Option<String> },
    /// The outcome is known.
    Done(CiDiffData<R, C, G>),
    /// There is no outcome.
    Failed(CiDiffError),
}

/// A compiled project, where compiling succeeded.
pub open spec fn compiled<P>(outcome: Result<P, String>) -> Option<P> {
    match outcome {
        Ok(result) => Some(result),
        Err(_) => None,
    }
}

/// Whether `step` runs a form of `git diff` on the base revision.
pub open spec fn lists<R, C, G>(
    step: CompareStep<R, C, G>,
    form: ListingForm,
    base_ref: Seq<char>,
) -> bool {
    step matches CompareStep::List { form: chosen, git_args } && chosen == form && strings(
        git_args@,
    ) == listing_arguments(form, base_ref)
}

/// Whether `step` is what an event asks for.
pub open spec fn leads_to<R, C, G>(
    base_ref: Seq<char>,
    event: CompareEvent<R, C, G>,
    step: CompareStep<R, C, G>,
) -> bool {
    match event {
        CompareEvent::Started => if acceptable_base_ref(base_ref) {
            lists(step, ListingForm::ThreeDot, base_ref)
        } else {
            step matches CompareStep::Failed(error) && refuses(base_ref, error)
        },
        CompareEvent::Listed { form, outcome } => match outcome {
            Ok(output) => if output.success {
                let files = listed_changes(output_text(output.stdout@));
                if files.len() == 0 {
                    step matches CompareStep::Done(data) && compares(data, files, None, None, None)
                } else {
                    step matches CompareStep::Locate { changed_files } && file_views(changed_files@)
                        == files
                }
            } else if form is ThreeDot {
                lists(step, ListingForm::TwoDot, base_ref)
            } else {
                step matches CompareStep::Failed(error) && error is GitDiffFailed
                    && error->GitDiffFailed_stderr@ == output_text(output.stderr@)
            },
            Err(text) => step matches CompareStep::Failed(error) && error is GitNotRun
                && error->GitNotRun_form == form && error->GitNotRun_error@ == text@,
        },
        CompareEvent::Located { changed_files, models_rel, is_dir } => {
            let files = file_views(changed_files@);
            let root = optional_text(models_rel);
            if touches_models(files, root) && is_dir {
                step matches CompareStep::Compile { changed_files: same, models_rel: below }
                    && file_views(same@) == files && optional_text(below) == root
            } else {
                step matches CompareStep::Done(data) && compares(data, files, root, None, None)
            }
        },
        CompareEvent::Compiled { changed_files, models_rel, head, base } => {
            step matches CompareStep::Done(data) && compares(
                data,
                file_views(changed_files@),
                optional_text(models_rel),
                compiled(head),
                compiled(base),
            )
        },
    }
}

/// Reads an optional string.
fn borrowed(s: &Option<String>) -> (r: Option<&str>)
    ensures
        optional_str(r) == optional_text(*s),
{
    match s {
        Some(text) => Some(text.as_str()),
        None => None,
    }
}

/// A compiled project, where compiling succeeded.
fn succeeded<P>(outcome: Result<P, String>) -> (r: Option<P>)
    ensures
        r == compiled(outcome),
{
    match outcome {
        Ok(result) => Some(result),
        Err(_) => None,
    }
}

/// Decides what comes next in a comparison.
///
/// The base revision is checked before git sees it, the changed files are listed,
/// the models directory is looked for, and both revisions are compiled if a
/// changed file belongs to a model. A revision that does not compile is done
/// without.
pub fn compare_step<R, C, G>(base_ref: &str, event: CompareEvent<R, C, G>) -> (r: CompareStep<
    R,
    C,
    G,
>)
    ensures
        leads_to(base_ref@, event, r),
{
    match event {
        CompareEvent::Started => match validate_base_ref(base_ref) {
            Ok(_) => {
                let form = ListingForm::ThreeDot;
                CompareStep::List { form, git_args: listing_args(form, base_ref) }
            },
            Err(error) => CompareStep::Failed(error),
        },
        CompareEvent::Listed { form, outcome: Ok(output) } => match git_changed_files(
            form,
            &output,
        ) {
            ListingStep::Listed(changed_files) => {
                assert(file_views(changed_files@).len() == changed_files@.len());
                if changed_files.len() == 0 {
                    CompareStep::Done(compute_ci_diff(changed_files.as_slice(), None, None, None))
                } else {
                    CompareStep::Locate { changed_files }
                }
            },
            ListingStep::Retry(form) => CompareStep::List {
                form,
                git_args: listing_args(form, base_ref),
            },
            ListingStep::Failed(error) => CompareStep::Failed(error),
        },
        CompareEvent::Listed { form, outcome: Err(error) } => CompareStep::Failed(
            CiDiffError::GitNotRun { form, error },
        ),
        CompareEvent::Located { changed_files, models_rel, is_dir } => {
            if needs_compile(changed_files.as_slice(), borrowed(&models_rel)) && is_dir {
                CompareStep::Compile { changed_files, models_rel }
            } else {
                CompareStep::Done(
                    compute_ci_diff(changed_files.as_slice(), borrowed(&models_rel), None, None),
                )
            }
        },
        CompareEvent::Compiled { changed_files, models_rel, head, base } => CompareStep::Done(
            compute_ci_diff(
                changed_files.as_slice(),
                borrowed(&models_rel),
                succeeded(head),
                succeeded(base),
            ),
        ),
    }
}

/// A refused base revision ends a comparison at once: nothing is asked of git.
pub proof fn law_refused_base_ref_ends_the_comparison<R, C, G>(
    base_ref: Seq<char>,
    step: CompareStep<R, C, G>,
)
    requires
        leads_to(base_ref, CompareEvent::Started, step),
    ensures
        step is Failed <==> !acceptable_base_ref(base_ref),
        step is List <==> acceptable_base_ref(base_ref),
{
}

/// Once the base revision is accepted, no listing that a comparison asks git for
/// has it begin like an option, whatever happened before.
pub proof fn law_comparison_hands_git_no_option<R, C, G>(
    base_ref: Seq<char>,
    event: CompareEvent<R, C, G>,
    step: CompareStep<R, C, G>,
)
    requires
        acceptable_base_ref(base_ref),
        leads_to(base_ref, event, step),
        step is List,
    ensures
        !option_like(step->git_args@[2]@),
{
    let arguments = strings(step->git_args@);
    assert(arguments == listing_arguments(step->form, base_ref));
    assert(arguments.len() == step->git_args@.len());
    assert(arguments.len() > 2);
    assert(arguments[2] == step->git_args@[2]@);
}

/// Once the changed files are listed, a comparison does not fail: whatever does
/// not compile is done without.
pub proof fn law_listed_changes_lead_to_an_outcome<R, C, G>(
    base_ref: Seq<char>,
    event: CompareEvent<R, C, G>,
    step: CompareStep<R, C, G>,
)
    requires
        leads_to(base_ref, event, step),
        event is Located || event is Compiled,
    ensures
        !(step is Failed),
        event is Compiled ==> step is Done,
{
}

/// The whole of a comparison, each event being what came of the step before it:
/// once the changed files are listed and lead to compiling, the outcome compares
/// the listed changes with what HEAD and the base compile to, where they do.
pub proof fn law_comparison_comes_to_its_outcome<R, C, G>(
    base_ref: Seq<char>,
    form: ListingForm,
    listing: CommandOutput,
    locate: CompareStep<R, C, G>,
    models_rel: Option<String>,
    is_dir: bool,
    compile: CompareStep<R, C, G>,
    head: Result<CompileResult<R, C, G>, String>,
    base: Result<CompileResult<R, C, G>, String>,
    end: CompareStep<R, C, G>,
)
    requires
        listing.success,
        leads_to(base_ref, CompareEvent::Listed { form, outcome: Ok(listing) }, locate),
        locate is Locate,
        leads_to(
            base_ref,
            CompareEvent::Located {
                changed_files: locate->Locate_changed_files,
                models_rel,
                is_dir,
            },
            compile,
        ),
        compile is Compile,
        leads_to(
            base_ref,
            CompareEvent::Compiled {
                changed_files: compile->Compile_changed_files,
                models_rel: compile->Compile_models_rel,
                head,
                base,
            },
            end,
        ),
    ensures
        end matches CompareStep::Done(data) && compares(
            data,
            listed_changes(output_text(listing.stdout@)),
            optional_text(models_rel),
            compiled(head),
            compiled(base),
        ),
{
}

/// Once the changed files are listed, both revisions are compiled exactly if one of
/// the listed files belongs to a model and the models directory is there; else the
/// outcome compares the listed changes with nothing compiled.
pub proof fn law_models_decide_on_compiling<R, C, G>(
    base_ref: Seq<char>,
    form: ListingForm,
    listing: CommandOutput,
    locate: CompareStep<R, C, G>,
    models_rel: Option<String>,
    is_dir: bool,
    step: CompareStep<R, C, G>,
)
    requires
        listing.success,
        leads_to(base_ref, CompareEvent::Listed { form, outcome: Ok(listing) }, locate),
        locate is Locate,
        leads_to(
            base_ref,
            CompareEvent::Located {
                changed_files: locate->Locate_changed_files,
                models_rel,
                is_dir,
            },
            step,
        ),
    ensures
        ({
            let files = listed_changes(output_text(listing.stdout@));
            let root = optional_text(models_rel);
            &&& step is Compile <==> touches_models(files, root) && is_dir
            &&& !(step is Compile) ==> (step matches CompareStep::Done(data) && compares(
                data,
                files,
                root,
                None,
                None,
            ))
        }),
{
}

/// The same changes and the same compiled projects always give the same report,
/// as long as no two changed models have one name.
pub proof fn law_comparison_is_determined<R, C, G>(
    first: Seq<DiffResultView>,
    second: Seq<DiffResultView>,
    files: Seq<ChangedFileView>,
    models_rel: Option<Seq<char>>,
    head: Option<CompileResult<R, C, G>>,
    base: Option<CompileResult<R, C, G>>,
)
    requires
        reports(first, files, models_rel, head, base),
        reports(second, files, models_rel, head, base),
        names_differ(
            classified(files, models_rel, compiled_models(base), compiled_models(head)),
        ),
    ensures
        first == second,
{
    let changes = classified(files, models_rel, compiled_models(base), compiled_models(head));
    let after = compiled_schemas(head);
    let before = compiled_schemas(base);
    let x = choose|keys: Seq<Seq<char>>|
        {
            &&& keys.no_duplicates()
            &&& keys.to_set() == changes.dom()
            &&& #[trigger] is_report(first, keys, changes, after, before)
        };
    let y = choose|keys: Seq<Seq<char>>|
        {
            &&& keys.no_duplicates()
            &&& keys.to_set() == changes.dom()
            &&& #[trigger] is_report(second, keys, changes, after, before)
        };
    law_report_is_determined(first, x, second, y, changes, after, before);
}

/// A compiled project stands for its own models and for its own columns, and one that
/// does not compile for none.
pub proof fn law_compiled_projects_stand_for_themselves<R, C, G>(
    result: CompileResult<R, C, G>,
    text: String,
)
    ensures
        compiled_models(Some(result)) == Some(facts_of(result.models@)),
        compiled_models::<R, C, G>(None) is None,
        compiled_schemas(Some(result)) == typed_columns(result),
        compiled_schemas::<R, C, G>(None) == Map::<Seq<char>, Seq<TypedColumnView>>::empty(),
        compiled(Ok::<CompileResult<R, C, G>, String>(result)) == Some(result),
        compiled(Err::<CompileResult<R, C, G>, String>(text)) is None,
{
}

/// What a comparison comes to. It counts every changed file. Where none of them has a
/// stem, neither at its path nor at its old path, it holds nothing else; otherwise it
/// keeps both compiled projects and has one result for each changed model, made from
/// HEAD's columns and the base's, in the order of the names, and a summary of them.
pub proof fn law_what_a_comparison_comes_to<R, C, G>(
    data: CiDiffData<R, C, G>,
    files: Seq<ChangedFileView>,
    models_rel: Option<Seq<char>>,
    head: Option<CompileResult<R, C, G>>,
    base: Option<CompileResult<R, C, G>>,
)
    requires
        compares(data, files, models_rel, head, base),
    ensures
        ({
            let results = result_views(data.results@);
            let touched = exists|i: int|
                0 <= i < files.len() && (stem_of_path((#[trigger] files[i]).path, models_rel)
                    is Some || (files[i].old_path matches Some(old_path) && stem_of_path(
                    old_path,
                    models_rel,
                ) is Some));
            let changes = classified(
                files,
                models_rel,
                compiled_models(base),
                compiled_models(head),
            );
            &&& data.changed_file_count == files.len()
            &&& summarizes(data.summary, results)
            &&& !touched ==> results.len() == 0 && data.head_compile is None
                && data.base_compile is None
            &&& touched ==> {
                &&& data.head_compile == head
                &&& data.base_compile == base
                &&& results.len() == changes.dom().len()
                &&& forall|result: DiffResultView|
                    results.contains(result) <==> exists|key: Seq<char>| #[trigger]
                        changes.contains_key(key) && described(
                            changes[key],
                            compiled_schemas(head),
                            compiled_schemas(base),
                        ) == result
                &&& forall|i: int, j: int|
                    0 <= i < j < results.len() ==> in_order(
                        (#[trigger] results[i]).model_name,
                        (#[trigger] results[j]).model_name,
                    )
            }
        }),
{
    let results = result_views(data.results@);
    let changes = classified(files, models_rel, compiled_models(base), compiled_models(head));
    if touches_models(files, models_rel) {
        let i = choose|i: int|
            0 <= i < files.len() && changed_stem(#[trigger] files[i], models_rel) is Some;
        law_old_path_stands_in(files[i], models_rel);
        assert(stem_of_path(files[i].path, models_rel) is Some || files[i].old_path is Some);
        let after = compiled_schemas(head);
        let before = compiled_schemas(base);
        let keys = choose|keys: Seq<Seq<char>>|
            {
                &&& keys.no_duplicates()
                &&& keys.to_set() == changes.dom()
                &&& #[trigger] is_report(results, keys, changes, after, before)
            };
        law_one_result_for_each_change(results, keys, changes, after, before);
        law_report_holds_every_result_in_order(results, keys, changes, after, before);
    } else {
        assert(results.len() == data.results@.len());
        assert forall|i: int| 0 <= i < files.len() implies stem_of_path(
            (#[trigger] files[i]).path,
            models_rel,
        ) is None && (files[i].old_path is Some ==> stem_of_path(
            files[i].old_path->0,
            models_rel,
        ) is None) by {
            assert(changed_stem(files[i], models_rel) is None);
            law_old_path_stands_in(files[i], models_rel);
        }
    }
}

/// How the changed files are listed. It begins with the range of an accepted
/// revision; where that fails, the two revisions by themselves are tried; where these
/// fail too, that is the end, with all that git said; and so it is where git cannot be
/// run, with the form and why. A listing without a change ends the comparison, any
/// other goes on with just the changes it lists.
pub proof fn law_how_the_changes_are_listed<R, C, G>(
    base_ref: Seq<char>,
    event: CompareEvent<R, C, G>,
    step: CompareStep<R, C, G>,
)
    requires
        leads_to(base_ref, event, step),
    ensures
        match event {
            CompareEvent::Started => base_ref.len() > 0 && base_ref[0] != '-' ==> (
            step matches CompareStep::List { form, git_args } && form is ThreeDot && strings(
                git_args@,
            ) == listing_arguments(ListingForm::ThreeDot, base_ref)),
            CompareEvent::Listed { form, outcome: Err(text) } => step matches CompareStep::Failed(
                error,
            ) && error is GitNotRun && error->GitNotRun_form == form && error->GitNotRun_error@
                == text@,
            CompareEvent::Listed { form, outcome: Ok(output) } => {
                let files = listed_changes(output_text(output.stdout@));
                &&& !output.success && form is ThreeDot ==> (step matches CompareStep::List {
                    form: next,
                    git_args,
                } && next is TwoDot && strings(git_args@) == listing_arguments(
                    ListingForm::TwoDot,
                    base_ref,
                ))
                &&& !output.success && form is TwoDot ==> (step matches CompareStep::Failed(error)
                    && error is GitDiffFailed && error->GitDiffFailed_stderr@ == output_text(
                    output.stderr@,
                ))
                &&& output.success && files.len() == 0 ==> (step matches CompareStep::Done(data)
                    && data.changed_file_count == 0 && data.results@.len() == 0
                    && data.summary.total_models == 0 && data.head_compile is None
                    && data.base_compile is None)
                &&& output.success && files.len() > 0 ==> (step matches CompareStep::Locate {
                    changed_files,
                } && file_views(changed_files@) == files)
            },
            _ => true,
        },
{
    match event {
        CompareEvent::Listed { form, outcome: Ok(output) } => {
            match step {
                CompareStep::Done(data) => {
                    assert(result_views(data.results@).len() == data.results@.len());
                },
                _ => {},
            }
        },
        _ => {},
    }
}

} // verus!

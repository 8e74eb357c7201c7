//! Models, and which of them a changed path belongs to.

use vstd::prelude::*;
use vstd::string::*;

use crate::paths::{
    file_name, find_file_name, law_components_come_piece_by_piece, law_name_alone,
    law_name_below_directory, law_stem_and_extension,
    name_extension, name_stem, parts_below, parts_of, path_parts, split_name, strip_base, PartView,
};
use crate::text::{
    chars_of, ends_with, lemma_first_mark_parts, lemma_last_position_is_a_mark, same_text, text_of,
};

verus! {

/// Where a model's rows go.
#[derive(Debug, Clone)]
pub struct TargetConfig {
    pub catalog: String,
    pub schema: String,
    pub table: String,
}

/// A model's resolved configuration.
#[derive(Debug, Clone)]
pub struct ModelConfig {
    pub name: String,
    pub target: TargetConfig,
}

/// A model of a compiled project.
#[derive(Debug, Clone)]
pub struct Model<R> {
    pub config: ModelConfig,
    /// Path of the file that holds the model's query, with `/` between its
    /// components.
    pub file_path: String,
    /// Everything else that the compiler keeps of the model. It is handed on, not
    /// read.
    pub rest: R,
}

/// What tells a model apart: all of a [`Model`] but the part that is only handed
/// on.
#[verifier::ext_equal]
pub struct ModelFacts {
    pub name: Seq<char>,
    pub catalog: Seq<char>,
    pub schema: Seq<char>,
    pub table: Seq<char>,
    pub file_path: Seq<char>,
}

impl<R> Model<R> {
    /// What tells the model apart.
    pub open spec fn facts(self) -> ModelFacts {
        ModelFacts {
            name: self.config.name@,
            catalog: self.config.target.catalog@,
            schema: self.config.target.schema@,
            table: self.config.target.table@,
            file_path: self.file_path@,
        }
    }
}

/// What tells the models of a list apart.
pub open spec fn facts_of<R>(models: Seq<Model<R>>) -> Seq<ModelFacts> {
    Seq::new(models.len(), |i: int| models[i].facts())
}

/// The name by which a model's target is known outside: `catalog.schema.table`.
pub open spec fn target_name(model: ModelFacts) -> Seq<char> {
    model.catalog + "."@ + model.schema + "."@ + model.table
}

/// The name by which a model's target is known outside.
pub fn target_key<R>(model: &Model<R>) -> (r: String)
    ensures
        r@ == target_name(model.facts()),
{
    let target = &model.config.target;
    let mut r = target.catalog.as_str().to_owned();
    r.append(".");
    r.append(target.schema.as_str());
    r.append(".");
    r.append(target.table.as_str());
    r
}

/// Stems that stand for configuration, not for a model.
pub open spec fn reserved_stem(stem: Seq<char>) -> bool {
    stem == "_defaults"@ || stem == "rocky"@ || stem == "Cargo"@
}

/// The stem of a file name, before reserved stems are taken out: a contract
/// sidecar is named `<stem>.contract.toml`, any other model file `<stem>.sql`,
/// `<stem>.rocky` or `<stem>.toml`.
pub open spec fn file_stem(name: Seq<char>) -> Option<Seq<char>> {
    if ".contract.toml"@.is_suffix_of(name) {
        Some(name.take(name.len() - ".contract.toml"@.len()))
    } else if name_extension(name) == Some("sql"@) || name_extension(name) == Some("rocky"@)
        || name_extension(name) == Some("toml"@) {
        Some(name_stem(name))
    } else {
        None
    }
}

/// The model that a file name belongs to.
pub open spec fn stem_of_name(name: Seq<char>) -> Option<Seq<char>> {
    match file_stem(name) {
        Some(stem) => if stem.len() > 0 && !reserved_stem(stem) {
            Some(stem)
        } else {
            None
        },
        None => None,
    }
}

/// The components of `path` that count: those below the models root, where one
/// is known.
pub open spec fn relevant_parts(path: Seq<char>, models_rel: Option<Seq<char>>) -> Option<
    Seq<PartView>,
> {
    match models_rel {
        Some(root) => parts_below(path, root),
        None => Some(path_parts(path)),
    }
}

/// The stem of the model that a changed path belongs to. Models lie directly in
/// the models root, so a path further down belongs to none.
pub open spec fn stem_of_path(path: Seq<char>, models_rel: Option<Seq<char>>) -> Option<Seq<char>> {
    match relevant_parts(path, models_rel) {
        Some(parts) => if models_rel is Some && parts.len() != 1 {
            None
        } else {
            match file_name(parts) {
                Some(name) => stem_of_name(name),
                None => None,
            }
        },
        None => None,
    }
}

/// The contents of an optional text.
pub open spec fn optional_str(s: Option<&str>) -> Option<Seq<char>> {
    match s {
        Some(text) => Some(text@),
        None => None,
    }
}

/// Finds the model that a file name belongs to.
fn find_stem(name: &Vec<char>) -> (r: Option<String>)
    ensures
        match r {
            Some(stem) => stem_of_name(name@) == Some(stem@),
            None => stem_of_name(name@) is None,
        },
{
    let contract = chars_of(".contract.toml");
    let stem = if ends_with(name, &contract) {
        let length: usize = name.len() - contract.len();
        assert(name@.subrange(0, length as int) =~= name@.take(length as int));
        text_of(name, 0, length)
    } else {
        let (stem, extension) = split_name(name);
        match extension {
            Some(extension) => {
                if same_text(extension.as_str(), "sql") || same_text(extension.as_str(), "rocky")
                    || same_text(extension.as_str(), "toml") {
                    stem
                } else {
                    return None;
                }
            },
            None => {
                return None;
            },
        }
    };
    let text = stem.as_str();
    if text.is_empty() || same_text(text, "_defaults") || same_text(text, "rocky") || same_text(
        text,
        "Cargo",
    ) {
        None
    } else {
        Some(stem)
    }
}

/// The model stem of a changed path below the models root.
///
/// Models are loaded from one directory, so nested files such as
/// `groups/*.toml` are no model sidecars. Contract sidecars are named
/// `<stem>.contract.toml`.
pub fn model_stem(path: &str, models_rel: Option<&str>) -> (r: Option<String>)
    ensures
        match r {
            Some(stem) => stem_of_path(path@, optional_str(models_rel)) == Some(stem@),
            None => stem_of_path(path@, optional_str(models_rel)) is None,
        },
{
    let parts = match models_rel {
        Some(root) => match strip_base(path, root) {
            Some(parts) => {
                if parts.len() != 1 {
                    return None;
                }
                parts
            },
            None => {
                return None;
            },
        },
        None => parts_of(path),
    };
    match find_file_name(&parts) {
        Some(name) => find_stem(name),
        None => None,
    }
}

/// The file name at the end of a path.
pub open spec fn path_file_name(path: Seq<char>) -> Option<Seq<char>> {
    file_name(path_parts(path))
}

/// The extension of the file at the end of a path.
pub open spec fn path_extension(path: Seq<char>) -> Option<Seq<char>> {
    match path_file_name(path) {
        Some(name) => name_extension(name),
        None => None,
    }
}

/// Whether a changed path belongs to a model: its stem is that of the model's
/// file, and a query file has the model's own extension.
pub open spec fn path_belongs_to(
    model: ModelFacts,
    path: Seq<char>,
    models_rel: Option<Seq<char>>,
) -> bool {
    match stem_of_path(path, models_rel) {
        Some(stem) => match path_file_name(model.file_path) {
            Some(source) => {
                &&& name_stem(source) == stem
                &&& path_extension(path) == Some("toml"@) || (path_extension(path) == Some("sql"@)
                    || path_extension(path) == Some("rocky"@)) && name_extension(source)
                    == path_extension(path)
            },
            None => false,
        },
        None => false,
    }
}

/// The stem and the extension of the file at the end of a path.
fn split_file_name(path: &str) -> (r: Option<(String, Option<String>)>)
    ensures
        match r {
            Some((stem, extension)) => {
                &&& path_file_name(path@) is Some
                &&& name_stem(path_file_name(path@)->0) == stem@
                &&& match extension {
                    Some(extension) => path_extension(path@) == Some(extension@),
                    None => path_extension(path@) is None,
                }
            },
            None => path_file_name(path@) is None,
        },
{
    let parts = parts_of(path);
    match find_file_name(&parts) {
        Some(name) => Some(split_name(name)),
        None => None,
    }
}

/// Whether a changed path belongs to a model.
pub fn model_matches_path<R>(model: &Model<R>, path: &str, models_rel: Option<&str>) -> (r: bool)
    ensures
        r == path_belongs_to(model.facts(), path@, optional_str(models_rel)),
{
    let stem = match model_stem(path, models_rel) {
        Some(stem) => stem,
        None => {
            return false;
        },
    };
    let (source_stem, source_extension) = match split_file_name(model.file_path.as_str()) {
        Some(split) => split,
        None => {
            return false;
        },
    };
    if !same_text(source_stem.as_str(), stem.as_str()) {
        return false;
    }
    match split_file_name(path) {
        Some((_, Some(extension))) => {
            let extension = extension.as_str();
            if same_text(extension, "toml") {
                true
            } else if same_text(extension, "sql") || same_text(extension, "rocky") {
                match source_extension {
                    Some(source_extension) => same_text(source_extension.as_str(), extension),
                    None => false,
                }
            } else {
                false
            }
        },
        _ => false,
    }
}

/// No path belongs to a model without a name, nor to one with a reserved name.
pub proof fn law_stems_name_models(path: Seq<char>, models_rel: Option<Seq<char>>)
    ensures
        stem_of_path(path, models_rel) matches Some(stem) ==> stem.len() > 0 && !reserved_stem(
            stem,
        ),
{
}

/// Where the models root is known, a path belongs to a model only if it lies
/// directly in that root.
pub proof fn law_models_lie_directly_in_the_root(path: Seq<char>, root: Seq<char>)
    requires
        path_parts(path).len() != path_parts(root).len() + 1,
    ensures
        stem_of_path(path, Some(root)) is None,
{
}

/// Whether `stem` can be the stem of a model's files.
pub open spec fn plain_stem(stem: Seq<char>) -> bool {
    stem.len() > 0 && !stem.contains('/') && !reserved_stem(stem)
}

/// The path of a file of a model in the models root. The root can be the
/// repository itself.
pub open spec fn model_file(root: Seq<char>, stem: Seq<char>, ending: Seq<char>) -> Seq<char> {
    if root.len() == 0 {
        stem + ending
    } else {
        root.push('/') + (stem + ending)
    }
}

proof fn lemma_model_file(root: Seq<char>, stem: Seq<char>, ending: Seq<char>)
    requires
        plain_stem(stem),
        !ending.contains('/'),
        ending.len() > 1,
    ensures
        relevant_parts(model_file(root, stem, ending), Some(root)) == Some(
            seq![PartView::Name(stem + ending)],
        ),
        stem_of_path(model_file(root, stem, ending), Some(root)) == stem_of_name(stem + ending),
        stem_of_path(model_file(root, stem, ending), None) == stem_of_name(stem + ending),
        path_file_name(model_file(root, stem, ending)) == Some(stem + ending),
{
    reveal_strlit(".");
    reveal_strlit("..");
    let name = stem + ending;
    assert(!name.contains('/')) by {
        if name.contains('/') {
            let i = choose|i: int| 0 <= i < name.len() && name[i] == '/';
            if i < stem.len() {
                assert(stem[i] == '/');
            } else {
                assert(ending[i - stem.len()] == '/');
            }
        }
    }
    if root.len() == 0 {
        law_name_alone(name);
    } else {
        law_name_below_directory(root, name);
    }
    let front = path_parts(root);
    let all = path_parts(model_file(root, stem, ending));
    assert(all.subrange(0, front.len() as int) =~= front);
    assert(all.skip(front.len() as int) =~= seq![PartView::Name(name)]);
}

proof fn lemma_model_file_names(stem: Seq<char>)
    requires
        stem.len() > 0,
        !reserved_stem(stem),
    ensures
        stem_of_name(stem + ".sql"@) == Some(stem),
        stem_of_name(stem + ".rocky"@) == Some(stem),
        stem_of_name(stem + ".contract.toml"@) == Some(stem),
        !".contract"@.is_suffix_of(stem) ==> stem_of_name(stem + ".toml"@) == Some(stem),
{
    reveal_strlit(".sql");
    reveal_strlit("sql");
    reveal_strlit(".rocky");
    reveal_strlit("rocky");
    reveal_strlit(".toml");
    reveal_strlit("toml");
    reveal_strlit(".contract");
    reveal_strlit(".contract.toml");
    law_stem_and_extension(stem, "sql"@);
    law_stem_and_extension(stem, "rocky"@);
    law_stem_and_extension(stem, "toml"@);
    assert(stem.push('.') + "sql"@ =~= stem + ".sql"@);
    assert(stem.push('.') + "rocky"@ =~= stem + ".rocky"@);
    assert(stem.push('.') + "toml"@ =~= stem + ".toml"@);
    assert(!".contract.toml"@.is_suffix_of(stem + ".sql"@)) by {
        let name = stem + ".sql"@;
        if ".contract.toml"@.is_suffix_of(name) {
            assert(name.last() == 'l');
            assert(name[name.len() - 2] == 'q');
            assert(name.subrange(name.len() - 14, name.len() as int)[12] == 'm');
        }
    }
    assert(!".contract.toml"@.is_suffix_of(stem + ".rocky"@)) by {
        let name = stem + ".rocky"@;
        if ".contract.toml"@.is_suffix_of(name) {
            assert(name.last() == 'y');
            assert(name.subrange(name.len() - 14, name.len() as int)[13] == 'l');
        }
    }
    let contract = stem + ".contract.toml"@;
    assert(contract.subrange(stem.len() as int, contract.len() as int) =~= ".contract.toml"@);
    assert(contract.take(contract.len() - 14) =~= stem);
    if !".contract"@.is_suffix_of(stem) {
        let name = stem + ".toml"@;
        assert(!".contract.toml"@.is_suffix_of(name)) by {
            if ".contract.toml"@.is_suffix_of(name) {
                let tail = name.subrange(name.len() - 14, name.len() as int);
                assert(tail == ".contract.toml"@);
                assert(stem.len() >= 9);
                assert forall|i: int| 0 <= i < 9 implies stem[stem.len() - 9 + i]
                    == ".contract"@[i] by {
                    assert(tail[i] == stem[stem.len() - 9 + i]);
                    assert(tail[i] == ".contract.toml"@[i]);
                }
                assert(stem.subrange(stem.len() - 9, stem.len() as int) =~= ".contract"@);
            }
        }
    }
}

/// The files of a model in the models root all lead to its stem, whether that
/// root is known or not: the query in either dialect and the contract sidecar
/// always, the plain sidecar unless the stem itself ends in `.contract`.
pub proof fn law_model_files_share_a_stem(
    root: Seq<char>,
    stem: Seq<char>,
    models_rel: Option<Seq<char>>,
)
    requires
        plain_stem(stem),
        models_rel == Some(root) || models_rel is None,
    ensures
        stem_of_path(model_file(root, stem, ".sql"@), models_rel) == Some(stem),
        stem_of_path(model_file(root, stem, ".rocky"@), models_rel) == Some(stem),
        stem_of_path(model_file(root, stem, ".contract.toml"@), models_rel) == Some(stem),
        !".contract"@.is_suffix_of(stem) ==> stem_of_path(
            model_file(root, stem, ".toml"@),
            models_rel,
        ) == Some(stem),
{
    lemma_model_file_names(stem);
    assert(!".sql"@.contains('/') && !".rocky"@.contains('/') && !".toml"@.contains('/')
        && !".contract.toml"@.contains('/') && ".sql"@.len() == 4 && ".rocky"@.len() == 6
        && ".toml"@.len() == 5 && ".contract.toml"@.len() == 14) by {
        reveal_strlit(".sql");
        reveal_strlit(".rocky");
        reveal_strlit(".toml");
        reveal_strlit(".contract.toml");
    }
    lemma_model_file(root, stem, ".sql"@);
    lemma_model_file(root, stem, ".rocky"@);
    lemma_model_file(root, stem, ".toml"@);
    lemma_model_file(root, stem, ".contract.toml"@);
}

/// A query file belongs only to models that are written in its own dialect.
pub proof fn law_query_files_keep_to_their_dialect(
    model: ModelFacts,
    path: Seq<char>,
    models_rel: Option<Seq<char>>,
)
    requires
        path_belongs_to(model, path, models_rel),
        path_extension(path) == Some("sql"@) || path_extension(path) == Some("rocky"@),
    ensures
        path_extension(model.file_path) == path_extension(path),
{
    reveal_strlit("sql");
    reveal_strlit("rocky");
    reveal_strlit("toml");
    assert("toml"@[0] != "sql"@[0]);
    assert("toml"@[0] != "rocky"@[0]);
}

/// The facts of a model are its fields, and the facts of a list are those of its
/// models.
pub proof fn law_facts_are_fields<R>(model: Model<R>, models: Seq<Model<R>>)
    ensures
        model.facts().name == model.config.name@,
        model.facts().catalog == model.config.target.catalog@,
        model.facts().schema == model.config.target.schema@,
        model.facts().table == model.config.target.table@,
        model.facts().file_path == model.file_path@,
        facts_of(models).len() == models.len(),
        forall|i: int|
            0 <= i < models.len() ==> #[trigger] facts_of(models)[i] == models[i].facts(),
{
}

/// An optional text stands for itself.
pub proof fn law_optional_texts_stand_for_themselves(text: &str)
    ensures
        optional_str(Some(text)) == Some(text@),
        optional_str(None) is None,
{
}

/// A target is named by its whole catalog, schema and table, with a dot between
/// each two; where these hold no dots, different targets have different names.
pub proof fn law_target_names_are_whole(model: ModelFacts, other: ModelFacts)
    ensures
        target_name(model) == model.catalog.push('.') + model.schema.push('.') + model.table,
        target_name(model) == target_name(other) && !model.catalog.contains('.')
            && !model.schema.contains('.') && !other.catalog.contains('.')
            && !other.schema.contains('.') ==> model.catalog == other.catalog && model.schema
            == other.schema && model.table == other.table,
{
    lemma_target_name(model);
    lemma_target_name(other);
    if target_name(model) == target_name(other) && !model.catalog.contains('.')
        && !model.schema.contains('.') && !other.catalog.contains('.') && !other.schema.contains(
        '.',
    ) {
        let a = model.schema.push('.') + model.table;
        let b = other.schema.push('.') + other.table;
        lemma_first_mark_parts(model.catalog, '.', a);
        lemma_first_mark_parts(other.catalog, '.', b);
        assert(target_name(model) =~= model.catalog.push('.') + a);
        assert(target_name(other) =~= other.catalog.push('.') + b);
        assert(a == b);
        lemma_first_mark_parts(model.schema, '.', model.table);
        lemma_first_mark_parts(other.schema, '.', other.table);
    }
}

proof fn lemma_target_name(model: ModelFacts)
    ensures
        target_name(model) == model.catalog.push('.') + model.schema.push('.') + model.table,
{
    reveal_strlit(".");
    assert(target_name(model) =~= model.catalog.push('.') + model.schema.push('.') + model.table);
}

/// A file name leads to a stem exactly if it is that stem and `.contract.toml`, or
/// that stem and `.sql`, `.rocky` or `.toml` and no contract; and if the stem is
/// neither empty nor `_defaults`, `rocky` or `Cargo`.
pub proof fn law_stem_and_ending_make_the_name(name: Seq<char>, stem: Seq<char>)
    ensures
        stem_of_name(name) == Some(stem) <==> {
            &&& stem.len() > 0
            &&& stem != "_defaults"@
            &&& stem != "rocky"@
            &&& stem != "Cargo"@
            &&& name == stem + ".contract.toml"@ || !".contract.toml"@.is_suffix_of(name) && (name
                == stem + ".sql"@ || name == stem + ".rocky"@ || name == stem + ".toml"@)
        },
{
    reveal_strlit(".sql");
    reveal_strlit("sql");
    reveal_strlit(".rocky");
    reveal_strlit("rocky");
    reveal_strlit(".toml");
    reveal_strlit("toml");
    reveal_strlit(".contract.toml");
    let contract = ".contract.toml"@;
    let cut = name.len() - contract.len();
    lemma_last_position_is_a_mark(name, '.');
    assert(stem.push('.') + "sql"@ =~= stem + ".sql"@);
    assert(stem.push('.') + "rocky"@ =~= stem + ".rocky"@);
    assert(stem.push('.') + "toml"@ =~= stem + ".toml"@);
    if stem.len() > 0 {
        law_stem_and_extension(stem, "sql"@);
        law_stem_and_extension(stem, "rocky"@);
        law_stem_and_extension(stem, "toml"@);
    }
    if contract.is_suffix_of(name) {
        assert(name =~= name.take(cut) + contract);
    }
    if name == stem + contract {
        assert(name.subrange(cut, name.len() as int) =~= contract);
        assert(name.take(cut) =~= stem);
    }
    if stem_of_name(name) == Some(stem) && !contract.is_suffix_of(name) {
        let extension = name_extension(name)->0;
        let at = stem.len() as int;
        assert(name =~= stem.push('.') + extension);
    }
}

/// A path leads to a stem exactly if its file name does and it lies directly in the
/// models root; without a known root it may lie anywhere.
pub proof fn law_stem_of_a_path_is_that_of_its_name(
    path: Seq<char>,
    root: Seq<char>,
    stem: Seq<char>,
)
    ensures
        stem_of_path(path, Some(root)) == Some(stem) <==> exists|name: Seq<char>|
            path_parts(path) == path_parts(root).push(PartView::Name(name))
                && #[trigger] stem_of_name(name) == Some(stem),
        stem_of_path(path, None) == Some(stem) <==> exists|name: Seq<char>|
            path_parts(path).len() > 0 && path_parts(path).last() == PartView::Name(name)
                && #[trigger] stem_of_name(name) == Some(stem),
{
    let all = path_parts(path);
    let front = path_parts(root);
    if stem_of_path(path, Some(root)) == Some(stem) {
        let below = parts_below(path, root)->0;
        let name = file_name(below)->0;
        assert(all =~= front.push(PartView::Name(name)));
        assert(stem_of_name(name) == Some(stem));
    }
    if exists|name: Seq<char>|
        all == front.push(PartView::Name(name)) && #[trigger] stem_of_name(name) == Some(stem) {
        let name = choose|name: Seq<char>|
            all == front.push(PartView::Name(name)) && #[trigger] stem_of_name(name) == Some(stem);
        assert(all.subrange(0, front.len() as int) =~= front);
        assert(all.skip(front.len() as int) =~= seq![PartView::Name(name)]);
    }
    if stem_of_path(path, None) == Some(stem) {
        let name = file_name(all)->0;
        assert(stem_of_name(name) == Some(stem));
    }
}

/// A changed path belongs to a model exactly if its stem is all of the stem of the
/// model's file and, for a query, its extension is that of the model's file; any
/// other file that belongs to a model is a `.toml`.
pub proof fn law_belonging_takes_the_whole_stem(
    model: ModelFacts,
    path: Seq<char>,
    models_rel: Option<Seq<char>>,
    name: Seq<char>,
    source: Seq<char>,
)
    requires
        path_parts(path).len() > 0,
        path_parts(path).last() == PartView::Name(name),
        path_parts(model.file_path).len() > 0,
        path_parts(model.file_path).last() == PartView::Name(source),
    ensures
        path_belongs_to(model, path, models_rel) <==> {
            &&& stem_of_path(path, models_rel) == Some(name_stem(source))
            &&& name_extension(name) == Some("toml"@) || name_extension(name) == name_extension(
                source,
            ) && (name_extension(name) == Some("sql"@) || name_extension(name) == Some("rocky"@))
        },
{
}

/// A path without a file name belongs to no model, nor does any path to a model
/// whose own path has none.
pub proof fn law_belonging_takes_a_file_name(
    model: ModelFacts,
    path: Seq<char>,
    models_rel: Option<Seq<char>>,
)
    requires
        path_belongs_to(model, path, models_rel),
    ensures
        path_parts(path).len() > 0 && path_parts(path).last() is Name,
        path_parts(model.file_path).len() > 0 && path_parts(model.file_path).last() is Name,
{
}

proof fn lemma_file_below(directory: Seq<char>, stem: Seq<char>, ending: Seq<char>)
    requires
        directory.len() > 0,
        stem.len() > 0,
        !stem.contains('/'),
        !ending.contains('/'),
        ending.len() > 2,
    ensures
        path_parts(directory.push('/') + (stem + ending)) == path_parts(directory).push(
            PartView::Name(stem + ending),
        ),
{
    let name = stem + ending;
    if name.contains('/') {
        let i = choose|i: int| 0 <= i < name.len() && name[i] == '/';
        if i < stem.len() {
            assert(stem[i] == '/');
        } else {
            assert(ending[i - stem.len()] == '/');
        }
    }
    law_components_come_piece_by_piece(directory, name);
    assert(path_parts(directory) + seq![PartView::Name(name)] =~= path_parts(directory).push(
        PartView::Name(name),
    ));
}

proof fn lemma_endings_differ()
    ensures
        "sql"@ != "rocky"@,
        "sql"@ != "toml"@,
        "rocky"@ != "toml"@,
        !".sql"@.contains('/') && ".sql"@.len() == 4,
        !".rocky"@.contains('/') && ".rocky"@.len() == 6,
        !".toml"@.contains('/') && ".toml"@.len() == 5,
        !".contract.toml"@.contains('/') && ".contract.toml"@.len() == 14,
        ".sql"@ == seq!['.'] + "sql"@,
        ".rocky"@ == seq!['.'] + "rocky"@,
        ".toml"@ == seq!['.'] + "toml"@,
        !"sql"@.contains('.') && !"rocky"@.contains('.') && !"toml"@.contains('.'),
        ".contract.toml"@ == ".contract"@ + seq!['.'] + "toml"@,
{
    reveal_strlit(".sql");
    reveal_strlit("sql");
    reveal_strlit(".rocky");
    reveal_strlit("rocky");
    reveal_strlit(".toml");
    reveal_strlit("toml");
    reveal_strlit(".contract");
    reveal_strlit(".contract.toml");
    assert("sql"@.len() == 3 && "rocky"@.len() == 5 && "toml"@.len() == 4);
    assert(".sql"@ =~= seq!['.'] + "sql"@);
    assert(".rocky"@ =~= seq!['.'] + "rocky"@);
    assert(".toml"@ =~= seq!['.'] + "toml"@);
    assert(".contract.toml"@ =~= ".contract"@ + seq!['.'] + "toml"@);
}

/// The extension and the stem of a name that ends in `.sql`, `.rocky` or `.toml`.
proof fn lemma_plain_ending(stem: Seq<char>, ending: Seq<char>, extension: Seq<char>)
    requires
        stem.len() > 0,
        ending == seq!['.'] + extension,
        !extension.contains('.'),
    ensures
        name_stem(stem + ending) == stem,
        name_extension(stem + ending) == Some(extension),
{
    law_stem_and_extension(stem, extension);
    assert(stem.push('.') + extension =~= stem + ending);
}

/// Whole files against whole files: in the models root, the query, the sidecar and
/// the contract of one stem belong to a model in a file of another directory exactly
/// if the two stems are equal, and the query only if it is in the same dialect. The
/// sidecar of a stem that ends in `.contract` is a contract of another.
pub proof fn law_files_belong_to_models_of_their_stem(
    root: Seq<char>,
    stem: Seq<char>,
    directory: Seq<char>,
    other: Seq<char>,
    model: ModelFacts,
    is_sql: bool,
    models_rel: Option<Seq<char>>,
)
    requires
        root.len() > 0,
        directory.len() > 0,
        stem.len() > 0 && !stem.contains('/'),
        stem != "_defaults"@ && stem != "rocky"@ && stem != "Cargo"@,
        other.len() > 0 && !other.contains('/'),
        models_rel == Some(root) || models_rel is None,
        model.file_path == directory.push('/') + (other + if is_sql {
            ".sql"@
        } else {
            ".rocky"@
        }),
    ensures
        path_belongs_to(model, root.push('/') + (stem + ".sql"@), models_rel) <==> is_sql && stem
            == other,
        path_belongs_to(model, root.push('/') + (stem + ".rocky"@), models_rel) <==> !is_sql && stem
            == other,
        path_belongs_to(model, root.push('/') + (stem + ".contract.toml"@), models_rel) <==> stem
            == other,
        !".contract"@.is_suffix_of(stem) ==> (path_belongs_to(
            model,
            root.push('/') + (stem + ".toml"@),
            models_rel,
        ) <==> stem == other),
{
    lemma_endings_differ();
    let ending = if is_sql {
        ".sql"@
    } else {
        ".rocky"@
    };
    let extension = if is_sql {
        "sql"@
    } else {
        "rocky"@
    };
    lemma_file_below(directory, other, ending);
    lemma_plain_ending(other, ending, extension);
    lemma_model_file_names(stem);
    lemma_file_stem_below(root, stem, ".sql"@, models_rel);
    lemma_file_stem_below(root, stem, ".rocky"@, models_rel);
    lemma_file_stem_below(root, stem, ".toml"@, models_rel);
    lemma_file_stem_below(root, stem, ".contract.toml"@, models_rel);
    lemma_plain_ending(stem, ".sql"@, "sql"@);
    lemma_plain_ending(stem, ".rocky"@, "rocky"@);
    lemma_plain_ending(stem, ".toml"@, "toml"@);
    lemma_plain_ending(stem + ".contract"@, ".toml"@, "toml"@);
    assert(stem + ".contract"@ + ".toml"@ =~= stem + ".contract.toml"@);
}

proof fn lemma_file_stem_below(
    root: Seq<char>,
    stem: Seq<char>,
    ending: Seq<char>,
    models_rel: Option<Seq<char>>,
)
    requires
        root.len() > 0,
        stem.len() > 0,
        !stem.contains('/'),
        !ending.contains('/'),
        ending.len() > 2,
        models_rel == Some(root) || models_rel is None,
    ensures
        stem_of_path(root.push('/') + (stem + ending), models_rel) == stem_of_name(stem + ending),
        path_file_name(root.push('/') + (stem + ending)) == Some(stem + ending),
{
    lemma_file_below(root, stem, ending);
    let front = path_parts(root);
    let all = path_parts(root.push('/') + (stem + ending));
    assert(all.subrange(0, front.len() as int) =~= front);
    assert(all.skip(front.len() as int) =~= seq![PartView::Name(stem + ending)]);
}

} // verus!

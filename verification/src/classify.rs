//! Which models a set of changed files adds, modifies or removes.

use vstd::prelude::*;
use vstd::string::*;

use crate::git::{file_views, optional_text, ChangedFile, ChangedFileView};
use crate::models::{
    facts_of, model_matches_path, model_stem, optional_str, path_belongs_to, stem_of_path,
    target_key, target_name, Model, ModelFacts,
};
use crate::seqs::lemma_filter_map_has;
use crate::string_map::StringMap;

verus! {

/// What happened to a model between the base and HEAD.
#[derive(Debug, Clone, Copy, PartialEq, Eq, Structural)]
pub enum ModelDiffStatus {
    Unchanged,
    Modified,
    Added,
    Removed,
}

/// A changed model, known by its target where both revisions compile and by its
/// file name stem otherwise.
#[derive(Debug)]
pub struct ModelChange {
    /// Model name for the report.
    pub model_name: String,
    /// Name of the model's schema at the base.
    pub base_schema_name: Option<String>,
    /// Name of the model's schema at HEAD.
    pub head_schema_name: Option<String>,
}

/// What a [`ModelChange`] holds.
#[verifier::ext_equal]
pub struct ModelChangeView {
    pub model_name: Seq<char>,
    pub base_schema_name: Option<Seq<char>>,
    pub head_schema_name: Option<Seq<char>>,
}

impl View for ModelChange {
    type V = ModelChangeView;

    open spec fn view(&self) -> ModelChangeView {
        ModelChangeView {
            model_name: self.model_name@,
            base_schema_name: optional_text(self.base_schema_name),
            head_schema_name: optional_text(self.head_schema_name),
        }
    }
}

impl ModelChangeView {
    /// A change of which nothing is known yet.
    pub open spec fn blank() -> ModelChangeView {
        ModelChangeView {
            model_name: Seq::empty(),
            base_schema_name: None,
            head_schema_name: None,
        }
    }

    /// A model is modified if it stands on both sides, and removed or added if
    /// it stands on the base side or the HEAD side alone.
    pub open spec fn status(self) -> ModelDiffStatus {
        match (self.base_schema_name is Some, self.head_schema_name is Some) {
            (true, true) => ModelDiffStatus::Modified,
            (true, false) => ModelDiffStatus::Removed,
            (false, true) => ModelDiffStatus::Added,
            (false, false) => ModelDiffStatus::Unchanged,
        }
    }

    /// The change after one more sighting of the model. HEAD's name is the one
    /// to show; the base's stands in until there is one.
    pub open spec fn seen(self, name: Seq<char>, is_base: bool) -> ModelChangeView {
        if is_base {
            ModelChangeView {
                model_name: if self.model_name.len() == 0 {
                    name
                } else {
                    self.model_name
                },
                base_schema_name: Some(name),
                head_schema_name: self.head_schema_name,
            }
        } else {
            ModelChangeView {
                model_name: name,
                base_schema_name: self.base_schema_name,
                head_schema_name: Some(name),
            }
        }
    }
}

impl Default for ModelChange {
    fn default() -> (r: Self)
        ensures
            r@ == ModelChangeView::blank(),
    {
        ModelChange { model_name: String::new(), base_schema_name: None, head_schema_name: None }
    }
}

impl ModelChange {
    /// What happened to the model.
    pub fn status(&self) -> (r: ModelDiffStatus)
        ensures
            r == self@.status(),
    {
        match (self.base_schema_name.is_some(), self.head_schema_name.is_some()) {
            (true, true) => ModelDiffStatus::Modified,
            (true, false) => ModelDiffStatus::Removed,
            (false, true) => ModelDiffStatus::Added,
            (false, false) => ModelDiffStatus::Unchanged,
        }
    }
}

/// Changed models by key.
pub type ModelChanges = StringMap<ModelChange>;

/// The contents of a map of changed models.
pub open spec fn change_views(changes: ModelChanges) -> Map<Seq<char>, ModelChangeView> {
    Map::new(|key: Seq<char>| changes@.contains_key(key), |key: Seq<char>| changes@[key]@)
}

/// One sighting of a model: the key of its change, its name, and on which side
/// it was seen.
#[verifier::ext_equal]
pub struct Sighting {
    pub key: Seq<char>,
    pub name: Seq<char>,
    pub is_base: bool,
}

/// The changes after one more sighting.
pub open spec fn recorded(
    changes: Map<Seq<char>, ModelChangeView>,
    sighting: Sighting,
) -> Map<Seq<char>, ModelChangeView> {
    let change = if changes.contains_key(sighting.key) {
        changes[sighting.key]
    } else {
        ModelChangeView::blank()
    };
    changes.insert(sighting.key, change.seen(sighting.name, sighting.is_base))
}

/// The changes after a row of sightings.
pub open spec fn recorded_all(
    changes: Map<Seq<char>, ModelChangeView>,
    sightings: Seq<Sighting>,
) -> Map<Seq<char>, ModelChangeView>
    decreases sightings.len(),
{
    if sightings.len() == 0 {
        changes
    } else {
        recorded(recorded_all(changes, sightings.drop_last()), sightings.last())
    }
}

proof fn lemma_recorded_all_concat(
    changes: Map<Seq<char>, ModelChangeView>,
    first: Seq<Sighting>,
    second: Seq<Sighting>,
)
    ensures
        recorded_all(changes, first + second) == recorded_all(
            recorded_all(changes, first),
            second,
        ),
    decreases second.len(),
{
    if second.len() == 0 {
        assert(first + second =~= first);
    } else {
        assert((first + second).drop_last() =~= first + second.drop_last());
        lemma_recorded_all_concat(changes, first, second.drop_last());
    }
}

/// A copy of an optional string.
fn copy_optional(s: &Option<String>) -> (r: Option<String>)
    ensures
        optional_text(r) == optional_text(*s),
{
    match s {
        Some(text) => Some(text.as_str().to_owned()),
        None => None,
    }
}

/// Records that a model was seen on one side.
pub fn record_model_side(changes: &mut ModelChanges, key: String, model_name: &str, is_base: bool)
    ensures
        change_views(*final(changes)) == recorded(
            change_views(*old(changes)),
            (Sighting { key: key@, name: model_name@, is_base }),
        ),
{
    let mut change = match changes.get(key.as_str()) {
        Some(known) => ModelChange {
            model_name: known.model_name.as_str().to_owned(),
            base_schema_name: copy_optional(&known.base_schema_name),
            head_schema_name: copy_optional(&known.head_schema_name),
        },
        None => ModelChange::default(),
    };
    if is_base {
        change.base_schema_name = Some(model_name.to_owned());
        if change.model_name.as_str().is_empty() {
            change.model_name = model_name.to_owned();
        }
    } else {
        change.head_schema_name = Some(model_name.to_owned());
        change.model_name = model_name.to_owned();
    }
    let ghost before = change_views(*changes);
    let ghost name = key@;
    changes.insert(key, change);
    proof {
        let sighting = Sighting { key: name, name: model_name@, is_base };
        assert(change_views(*changes) =~= before.insert(name, change@));
        assert(change_views(*changes) =~= recorded(before, sighting));
    }
}

/// The sightings of the models of one side that a changed path belongs to.
pub open spec fn side_sightings(
    models: Seq<ModelFacts>,
    path: Seq<char>,
    models_rel: Option<Seq<char>>,
    is_base: bool,
) -> Seq<Sighting> {
    models.filter_map(
        |model: ModelFacts|
            if path_belongs_to(model, path, models_rel) {
                Some(Sighting { key: target_name(model), name: model.name, is_base })
            } else {
                None
            },
    )
}

/// Records every model of one side that a changed path belongs to.
pub fn record_resolved_side<R>(
    changes: &mut ModelChanges,
    models: &[Model<R>],
    path: &str,
    models_rel: Option<&str>,
    is_base: bool,
)
    ensures
        change_views(*final(changes)) == recorded_all(
            change_views(*old(changes)),
            side_sightings(facts_of(models@), path@, optional_str(models_rel), is_base),
        ),
{
    let ghost root = optional_str(models_rel);
    let ghost f = |model: ModelFacts|
        if path_belongs_to(model, path@, root) {
            Some(Sighting { key: target_name(model), name: model.name, is_base })
        } else {
            None
        };
    let ghost all = facts_of(models@);
    let ghost before = change_views(*changes);
    let mut i: usize = 0;
    assert(all.take(0).filter_map(f) =~= Seq::<Sighting>::empty());
    while i < models.len()
        invariant
            i <= models@.len(),
            all == facts_of(models@),
            root == optional_str(models_rel),
            f == (|model: ModelFacts|
                if path_belongs_to(model, path@, root) {
                    Some(Sighting { key: target_name(model), name: model.name, is_base })
                } else {
                    None
                }),
            change_views(*changes) == recorded_all(before, all.take(i as int).filter_map(f)),
        decreases models@.len() - i,
    {
        proof {
            all.lemma_filter_map_take_succ(f, i as int);
            assert(all[i as int] == models@[i as int].facts());
        }
        let model = &models[i];
        if model_matches_path(model, path, models_rel) {
            let ghost sighting = Sighting {
                key: target_name(model.facts()),
                name: model.facts().name,
                is_base,
            };
            let ghost row = all.take(i as int).filter_map(f);
            record_model_side(changes, target_key(model), model.config.name.as_str(), is_base);
            proof {
                let longer = all.take(i + 1).filter_map(f);
                assert(longer =~= row.push(sighting));
                assert(longer.drop_last() =~= row);
            }
        } else {
            assert(all.take(i + 1).filter_map(f) =~= all.take(i as int).filter_map(f));
        }
        i += 1;
    }
    assert(all.take(all.len() as int) =~= all);
}

/// The sightings that one changed file gives rise to. A rename counts at its old
/// path too.
pub open spec fn file_sightings(
    file: ChangedFileView,
    models_rel: Option<Seq<char>>,
    base: Seq<ModelFacts>,
    head: Seq<ModelFacts>,
) -> Seq<Sighting> {
    let here = side_sightings(base, file.path, models_rel, true) + side_sightings(
        head,
        file.path,
        models_rel,
        false,
    );
    if file.status == 'R' && file.old_path is Some {
        side_sightings(base, file.old_path->0, models_rel, true) + side_sightings(
            head,
            file.old_path->0,
            models_rel,
            false,
        ) + here
    } else {
        here
    }
}

/// The sightings that a list of changed files gives rise to.
pub open spec fn all_sightings(
    files: Seq<ChangedFileView>,
    models_rel: Option<Seq<char>>,
    base: Seq<ModelFacts>,
    head: Seq<ModelFacts>,
) -> Seq<Sighting>
    decreases files.len(),
{
    if files.len() == 0 {
        Seq::empty()
    } else {
        all_sightings(files.drop_last(), models_rel, base, head) + file_sightings(
            files.last(),
            models_rel,
            base,
            head,
        )
    }
}

/// The changed models by target, where the models of both sides are known.
pub open spec fn changes_by_target(
    files: Seq<ChangedFileView>,
    models_rel: Option<Seq<char>>,
    base: Seq<ModelFacts>,
    head: Seq<ModelFacts>,
) -> Map<Seq<char>, ModelChangeView> {
    recorded_all(Map::empty(), all_sightings(files, models_rel, base, head))
}

/// Records what one changed file gives rise to.
fn record_file<R>(
    changes: &mut ModelChanges,
    file: &ChangedFile,
    models_rel: Option<&str>,
    base: &[Model<R>],
    head: &[Model<R>],
)
    ensures
        change_views(*final(changes)) == recorded_all(
            change_views(*old(changes)),
            file_sightings(
                file@,
                optional_str(models_rel),
                facts_of(base@),
                facts_of(head@),
            ),
        ),
{
    let ghost root = optional_str(models_rel);
    let ghost b = facts_of(base@);
    let ghost h = facts_of(head@);
    let ghost start = change_views(*changes);
    let ghost mut row: Seq<Sighting> = Seq::empty();
    if file.status == 'R' {
        if let Some(old_path) = &file.old_path {
            let old_path = old_path.as_str();
            record_resolved_side(changes, base, old_path, models_rel, true);
            record_resolved_side(changes, head, old_path, models_rel, false);
            proof {
                let x = side_sightings(b, old_path@, root, true);
                let y = side_sightings(h, old_path@, root, false);
                row = x + y;
                lemma_recorded_all_concat(start, x, y);
            }
        }
    }
    assert(change_views(*changes) == recorded_all(start, row));
    let path = file.path.as_str();
    record_resolved_side(changes, base, path, models_rel, true);
    record_resolved_side(changes, head, path, models_rel, false);
    proof {
        let x = side_sightings(b, path@, root, true);
        let y = side_sightings(h, path@, root, false);
        lemma_recorded_all_concat(start, row, x + y);
        lemma_recorded_all_concat(recorded_all(start, row), x, y);
        assert(row + (x + y) =~= file_sightings(file@, root, b, h));
    }
}

/// The stem of the model that a changed file belongs to: by its path, or else by
/// its old path.
pub open spec fn changed_stem(file: ChangedFileView, models_rel: Option<Seq<char>>) -> Option<
    Seq<char>,
> {
    match (stem_of_path(file.path, models_rel), file.old_path) {
        (Some(stem), _) => Some(stem),
        (None, Some(old_path)) => stem_of_path(old_path, models_rel),
        (None, None) => None,
    }
}

/// What a file's status letter says of its model. A rename is one modification
/// at the new path.
pub open spec fn letter_status(letter: char) -> ModelDiffStatus {
    if letter == 'A' || letter == 'C' {
        ModelDiffStatus::Added
    } else if letter == 'D' {
        ModelDiffStatus::Removed
    } else {
        ModelDiffStatus::Modified
    }
}

/// What a list of changed files says of the model `stem`: the first status that
/// is more than a modification, if there is one, and else a modification.
pub open spec fn settled_status(
    files: Seq<ChangedFileView>,
    models_rel: Option<Seq<char>>,
    stem: Seq<char>,
) -> Option<ModelDiffStatus>
    decreases files.len(),
{
    if files.len() == 0 {
        None
    } else {
        let before = settled_status(files.drop_last(), models_rel, stem);
        if changed_stem(files.last(), models_rel) != Some(stem) {
            before
        } else if before is Some && before != Some(ModelDiffStatus::Modified) {
            before
        } else {
            Some(letter_status(files.last().status))
        }
    }
}

/// A change of the model `stem` that is known by file names alone.
pub open spec fn named_change(stem: Seq<char>, status: ModelDiffStatus) -> ModelChangeView {
    ModelChangeView {
        model_name: stem,
        base_schema_name: if status is Modified || status is Removed {
            Some(stem)
        } else {
            None
        },
        head_schema_name: if status is Modified || status is Added {
            Some(stem)
        } else {
            None
        },
    }
}

/// The changed models by stem, from file names alone.
pub open spec fn changes_by_stem(
    files: Seq<ChangedFileView>,
    models_rel: Option<Seq<char>>,
) -> Map<Seq<char>, ModelChangeView> {
    Map::new(
        |stem: Seq<char>| settled_status(files, models_rel, stem) is Some,
        |stem: Seq<char>| named_change(stem, settled_status(files, models_rel, stem)->0),
    )
}

/// The stem of the model that a changed file belongs to.
fn find_changed_stem(file: &ChangedFile, models_rel: Option<&str>) -> (r: Option<String>)
    ensures
        match r {
            Some(stem) => changed_stem(file@, optional_str(models_rel)) == Some(stem@),
            None => changed_stem(file@, optional_str(models_rel)) is None,
        },
{
    match model_stem(file.path.as_str(), models_rel) {
        Some(stem) => Some(stem),
        None => match &file.old_path {
            Some(old_path) => model_stem(old_path.as_str(), models_rel),
            None => None,
        },
    }
}

/// A change of the model `stem` with a status.
fn change_named(stem: &str, status: ModelDiffStatus) -> (r: ModelChange)
    ensures
        r@ == named_change(stem@, status),
{
    let (base_schema_name, head_schema_name) = match status {
        ModelDiffStatus::Added => (None, Some(stem.to_owned())),
        ModelDiffStatus::Removed => (Some(stem.to_owned()), None),
        ModelDiffStatus::Modified => (Some(stem.to_owned()), Some(stem.to_owned())),
        ModelDiffStatus::Unchanged => (None, None),
    };
    ModelChange { model_name: stem.to_owned(), base_schema_name, head_schema_name }
}

/// Finds the changed models from file names alone.
fn classify_by_stem(files: &[ChangedFile], models_rel: Option<&str>) -> (r: ModelChanges)
    ensures
        change_views(r) == changes_by_stem(file_views(files@), optional_str(models_rel)),
{
    let ghost root = optional_str(models_rel);
    let ghost all = file_views(files@);
    let mut changes: ModelChanges = StringMap::new();
    let mut i: usize = 0;
    assert(change_views(changes) =~= changes_by_stem(all.take(0), root));
    while i < files.len()
        invariant
            i <= files@.len(),
            all == file_views(files@),
            root == optional_str(models_rel),
            change_views(changes) == changes_by_stem(all.take(i as int), root),
        decreases files@.len() - i,
    {
        let ghost done = all.take(i as int);
        let ghost next = all.take(i + 1);
        let ghost before = change_views(changes);
        proof {
            assert(next.drop_last() =~= done);
            assert(next.last() == files@[i as int]@);
        }
        let file = &files[i];
        if let Some(stem) = find_changed_stem(file, models_rel) {
            let status = match file.status {
                'A' => ModelDiffStatus::Added,
                'C' => ModelDiffStatus::Added,
                'D' => ModelDiffStatus::Removed,
                _ => ModelDiffStatus::Modified,
            };
            let ghost known = settled_status(done, root, stem@);
            let settled = match changes.get(stem.as_str()) {
                Some(change) => {
                    let existing = change.status();
                    proof {
                        assert(before.contains_key(stem@));
                        assert(before[stem@] == change@);
                        lemma_settled_status_is_a_change(done, root, stem@);
                    }
                    if existing == ModelDiffStatus::Modified {
                        status
                    } else {
                        existing
                    }
                },
                None => {
                    assert(!before.contains_key(stem@));
                    status
                },
            };
            let ghost name = stem@;
            assert(settled_status(next, root, name) == Some(settled));
            let change = change_named(stem.as_str(), settled);
            changes.insert(stem, change);
            proof {
                assert(change_views(changes) =~= before.insert(name, named_change(name, settled)));
                assert forall|s: Seq<char>| s != name implies settled_status(next, root, s)
                    == settled_status(done, root, s) by {}
                assert(change_views(changes) =~= changes_by_stem(next, root));
            }
        } else {
            assert forall|s: Seq<char>|
                settled_status(next, root, s) == settled_status(done, root, s) by {}
            assert(change_views(changes) =~= changes_by_stem(next, root));
        }
        i += 1;
    }
    assert(all.take(all.len() as int) =~= all);
    changes
}

proof fn lemma_settled_status_is_a_change(
    files: Seq<ChangedFileView>,
    models_rel: Option<Seq<char>>,
    stem: Seq<char>,
)
    ensures
        settled_status(files, models_rel, stem) != Some(ModelDiffStatus::Unchanged),
    decreases files.len(),
{
    if files.len() > 0 {
        lemma_settled_status_is_a_change(files.drop_last(), models_rel, stem);
    }
}

/// The changed models: by target where the models of both sides are known, from
/// file names alone otherwise.
pub open spec fn classified(
    files: Seq<ChangedFileView>,
    models_rel: Option<Seq<char>>,
    base: Option<Seq<ModelFacts>>,
    head: Option<Seq<ModelFacts>>,
) -> Map<Seq<char>, ModelChangeView> {
    match (base, head) {
        (Some(base), Some(head)) => changes_by_target(files, models_rel, base, head),
        _ => changes_by_stem(files, models_rel),
    }
}

/// The contents of an optional list of models.
pub open spec fn optional_models<R>(models: Option<&[Model<R>]>) -> Option<Seq<ModelFacts>> {
    match models {
        Some(models) => Some(facts_of(models@)),
        None => None,
    }
}

/// Classifies changed files by the model they belong to.
///
/// Models are paired by their target, which is what others see of them. That is
/// safe only where both revisions compiled; otherwise file names decide.
pub fn classify_model_changes<R>(
    files: &[ChangedFile],
    models_rel: Option<&str>,
    base_models: Option<&[Model<R>]>,
    head_models: Option<&[Model<R>]>,
) -> (r: ModelChanges)
    ensures
        change_views(r) == classified(
            file_views(files@),
            optional_str(models_rel),
            optional_models(base_models),
            optional_models(head_models),
        ),
{
    let (base, head) = match (base_models, head_models) {
        (Some(base), Some(head)) => (base, head),
        _ => {
            return classify_by_stem(files, models_rel);
        },
    };
    let ghost root = optional_str(models_rel);
    let ghost all = file_views(files@);
    let ghost b = facts_of(base@);
    let ghost h = facts_of(head@);
    let mut changes: ModelChanges = StringMap::new();
    let mut i: usize = 0;
    assert(change_views(changes) =~= changes_by_target(all.take(0), root, b, h));
    while i < files.len()
        invariant
            i <= files@.len(),
            all == file_views(files@),
            b == facts_of(base@),
            h == facts_of(head@),
            root == optional_str(models_rel),
            change_views(changes) == changes_by_target(all.take(i as int), root, b, h),
        decreases files@.len() - i,
    {
        proof {
            let next = all.take(i + 1);
            assert(next.drop_last() =~= all.take(i as int));
            assert(next.last() == files@[i as int]@);
            lemma_recorded_all_concat(
                Map::empty(),
                all_sightings(all.take(i as int), root, b, h),
                file_sightings(files@[i as int]@, root, b, h),
            );
        }
        record_file(&mut changes, &files[i], models_rel, base, head);
        i += 1;
    }
    assert(all.take(all.len() as int) =~= all);
    changes
}

/// Whether one of the changed files belongs to the model, at its path or, for a
/// rename, at its old path.
pub open spec fn touched(
    model: ModelFacts,
    files: Seq<ChangedFileView>,
    models_rel: Option<Seq<char>>,
) -> bool {
    exists|i: int|
        0 <= i < files.len() && #[trigger] touched_by(model, files[i], models_rel)
}

/// Whether a changed file belongs to the model.
pub open spec fn touched_by(
    model: ModelFacts,
    file: ChangedFileView,
    models_rel: Option<Seq<char>>,
) -> bool {
    ||| path_belongs_to(model, file.path, models_rel)
    ||| file.status == 'R' && file.old_path is Some && path_belongs_to(
        model,
        file.old_path->0,
        models_rel,
    )
}

/// Whether a touched model of this side has the target `key`.
pub open spec fn target_touched(
    models: Seq<ModelFacts>,
    key: Seq<char>,
    files: Seq<ChangedFileView>,
    models_rel: Option<Seq<char>>,
) -> bool {
    exists|i: int|
        0 <= i < models.len() && target_name(models[i]) == key && #[trigger] touched(
            models[i],
            files,
            models_rel,
        )
}

/// Whether a model is seen among sightings on one side.
spec fn key_seen(sightings: Seq<Sighting>, key: Seq<char>, is_base: bool) -> bool {
    exists|i: int|
        0 <= i < sightings.len() && (#[trigger] sightings[i]).key == key && sightings[i].is_base
            == is_base
}

proof fn lemma_key_seen_push(row: Seq<Sighting>, key: Seq<char>, is_base: bool)
    requires
        row.len() > 0,
    ensures
        key_seen(row, key, is_base) <==> key_seen(row.drop_last(), key, is_base) || (
        row.last().key == key && row.last().is_base == is_base),
{
    let front = row.drop_last();
    if key_seen(front, key, is_base) {
        let i = choose|i: int|
            0 <= i < front.len() && (#[trigger] front[i]).key == key && front[i].is_base
                == is_base;
        assert(row[i] == front[i]);
    }
    if row.last().key == key && row.last().is_base == is_base {
        assert(row[row.len() - 1].key == key);
    }
    if key_seen(row, key, is_base) {
        let i = choose|i: int|
            0 <= i < row.len() && (#[trigger] row[i]).key == key && row[i].is_base == is_base;
        if i < front.len() {
            assert(front[i] == row[i]);
        }
    }
}

proof fn lemma_key_seen_concat(
    first: Seq<Sighting>,
    second: Seq<Sighting>,
    key: Seq<char>,
    is_base: bool,
)
    ensures
        key_seen(first + second, key, is_base) <==> key_seen(first, key, is_base) || key_seen(
            second,
            key,
            is_base,
        ),
{
    let row = first + second;
    if key_seen(first, key, is_base) {
        let i = choose|i: int|
            0 <= i < first.len() && (#[trigger] first[i]).key == key && first[i].is_base
                == is_base;
        assert(row[i] == first[i]);
    }
    if key_seen(second, key, is_base) {
        let i = choose|i: int|
            0 <= i < second.len() && (#[trigger] second[i]).key == key && second[i].is_base
                == is_base;
        assert(row[first.len() + i] == second[i]);
    }
    if key_seen(row, key, is_base) {
        let i = choose|i: int|
            0 <= i < row.len() && (#[trigger] row[i]).key == key && row[i].is_base == is_base;
        if i < first.len() {
            assert(first[i] == row[i]);
        } else {
            assert(second[i - first.len()] == row[i]);
        }
    }
}

proof fn lemma_recorded_sides(sightings: Seq<Sighting>, key: Seq<char>)
    ensures
        ({
            let changes = recorded_all(Map::empty(), sightings);
            &&& changes.contains_key(key) <==> key_seen(sightings, key, true) || key_seen(
                sightings,
                key,
                false,
            )
            &&& changes.contains_key(key) ==> {
                &&& changes[key].base_schema_name is Some <==> key_seen(sightings, key, true)
                &&& changes[key].head_schema_name is Some <==> key_seen(sightings, key, false)
            }
        }),
    decreases sightings.len(),
{
    if sightings.len() > 0 {
        lemma_recorded_sides(sightings.drop_last(), key);
        lemma_key_seen_push(sightings, key, true);
        lemma_key_seen_push(sightings, key, false);
    }
}

/// Whether a model of this side that `path` belongs to has the target `key`.
spec fn side_has(
    models: Seq<ModelFacts>,
    key: Seq<char>,
    path: Seq<char>,
    models_rel: Option<Seq<char>>,
) -> bool {
    exists|i: int|
        0 <= i < models.len() && target_name(models[i]) == key && #[trigger] path_belongs_to(
            models[i],
            path,
            models_rel,
        )
}

proof fn lemma_side_sightings(
    models: Seq<ModelFacts>,
    key: Seq<char>,
    path: Seq<char>,
    models_rel: Option<Seq<char>>,
    is_base: bool,
)
    ensures
        key_seen(side_sightings(models, path, models_rel, is_base), key, is_base) <==> side_has(
            models,
            key,
            path,
            models_rel,
        ),
        !key_seen(side_sightings(models, path, models_rel, is_base), key, !is_base),
{
    let f = |model: ModelFacts|
        if path_belongs_to(model, path, models_rel) {
            Some(Sighting { key: target_name(model), name: model.name, is_base })
        } else {
            None
        };
    let row = side_sightings(models, path, models_rel, is_base);
    assert(row == models.filter_map(f));
    assert forall|i: int| 0 <= i < row.len() implies (#[trigger] row[i]).is_base == is_base
        && side_has(models, row[i].key, path, models_rel) by {
        assert(row.contains(row[i]));
        models.lemma_filter_map_contains(f, row[i]);
        let model = choose|model: ModelFacts| #[trigger]
            models.contains(model) && f(model) == Some(row[i]);
        let j = choose|j: int| 0 <= j < models.len() && models[j] == model;
        assert(path_belongs_to(models[j], path, models_rel));
    }
    if side_has(models, key, path, models_rel) {
        let i = choose|i: int|
            0 <= i < models.len() && target_name(models[i]) == key && #[trigger] path_belongs_to(
                models[i],
                path,
                models_rel,
            );
        lemma_filter_map_has(models, f, i);
        let sighting = f(models[i])->0;
        let j = choose|j: int| 0 <= j < row.len() && row[j] == sighting;
        assert(row[j].key == key);
    }
}

/// Whether a model of this side that the file belongs to has the target `key`.
spec fn side_touched_by(
    models: Seq<ModelFacts>,
    key: Seq<char>,
    file: ChangedFileView,
    models_rel: Option<Seq<char>>,
) -> bool {
    ||| side_has(models, key, file.path, models_rel)
    ||| file.status == 'R' && file.old_path is Some && side_has(
        models,
        key,
        file.old_path->0,
        models_rel,
    )
}

proof fn lemma_file_sightings(
    file: ChangedFileView,
    models_rel: Option<Seq<char>>,
    base: Seq<ModelFacts>,
    head: Seq<ModelFacts>,
    key: Seq<char>,
)
    ensures
        key_seen(file_sightings(file, models_rel, base, head), key, true) <==> side_touched_by(
            base,
            key,
            file,
            models_rel,
        ),
        key_seen(file_sightings(file, models_rel, base, head), key, false) <==> side_touched_by(
            head,
            key,
            file,
            models_rel,
        ),
{
    let x = side_sightings(base, file.path, models_rel, true);
    let y = side_sightings(head, file.path, models_rel, false);
    lemma_side_sightings(base, key, file.path, models_rel, true);
    lemma_side_sightings(head, key, file.path, models_rel, false);
    lemma_key_seen_concat(x, y, key, true);
    lemma_key_seen_concat(x, y, key, false);
    if file.status == 'R' && file.old_path is Some {
        let old_path = file.old_path->0;
        let u = side_sightings(base, old_path, models_rel, true);
        let v = side_sightings(head, old_path, models_rel, false);
        lemma_side_sightings(base, key, old_path, models_rel, true);
        lemma_side_sightings(head, key, old_path, models_rel, false);
        lemma_key_seen_concat(u, v, key, true);
        lemma_key_seen_concat(u, v, key, false);
        lemma_key_seen_concat(u + v, x + y, key, true);
        lemma_key_seen_concat(u + v, x + y, key, false);
    }
}

proof fn lemma_target_touched_push(
    models: Seq<ModelFacts>,
    key: Seq<char>,
    files: Seq<ChangedFileView>,
    models_rel: Option<Seq<char>>,
)
    requires
        files.len() > 0,
    ensures
        target_touched(models, key, files, models_rel) <==> target_touched(
            models,
            key,
            files.drop_last(),
            models_rel,
        ) || side_touched_by(models, key, files.last(), models_rel),
{
    let front = files.drop_last();
    let last = files.last();
    if target_touched(models, key, front, models_rel) {
        let i = choose|i: int|
            0 <= i < models.len() && target_name(models[i]) == key && #[trigger] touched(
                models[i],
                front,
                models_rel,
            );
        let j = choose|j: int|
            0 <= j < front.len() && #[trigger] touched_by(models[i], front[j], models_rel);
        assert(touched_by(models[i], files[j], models_rel));
        assert(touched(models[i], files, models_rel));
    }
    if side_touched_by(models, key, last, models_rel) {
        let path = if side_has(models, key, last.path, models_rel) {
            last.path
        } else {
            last.old_path->0
        };
        let i = choose|i: int|
            0 <= i < models.len() && target_name(models[i]) == key && #[trigger] path_belongs_to(
                models[i],
                path,
                models_rel,
            );
        assert(touched_by(models[i], files[files.len() - 1], models_rel));
        assert(touched(models[i], files, models_rel));
    }
    if target_touched(models, key, files, models_rel) {
        let i = choose|i: int|
            0 <= i < models.len() && target_name(models[i]) == key && #[trigger] touched(
                models[i],
                files,
                models_rel,
            );
        let j = choose|j: int|
            0 <= j < files.len() && #[trigger] touched_by(models[i], files[j], models_rel);
        if j < front.len() {
            assert(touched_by(models[i], front[j], models_rel));
            assert(touched(models[i], front, models_rel));
        } else {
            assert(touched_by(models[i], last, models_rel));
            assert(side_touched_by(models, key, last, models_rel));
        }
    }
}

proof fn lemma_all_sightings(
    files: Seq<ChangedFileView>,
    models_rel: Option<Seq<char>>,
    base: Seq<ModelFacts>,
    head: Seq<ModelFacts>,
    key: Seq<char>,
)
    ensures
        key_seen(all_sightings(files, models_rel, base, head), key, true) <==> target_touched(
            base,
            key,
            files,
            models_rel,
        ),
        key_seen(all_sightings(files, models_rel, base, head), key, false) <==> target_touched(
            head,
            key,
            files,
            models_rel,
        ),
    decreases files.len(),
{
    if files.len() > 0 {
        let front = files.drop_last();
        let row = all_sightings(front, models_rel, base, head);
        let more = file_sightings(files.last(), models_rel, base, head);
        lemma_all_sightings(front, models_rel, base, head, key);
        lemma_file_sightings(files.last(), models_rel, base, head, key);
        lemma_key_seen_concat(row, more, key, true);
        lemma_key_seen_concat(row, more, key, false);
        lemma_target_touched_push(base, key, files, models_rel);
        lemma_target_touched_push(head, key, files, models_rel);
    }
}

/// Where both revisions compiled, a target is reported exactly if a changed file
/// belongs to a model with that target on either side: as modified if there is
/// such a model on both sides, as removed if only the base has one, as added if
/// only HEAD has one.
pub proof fn law_targets_decide(
    files: Seq<ChangedFileView>,
    models_rel: Option<Seq<char>>,
    base: Seq<ModelFacts>,
    head: Seq<ModelFacts>,
    key: Seq<char>,
)
    ensures
        ({
            let changes = classified(files, models_rel, Some(base), Some(head));
            let before = target_touched(base, key, files, models_rel);
            let after = target_touched(head, key, files, models_rel);
            &&& changes.contains_key(key) <==> before || after
            &&& before && after ==> changes[key].status() == ModelDiffStatus::Modified
            &&& before && !after ==> changes[key].status() == ModelDiffStatus::Removed
            &&& !before && after ==> changes[key].status() == ModelDiffStatus::Added
        }),
{
    lemma_recorded_sides(all_sightings(files, models_rel, base, head), key);
    lemma_all_sightings(files, models_rel, base, head, key);
}

/// Whether `name` is the name of a touched model of this side with the target
/// `key`.
pub open spec fn touched_name(
    models: Seq<ModelFacts>,
    key: Seq<char>,
    name: Seq<char>,
    files: Seq<ChangedFileView>,
    models_rel: Option<Seq<char>>,
) -> bool {
    exists|i: int|
        0 <= i < models.len() && target_name(models[i]) == key && models[i].name == name
            && #[trigger] touched(models[i], files, models_rel)
}

proof fn lemma_recorded_names(sightings: Seq<Sighting>, key: Seq<char>)
    ensures
        ({
            let changes = recorded_all(Map::empty(), sightings);
            changes.contains_key(key) ==> {
                &&& changes[key].base_schema_name matches Some(name) ==> sightings.contains(
                    Sighting { key, name, is_base: true },
                )
                &&& changes[key].head_schema_name matches Some(name) ==> sightings.contains(
                    Sighting { key, name, is_base: false },
                ) && (name.len() > 0 ==> changes[key].model_name == name)
                &&& changes[key].head_schema_name is None ==> sightings.contains(
                    Sighting { key, name: changes[key].model_name, is_base: true },
                )
            }
        }),
    decreases sightings.len(),
{
    if sightings.len() > 0 {
        let front = sightings.drop_last();
        lemma_recorded_names(front, key);
        assert(sightings.contains(sightings.last()));
        assert forall|sighting: Sighting| front.contains(sighting) implies sightings.contains(
            sighting,
        ) by {
            let i = choose|i: int| 0 <= i < front.len() && front[i] == sighting;
            assert(sightings[i] == sighting);
        }
    }
}

proof fn lemma_side_source(
    models: Seq<ModelFacts>,
    path: Seq<char>,
    models_rel: Option<Seq<char>>,
    is_base: bool,
    sighting: Sighting,
)
    requires
        side_sightings(models, path, models_rel, is_base).contains(sighting),
    ensures
        sighting.is_base == is_base,
        exists|i: int|
            0 <= i < models.len() && target_name(models[i]) == sighting.key && models[i].name
                == sighting.name && #[trigger] path_belongs_to(models[i], path, models_rel),
{
    let f = |model: ModelFacts|
        if path_belongs_to(model, path, models_rel) {
            Some(Sighting { key: target_name(model), name: model.name, is_base })
        } else {
            None
        };
    assert(side_sightings(models, path, models_rel, is_base) == models.filter_map(f));
    models.lemma_filter_map_contains(f, sighting);
    let model = choose|model: ModelFacts| #[trigger]
        models.contains(model) && f(model) == Some(sighting);
    let i = choose|i: int| 0 <= i < models.len() && models[i] == model;
    assert(path_belongs_to(models[i], path, models_rel));
}

proof fn lemma_file_source(
    files: Seq<ChangedFileView>,
    at: int,
    models_rel: Option<Seq<char>>,
    base: Seq<ModelFacts>,
    head: Seq<ModelFacts>,
    sighting: Sighting,
)
    requires
        0 <= at < files.len(),
        file_sightings(files[at], models_rel, base, head).contains(sighting),
    ensures
        touched_name(
            if sighting.is_base {
                base
            } else {
                head
            },
            sighting.key,
            sighting.name,
            files,
            models_rel,
        ),
{
    let file = files[at];
    let row = file_sightings(file, models_rel, base, head);
    let renamed = file.status == 'R' && file.old_path is Some;
    let u = if renamed {
        side_sightings(base, file.old_path->0, models_rel, true)
    } else {
        Seq::empty()
    };
    let v = if renamed {
        side_sightings(head, file.old_path->0, models_rel, false)
    } else {
        Seq::empty()
    };
    let x = side_sightings(base, file.path, models_rel, true);
    let y = side_sightings(head, file.path, models_rel, false);
    assert(row =~= u + v + (x + y));
    let j = choose|j: int| 0 <= j < row.len() && row[j] == sighting;
    let (models, path, is_base) = if j < u.len() {
        assert(u[j] == sighting);
        (base, file.old_path->0, true)
    } else if j < u.len() + v.len() {
        assert(v[j - u.len()] == sighting);
        (head, file.old_path->0, false)
    } else if j < u.len() + v.len() + x.len() {
        assert(x[j - u.len() - v.len()] == sighting);
        (base, file.path, true)
    } else {
        assert(y[j - u.len() - v.len() - x.len()] == sighting);
        (head, file.path, false)
    };
    lemma_side_source(models, path, models_rel, is_base, sighting);
    let i = choose|i: int|
        0 <= i < models.len() && target_name(models[i]) == sighting.key && models[i].name
            == sighting.name && #[trigger] path_belongs_to(models[i], path, models_rel);
    assert(touched_by(models[i], files[at], models_rel));
    assert(touched(models[i], files, models_rel));
}

proof fn lemma_touched_name_more(
    models: Seq<ModelFacts>,
    key: Seq<char>,
    name: Seq<char>,
    files: Seq<ChangedFileView>,
    models_rel: Option<Seq<char>>,
)
    requires
        files.len() > 0,
        touched_name(models, key, name, files.drop_last(), models_rel),
    ensures
        touched_name(models, key, name, files, models_rel),
{
    let front = files.drop_last();
    let i = choose|i: int|
        0 <= i < models.len() && target_name(models[i]) == key && models[i].name == name
            && #[trigger] touched(models[i], front, models_rel);
    let j = choose|j: int|
        0 <= j < front.len() && #[trigger] touched_by(models[i], front[j], models_rel);
    assert(touched_by(models[i], files[j], models_rel));
    assert(touched(models[i], files, models_rel));
}

proof fn lemma_sighting_source(
    files: Seq<ChangedFileView>,
    models_rel: Option<Seq<char>>,
    base: Seq<ModelFacts>,
    head: Seq<ModelFacts>,
    sighting: Sighting,
)
    requires
        all_sightings(files, models_rel, base, head).contains(sighting),
    ensures
        touched_name(
            if sighting.is_base {
                base
            } else {
                head
            },
            sighting.key,
            sighting.name,
            files,
            models_rel,
        ),
    decreases files.len(),
{
    let row = all_sightings(files, models_rel, base, head);
    let i = choose|i: int| 0 <= i < row.len() && row[i] == sighting;
    let front = files.drop_last();
    let earlier = all_sightings(front, models_rel, base, head);
    let more = file_sightings(files.last(), models_rel, base, head);
    let models = if sighting.is_base {
        base
    } else {
        head
    };
    if i < earlier.len() {
        assert(earlier[i] == sighting);
        lemma_sighting_source(front, models_rel, base, head, sighting);
        lemma_touched_name_more(models, sighting.key, sighting.name, files, models_rel);
    } else {
        assert(more[i - earlier.len()] == sighting);
        lemma_file_source(files, files.len() - 1, models_rel, base, head, sighting);
    }
}

/// Where both revisions compiled, the schema names of a change are names of
/// touched models with its target, each from its own side. HEAD's name, unless it
/// is empty, is the one to show; where HEAD has none, one of the base's is.
pub proof fn law_names_come_from_their_side(
    files: Seq<ChangedFileView>,
    models_rel: Option<Seq<char>>,
    base: Seq<ModelFacts>,
    head: Seq<ModelFacts>,
    key: Seq<char>,
)
    requires
        classified(files, models_rel, Some(base), Some(head)).contains_key(key),
    ensures
        ({
            let change = classified(files, models_rel, Some(base), Some(head))[key];
            &&& change.base_schema_name matches Some(name) ==> touched_name(
                base,
                key,
                name,
                files,
                models_rel,
            )
            &&& change.head_schema_name matches Some(name) ==> touched_name(
                head,
                key,
                name,
                files,
                models_rel,
            )
            &&& change.head_schema_name matches Some(name) ==> name.len() > 0
                ==> change.model_name == name
            &&& change.head_schema_name is None ==> touched_name(
                base,
                key,
                change.model_name,
                files,
                models_rel,
            )
        }),
{
    let row = all_sightings(files, models_rel, base, head);
    let change = classified(files, models_rel, Some(base), Some(head))[key];
    lemma_recorded_names(row, key);
    if change.base_schema_name is Some {
        let name = change.base_schema_name->0;
        lemma_sighting_source(
            files,
            models_rel,
            base,
            head,
            Sighting { key, name, is_base: true },
        );
    }
    if change.head_schema_name is Some {
        let name = change.head_schema_name->0;
        lemma_sighting_source(
            files,
            models_rel,
            base,
            head,
            Sighting { key, name, is_base: false },
        );
    } else {
        lemma_sighting_source(
            files,
            models_rel,
            base,
            head,
            Sighting { key, name: change.model_name, is_base: true },
        );
    }
}

/// Where both revisions compiled, status letters decide nothing but whether an
/// old path counts: a contract that is added to a model, or taken from it, leaves
/// the model modified.
pub proof fn law_letters_do_not_decide(
    files: Seq<ChangedFileView>,
    others: Seq<ChangedFileView>,
    models_rel: Option<Seq<char>>,
    base: Seq<ModelFacts>,
    head: Seq<ModelFacts>,
)
    requires
        files.len() == others.len(),
        forall|i: int|
            #![trigger files[i], others[i]]
            0 <= i < files.len() ==> files[i].path == others[i].path && files[i].old_path
                == others[i].old_path && (files[i].status == 'R') == (others[i].status == 'R'),
    ensures
        classified(files, models_rel, Some(base), Some(head)) == classified(
            others,
            models_rel,
            Some(base),
            Some(head),
        ),
{
    lemma_letters_do_not_decide(files, others, models_rel, base, head);
}

proof fn lemma_letters_do_not_decide(
    files: Seq<ChangedFileView>,
    others: Seq<ChangedFileView>,
    models_rel: Option<Seq<char>>,
    base: Seq<ModelFacts>,
    head: Seq<ModelFacts>,
)
    requires
        files.len() == others.len(),
        forall|i: int|
            #![trigger files[i], others[i]]
            0 <= i < files.len() ==> files[i].path == others[i].path && files[i].old_path
                == others[i].old_path && (files[i].status == 'R') == (others[i].status == 'R'),
    ensures
        all_sightings(files, models_rel, base, head) == all_sightings(
            others,
            models_rel,
            base,
            head,
        ),
    decreases files.len(),
{
    if files.len() > 0 {
        let x = files.drop_last();
        let y = others.drop_last();
        assert(forall|i: int| 0 <= i < x.len() ==> #[trigger] x[i] == files[i]);
        assert(forall|i: int| 0 <= i < y.len() ==> #[trigger] y[i] == others[i]);
        lemma_letters_do_not_decide(x, y, models_rel, base, head);
        let last = files.len() - 1;
        assert(files[last].path == others[last].path);
    }
}

/// Without the models of both sides, the models of one side do not count.
pub proof fn law_one_side_alone_does_not_count(
    files: Seq<ChangedFileView>,
    models_rel: Option<Seq<char>>,
    models: Seq<ModelFacts>,
)
    ensures
        classified(files, models_rel, Some(models), None) == classified(
            files,
            models_rel,
            None,
            None,
        ),
        classified(files, models_rel, None, Some(models)) == classified(
            files,
            models_rel,
            None,
            None,
        ),
{
}

/// No model is reported as unchanged.
pub proof fn law_every_change_is_a_change(
    files: Seq<ChangedFileView>,
    models_rel: Option<Seq<char>>,
    base: Option<Seq<ModelFacts>>,
    head: Option<Seq<ModelFacts>>,
    key: Seq<char>,
)
    requires
        classified(files, models_rel, base, head).contains_key(key),
    ensures
        classified(files, models_rel, base, head)[key].status() != ModelDiffStatus::Unchanged,
{
    match (base, head) {
        (Some(base), Some(head)) => {
            law_targets_decide(files, models_rel, base, head, key);
        },
        _ => {
            lemma_settled_status_is_a_change(files, models_rel, key);
        },
    }
}

/// Whether the `i`th changed file belongs to the model `stem`.
pub open spec fn stem_at(
    files: Seq<ChangedFileView>,
    models_rel: Option<Seq<char>>,
    stem: Seq<char>,
    i: int,
) -> bool {
    0 <= i < files.len() && changed_stem(files[i], models_rel) == Some(stem)
}

proof fn lemma_first_significant(
    files: Seq<ChangedFileView>,
    models_rel: Option<Seq<char>>,
    stem: Seq<char>,
) -> (at: int)
    ensures
        match settled_status(files, models_rel, stem) {
            None => forall|i: int| !#[trigger] stem_at(files, models_rel, stem, i),
            Some(status) => {
                &&& stem_at(files, models_rel, stem, at)
                &&& letter_status(files[at].status) == status
                &&& forall|j: int| #[trigger]
                    stem_at(files, models_rel, stem, j) && (j < at || status
                        == ModelDiffStatus::Modified) ==> letter_status(files[j].status)
                        == ModelDiffStatus::Modified
            },
        },
    decreases files.len(),
{
    if files.len() == 0 {
        return 0;
    }
    let front = files.drop_last();
    let last = files.len() - 1;
    let before = lemma_first_significant(front, models_rel, stem);
    assert forall|i: int| stem_at(files, models_rel, stem, i) && i < last implies stem_at(
        front,
        models_rel,
        stem,
        i,
    ) && front[i] == files[i] by {}
    let earlier = settled_status(front, models_rel, stem);
    let at = if changed_stem(files.last(), models_rel) != Some(stem) || earlier is Some && earlier
        != Some(ModelDiffStatus::Modified) {
        before
    } else {
        last
    };
    if earlier is Some {
        assert(stem_at(files, models_rel, stem, before));
    }
    at
}

/// From file names alone, a model is reported exactly if a changed file belongs
/// to it. Anything more than a modification wins over a modification, whichever
/// comes first: the model counts as modified only if all its files do, and else
/// has the status of the first of its files that is more than modified.
pub proof fn law_significant_status_wins(
    files: Seq<ChangedFileView>,
    models_rel: Option<Seq<char>>,
    stem: Seq<char>,
)
    ensures
        ({
            let changes = classified(files, models_rel, None, None);
            &&& changes.contains_key(stem) <==> exists|i: int| #[trigger]
                stem_at(files, models_rel, stem, i)
            &&& changes.contains_key(stem) ==> {
                let status = changes[stem].status();
                &&& status == ModelDiffStatus::Modified <==> forall|i: int| #[trigger]
                    stem_at(files, models_rel, stem, i) ==> letter_status(files[i].status)
                        == ModelDiffStatus::Modified
                &&& exists|i: int|
                    {
                        &&& #[trigger] stem_at(files, models_rel, stem, i)
                        &&& letter_status(files[i].status) == status
                        &&& forall|j: int| #[trigger]
                            stem_at(files, models_rel, stem, j) && j < i ==> letter_status(
                                files[j].status,
                            ) == ModelDiffStatus::Modified
                    }
            }
        }),
{
    let at = lemma_first_significant(files, models_rel, stem);
    lemma_settled_status_is_a_change(files, models_rel, stem);
}

/// The fields of a changed model, one by one, and the models of a map.
pub proof fn law_changes_are_their_fields(change: ModelChange, changes: ModelChanges)
    ensures
        change@.model_name == change.model_name@,
        match change.base_schema_name {
            Some(name) => change@.base_schema_name == Some(name@),
            None => change@.base_schema_name is None,
        },
        match change.head_schema_name {
            Some(name) => change@.head_schema_name == Some(name@),
            None => change@.head_schema_name is None,
        },
        change_views(changes).dom() == changes@.dom(),
        forall|key: Seq<char>| #[trigger]
            changes@.contains_key(key) ==> change_views(changes)[key] == changes@[key]@,
{
    assert(change_views(changes).dom() =~= changes@.dom());
}

/// A model on both sides is modified, one on the base side alone is removed, one on
/// the HEAD side alone is added, and one on neither is unchanged.
pub proof fn law_sides_decide_on_the_status(change: ModelChangeView)
    ensures
        change.status() is Modified <==> change.base_schema_name is Some
            && change.head_schema_name is Some,
        change.status() is Removed <==> change.base_schema_name is Some
            && change.head_schema_name is None,
        change.status() is Added <==> change.base_schema_name is None
            && change.head_schema_name is Some,
        change.status() is Unchanged <==> change.base_schema_name is None
            && change.head_schema_name is None,
{
}

/// A sighting fills its own side of its own key and leaves all else as it was. The
/// name to show is that of the last sighting at HEAD, or of the first at the base
/// while there is none.
pub proof fn law_sighting_fills_its_side(
    changes: Map<Seq<char>, ModelChangeView>,
    sighting: Sighting,
)
    ensures
        ({
            let after = recorded(changes, sighting);
            let key = sighting.key;
            let known = changes.contains_key(key);
            &&& after.dom() == changes.dom().insert(key)
            &&& forall|other: Seq<char>| other != key && changes.contains_key(other)
                ==> #[trigger] after[other] == changes[other]
            &&& sighting.is_base ==> {
                &&& after[key].base_schema_name == Some(sighting.name)
                &&& after[key].head_schema_name == if known {
                    changes[key].head_schema_name
                } else {
                    None
                }
                &&& after[key].model_name == if known && changes[key].model_name.len() > 0 {
                    changes[key].model_name
                } else {
                    sighting.name
                }
            }
            &&& !sighting.is_base ==> {
                &&& after[key].head_schema_name == Some(sighting.name)
                &&& after[key].base_schema_name == if known {
                    changes[key].base_schema_name
                } else {
                    None
                }
                &&& after[key].model_name == sighting.name
            }
        }),
{
    assert(recorded(changes, sighting).dom() =~= changes.dom().insert(sighting.key));
}

/// Recording a row of sightings is recording them one by one, in their order.
pub proof fn law_sightings_are_recorded_in_order(
    changes: Map<Seq<char>, ModelChangeView>,
    row: Seq<Sighting>,
    last: Sighting,
)
    ensures
        recorded_all(changes, Seq::empty()) == changes,
        recorded_all(changes, row.push(last)) == recorded(recorded_all(changes, row), last),
{
    assert(row.push(last).drop_last() =~= row);
}

/// The models of one side are seen one by one, in their order: each that the path
/// belongs to, by its target and its name.
pub proof fn law_side_is_seen_in_order(
    models: Seq<ModelFacts>,
    model: ModelFacts,
    path: Seq<char>,
    models_rel: Option<Seq<char>>,
    is_base: bool,
)
    ensures
        side_sightings(Seq::empty(), path, models_rel, is_base) == Seq::<Sighting>::empty(),
        side_sightings(models.push(model), path, models_rel, is_base)
            == if path_belongs_to(model, path, models_rel) {
            side_sightings(models, path, models_rel, is_base).push(
                Sighting { key: target_name(model), name: model.name, is_base },
            )
        } else {
            side_sightings(models, path, models_rel, is_base)
        },
{
    let none = Seq::<ModelFacts>::empty();
    assert(side_sightings(none, path, models_rel, is_base) =~= Seq::empty());
    let more = models.push(model);
    assert(more.drop_last() =~= models);
    assert(side_sightings(more, path, models_rel, is_base) =~= if path_belongs_to(
        model,
        path,
        models_rel,
    ) {
        side_sightings(models, path, models_rel, is_base).push(
            Sighting { key: target_name(model), name: model.name, is_base },
        )
    } else {
        side_sightings(models, path, models_rel, is_base)
    });
}

/// An optional list of models stands for what tells these apart.
pub proof fn law_optional_models_stand_for_their_facts<R>(models: &[Model<R>])
    ensures
        optional_models(Some(models)) matches Some(facts) && facts.len() == models@.len()
            && forall|i: int|
            0 <= i < facts.len() ==> #[trigger] facts[i] == models@[i].facts(),
        optional_models::<R>(None) is None,
{
}

/// Where both revisions compiled, a target is reported exactly if one of the changed
/// files belongs to a model of that target, on either side, at its path or, for a
/// rename, at its old path; and it stands on the side, or sides, where there is such
/// a model.
pub proof fn law_files_decide_on_targets(
    files: Seq<ChangedFileView>,
    models_rel: Option<Seq<char>>,
    base: Seq<ModelFacts>,
    head: Seq<ModelFacts>,
    key: Seq<char>,
)
    ensures
        ({
            let changes = classified(files, models_rel, Some(base), Some(head));
            let before = exists|i: int, j: int|
                #![trigger base[i], files[j]]
                0 <= i < base.len() && 0 <= j < files.len() && target_name(base[i]) == key && (
                path_belongs_to(base[i], files[j].path, models_rel) || files[j].status == 'R' && (
                files[j].old_path matches Some(old_path) && path_belongs_to(
                    base[i],
                    old_path,
                    models_rel,
                )));
            let after = exists|i: int, j: int|
                #![trigger head[i], files[j]]
                0 <= i < head.len() && 0 <= j < files.len() && target_name(head[i]) == key && (
                path_belongs_to(head[i], files[j].path, models_rel) || files[j].status == 'R' && (
                files[j].old_path matches Some(old_path) && path_belongs_to(
                    head[i],
                    old_path,
                    models_rel,
                )));
            &&& changes.contains_key(key) <==> before || after
            &&& changes.contains_key(key) ==> {
                &&& changes[key].base_schema_name is Some <==> before
                &&& changes[key].head_schema_name is Some <==> after
            }
        }),
{
    lemma_recorded_sides(all_sightings(files, models_rel, base, head), key);
    lemma_all_sightings(files, models_rel, base, head, key);
    lemma_target_touched_inline(base, key, files, models_rel);
    lemma_target_touched_inline(head, key, files, models_rel);
}

proof fn lemma_target_touched_inline(
    models: Seq<ModelFacts>,
    key: Seq<char>,
    files: Seq<ChangedFileView>,
    models_rel: Option<Seq<char>>,
)
    ensures
        target_touched(models, key, files, models_rel) <==> exists|i: int, j: int|
            #![trigger models[i], files[j]]
            0 <= i < models.len() && 0 <= j < files.len() && target_name(models[i]) == key && (
            path_belongs_to(models[i], files[j].path, models_rel) || files[j].status == 'R' && (
            files[j].old_path matches Some(old_path) && path_belongs_to(
                models[i],
                old_path,
                models_rel,
            ))),
{
    if target_touched(models, key, files, models_rel) {
        let i = choose|i: int|
            0 <= i < models.len() && target_name(models[i]) == key && #[trigger] touched(
                models[i],
                files,
                models_rel,
            );
        let j = choose|j: int|
            0 <= j < files.len() && #[trigger] touched_by(models[i], files[j], models_rel);
        assert(touched_by(models[i], files[j], models_rel));
    }
    if exists|i: int, j: int|
        #![trigger models[i], files[j]]
        0 <= i < models.len() && 0 <= j < files.len() && target_name(models[i]) == key && (
        path_belongs_to(models[i], files[j].path, models_rel) || files[j].status == 'R' && (
        files[j].old_path matches Some(old_path) && path_belongs_to(
            models[i],
            old_path,
            models_rel,
        ))) {
        let (i, j) = choose|i: int, j: int|
            #![trigger models[i], files[j]]
            0 <= i < models.len() && 0 <= j < files.len() && target_name(models[i]) == key && (
            path_belongs_to(models[i], files[j].path, models_rel) || files[j].status == 'R' && (
            files[j].old_path matches Some(old_path) && path_belongs_to(
                models[i],
                old_path,
                models_rel,
            )));
        assert(touched_by(models[i], files[j], models_rel));
        assert(touched(models[i], files, models_rel));
    }
}

/// The name in the last sighting of a key on one side.
spec fn last_name(row: Seq<Sighting>, key: Seq<char>, is_base: bool) -> Option<Seq<char>>
    decreases row.len(),
{
    if row.len() == 0 {
        None
    } else if row.last().key == key && row.last().is_base == is_base {
        Some(row.last().name)
    } else {
        last_name(row.drop_last(), key, is_base)
    }
}

/// The name in the first sighting of a key on one side.
spec fn first_name(row: Seq<Sighting>, key: Seq<char>, is_base: bool) -> Option<Seq<char>>
    decreases row.len(),
{
    if row.len() == 0 {
        None
    } else {
        let before = first_name(row.drop_last(), key, is_base);
        if before is None && row.last().key == key && row.last().is_base == is_base {
            Some(row.last().name)
        } else {
            before
        }
    }
}

proof fn lemma_names_concat(a: Seq<Sighting>, b: Seq<Sighting>, key: Seq<char>, is_base: bool)
    ensures
        last_name(a + b, key, is_base) == if last_name(b, key, is_base) is Some {
            last_name(b, key, is_base)
        } else {
            last_name(a, key, is_base)
        },
        first_name(a + b, key, is_base) == if first_name(a, key, is_base) is Some {
            first_name(a, key, is_base)
        } else {
            first_name(b, key, is_base)
        },
    decreases b.len(),
{
    if b.len() == 0 {
        assert(a + b =~= a);
    } else {
        assert((a + b).drop_last() =~= a + b.drop_last());
        lemma_names_concat(a, b.drop_last(), key, is_base);
    }
}

proof fn lemma_recorded_ends(row: Seq<Sighting>, key: Seq<char>)
    ensures
        ({
            let changes = recorded_all(Map::empty(), row);
            let base = last_name(row, key, true);
            let head = last_name(row, key, false);
            let first = first_name(row, key, true);
            &&& changes.contains_key(key) <==> base is Some || head is Some
            &&& base is Some <==> first is Some
            &&& changes.contains_key(key) ==> {
                &&& changes[key].base_schema_name == base
                &&& changes[key].head_schema_name == head
                &&& head is None && first->0.len() > 0 ==> changes[key].model_name == first->0
                &&& head is Some && head->0.len() > 0 ==> changes[key].model_name == head->0
            }
        }),
    decreases row.len(),
{
    if row.len() > 0 {
        lemma_recorded_ends(row.drop_last(), key);
    }
}

/// Whether no model of a target is among those that a path belongs to.
spec fn none_at(
    models: Seq<ModelFacts>,
    key: Seq<char>,
    path: Seq<char>,
    models_rel: Option<Seq<char>>,
) -> bool {
    forall|n: int|
        0 <= n < models.len() && target_name(#[trigger] models[n]) == key ==> !path_belongs_to(
            models[n],
            path,
            models_rel,
        )
}

proof fn lemma_side_names(
    models: Seq<ModelFacts>,
    key: Seq<char>,
    path: Seq<char>,
    models_rel: Option<Seq<char>>,
    is_base: bool,
)
    ensures
        ({
            let row = side_sightings(models, path, models_rel, is_base);
            let none = none_at(models, key, path, models_rel);
            &&& last_name(row, key, !is_base) is None
            &&& first_name(row, key, !is_base) is None
            &&& last_name(row, key, is_base) is None <==> none
            &&& first_name(row, key, is_base) is None <==> none
        }),
    decreases models.len(),
{
    if models.len() == 0 {
        assert(side_sightings(models, path, models_rel, is_base) =~= Seq::empty());
    } else {
        let front = models.drop_last();
        let last = models.last();
        lemma_side_names(front, key, path, models_rel, is_base);
        law_side_is_seen_in_order(front, last, path, models_rel, is_base);
        assert(front.push(last) =~= models);
        let before = side_sightings(front, path, models_rel, is_base);
        let row = side_sightings(models, path, models_rel, is_base);
        if path_belongs_to(last, path, models_rel) {
            assert(row.drop_last() =~= before);
        }
        if none_at(models, key, path, models_rel) {
            assert(models[models.len() - 1] == last);
            assert forall|n: int|
                0 <= n < front.len() && target_name(#[trigger] front[n])
                    == key implies !path_belongs_to(front[n], path, models_rel) by {
                assert(front[n] == models[n]);
            }
        }
        if none_at(front, key, path, models_rel) && !(target_name(last) == key && path_belongs_to(
            last,
            path,
            models_rel,
        )) {
            assert forall|n: int|
                0 <= n < models.len() && target_name(#[trigger] models[n])
                    == key implies !path_belongs_to(models[n], path, models_rel) by {
                if n < front.len() {
                    assert(front[n] == models[n]);
                }
            }
        }
    }
}

proof fn lemma_side_last(
    models: Seq<ModelFacts>,
    m: int,
    path: Seq<char>,
    models_rel: Option<Seq<char>>,
    is_base: bool,
)
    requires
        0 <= m < models.len(),
        path_belongs_to(models[m], path, models_rel),
        forall|n: int|
            m < n < models.len() && target_name(#[trigger] models[n]) == target_name(models[m])
                ==> !path_belongs_to(models[n], path, models_rel),
    ensures
        last_name(
            side_sightings(models, path, models_rel, is_base),
            target_name(models[m]),
            is_base,
        ) == Some(models[m].name),
    decreases models.len(),
{
    let front = models.drop_last();
    let last = models.last();
    law_side_is_seen_in_order(front, last, path, models_rel, is_base);
    assert(front.push(last) =~= models);
    let before = side_sightings(front, path, models_rel, is_base);
    let row = side_sightings(models, path, models_rel, is_base);
    if path_belongs_to(last, path, models_rel) {
        assert(row.drop_last() =~= before);
    }
    if m < models.len() - 1 {
        assert forall|n: int|
            m < n < front.len() && target_name(#[trigger] front[n]) == target_name(
                front[m],
            ) implies !path_belongs_to(front[n], path, models_rel) by {
            assert(front[n] == models[n]);
        }
        lemma_side_last(front, m, path, models_rel, is_base);
        assert(models[models.len() - 1] == last);
    }
}

proof fn lemma_side_first(
    models: Seq<ModelFacts>,
    m: int,
    path: Seq<char>,
    models_rel: Option<Seq<char>>,
    is_base: bool,
)
    requires
        0 <= m < models.len(),
        path_belongs_to(models[m], path, models_rel),
        forall|n: int|
            0 <= n < m && target_name(#[trigger] models[n]) == target_name(models[m])
                ==> !path_belongs_to(models[n], path, models_rel),
    ensures
        first_name(
            side_sightings(models, path, models_rel, is_base),
            target_name(models[m]),
            is_base,
        ) == Some(models[m].name),
    decreases models.len(),
{
    let front = models.drop_last();
    let last = models.last();
    let key = target_name(models[m]);
    law_side_is_seen_in_order(front, last, path, models_rel, is_base);
    assert(front.push(last) =~= models);
    let before = side_sightings(front, path, models_rel, is_base);
    let row = side_sightings(models, path, models_rel, is_base);
    if path_belongs_to(last, path, models_rel) {
        assert(row.drop_last() =~= before);
    }
    if m < models.len() - 1 {
        assert forall|n: int|
            0 <= n < m && target_name(#[trigger] front[n]) == target_name(
                front[m],
            ) implies !path_belongs_to(front[n], path, models_rel) by {
            assert(front[n] == models[n]);
        }
        lemma_side_first(front, m, path, models_rel, is_base);
    } else {
        lemma_side_names(front, key, path, models_rel, is_base);
        assert forall|n: int|
            0 <= n < front.len() && target_name(#[trigger] front[n])
                == key implies !path_belongs_to(front[n], path, models_rel) by {
            assert(front[n] == models[n]);
        }
    }
}

proof fn lemma_file_names(
    file: ChangedFileView,
    models_rel: Option<Seq<char>>,
    base: Seq<ModelFacts>,
    head: Seq<ModelFacts>,
    key: Seq<char>,
    is_base: bool,
)
    ensures
        ({
            let row = file_sightings(file, models_rel, base, head);
            let models = if is_base {
                base
            } else {
                head
            };
            let here = side_sightings(models, file.path, models_rel, is_base);
            let there: Seq<Sighting> = if file.status == 'R' && file.old_path is Some {
                side_sightings(models, file.old_path->0, models_rel, is_base)
            } else {
                Seq::empty()
            };
            &&& last_name(row, key, is_base) == if last_name(here, key, is_base) is Some {
                last_name(here, key, is_base)
            } else {
                last_name(there, key, is_base)
            }
            &&& first_name(row, key, is_base) == if first_name(there, key, is_base) is Some {
                first_name(there, key, is_base)
            } else {
                first_name(here, key, is_base)
            }
        }),
{
    let x = side_sightings(base, file.path, models_rel, true);
    let y = side_sightings(head, file.path, models_rel, false);
    lemma_side_names(base, key, file.path, models_rel, true);
    lemma_side_names(head, key, file.path, models_rel, false);
    lemma_names_concat(x, y, key, is_base);
    if file.status == 'R' && file.old_path is Some {
        let old_path = file.old_path->0;
        let u = side_sightings(base, old_path, models_rel, true);
        let v = side_sightings(head, old_path, models_rel, false);
        lemma_side_names(base, key, old_path, models_rel, true);
        lemma_side_names(head, key, old_path, models_rel, false);
        lemma_names_concat(u, v, key, is_base);
        lemma_names_concat(u + v, x + y, key, is_base);
    }
}

/// Whether a changed file belongs to no model of a target, at its path and, for a
/// rename, at its old path.
spec fn none_in(
    models: Seq<ModelFacts>,
    key: Seq<char>,
    file: ChangedFileView,
    models_rel: Option<Seq<char>>,
) -> bool {
    none_at(models, key, file.path, models_rel) && (file.status == 'R' && file.old_path is Some
        ==> none_at(models, key, file.old_path->0, models_rel))
}

proof fn lemma_no_names_in(
    files: Seq<ChangedFileView>,
    models_rel: Option<Seq<char>>,
    base: Seq<ModelFacts>,
    head: Seq<ModelFacts>,
    key: Seq<char>,
    is_base: bool,
)
    requires
        forall|k: int|
            0 <= k < files.len() ==> none_in(
                if is_base {
                    base
                } else {
                    head
                },
                key,
                #[trigger] files[k],
                models_rel,
            ),
    ensures
        last_name(all_sightings(files, models_rel, base, head), key, is_base) is None,
        first_name(all_sightings(files, models_rel, base, head), key, is_base) is None,
    decreases files.len(),
{
    if files.len() > 0 {
        let front = files.drop_last();
        assert(forall|k: int| 0 <= k < front.len() ==> #[trigger] front[k] == files[k]);
        lemma_no_names_in(front, models_rel, base, head, key, is_base);
        lemma_no_names_in_file(files[files.len() - 1], models_rel, base, head, key, is_base);
        lemma_names_concat(
            all_sightings(front, models_rel, base, head),
            file_sightings(files.last(), models_rel, base, head),
            key,
            is_base,
        );
    }
}

proof fn lemma_no_names_in_file(
    file: ChangedFileView,
    models_rel: Option<Seq<char>>,
    base: Seq<ModelFacts>,
    head: Seq<ModelFacts>,
    key: Seq<char>,
    is_base: bool,
)
    requires
        none_in(
            if is_base {
                base
            } else {
                head
            },
            key,
            file,
            models_rel,
        ),
    ensures
        last_name(file_sightings(file, models_rel, base, head), key, is_base) is None,
        first_name(file_sightings(file, models_rel, base, head), key, is_base) is None,
{
    let models = if is_base {
        base
    } else {
        head
    };
    lemma_file_names(file, models_rel, base, head, key, is_base);
    lemma_side_names(models, key, file.path, models_rel, is_base);
    if file.old_path is Some {
        lemma_side_names(models, key, file.old_path->0, models_rel, is_base);
    }
}

proof fn lemma_last_of_files(
    files: Seq<ChangedFileView>,
    models_rel: Option<Seq<char>>,
    base: Seq<ModelFacts>,
    head: Seq<ModelFacts>,
    key: Seq<char>,
    is_base: bool,
    j: int,
)
    requires
        0 <= j < files.len(),
        forall|k: int|
            j < k < files.len() ==> none_in(
                if is_base {
                    base
                } else {
                    head
                },
                key,
                #[trigger] files[k],
                models_rel,
            ),
        last_name(file_sightings(files[j], models_rel, base, head), key, is_base) is Some,
    ensures
        last_name(all_sightings(files, models_rel, base, head), key, is_base) == last_name(
            file_sightings(files[j], models_rel, base, head),
            key,
            is_base,
        ),
    decreases files.len(),
{
    let front = files.drop_last();
    lemma_names_concat(
        all_sightings(front, models_rel, base, head),
        file_sightings(files.last(), models_rel, base, head),
        key,
        is_base,
    );
    if j < files.len() - 1 {
        lemma_no_names_in_file(files[files.len() - 1], models_rel, base, head, key, is_base);
        assert(forall|k: int| 0 <= k < front.len() ==> #[trigger] front[k] == files[k]);
        lemma_last_of_files(front, models_rel, base, head, key, is_base, j);
    }
}

proof fn lemma_first_of_files(
    files: Seq<ChangedFileView>,
    models_rel: Option<Seq<char>>,
    base: Seq<ModelFacts>,
    head: Seq<ModelFacts>,
    key: Seq<char>,
    is_base: bool,
    j: int,
)
    requires
        0 <= j < files.len(),
        forall|k: int|
            0 <= k < j ==> none_in(
                if is_base {
                    base
                } else {
                    head
                },
                key,
                #[trigger] files[k],
                models_rel,
            ),
        first_name(file_sightings(files[j], models_rel, base, head), key, is_base) is Some,
    ensures
        first_name(all_sightings(files, models_rel, base, head), key, is_base) == first_name(
            file_sightings(files[j], models_rel, base, head),
            key,
            is_base,
        ),
    decreases files.len(),
{
    let front = files.drop_last();
    assert(forall|k: int| 0 <= k < front.len() ==> #[trigger] front[k] == files[k]);
    lemma_names_concat(
        all_sightings(front, models_rel, base, head),
        file_sightings(files.last(), models_rel, base, head),
        key,
        is_base,
    );
    if j < files.len() - 1 {
        lemma_first_of_files(front, models_rel, base, head, key, is_base, j);
    } else {
        lemma_no_names_in(front, models_rel, base, head, key, is_base);
    }
}

/// Where both revisions compiled, the schema name of a target on a side is that of
/// the model seen last: the last of the side's models with that target to which the
/// last changed file that belongs to one belongs, at its path or, failing that, at
/// the old path of a rename. HEAD's name, unless it is empty, is the one to show.
pub proof fn law_last_model_names_its_side(
    files: Seq<ChangedFileView>,
    models_rel: Option<Seq<char>>,
    base: Seq<ModelFacts>,
    head: Seq<ModelFacts>,
    is_base: bool,
    models: Seq<ModelFacts>,
    j: int,
    m: int,
    path: Seq<char>,
)
    requires
        models == if is_base {
            base
        } else {
            head
        },
        ({
            let key = target_name(models[m]);
            &&& 0 <= j < files.len()
            &&& 0 <= m < models.len()
            &&& path_belongs_to(models[m], path, models_rel)
            &&& forall|n: int|
                m < n < models.len() && target_name(#[trigger] models[n]) == key
                    ==> !path_belongs_to(models[n], path, models_rel)
            &&& path == files[j].path || (files[j].status == 'R' && files[j].old_path == Some(path)
                && forall|n: int|
                0 <= n < models.len() && target_name(#[trigger] models[n]) == key
                    ==> !path_belongs_to(models[n], files[j].path, models_rel))
            &&& forall|k: int, n: int|
                #![trigger files[k], models[n]]
                j < k < files.len() && 0 <= n < models.len() && target_name(models[n]) == key
                    ==> !path_belongs_to(models[n], files[k].path, models_rel) && (files[k].status
                    == 'R' && files[k].old_path is Some ==> !path_belongs_to(
                    models[n],
                    files[k].old_path->0,
                    models_rel,
                ))
        }),
    ensures
        ({
            let changes = classified(files, models_rel, Some(base), Some(head));
            let key = target_name(models[m]);
            &&& changes.contains_key(key)
            &&& is_base ==> changes[key].base_schema_name == Some(models[m].name)
            &&& !is_base ==> changes[key].head_schema_name == Some(models[m].name)
            &&& !is_base && models[m].name.len() > 0 ==> changes[key].model_name == models[m].name
        }),
{
    let key = target_name(models[m]);
    lemma_side_last(models, m, path, models_rel, is_base);
    lemma_file_names(files[j], models_rel, base, head, key, is_base);
    lemma_side_names(models, key, files[j].path, models_rel, is_base);
    assert forall|k: int| j < k < files.len() implies none_in(
        models,
        key,
        #[trigger] files[k],
        models_rel,
    ) by {}
    lemma_last_of_files(files, models_rel, base, head, key, is_base, j);
    lemma_recorded_ends(all_sightings(files, models_rel, base, head), key);
}

/// Where both revisions compiled, the name to show for a target that HEAD has no
/// touched model of is that of the base's model seen first, unless it is empty: the
/// first of its models with that target to which the first changed file that belongs
/// to one belongs, at the old path of a rename or, failing that, at its path.
pub proof fn law_first_model_names_a_removed_target(
    files: Seq<ChangedFileView>,
    models_rel: Option<Seq<char>>,
    base: Seq<ModelFacts>,
    head: Seq<ModelFacts>,
    j: int,
    m: int,
    path: Seq<char>,
)
    requires
        ({
            let key = target_name(base[m]);
            &&& 0 <= j < files.len()
            &&& 0 <= m < base.len()
            &&& base[m].name.len() > 0
            &&& path_belongs_to(base[m], path, models_rel)
            &&& forall|n: int|
                0 <= n < m && target_name(#[trigger] base[n]) == key ==> !path_belongs_to(
                    base[n],
                    path,
                    models_rel,
                )
            &&& if files[j].status == 'R' && files[j].old_path is Some {
                path == files[j].old_path->0 || (path == files[j].path && forall|n: int|
                    0 <= n < base.len() && target_name(#[trigger] base[n]) == key
                        ==> !path_belongs_to(base[n], files[j].old_path->0, models_rel))
            } else {
                path == files[j].path
            }
            &&& forall|k: int, n: int|
                #![trigger files[k], base[n]]
                0 <= k < j && 0 <= n < base.len() && target_name(base[n]) == key
                    ==> !path_belongs_to(base[n], files[k].path, models_rel) && (files[k].status
                    == 'R' && files[k].old_path is Some ==> !path_belongs_to(
                    base[n],
                    files[k].old_path->0,
                    models_rel,
                ))
            &&& classified(files, models_rel, Some(base), Some(head))[key].head_schema_name is None
        }),
    ensures
        classified(files, models_rel, Some(base), Some(head)).contains_key(target_name(base[m])),
        classified(files, models_rel, Some(base), Some(head))[target_name(base[m])].model_name
            == base[m].name,
{
    let key = target_name(base[m]);
    lemma_side_first(base, m, path, models_rel, true);
    lemma_file_names(files[j], models_rel, base, head, key, true);
    if files[j].old_path is Some {
        lemma_side_names(base, key, files[j].old_path->0, models_rel, true);
    }
    assert forall|k: int| 0 <= k < j implies none_in(
        base,
        key,
        #[trigger] files[k],
        models_rel,
    ) by {}
    lemma_first_of_files(files, models_rel, base, head, key, true, j);
    lemma_recorded_ends(all_sightings(files, models_rel, base, head), key);
}

/// From file names alone, a file counts for the stem of its path and, only where
/// that has none, for the stem of its old path.
pub proof fn law_old_path_stands_in(file: ChangedFileView, models_rel: Option<Seq<char>>)
    ensures
        stem_of_path(file.path, models_rel) is Some ==> changed_stem(file, models_rel)
            == stem_of_path(file.path, models_rel),
        stem_of_path(file.path, models_rel) is None && file.old_path is Some ==> changed_stem(
            file,
            models_rel,
        ) == stem_of_path(file.old_path->0, models_rel),
        stem_of_path(file.path, models_rel) is None && file.old_path is None ==> changed_stem(
            file,
            models_rel,
        ) is None,
{
}

/// An addition and a copy add a model, a deletion removes it, and any other letter
/// modifies it.
pub proof fn law_letters_and_what_they_say(letter: char)
    ensures
        letter_status(letter) is Added <==> letter == 'A' || letter == 'C',
        letter_status(letter) is Removed <==> letter == 'D',
        letter_status(letter) is Modified <==> letter != 'A' && letter != 'C' && letter != 'D',
{
}

/// From file names alone, a model is reported exactly if a changed file has its stem,
/// under that stem and with it as its name. It stands at the base unless its first
/// file that is more than modified is added or copied, and at HEAD unless that file
/// is deleted.
pub proof fn law_files_decide_on_stems(
    files: Seq<ChangedFileView>,
    models_rel: Option<Seq<char>>,
    stem: Seq<char>,
)
    ensures
        ({
            let changes = classified(files, models_rel, None, None);
            &&& changes.contains_key(stem) <==> exists|i: int|
                0 <= i < files.len() && changed_stem(#[trigger] files[i], models_rel) == Some(stem)
            &&& changes.contains_key(stem) ==> {
                &&& changes[stem].model_name == stem
                &&& changes[stem].base_schema_name matches Some(name) ==> name == stem
                &&& changes[stem].head_schema_name matches Some(name) ==> name == stem
            }
            &&& forall|i: int|
                0 <= i < files.len() && changed_stem(#[trigger] files[i], models_rel) == Some(stem)
                    && (files[i].status == 'A' || files[i].status == 'C' || files[i].status == 'D')
                    && (forall|j: int|
                    0 <= j < i && changed_stem(#[trigger] files[j], models_rel) == Some(stem)
                        ==> files[j].status != 'A' && files[j].status != 'C' && files[j].status
                        != 'D') ==> {
                    &&& changes[stem].base_schema_name is Some <==> files[i].status == 'D'
                    &&& changes[stem].head_schema_name is Some <==> files[i].status != 'D'
                }
            &&& changes.contains_key(stem) && (forall|i: int|
                0 <= i < files.len() && changed_stem(#[trigger] files[i], models_rel) == Some(stem)
                    ==> files[i].status != 'A' && files[i].status != 'C' && files[i].status != 'D')
                ==> changes[stem].base_schema_name is Some && changes[stem].head_schema_name is Some
        }),
{
    let changes = classified(files, models_rel, None, None);
    let at = lemma_first_significant(files, models_rel, stem);
    let settled = settled_status(files, models_rel, stem);
    if settled is Some {
        assert(stem_at(files, models_rel, stem, at));
        assert(changed_stem(files[at], models_rel) == Some(stem));
    } else {
        assert forall|i: int| 0 <= i < files.len() implies changed_stem(
            #[trigger] files[i],
            models_rel,
        ) != Some(stem) by {
            assert(!stem_at(files, models_rel, stem, i));
        }
    }
    assert forall|i: int|
        0 <= i < files.len() && changed_stem(#[trigger] files[i], models_rel) == Some(stem) && (
        files[i].status == 'A' || files[i].status == 'C' || files[i].status == 'D') && (forall|
            j: int,
        |
            0 <= j < i && changed_stem(#[trigger] files[j], models_rel) == Some(stem)
                ==> files[j].status != 'A' && files[j].status != 'C' && files[j].status
                != 'D') implies {
        &&& changes[stem].base_schema_name is Some <==> files[i].status == 'D'
        &&& changes[stem].head_schema_name is Some <==> files[i].status != 'D'
    } by {
        assert(stem_at(files, models_rel, stem, i));
        if at < i {
            assert(files[at].status != 'A');
        }
        assert(at == i);
    }
}

/// The changed files are looked at in their order, each at its old path first if it
/// is a rename and then at its path, and each path at the base before HEAD.
pub proof fn law_files_are_looked_at_in_order(
    files: Seq<ChangedFileView>,
    file: ChangedFileView,
    models_rel: Option<Seq<char>>,
    base: Seq<ModelFacts>,
    head: Seq<ModelFacts>,
)
    ensures
        ({
            let here = side_sightings(base, file.path, models_rel, true) + side_sightings(
                head,
                file.path,
                models_rel,
                false,
            );
            let there: Seq<Sighting> = if file.status == 'R' && file.old_path is Some {
                side_sightings(base, file.old_path->0, models_rel, true) + side_sightings(
                    head,
                    file.old_path->0,
                    models_rel,
                    false,
                )
            } else {
                Seq::empty()
            };
            let before = classified(files, models_rel, Some(base), Some(head));
            let after = classified(files.push(file), models_rel, Some(base), Some(head));
            &&& classified(Seq::empty(), models_rel, Some(base), Some(head)) == Map::<
                Seq<char>,
                ModelChangeView,
            >::empty()
            &&& after == recorded_all(before, there + here)
        }),
{
    assert(files.push(file).drop_last() =~= files);
    let row = file_sightings(file, models_rel, base, head);
    lemma_recorded_all_concat(Map::empty(), all_sightings(files, models_rel, base, head), row);
    let here = side_sightings(base, file.path, models_rel, true) + side_sightings(
        head,
        file.path,
        models_rel,
        false,
    );
    if !(file.status == 'R' && file.old_path is Some) {
        assert(Seq::<Sighting>::empty() + here =~= row);
    }
}

/// A change of which nothing is known has no name and stands on no side.
pub proof fn law_blank_change_is_blank()
    ensures
        ModelChangeView::blank().model_name.len() == 0,
        ModelChangeView::blank().base_schema_name is None,
        ModelChangeView::blank().head_schema_name is None,
{
}

} // verus!

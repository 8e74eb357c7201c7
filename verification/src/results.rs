//! The report: one result for each changed model, and their counts.

use vstd::prelude::*;
use vstd::string::*;

use crate::classify::{
    change_views, classified, law_every_change_is_a_change, ModelChange, ModelChangeView,
    ModelChanges, ModelDiffStatus,
};
use crate::columns::{
    added_column, all_added, all_removed, column_diffs, column_views, diff_columns, diff_views,
    law_differences_are_exact, law_empty_side, law_last_column_of_a_name_counts,
    law_no_difference_to_itself, one_type_per_name, removed_column, reported, type_of,
    ColumnChangeType, ColumnDiff, ColumnDiffView, TypedColumn, TypedColumnView,
};
use crate::git::{optional_text, ChangedFileView};
use crate::models::ModelFacts;
use crate::order::{
    in_order, lemma_in_order_antisymmetric, lemma_in_order_total, lemma_in_order_transitive,
    ordered,
};
use crate::string_map::StringMap;
use crate::text::strings;

verus! {

/// What happened to one model.
#[derive(Debug, Clone)]
pub struct DiffResult {
    pub model_name: String,
    pub status: ModelDiffStatus,
    pub row_count_before: Option<u64>,
    pub row_count_after: Option<u64>,
    pub column_changes: Vec<ColumnDiff>,
    pub sample_changed_rows: Option<Vec<String>>,
}

/// What a [`DiffResult`] holds.
#[verifier::ext_equal]
pub struct DiffResultView {
    pub model_name: Seq<char>,
    pub status: ModelDiffStatus,
    pub row_count_before: Option<u64>,
    pub row_count_after: Option<u64>,
    pub column_changes: Seq<ColumnDiffView>,
    pub sample_changed_rows: Option<Seq<Seq<char>>>,
}

impl View for DiffResult {
    type V = DiffResultView;

    open spec fn view(&self) -> DiffResultView {
        DiffResultView {
            model_name: self.model_name@,
            status: self.status,
            row_count_before: self.row_count_before,
            row_count_after: self.row_count_after,
            column_changes: diff_views(self.column_changes@),
            sample_changed_rows: match self.sample_changed_rows {
                Some(rows) => Some(strings(rows@)),
                None => None,
            },
        }
    }
}

/// The contents of a list of results.
pub open spec fn result_views(results: Seq<DiffResult>) -> Seq<DiffResultView> {
    Seq::new(results.len(), |i: int| results[i]@)
}

/// The columns of models, by model name.
pub type Schemas = StringMap<Vec<TypedColumn>>;

/// The contents of a map of columns.
pub open spec fn schema_views(schemas: Schemas) -> Map<Seq<char>, Seq<TypedColumnView>> {
    Map::new(
        |name: Seq<char>| schemas@.contains_key(name),
        |name: Seq<char>| column_views(schemas@[name]@),
    )
}

/// The columns that an optional name leads to.
pub open spec fn columns_named(
    schemas: Map<Seq<char>, Seq<TypedColumnView>>,
    name: Option<Seq<char>>,
) -> Option<Seq<TypedColumnView>> {
    match name {
        Some(name) => if schemas.contains_key(name) {
            Some(schemas[name])
        } else {
            None
        },
        None => None,
    }
}

/// The column changes of a changed model: the differences for a modified model
/// whose columns are known on both sides, every column for one that is added or
/// removed, and none where the columns are not known.
pub open spec fn changed_columns(
    change: ModelChangeView,
    head: Map<Seq<char>, Seq<TypedColumnView>>,
    base: Map<Seq<char>, Seq<TypedColumnView>>,
) -> Seq<ColumnDiffView> {
    let before = columns_named(base, change.base_schema_name);
    let after = columns_named(head, change.head_schema_name);
    match change.status() {
        ModelDiffStatus::Modified => match (before, after) {
            (Some(before), Some(after)) => column_diffs(before, after),
            _ => Seq::empty(),
        },
        ModelDiffStatus::Added => match after {
            Some(after) => after.map_values(|column: TypedColumnView| added_column(column)),
            None => Seq::empty(),
        },
        ModelDiffStatus::Removed => match before {
            Some(before) => before.map_values(|column: TypedColumnView| removed_column(column)),
            None => Seq::empty(),
        },
        ModelDiffStatus::Unchanged => Seq::empty(),
    }
}

/// The result for a changed model. Rows are neither counted nor sampled.
pub open spec fn described(
    change: ModelChangeView,
    head: Map<Seq<char>, Seq<TypedColumnView>>,
    base: Map<Seq<char>, Seq<TypedColumnView>>,
) -> DiffResultView {
    DiffResultView {
        model_name: change.model_name,
        status: change.status(),
        row_count_before: None,
        row_count_after: None,
        column_changes: changed_columns(change, head, base),
        sample_changed_rows: None,
    }
}

/// The results for changed models, one for each key.
pub open spec fn all_described(
    keys: Seq<Seq<char>>,
    changes: Map<Seq<char>, ModelChangeView>,
    head: Map<Seq<char>, Seq<TypedColumnView>>,
    base: Map<Seq<char>, Seq<TypedColumnView>>,
) -> Seq<DiffResultView> {
    keys.map_values(|key: Seq<char>| described(changes[key], head, base))
}

/// Whether results stand in the order of their model names.
pub open spec fn sorted_by_name(results: Seq<DiffResultView>) -> bool {
    forall|i: int, j: int|
        0 <= i < j < results.len() ==> in_order(
            (#[trigger] results[i]).model_name,
            (#[trigger] results[j]).model_name,
        )
}

/// Whether `results` is a report of the changed models: the result of each key,
/// in the order of the model names.
pub open spec fn is_report(
    results: Seq<DiffResultView>,
    keys: Seq<Seq<char>>,
    changes: Map<Seq<char>, ModelChangeView>,
    head: Map<Seq<char>, Seq<TypedColumnView>>,
    base: Map<Seq<char>, Seq<TypedColumnView>>,
) -> bool {
    &&& results.to_multiset() == all_described(keys, changes, head, base).to_multiset()
    &&& sorted_by_name(results)
}

/// Finds the columns that an optional name leads to.
fn find_columns<'a>(schemas: &'a Schemas, name: &Option<String>) -> (r: Option<
    &'a Vec<TypedColumn>,
>)
    ensures
        match r {
            Some(columns) => columns_named(schema_views(*schemas), optional_text(*name)) == Some(
                column_views(columns@),
            ),
            None => columns_named(schema_views(*schemas), optional_text(*name)) is None,
        },
{
    match name {
        Some(name) => schemas.get(name.as_str()),
        None => None,
    }
}

/// Describes a changed model.
pub fn describe_change(
    change: &ModelChange,
    head_schemas: &Schemas,
    base_schemas: &Schemas,
) -> (r: DiffResult)
    ensures
        r@ == described(change@, schema_views(*head_schemas), schema_views(*base_schemas)),
{
    let status = change.status();
    let base_cols = find_columns(base_schemas, &change.base_schema_name);
    let head_cols = find_columns(head_schemas, &change.head_schema_name);
    let column_changes: Vec<ColumnDiff> = match status {
        ModelDiffStatus::Modified => match (base_cols, head_cols) {
            (Some(base), Some(head)) => diff_columns(base.as_slice(), head.as_slice()),
            _ => Vec::new(),
        },
        ModelDiffStatus::Added => match head_cols {
            Some(cols) => all_added(cols.as_slice()),
            None => Vec::new(),
        },
        ModelDiffStatus::Removed => match base_cols {
            Some(cols) => all_removed(cols.as_slice()),
            None => Vec::new(),
        },
        ModelDiffStatus::Unchanged => Vec::new(),
    };
    assert(diff_views(column_changes@) =~= changed_columns(
        change@,
        schema_views(*head_schemas),
        schema_views(*base_schemas),
    ));
    DiffResult {
        model_name: change.model_name.as_str().to_owned(),
        status,
        row_count_before: None,
        row_count_after: None,
        column_changes,
        sample_changed_rows: None,
    }
}

/// Puts a result behind those whose names come before its own or are equal.
fn insert_by_name(results: &mut Vec<DiffResult>, result: DiffResult)
    requires
        sorted_by_name(result_views(old(results)@)),
    ensures
        sorted_by_name(result_views(final(results)@)),
        result_views(final(results)@).to_multiset() == result_views(
            old(results)@,
        ).to_multiset().insert(result@),
{
    let ghost before = result_views(results@);
    let ghost name = result@.model_name;
    let mut at: usize = results.len();
    while at > 0 && !ordered(results[at - 1].model_name.as_str(), result.model_name.as_str())
        invariant
            at <= results@.len(),
            before == result_views(results@),
            name == result.model_name@,
            forall|j: int|
                at <= j < before.len() ==> !in_order((#[trigger] before[j]).model_name, name),
        decreases at,
    {
        at -= 1;
    }
    proof {
        assert forall|j: int| 0 <= j < at implies in_order(
            (#[trigger] before[j]).model_name,
            name,
        ) by {
            let last = before[at - 1].model_name;
            assert(in_order(last, name));
            if j < at - 1 {
                assert(in_order(before[j].model_name, last));
                lemma_in_order_transitive(before[j].model_name, last, name);
            }
        }
        assert forall|j: int| at <= j < before.len() implies in_order(
            name,
            (#[trigger] before[j]).model_name,
        ) by {
            lemma_in_order_total(name, before[j].model_name);
        }
    }
    let ghost added = result@;
    results.insert(at, result);
    proof {
        assert(result_views(results@) =~= before.insert(at as int, added));
        vstd::seq_lib::to_multiset_insert(before, at as int, added);
    }
}

/// Builds the report from the changed models and the columns on both sides,
/// sorted by model name. Results of one name may stand in any order among
/// themselves.
pub fn build_diff_results(
    model_changes: &ModelChanges,
    head_schemas: &Schemas,
    base_schemas: &Schemas,
) -> (r: Vec<DiffResult>)
    ensures
        is_report(
            result_views(r@),
            model_changes.order(),
            change_views(*model_changes),
            schema_views(*head_schemas),
            schema_views(*base_schemas),
        ),
        model_changes.order().no_duplicates(),
        change_views(*model_changes).dom() == model_changes.order().to_set(),
{
    let ghost keys = model_changes.order();
    let ghost changes = change_views(*model_changes);
    let ghost head = schema_views(*head_schemas);
    let ghost base = schema_views(*base_schemas);
    let ghost all = all_described(keys, changes, head, base);
    let mut results: Vec<DiffResult> = Vec::new();
    let count: usize = model_changes.len();
    let mut i: usize = 0;
    assert(result_views(results@) =~= all.take(0));
    while i < count
        invariant
            count == keys.len(),
            i <= count,
            keys == model_changes.order(),
            changes == change_views(*model_changes),
            head == schema_views(*head_schemas),
            base == schema_views(*base_schemas),
            all == all_described(keys, changes, head, base),
            sorted_by_name(result_views(results@)),
            result_views(results@).to_multiset() == all.take(i as int).to_multiset(),
        decreases count - i,
    {
        let change = model_changes.value_at(i);
        let result = describe_change(change, head_schemas, base_schemas);
        proof {
            assert(changes[keys[i as int]] == change@);
            assert(all[i as int] == result@);
            assert(all.take(i + 1) =~= all.take(i as int).push(result@));
            vstd::seq_lib::to_multiset_build(all.take(i as int), result@);
        }
        insert_by_name(&mut results, result);
        i += 1;
    }
    assert(all.take(all.len() as int) =~= all);
    assert(changes.dom() =~= model_changes@.dom());
    results
}

/// How many models have which status.
#[derive(Debug, Clone, Copy, PartialEq, Eq, Structural)]
pub struct DiffSummary {
    pub total_models: usize,
    pub unchanged: usize,
    pub modified: usize,
    pub added: usize,
    pub removed: usize,
}

/// The number of results with a status.
pub open spec fn status_count(results: Seq<DiffResultView>, status: ModelDiffStatus) -> nat
    decreases results.len(),
{
    if results.len() == 0 {
        0
    } else {
        status_count(results.drop_last(), status) + if results.last().status == status {
            1nat
        } else {
            0nat
        }
    }
}

/// Whether `summary` holds the counts of `results`.
pub open spec fn summarizes(summary: DiffSummary, results: Seq<DiffResultView>) -> bool {
    &&& summary.total_models == results.len()
    &&& summary.unchanged == status_count(results, ModelDiffStatus::Unchanged)
    &&& summary.modified == status_count(results, ModelDiffStatus::Modified)
    &&& summary.added == status_count(results, ModelDiffStatus::Added)
    &&& summary.removed == status_count(results, ModelDiffStatus::Removed)
}

impl DiffSummary {
    /// The summary of a report without results.
    pub fn empty() -> (r: Self)
        ensures
            summarizes(r, Seq::empty()),
    {
        DiffSummary { total_models: 0, unchanged: 0, modified: 0, added: 0, removed: 0 }
    }

    /// Counts the results by status.
    pub fn from_results(results: &[DiffResult]) -> (r: Self)
        ensures
            summarizes(r, result_views(results@)),
    {
        let ghost all = result_views(results@);
        let mut unchanged: usize = 0;
        let mut modified: usize = 0;
        let mut added: usize = 0;
        let mut removed: usize = 0;
        let mut i: usize = 0;
        while i < results.len()
            invariant
                i <= results@.len(),
                all == result_views(results@),
                unchanged == status_count(all.take(i as int), ModelDiffStatus::Unchanged),
                modified == status_count(all.take(i as int), ModelDiffStatus::Modified),
                added == status_count(all.take(i as int), ModelDiffStatus::Added),
                removed == status_count(all.take(i as int), ModelDiffStatus::Removed),
                unchanged + modified + added + removed == i,
            decreases results@.len() - i,
        {
            proof {
                assert(all.take(i + 1).drop_last() =~= all.take(i as int));
                assert(all.take(i + 1).last() == results@[i as int]@);
            }
            match results[i].status {
                ModelDiffStatus::Unchanged => {
                    unchanged += 1;
                },
                ModelDiffStatus::Modified => {
                    modified += 1;
                },
                ModelDiffStatus::Added => {
                    added += 1;
                },
                ModelDiffStatus::Removed => {
                    removed += 1;
                },
            }
            i += 1;
        }
        assert(all.take(all.len() as int) =~= all);
        DiffSummary { total_models: results.len(), unchanged, modified, added, removed }
    }
}

/// Every result is counted once.
pub proof fn law_counts_add_up(results: Seq<DiffResultView>)
    ensures
        status_count(results, ModelDiffStatus::Unchanged) + status_count(
            results,
            ModelDiffStatus::Modified,
        ) + status_count(results, ModelDiffStatus::Added) + status_count(
            results,
            ModelDiffStatus::Removed,
        ) == results.len(),
    decreases results.len(),
{
    if results.len() > 0 {
        law_counts_add_up(results.drop_last());
    }
}

/// A report has one result for each changed model, and no others.
pub proof fn law_one_result_for_each_change(
    results: Seq<DiffResultView>,
    keys: Seq<Seq<char>>,
    changes: Map<Seq<char>, ModelChangeView>,
    head: Map<Seq<char>, Seq<TypedColumnView>>,
    base: Map<Seq<char>, Seq<TypedColumnView>>,
)
    requires
        is_report(results, keys, changes, head, base),
        keys.no_duplicates(),
        keys.to_set() == changes.dom(),
    ensures
        results.len() == changes.dom().len(),
        forall|result: DiffResultView|
            results.contains(result) <==> exists|key: Seq<char>| #[trigger]
                changes.contains_key(key) && described(changes[key], head, base) == result,
{
    let all = all_described(keys, changes, head, base);
    vstd::seq_lib::to_multiset_len(results);
    vstd::seq_lib::to_multiset_len(all);
    keys.unique_seq_to_set();
    assert forall|result: DiffResultView|
        results.contains(result) <==> exists|key: Seq<char>| #[trigger]
            changes.contains_key(key) && described(changes[key], head, base) == result by {
        vstd::seq_lib::to_multiset_contains(results, result);
        vstd::seq_lib::to_multiset_contains(all, result);
        if all.contains(result) {
            let i = choose|i: int| 0 <= i < all.len() && all[i] == result;
            assert(keys.to_set().contains(keys[i]));
            assert(changes.contains_key(keys[i]));
        }
        if exists|key: Seq<char>| #[trigger]
            changes.contains_key(key) && described(changes[key], head, base) == result {
            let key = choose|key: Seq<char>| #[trigger]
                changes.contains_key(key) && described(changes[key], head, base) == result;
            assert(keys.to_set().contains(key));
            let i = choose|i: int| 0 <= i < keys.len() && keys[i] == key;
            assert(all[i] == result);
        }
    }
}

/// A modified model whose columns are the same on both sides shows no column
/// change, as long as columns of one name have one type.
pub proof fn law_same_columns_show_no_change(
    change: ModelChangeView,
    head: Map<Seq<char>, Seq<TypedColumnView>>,
    base: Map<Seq<char>, Seq<TypedColumnView>>,
)
    requires
        change.status() == ModelDiffStatus::Modified,
        columns_named(base, change.base_schema_name) == columns_named(
            head,
            change.head_schema_name,
        ),
        columns_named(head, change.head_schema_name) matches Some(columns) ==> one_type_per_name(
            columns,
        ),
    ensures
        changed_columns(change, head, base) == Seq::<ColumnDiffView>::empty(),
{
    match columns_named(head, change.head_schema_name) {
        Some(columns) => {
            law_no_difference_to_itself(columns);
        },
        None => {},
    }
}

/// A new model is compared with no columns, a model that is gone compares no
/// columns with its own.
pub proof fn law_new_and_gone_models_have_an_empty_side(
    change: ModelChangeView,
    head: Map<Seq<char>, Seq<TypedColumnView>>,
    base: Map<Seq<char>, Seq<TypedColumnView>>,
)
    ensures
        change.status() == ModelDiffStatus::Added ==> (columns_named(head, change.head_schema_name)
            matches Some(columns) ==> changed_columns(change, head, base) == column_diffs(
            Seq::empty(),
            columns,
        )),
        change.status() == ModelDiffStatus::Removed ==> (columns_named(
            base,
            change.base_schema_name,
        ) matches Some(columns) ==> changed_columns(change, head, base) == column_diffs(
            columns,
            Seq::empty(),
        )),
{
    match columns_named(head, change.head_schema_name) {
        Some(columns) => {
            law_empty_side(columns);
        },
        None => {},
    }
    match columns_named(base, change.base_schema_name) {
        Some(columns) => {
            law_empty_side(columns);
        },
        None => {},
    }
}

/// Whether no two changed models have one name.
pub open spec fn names_differ(changes: Map<Seq<char>, ModelChangeView>) -> bool {
    forall|a: Seq<char>, b: Seq<char>|
        #![trigger changes[a], changes[b]]
        changes.contains_key(a) && changes.contains_key(b) && a != b ==> changes[a].model_name
            != changes[b].model_name
}

/// Whether no two results have one name.
spec fn result_names_differ(results: Seq<DiffResultView>) -> bool {
    forall|i: int, j: int|
        0 <= i < j < results.len() ==> (#[trigger] results[i]).model_name != (
        #[trigger] results[j]).model_name
}

proof fn lemma_result_names_differ(
    results: Seq<DiffResultView>,
    keys: Seq<Seq<char>>,
    changes: Map<Seq<char>, ModelChangeView>,
    head: Map<Seq<char>, Seq<TypedColumnView>>,
    base: Map<Seq<char>, Seq<TypedColumnView>>,
)
    requires
        is_report(results, keys, changes, head, base),
        keys.no_duplicates(),
        keys.to_set() == changes.dom(),
        names_differ(changes),
    ensures
        result_names_differ(results),
{
    let all = all_described(keys, changes, head, base);
    assert forall|i: int| 0 <= i < keys.len() implies changes.contains_key(#[trigger] keys[i]) by {
        assert(keys.to_set().contains(keys[i]));
    }
    assert(all.no_duplicates()) by {
        assert forall|i: int, j: int|
            0 <= i < all.len() && 0 <= j < all.len() && i != j implies all[i] != all[j] by {
            assert(keys[i] != keys[j]);
            assert(all[i].model_name == changes[keys[i]].model_name);
            assert(all[j].model_name == changes[keys[j]].model_name);
        }
    }
    all.lemma_multiset_has_no_duplicates();
    results.lemma_multiset_has_no_duplicates_conv();
    law_one_result_for_each_change(results, keys, changes, head, base);
    assert forall|i: int, j: int| 0 <= i < j < results.len() implies (
    #[trigger] results[i]).model_name != (#[trigger] results[j]).model_name by {
        assert(results.contains(results[i]));
        assert(results.contains(results[j]));
        let a = choose|key: Seq<char>| #[trigger]
            changes.contains_key(key) && described(changes[key], head, base) == results[i];
        let b = choose|key: Seq<char>| #[trigger]
            changes.contains_key(key) && described(changes[key], head, base) == results[j];
        assert(results[i] != results[j]);
        assert(a != b);
        assert(changes[a].model_name != changes[b].model_name);
    }
}

proof fn lemma_sorted_results_equal(a: Seq<DiffResultView>, b: Seq<DiffResultView>)
    requires
        sorted_by_name(a),
        sorted_by_name(b),
        result_names_differ(a),
        result_names_differ(b),
        forall|result: DiffResultView| a.contains(result) <==> b.contains(result),
    ensures
        a == b,
    decreases a.len(),
{
    if a.len() == 0 {
        if b.len() > 0 {
            assert(b.contains(b[0]));
        }
        assert(a =~= b);
    } else {
        let x = a.last();
        assert(a.contains(x));
        assert(b.contains(x));
        let y = b.last();
        assert(b.contains(y));
        assert(a.contains(y));
        let i = choose|i: int| 0 <= i < a.len() && a[i] == y;
        let j = choose|j: int| 0 <= j < b.len() && b[j] == x;
        if i < a.len() - 1 && j < b.len() - 1 {
            assert(in_order(a[i].model_name, a[a.len() - 1].model_name));
            assert(in_order(b[j].model_name, b[b.len() - 1].model_name));
            lemma_in_order_antisymmetric(x.model_name, y.model_name);
            assert(a[i].model_name != a[a.len() - 1].model_name);
        }
        assert(x == y);
        let c = a.drop_last();
        let d = b.drop_last();
        assert forall|result: DiffResultView| c.contains(result) <==> d.contains(result) by {
            if c.contains(result) {
                let k = choose|k: int| 0 <= k < c.len() && c[k] == result;
                assert(a[k] == result);
                assert(result.model_name != x.model_name);
                assert(b.contains(result));
                let m = choose|m: int| 0 <= m < b.len() && b[m] == result;
                assert(d[m] == result);
            }
            if d.contains(result) {
                let k = choose|k: int| 0 <= k < d.len() && d[k] == result;
                assert(b[k] == result);
                assert(result.model_name != x.model_name);
                assert(a.contains(result));
                let m = choose|m: int| 0 <= m < a.len() && a[m] == result;
                assert(c[m] == result);
            }
        }
        lemma_sorted_results_equal(c, d);
        assert(a =~= c.push(x));
        assert(b =~= d.push(y));
    }
}

/// The report depends only on what changed, not on the order in which it was
/// found, as long as no two changed models have one name.
pub proof fn law_report_is_determined(
    first: Seq<DiffResultView>,
    first_keys: Seq<Seq<char>>,
    second: Seq<DiffResultView>,
    second_keys: Seq<Seq<char>>,
    changes: Map<Seq<char>, ModelChangeView>,
    head: Map<Seq<char>, Seq<TypedColumnView>>,
    base: Map<Seq<char>, Seq<TypedColumnView>>,
)
    requires
        first_keys.no_duplicates(),
        first_keys.to_set() == changes.dom(),
        second_keys.no_duplicates(),
        second_keys.to_set() == changes.dom(),
        is_report(first, first_keys, changes, head, base),
        is_report(second, second_keys, changes, head, base),
        names_differ(changes),
    ensures
        first == second,
{
    lemma_result_names_differ(first, first_keys, changes, head, base);
    lemma_result_names_differ(second, second_keys, changes, head, base);
    law_one_result_for_each_change(first, first_keys, changes, head, base);
    law_one_result_for_each_change(second, second_keys, changes, head, base);
    assert forall|result: DiffResultView| first.contains(result) <==> second.contains(result) by {
        assert(first.contains(result) <==> exists|key: Seq<char>| #[trigger]
            changes.contains_key(key) && described(changes[key], head, base) == result);
        assert(second.contains(result) <==> exists|key: Seq<char>| #[trigger]
            changes.contains_key(key) && described(changes[key], head, base) == result);
    }
    lemma_sorted_results_equal(first, second);
}

/// Models known by their file names alone have names that differ.
pub proof fn law_stems_are_names_that_differ(
    files: Seq<ChangedFileView>,
    models_rel: Option<Seq<char>>,
)
    ensures
        names_differ(classified(files, models_rel, None, None)),
{
}

proof fn lemma_no_status(results: Seq<DiffResultView>, status: ModelDiffStatus)
    requires
        forall|i: int| 0 <= i < results.len() ==> (#[trigger] results[i]).status != status,
    ensures
        status_count(results, status) == 0,
    decreases results.len(),
{
    if results.len() > 0 {
        let front = results.drop_last();
        assert forall|i: int| 0 <= i < front.len() implies (#[trigger] front[i]).status
            != status by {
            assert(results[i].status != status);
        }
        assert(results[results.len() - 1].status != status);
        lemma_no_status(front, status);
    }
}

/// A report on changed files counts no unchanged model.
pub proof fn law_no_unchanged_model_is_counted(
    results: Seq<DiffResultView>,
    keys: Seq<Seq<char>>,
    files: Seq<ChangedFileView>,
    models_rel: Option<Seq<char>>,
    base_models: Option<Seq<ModelFacts>>,
    head_models: Option<Seq<ModelFacts>>,
    head: Map<Seq<char>, Seq<TypedColumnView>>,
    base: Map<Seq<char>, Seq<TypedColumnView>>,
)
    requires
        keys.no_duplicates(),
        keys.to_set() == classified(files, models_rel, base_models, head_models).dom(),
        is_report(
            results,
            keys,
            classified(files, models_rel, base_models, head_models),
            head,
            base,
        ),
    ensures
        status_count(results, ModelDiffStatus::Unchanged) == 0,
{
    let changes = classified(files, models_rel, base_models, head_models);
    law_one_result_for_each_change(results, keys, changes, head, base);
    assert forall|i: int| 0 <= i < results.len() implies (#[trigger] results[i]).status
        != ModelDiffStatus::Unchanged by {
        assert(results.contains(results[i]));
        let key = choose|key: Seq<char>| #[trigger]
            changes.contains_key(key) && described(changes[key], head, base) == results[i];
        law_every_change_is_a_change(files, models_rel, base_models, head_models, key);
    }
    lemma_no_status(results, ModelDiffStatus::Unchanged);
}

/// The fields of a result, one by one, the results of a list and the columns of a
/// map.
pub proof fn law_results_are_their_fields(
    result: DiffResult,
    results: Seq<DiffResult>,
    schemas: Schemas,
)
    ensures
        result@.model_name == result.model_name@,
        result@.status == result.status,
        result@.row_count_before == result.row_count_before,
        result@.row_count_after == result.row_count_after,
        result@.column_changes == diff_views(result.column_changes@),
        result@.sample_changed_rows is Some <==> result.sample_changed_rows is Some,
        result_views(results).len() == results.len(),
        forall|i: int|
            0 <= i < results.len() ==> #[trigger] result_views(results)[i] == results[i]@,
        schema_views(schemas).dom() == schemas@.dom(),
        forall|name: Seq<char>| #[trigger]
            schemas@.contains_key(name) ==> schema_views(schemas)[name] == column_views(
                schemas@[name]@,
            ),
{
    assert(schema_views(schemas).dom() =~= schemas@.dom());
}

/// A modified model whose columns are known on both sides shows a column as added
/// exactly if HEAD has it and the base has not, as removed exactly if the base has it
/// and HEAD has not, and as changed exactly if both have it and HEAD has it with
/// another type than it has at the base; and what it shows is what diffing the two
/// schemas gives.
pub proof fn law_modified_model_shows_every_difference(
    change: ModelChangeView,
    head: Map<Seq<char>, Seq<TypedColumnView>>,
    base: Map<Seq<char>, Seq<TypedColumnView>>,
    base_name: Seq<char>,
    head_name: Seq<char>,
    column: Seq<char>,
)
    requires
        change.base_schema_name == Some(base_name),
        change.head_schema_name == Some(head_name),
        base.contains_key(base_name),
        head.contains_key(head_name),
    ensures
        ({
            let shown = changed_columns(change, head, base);
            let before = base[base_name];
            let after = head[head_name];
            let at_base = exists|i: int|
                0 <= i < before.len() && (#[trigger] before[i]).name == column;
            let at_head = exists|i: int|
                0 <= i < after.len() && (#[trigger] after[i]).name == column;
            &&& shown == column_diffs(before, after)
            &&& (exists|i: int|
                0 <= i < shown.len() && (#[trigger] shown[i]).column_name == column
                    && shown[i].change_type is Added) <==> at_head && !at_base
            &&& (exists|i: int|
                0 <= i < shown.len() && (#[trigger] shown[i]).column_name == column
                    && shown[i].change_type is Removed) <==> at_base && !at_head
            &&& (exists|i: int|
                0 <= i < shown.len() && (#[trigger] shown[i]).column_name == column
                    && shown[i].change_type is TypeChanged) <==> at_base && exists|i: int|
                0 <= i < after.len() && (#[trigger] after[i]).name == column && Some(
                    after[i].data_type,
                ) != type_of(before, column)
        }),
{
    let before = base[base_name];
    let after = head[head_name];
    let shown = column_diffs(before, after);
    law_differences_are_exact(before, after, column);
    law_last_column_of_a_name_counts(before, column);
    assert(reported(shown, ColumnChangeType::Added, column) <==> exists|i: int|
        0 <= i < shown.len() && (#[trigger] shown[i]).column_name == column
            && shown[i].change_type is Added);
    assert(reported(shown, ColumnChangeType::Removed, column) <==> exists|i: int|
        0 <= i < shown.len() && (#[trigger] shown[i]).column_name == column
            && shown[i].change_type is Removed);
    assert(reported(shown, ColumnChangeType::TypeChanged, column) <==> exists|i: int|
        0 <= i < shown.len() && (#[trigger] shown[i]).column_name == column
            && shown[i].change_type is TypeChanged);
}

/// A new model shows every column of HEAD as added and a model that is gone every
/// column of the base as removed, each with its type and in its order. Where the
/// columns are not known, or for a modified model not on both sides, none is shown.
pub proof fn law_one_sided_models_show_all_their_columns(
    change: ModelChangeView,
    head: Map<Seq<char>, Seq<TypedColumnView>>,
    base: Map<Seq<char>, Seq<TypedColumnView>>,
)
    ensures
        ({
            let shown = changed_columns(change, head, base);
            let known_before = change.base_schema_name is Some && base.contains_key(
                change.base_schema_name->0,
            );
            let known_after = change.head_schema_name is Some && head.contains_key(
                change.head_schema_name->0,
            );
            let before = base[change.base_schema_name->0];
            let after = head[change.head_schema_name->0];
            &&& change.base_schema_name is None && known_after ==> shown.len() == after.len()
                && forall|i: int|
                0 <= i < shown.len() ==> (#[trigger] shown[i]).column_name == after[i].name
                    && shown[i].change_type is Added && shown[i].old_type is None
                    && shown[i].new_type == Some(after[i].data_type)
            &&& change.head_schema_name is None && known_before ==> shown.len() == before.len()
                && forall|i: int|
                0 <= i < shown.len() ==> (#[trigger] shown[i]).column_name == before[i].name
                    && shown[i].change_type is Removed && shown[i].old_type == Some(
                    before[i].data_type,
                ) && shown[i].new_type is None
            &&& change.base_schema_name is Some && !known_before ==> shown.len() == 0
            &&& change.head_schema_name is Some && !known_after ==> shown.len() == 0
            &&& change.base_schema_name is None && change.head_schema_name is None
                ==> shown.len() == 0
        }),
{
}

/// The result for a changed model has the name to show, the status that its sides
/// give it, its column changes, and neither counted nor sampled rows.
pub proof fn law_result_tells_its_change(
    change: ModelChangeView,
    head: Map<Seq<char>, Seq<TypedColumnView>>,
    base: Map<Seq<char>, Seq<TypedColumnView>>,
)
    ensures
        ({
            let result = described(change, head, base);
            &&& result.model_name == change.model_name
            &&& result.status is Modified <==> change.base_schema_name is Some
                && change.head_schema_name is Some
            &&& result.status is Removed <==> change.base_schema_name is Some
                && change.head_schema_name is None
            &&& result.status is Added <==> change.base_schema_name is None
                && change.head_schema_name is Some
            &&& result.column_changes == changed_columns(change, head, base)
            &&& result.row_count_before is None
            &&& result.row_count_after is None
            &&& result.sample_changed_rows is None
        }),
{
}

/// A report holds the result of every key, as often as it comes up, and its names
/// are in order.
pub proof fn law_report_holds_every_result_in_order(
    results: Seq<DiffResultView>,
    keys: Seq<Seq<char>>,
    changes: Map<Seq<char>, ModelChangeView>,
    head: Map<Seq<char>, Seq<TypedColumnView>>,
    base: Map<Seq<char>, Seq<TypedColumnView>>,
)
    requires
        is_report(results, keys, changes, head, base),
    ensures
        results.to_multiset() == Seq::new(
            keys.len(),
            |i: int| described(changes[keys[i]], head, base),
        ).to_multiset(),
        results.len() == keys.len(),
        forall|i: int, j: int|
            0 <= i < j < results.len() ==> in_order(
                (#[trigger] results[i]).model_name,
                (#[trigger] results[j]).model_name,
            ),
{
    let all = all_described(keys, changes, head, base);
    assert(all =~= Seq::new(keys.len(), |i: int| described(changes[keys[i]], head, base)));
    vstd::seq_lib::to_multiset_len(results);
    vstd::seq_lib::to_multiset_len(all);
}

/// A summary counts all results, and for each status the results that have it.
pub proof fn law_summary_counts_by_status(summary: DiffSummary, results: Seq<DiffResultView>)
    ensures
        summarizes(summary, results) <==> {
            &&& summary.total_models == results.len()
            &&& summary.unchanged == results.filter(
                |result: DiffResultView| result.status is Unchanged,
            ).len()
            &&& summary.modified == results.filter(
                |result: DiffResultView| result.status is Modified,
            ).len()
            &&& summary.added == results.filter(
                |result: DiffResultView| result.status is Added,
            ).len()
            &&& summary.removed == results.filter(
                |result: DiffResultView| result.status is Removed,
            ).len()
        },
{
    lemma_status_counts(results);
}

proof fn lemma_status_counts(results: Seq<DiffResultView>)
    ensures
        status_count(results, ModelDiffStatus::Unchanged) == results.filter(
            |result: DiffResultView| result.status is Unchanged,
        ).len(),
        status_count(results, ModelDiffStatus::Modified) == results.filter(
            |result: DiffResultView| result.status is Modified,
        ).len(),
        status_count(results, ModelDiffStatus::Added) == results.filter(
            |result: DiffResultView| result.status is Added,
        ).len(),
        status_count(results, ModelDiffStatus::Removed) == results.filter(
            |result: DiffResultView| result.status is Removed,
        ).len(),
    decreases results.len(),
{
    reveal(Seq::filter);
    if results.len() > 0 {
        lemma_status_counts(results.drop_last());
    }
}

} // verus!

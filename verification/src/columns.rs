//! How the columns of a model differ between two schemas.

use vstd::prelude::*;
use vstd::string::*;

use crate::git::optional_text;
use crate::seqs::{
    lemma_filter_map_count, lemma_filter_map_has, lemma_filter_map_order, lemma_filter_map_source,
};
use crate::text::same_text;

verus! {

/// A column of a model and its type, as text.
#[derive(Debug, Clone)]
pub struct TypedColumn {
    pub name: String,
    pub data_type: String,
}

/// What a [`TypedColumn`] holds.
#[verifier::ext_equal]
pub struct TypedColumnView {
    pub name: Seq<char>,
    pub data_type: Seq<char>,
}

impl View for TypedColumn {
    type V = TypedColumnView;

    open spec fn view(&self) -> TypedColumnView {
        TypedColumnView { name: self.name@, data_type: self.data_type@ }
    }
}

/// The contents of a list of columns.
pub open spec fn column_views(columns: Seq<TypedColumn>) -> Seq<TypedColumnView> {
    Seq::new(columns.len(), |i: int| columns[i]@)
}

/// What happened to a column.
#[derive(Debug, Clone, Copy, PartialEq, Eq, Structural)]
pub enum ColumnChangeType {
    Added,
    Removed,
    TypeChanged,
}

/// One difference between two schemas.
#[derive(Debug, Clone)]
pub struct ColumnDiff {
    pub column_name: String,
    pub change_type: ColumnChangeType,
    pub old_type: Option<String>,
    pub new_type: Option<String>,
}

/// What a [`ColumnDiff`] holds.
#[verifier::ext_equal]
pub struct ColumnDiffView {
    pub column_name: Seq<char>,
    pub change_type: ColumnChangeType,
    pub old_type: Option<Seq<char>>,
    pub new_type: Option<Seq<char>>,
}

impl View for ColumnDiff {
    type V = ColumnDiffView;

    open spec fn view(&self) -> ColumnDiffView {
        ColumnDiffView {
            column_name: self.column_name@,
            change_type: self.change_type,
            old_type: optional_text(self.old_type),
            new_type: optional_text(self.new_type),
        }
    }
}

/// The contents of a list of differences.
pub open spec fn diff_views(diffs: Seq<ColumnDiff>) -> Seq<ColumnDiffView> {
    Seq::new(diffs.len(), |i: int| diffs[i]@)
}

/// The type of a column by name. Where a name occurs more than once, the last
/// one counts.
pub open spec fn type_of(columns: Seq<TypedColumnView>, name: Seq<char>) -> Option<Seq<char>>
    decreases columns.len(),
{
    if columns.len() == 0 {
        None
    } else if columns.last().name == name {
        Some(columns.last().data_type)
    } else {
        type_of(columns.drop_last(), name)
    }
}

/// The addition of a column.
pub open spec fn added_column(column: TypedColumnView) -> ColumnDiffView {
    ColumnDiffView {
        column_name: column.name,
        change_type: ColumnChangeType::Added,
        old_type: None,
        new_type: Some(column.data_type),
    }
}

/// The removal of a column.
pub open spec fn removed_column(column: TypedColumnView) -> ColumnDiffView {
    ColumnDiffView {
        column_name: column.name,
        change_type: ColumnChangeType::Removed,
        old_type: Some(column.data_type),
        new_type: None,
    }
}

/// What is to be said of a column of HEAD: it is new, or its type is.
pub open spec fn head_column_diff(
    base: Seq<TypedColumnView>,
    column: TypedColumnView,
) -> Option<ColumnDiffView> {
    match type_of(base, column.name) {
        None => Some(added_column(column)),
        Some(old_type) => if old_type != column.data_type {
            Some(
                ColumnDiffView {
                    column_name: column.name,
                    change_type: ColumnChangeType::TypeChanged,
                    old_type: Some(old_type),
                    new_type: Some(column.data_type),
                },
            )
        } else {
            None
        },
    }
}

/// What is to be said of a column of the base: it may be gone.
pub open spec fn base_column_diff(
    head: Seq<TypedColumnView>,
    column: TypedColumnView,
) -> Option<ColumnDiffView> {
    if type_of(head, column.name) is None {
        Some(removed_column(column))
    } else {
        None
    }
}

/// The differences between two schemas: first the columns of HEAD that are new
/// or of another type, then the columns of the base that are gone, each in their
/// own order.
pub open spec fn column_diffs(
    base: Seq<TypedColumnView>,
    head: Seq<TypedColumnView>,
) -> Seq<ColumnDiffView> {
    head.filter_map(|column: TypedColumnView| head_column_diff(base, column)) + base.filter_map(
        |column: TypedColumnView| base_column_diff(head, column),
    )
}

/// Finds the type of a column by name.
fn find_type<'a>(columns: &'a [TypedColumn], name: &str) -> (r: Option<&'a String>)
    ensures
        match r {
            Some(data_type) => type_of(column_views(columns@), name@) == Some(data_type@),
            None => type_of(column_views(columns@), name@) is None,
        },
{
    let ghost all = column_views(columns@);
    let mut end: usize = columns.len();
    assert(all.take(all.len() as int) =~= all);
    while end > 0
        invariant
            end <= columns@.len(),
            all == column_views(columns@),
            type_of(all, name@) == type_of(all.take(end as int), name@),
        decreases end,
    {
        proof {
            assert(all.take(end as int).drop_last() =~= all.take(end - 1));
            assert(all.take(end as int).last() == columns@[end - 1]@);
        }
        let column = &columns[end - 1];
        if same_text(column.name.as_str(), name) {
            return Some(&column.data_type);
        }
        end -= 1;
    }
    None
}

/// Compares the columns of the base with those of HEAD.
pub fn diff_columns(base_cols: &[TypedColumn], head_cols: &[TypedColumn]) -> (r: Vec<ColumnDiff>)
    ensures
        diff_views(r@) == column_diffs(column_views(base_cols@), column_views(head_cols@)),
{
    let ghost base = column_views(base_cols@);
    let ghost head = column_views(head_cols@);
    let ghost f = |column: TypedColumnView| head_column_diff(base, column);
    let ghost g = |column: TypedColumnView| base_column_diff(head, column);
    let mut diffs: Vec<ColumnDiff> = Vec::new();
    let mut i: usize = 0;
    assert(diff_views(diffs@) =~= head.take(0).filter_map(f));
    while i < head_cols.len()
        invariant
            i <= head_cols@.len(),
            base == column_views(base_cols@),
            head == column_views(head_cols@),
            f == |column: TypedColumnView| head_column_diff(base, column),
            diff_views(diffs@) == head.take(i as int).filter_map(f),
        decreases head_cols@.len() - i,
    {
        let ghost before = diff_views(diffs@);
        proof {
            head.lemma_filter_map_take_succ(f, i as int);
            assert(head[i as int] == head_cols@[i as int]@);
        }
        let col = &head_cols[i];
        match find_type(base_cols, col.name.as_str()) {
            None => {
                let diff = ColumnDiff {
                    column_name: col.name.as_str().to_owned(),
                    change_type: ColumnChangeType::Added,
                    old_type: None,
                    new_type: Some(col.data_type.as_str().to_owned()),
                };
                diffs.push(diff);
                assert(diff_views(diffs@) =~= before.push(diff@));
            },
            Some(old_type) => {
                if !same_text(old_type.as_str(), col.data_type.as_str()) {
                    let diff = ColumnDiff {
                        column_name: col.name.as_str().to_owned(),
                        change_type: ColumnChangeType::TypeChanged,
                        old_type: Some(old_type.as_str().to_owned()),
                        new_type: Some(col.data_type.as_str().to_owned()),
                    };
                    diffs.push(diff);
                    assert(diff_views(diffs@) =~= before.push(diff@));
                }
            },
        }
        assert(diff_views(diffs@) =~= head.take(i + 1).filter_map(f));
        i += 1;
    }
    assert(head.take(head.len() as int) =~= head);
    let ghost front = head.filter_map(f);
    let mut j: usize = 0;
    assert(diff_views(diffs@) =~= front + base.take(0).filter_map(g));
    while j < base_cols.len()
        invariant
            j <= base_cols@.len(),
            base == column_views(base_cols@),
            head == column_views(head_cols@),
            g == |column: TypedColumnView| base_column_diff(head, column),
            diff_views(diffs@) == front + base.take(j as int).filter_map(g),
        decreases base_cols@.len() - j,
    {
        let ghost before = diff_views(diffs@);
        proof {
            base.lemma_filter_map_take_succ(g, j as int);
            assert(base[j as int] == base_cols@[j as int]@);
        }
        let col = &base_cols[j];
        if find_type(head_cols, col.name.as_str()).is_none() {
            let diff = ColumnDiff {
                column_name: col.name.as_str().to_owned(),
                change_type: ColumnChangeType::Removed,
                old_type: Some(col.data_type.as_str().to_owned()),
                new_type: None,
            };
            diffs.push(diff);
            assert(diff_views(diffs@) =~= before.push(diff@));
        }
        assert(diff_views(diffs@) =~= front + base.take(j + 1).filter_map(g));
        j += 1;
    }
    assert(base.take(base.len() as int) =~= base);
    diffs
}

/// Every column as an addition.
pub fn all_added(columns: &[TypedColumn]) -> (r: Vec<ColumnDiff>)
    ensures
        diff_views(r@) == column_views(columns@).map_values(
            |column: TypedColumnView| added_column(column),
        ),
{
    let mut r: Vec<ColumnDiff> = Vec::new();
    let mut i: usize = 0;
    while i < columns.len()
        invariant
            i <= columns@.len(),
            r@.len() == i,
            forall|j: int| 0 <= j < i ==> (#[trigger] r@[j])@ == added_column(columns@[j]@),
        decreases columns@.len() - i,
    {
        let col = &columns[i];
        r.push(
            ColumnDiff {
                column_name: col.name.as_str().to_owned(),
                change_type: ColumnChangeType::Added,
                old_type: None,
                new_type: Some(col.data_type.as_str().to_owned()),
            },
        );
        i += 1;
    }
    assert(diff_views(r@) =~= column_views(columns@).map_values(
        |column: TypedColumnView| added_column(column),
    ));
    r
}

/// Every column as a removal.
pub fn all_removed(columns: &[TypedColumn]) -> (r: Vec<ColumnDiff>)
    ensures
        diff_views(r@) == column_views(columns@).map_values(
            |column: TypedColumnView| removed_column(column),
        ),
{
    let mut r: Vec<ColumnDiff> = Vec::new();
    let mut i: usize = 0;
    while i < columns.len()
        invariant
            i <= columns@.len(),
            r@.len() == i,
            forall|j: int| 0 <= j < i ==> (#[trigger] r@[j])@ == removed_column(columns@[j]@),
        decreases columns@.len() - i,
    {
        let col = &columns[i];
        r.push(
            ColumnDiff {
                column_name: col.name.as_str().to_owned(),
                change_type: ColumnChangeType::Removed,
                old_type: Some(col.data_type.as_str().to_owned()),
                new_type: None,
            },
        );
        i += 1;
    }
    assert(diff_views(r@) =~= column_views(columns@).map_values(
        |column: TypedColumnView| removed_column(column),
    ));
    r
}

/// Whether a schema has a column of that name.
pub open spec fn has_column(columns: Seq<TypedColumnView>, name: Seq<char>) -> bool {
    exists|i: int| 0 <= i < columns.len() && (#[trigger] columns[i]).name == name
}

/// Whether a schema has a column of that name and another type.
pub open spec fn has_other_type(
    columns: Seq<TypedColumnView>,
    name: Seq<char>,
    data_type: Seq<char>,
) -> bool {
    exists|i: int|
        0 <= i < columns.len() && (#[trigger] columns[i]).name == name && columns[i].data_type
            != data_type
}

/// Whether columns of one name have one type.
pub open spec fn one_type_per_name(columns: Seq<TypedColumnView>) -> bool {
    forall|i: int, j: int|
        0 <= i < columns.len() && 0 <= j < columns.len() && (#[trigger] columns[i]).name == (
        #[trigger] columns[j]).name ==> columns[i].data_type == columns[j].data_type
}

/// Whether a difference of that kind is reported for a column.
pub open spec fn reported(
    diffs: Seq<ColumnDiffView>,
    kind: ColumnChangeType,
    name: Seq<char>,
) -> bool {
    exists|i: int|
        0 <= i < diffs.len() && (#[trigger] diffs[i]).change_type == kind && diffs[i].column_name
            == name
}

proof fn lemma_type_of(columns: Seq<TypedColumnView>, name: Seq<char>)
    ensures
        type_of(columns, name) is Some <==> has_column(columns, name),
        type_of(columns, name) matches Some(data_type) ==> exists|i: int|
            0 <= i < columns.len() && (#[trigger] columns[i]).name == name && columns[i].data_type
                == data_type,
    decreases columns.len(),
{
    if columns.len() > 0 {
        let front = columns.drop_last();
        lemma_type_of(front, name);
        if columns.last().name == name {
            assert(columns[columns.len() - 1].name == name);
        } else {
            if has_column(columns, name) {
                let i = choose|i: int|
                    0 <= i < columns.len() && (#[trigger] columns[i]).name == name;
                assert(front[i].name == name);
            }
            if type_of(front, name) is Some {
                let i = choose|i: int|
                    0 <= i < front.len() && (#[trigger] front[i]).name == name && front[i].data_type
                        == type_of(front, name)->0;
                assert(columns[i].name == name);
            }
        }
    }
}

/// Whether a difference stands in the head part or the base part of the
/// differences between two schemas.
proof fn lemma_diff_source(
    base: Seq<TypedColumnView>,
    head: Seq<TypedColumnView>,
    diff: ColumnDiffView,
)
    ensures
        column_diffs(base, head).contains(diff) <==> (exists|i: int|
            0 <= i < head.len() && head_column_diff(base, #[trigger] head[i]) == Some(diff)) || (
        exists|i: int|
            0 <= i < base.len() && base_column_diff(head, #[trigger] base[i]) == Some(diff)),
{
    let f = |column: TypedColumnView| head_column_diff(base, column);
    let g = |column: TypedColumnView| base_column_diff(head, column);
    let first = head.filter_map(f);
    let second = base.filter_map(g);
    let all = column_diffs(base, head);
    assert(all == first + second);
    if all.contains(diff) {
        let i = choose|i: int| 0 <= i < all.len() && all[i] == diff;
        if i < first.len() {
            assert(first[i] == diff);
            head.lemma_filter_map_contains(f, diff);
            let column = choose|t: TypedColumnView| #[trigger]
                head.contains(t) && f(t) == Some(diff);
            let j = choose|j: int| 0 <= j < head.len() && head[j] == column;
            assert(head_column_diff(base, head[j]) == Some(diff));
        } else {
            assert(second[i - first.len()] == diff);
            base.lemma_filter_map_contains(g, diff);
            let column = choose|t: TypedColumnView| #[trigger]
                base.contains(t) && g(t) == Some(diff);
            let j = choose|j: int| 0 <= j < base.len() && base[j] == column;
            assert(base_column_diff(head, base[j]) == Some(diff));
        }
    }
    if exists|i: int|
        0 <= i < head.len() && head_column_diff(base, #[trigger] head[i]) == Some(diff) {
        let i = choose|i: int|
            0 <= i < head.len() && head_column_diff(base, #[trigger] head[i]) == Some(diff);
        lemma_filter_map_has(head, f, i);
        let j = choose|j: int| 0 <= j < first.len() && first[j] == diff;
        assert(all[j] == diff);
    }
    if exists|i: int|
        0 <= i < base.len() && base_column_diff(head, #[trigger] base[i]) == Some(diff) {
        let i = choose|i: int|
            0 <= i < base.len() && base_column_diff(head, #[trigger] base[i]) == Some(diff);
        lemma_filter_map_has(base, g, i);
        let j = choose|j: int| 0 <= j < second.len() && second[j] == diff;
        assert(all[first.len() + j] == diff);
    }
}

/// A column is reported as added exactly if HEAD has it and the base has not, as
/// removed exactly if the base has it and HEAD has not, and as changed exactly if
/// both have it and HEAD has it with another type than the base.
pub proof fn law_differences_are_exact(
    base: Seq<TypedColumnView>,
    head: Seq<TypedColumnView>,
    name: Seq<char>,
)
    ensures
        reported(column_diffs(base, head), ColumnChangeType::Added, name) <==> has_column(
            head,
            name,
        ) && !has_column(base, name),
        reported(column_diffs(base, head), ColumnChangeType::Removed, name) <==> has_column(
            base,
            name,
        ) && !has_column(head, name),
        reported(column_diffs(base, head), ColumnChangeType::TypeChanged, name) <==> has_column(
            base,
            name,
        ) && has_other_type(head, name, type_of(base, name)->0),
{
    let diffs = column_diffs(base, head);
    lemma_type_of(base, name);
    lemma_type_of(head, name);
    assert forall|i: int|
        0 <= i < diffs.len() && (#[trigger] diffs[i]).column_name == name implies {
        &&& diffs[i].change_type == ColumnChangeType::Added ==> has_column(head, name)
            && !has_column(base, name)
        &&& diffs[i].change_type == ColumnChangeType::Removed ==> has_column(base, name)
            && !has_column(head, name)
        &&& diffs[i].change_type == ColumnChangeType::TypeChanged ==> has_column(base, name)
            && has_other_type(head, name, type_of(base, name)->0)
    } by {
        assert(diffs.contains(diffs[i]));
        lemma_diff_source(base, head, diffs[i]);
    }
    if has_column(head, name) {
        let i = choose|i: int| 0 <= i < head.len() && (#[trigger] head[i]).name == name;
        if !has_column(base, name) {
            let diff = added_column(head[i]);
            assert(head_column_diff(base, head[i]) == Some(diff));
            lemma_diff_source(base, head, diff);
            let j = choose|j: int| 0 <= j < diffs.len() && diffs[j] == diff;
            assert(diffs[j].column_name == name);
        }
    }
    if has_column(base, name) {
        let i = choose|i: int| 0 <= i < base.len() && (#[trigger] base[i]).name == name;
        if !has_column(head, name) {
            let diff = removed_column(base[i]);
            assert(base_column_diff(head, base[i]) == Some(diff));
            lemma_diff_source(base, head, diff);
            let j = choose|j: int| 0 <= j < diffs.len() && diffs[j] == diff;
            assert(diffs[j].column_name == name);
        }
        if has_other_type(head, name, type_of(base, name)->0) {
            let old_type = type_of(base, name)->0;
            let k = choose|k: int|
                0 <= k < head.len() && (#[trigger] head[k]).name == name && head[k].data_type
                    != old_type;
            let diff = head_column_diff(base, head[k])->0;
            assert(head_column_diff(base, head[k]) == Some(diff));
            lemma_diff_source(base, head, diff);
            let j = choose|j: int| 0 <= j < diffs.len() && diffs[j] == diff;
            assert(diffs[j].column_name == name);
        }
    }
}

/// A schema does not differ from itself, as long as columns of one name have one
/// type.
pub proof fn law_no_difference_to_itself(columns: Seq<TypedColumnView>)
    requires
        one_type_per_name(columns),
    ensures
        column_diffs(columns, columns) == Seq::<ColumnDiffView>::empty(),
{
    let diffs = column_diffs(columns, columns);
    if diffs.len() > 0 {
        let diff = diffs[0];
        assert(diffs.contains(diff));
        lemma_diff_source(columns, columns, diff);
        lemma_type_of(columns, diff.column_name);
    }
    assert(diffs =~= Seq::empty());
}

/// Whether no two columns have one name.
pub open spec fn distinct_names(columns: Seq<TypedColumnView>) -> bool {
    forall|i: int, j: int|
        0 <= i < j < columns.len() ==> (#[trigger] columns[i]).name != (
        #[trigger] columns[j]).name
}

/// A difference seen from the other side: added and removed exchanged, and the
/// old type with the new one.
pub open spec fn mirrored(diff: ColumnDiffView) -> ColumnDiffView {
    ColumnDiffView {
        column_name: diff.column_name,
        change_type: match diff.change_type {
            ColumnChangeType::Added => ColumnChangeType::Removed,
            ColumnChangeType::Removed => ColumnChangeType::Added,
            ColumnChangeType::TypeChanged => ColumnChangeType::TypeChanged,
        },
        old_type: diff.new_type,
        new_type: diff.old_type,
    }
}

/// Whether no two differences speak of one column.
spec fn distinct_columns(diffs: Seq<ColumnDiffView>) -> bool {
    forall|i: int, j: int|
        0 <= i < j < diffs.len() ==> (#[trigger] diffs[i]).column_name != (
        #[trigger] diffs[j]).column_name
}

proof fn lemma_kept_names(
    columns: Seq<TypedColumnView>,
    f: spec_fn(TypedColumnView) -> Option<ColumnDiffView>,
)
    requires
        forall|column: TypedColumnView| #[trigger]
            f(column) is Some ==> f(column)->0.column_name == column.name,
        distinct_names(columns),
    ensures
        distinct_columns(columns.filter_map(f)),
        forall|i: int|
            0 <= i < columns.filter_map(f).len() ==> has_column(
                columns,
                (#[trigger] columns.filter_map(f)[i]).column_name,
            ),
    decreases columns.len(),
{
    if columns.len() > 0 {
        let front = columns.drop_last();
        let last = columns.last();
        let diffs = columns.filter_map(f);
        let before = front.filter_map(f);
        assert forall|i: int, j: int| 0 <= i < j < front.len() implies (
        #[trigger] front[i]).name != (#[trigger] front[j]).name by {
            assert(columns[i].name != columns[j].name);
        }
        lemma_kept_names(front, f);
        assert forall|name: Seq<char>| has_column(front, name) implies has_column(columns, name)
            && name != last.name by {
            let i = choose|i: int| 0 <= i < front.len() && (#[trigger] front[i]).name == name;
            assert(columns[i].name == name);
            assert(columns[i].name != columns[columns.len() - 1].name);
        }
        assert(columns[columns.len() - 1].name == last.name);
        assert(has_column(columns, last.name));
        assert(diffs == if f(last) is Some {
            before.push(f(last)->0)
        } else {
            before
        });
        assert forall|i: int| 0 <= i < diffs.len() implies has_column(
            columns,
            (#[trigger] diffs[i]).column_name,
        ) by {
            if i < before.len() {
                assert(diffs[i] == before[i]);
            }
        }
        assert forall|i: int, j: int| 0 <= i < j < diffs.len() implies (
        #[trigger] diffs[i]).column_name != (#[trigger] diffs[j]).column_name by {
            assert(diffs[i] == before[i]);
            if j < before.len() {
                assert(diffs[j] == before[j]);
            }
        }
    }
}

proof fn lemma_one_difference_per_column(
    base: Seq<TypedColumnView>,
    head: Seq<TypedColumnView>,
)
    requires
        distinct_names(base),
        distinct_names(head),
    ensures
        column_diffs(base, head).no_duplicates(),
{
    let f = |column: TypedColumnView| head_column_diff(base, column);
    let g = |column: TypedColumnView| base_column_diff(head, column);
    let first = head.filter_map(f);
    let second = base.filter_map(g);
    let all = column_diffs(base, head);
    assert(all == first + second);
    lemma_kept_names(head, f);
    lemma_kept_names(base, g);
    assert forall|i: int| 0 <= i < second.len() implies !has_column(
        head,
        (#[trigger] second[i]).column_name,
    ) by {
        assert(second.contains(second[i]));
        base.lemma_filter_map_contains(g, second[i]);
        lemma_type_of(head, second[i].column_name);
    }
    assert forall|i: int, j: int| 0 <= i < j < all.len() implies all[i] != all[j] by {
        if j < first.len() {
            assert(first[i].column_name != first[j].column_name);
        } else if i >= first.len() {
            assert(second[i - first.len()].column_name != second[j - first.len()].column_name);
        } else {
            assert(has_column(head, first[i].column_name));
            assert(!has_column(head, second[j - first.len()].column_name));
        }
    }
}

proof fn lemma_type_at(columns: Seq<TypedColumnView>, i: int)
    requires
        distinct_names(columns),
        0 <= i < columns.len(),
    ensures
        type_of(columns, columns[i].name) == Some(columns[i].data_type),
{
    let name = columns[i].name;
    lemma_type_of(columns, name);
    assert(has_column(columns, name));
    let j = choose|j: int|
        0 <= j < columns.len() && (#[trigger] columns[j]).name == name && columns[j].data_type
            == type_of(columns, name)->0;
    assert(i == j);
}

proof fn lemma_mirrored(
    base: Seq<TypedColumnView>,
    head: Seq<TypedColumnView>,
    diff: ColumnDiffView,
)
    requires
        distinct_names(base),
        distinct_names(head),
        column_diffs(base, head).contains(diff),
    ensures
        column_diffs(head, base).contains(mirrored(diff)),
{
    let other = mirrored(diff);
    lemma_diff_source(base, head, diff);
    lemma_diff_source(head, base, other);
    lemma_type_of(base, diff.column_name);
    if exists|i: int|
        0 <= i < head.len() && head_column_diff(base, #[trigger] head[i]) == Some(diff) {
        let i = choose|i: int|
            0 <= i < head.len() && head_column_diff(base, #[trigger] head[i]) == Some(diff);
        lemma_type_at(head, i);
        if type_of(base, head[i].name) is None {
            assert(base_column_diff(base, head[i]) == Some(other));
        } else {
            let j = choose|j: int|
                0 <= j < base.len() && (#[trigger] base[j]).name == diff.column_name
                    && base[j].data_type == type_of(base, diff.column_name)->0;
            assert(head_column_diff(head, base[j]) == Some(other));
        }
    } else {
        let i = choose|i: int|
            0 <= i < base.len() && base_column_diff(head, #[trigger] base[i]) == Some(diff);
        assert(head_column_diff(head, base[i]) == Some(other));
    }
}

/// What is added one way is removed the other way.
pub proof fn law_additions_mirror_removals(
    base: Seq<TypedColumnView>,
    head: Seq<TypedColumnView>,
    name: Seq<char>,
)
    ensures
        reported(column_diffs(base, head), ColumnChangeType::Added, name) <==> reported(
            column_diffs(head, base),
            ColumnChangeType::Removed,
            name,
        ),
{
    law_differences_are_exact(base, head, name);
    law_differences_are_exact(head, base, name);
}

/// Where no name occurs twice on a side, the differences one way are those the
/// other way, each seen from the other side.
pub proof fn law_differences_mirror(base: Seq<TypedColumnView>, head: Seq<TypedColumnView>)
    requires
        distinct_names(base),
        distinct_names(head),
    ensures
        column_diffs(base, head).to_multiset() == column_diffs(head, base).map_values(
            |diff: ColumnDiffView| mirrored(diff),
        ).to_multiset(),
{
    let one = column_diffs(base, head);
    let back = column_diffs(head, base);
    let other = back.map_values(|diff: ColumnDiffView| mirrored(diff));
    lemma_one_difference_per_column(base, head);
    lemma_one_difference_per_column(head, base);
    assert forall|diff: ColumnDiffView| #[trigger] mirrored(mirrored(diff)) == diff by {}
    assert(other.no_duplicates()) by {
        assert forall|i: int, j: int| 0 <= i < j < other.len() implies other[i] != other[j] by {
            assert(back[i] == mirrored(mirrored(back[i])));
            assert(back[j] == mirrored(mirrored(back[j])));
            assert(back[i] != back[j]);
        }
    }
    assert forall|diff: ColumnDiffView| one.contains(diff) <==> other.contains(diff) by {
        if one.contains(diff) {
            lemma_mirrored(base, head, diff);
            let i = choose|i: int| 0 <= i < back.len() && back[i] == mirrored(diff);
            assert(diff == mirrored(mirrored(diff)));
            assert(other[i] == diff);
        }
        if other.contains(diff) {
            let i = choose|i: int| 0 <= i < other.len() && other[i] == diff;
            assert(back.contains(back[i]));
            lemma_mirrored(head, base, back[i]);
        }
    }
    one.lemma_multiset_has_no_duplicates();
    other.lemma_multiset_has_no_duplicates();
    assert forall|diff: ColumnDiffView|
        one.to_multiset().count(diff) == other.to_multiset().count(diff) by {
        vstd::seq_lib::to_multiset_contains(one, diff);
        vstd::seq_lib::to_multiset_contains(other, diff);
    }
    assert(one.to_multiset() =~= other.to_multiset());
}

/// Against an empty base every column is added, and against an empty HEAD every
/// column is removed: as for a model that is new or gone.
pub proof fn law_empty_side(columns: Seq<TypedColumnView>)
    ensures
        column_diffs(Seq::empty(), columns) == columns.map_values(
            |column: TypedColumnView| added_column(column),
        ),
        column_diffs(columns, Seq::empty()) == columns.map_values(
            |column: TypedColumnView| removed_column(column),
        ),
    decreases columns.len(),
{
    let none = Seq::<TypedColumnView>::empty();
    let f = |column: TypedColumnView| head_column_diff(none, column);
    let g = |column: TypedColumnView| base_column_diff(none, column);
    if columns.len() > 0 {
        law_empty_side(columns.drop_last());
        let front = columns.drop_last();
        assert(column_diffs(none, front) =~= front.filter_map(f));
        assert(column_diffs(front, none) =~= front.filter_map(g));
    }
    assert(column_diffs(none, columns) =~= columns.filter_map(f));
    assert(column_diffs(columns, none) =~= columns.filter_map(g));
    assert(column_diffs(none, columns) =~= columns.map_values(
        |column: TypedColumnView| added_column(column),
    ));
    assert(column_diffs(columns, none) =~= columns.map_values(
        |column: TypedColumnView| removed_column(column),
    ));
}

/// The fields of a column and of a difference, one by one, and the items of lists.
pub proof fn law_columns_are_their_fields(
    column: TypedColumn,
    columns: Seq<TypedColumn>,
    diff: ColumnDiff,
    diffs: Seq<ColumnDiff>,
)
    ensures
        column@.name == column.name@,
        column@.data_type == column.data_type@,
        column_views(columns).len() == columns.len(),
        forall|i: int|
            0 <= i < columns.len() ==> #[trigger] column_views(columns)[i] == columns[i]@,
        diff@.column_name == diff.column_name@,
        diff@.change_type == diff.change_type,
        match diff.old_type {
            Some(old_type) => diff@.old_type == Some(old_type@),
            None => diff@.old_type is None,
        },
        match diff.new_type {
            Some(new_type) => diff@.new_type == Some(new_type@),
            None => diff@.new_type is None,
        },
        diff_views(diffs).len() == diffs.len(),
        forall|i: int| 0 <= i < diffs.len() ==> #[trigger] diff_views(diffs)[i] == diffs[i]@,
{
}

/// A column has the type that its name was given last, and a name that was given to
/// no column has none.
pub proof fn law_last_column_of_a_name_counts(columns: Seq<TypedColumnView>, name: Seq<char>)
    ensures
        forall|i: int|
            0 <= i < columns.len() && (#[trigger] columns[i]).name == name && (forall|j: int|
                i < j < columns.len() ==> (#[trigger] columns[j]).name != name) ==> type_of(
                columns,
                name,
            ) == Some(columns[i].data_type),
        type_of(columns, name) is None <==> forall|i: int|
            0 <= i < columns.len() ==> (#[trigger] columns[i]).name != name,
    decreases columns.len(),
{
    lemma_type_of(columns, name);
    if columns.len() > 0 {
        let front = columns.drop_last();
        assert(forall|i: int| 0 <= i < front.len() ==> #[trigger] front[i] == columns[i]);
        law_last_column_of_a_name_counts(front, name);
        assert forall|i: int|
            0 <= i < columns.len() && (#[trigger] columns[i]).name == name && (forall|j: int|
                i < j < columns.len() ==> (#[trigger] columns[j]).name != name) implies type_of(
            columns,
            name,
        ) == Some(columns[i].data_type) by {
            if i < front.len() {
                assert(columns[columns.len() - 1].name != name);
                assert(front[i].name == name);
            }
        }
    }
}

/// What the differences are, with their types. A difference is reported exactly if
/// it is a column of HEAD that the base has no column of the name of, added with its
/// type; or a column of HEAD whose name has another type at the base, changed from
/// that to its own; or a column of the base that HEAD has no column of the name of,
/// removed with its type.
pub proof fn law_what_the_differences_are(
    base: Seq<TypedColumnView>,
    head: Seq<TypedColumnView>,
    diff: ColumnDiffView,
)
    ensures
        column_diffs(base, head).contains(diff) <==> {
            ||| diff.change_type is Added && diff.old_type is None && (forall|j: int|
                0 <= j < base.len() ==> (#[trigger] base[j]).name != diff.column_name) && exists|
                i: int,
            |
                0 <= i < head.len() && (#[trigger] head[i]).name == diff.column_name
                    && diff.new_type == Some(head[i].data_type)
            ||| diff.change_type is TypeChanged && diff.old_type is Some && diff.old_type
                == type_of(base, diff.column_name) && diff.old_type != diff.new_type && exists|i: int|
                0 <= i < head.len() && (#[trigger] head[i]).name == diff.column_name
                    && diff.new_type == Some(head[i].data_type)
            ||| diff.change_type is Removed && diff.new_type is None && (forall|j: int|
                0 <= j < head.len() ==> (#[trigger] head[j]).name != diff.column_name) && exists|
                i: int,
            |
                0 <= i < base.len() && (#[trigger] base[i]).name == diff.column_name
                    && diff.old_type == Some(base[i].data_type)
        },
{
    let name = diff.column_name;
    lemma_diff_source(base, head, diff);
    law_last_column_of_a_name_counts(base, name);
    law_last_column_of_a_name_counts(head, name);
    if exists|i: int|
        0 <= i < head.len() && head_column_diff(base, #[trigger] head[i]) == Some(diff) {
        let i = choose|i: int|
            0 <= i < head.len() && head_column_diff(base, #[trigger] head[i]) == Some(diff);
        assert(head[i].name == name);
    }
    if exists|i: int|
        0 <= i < base.len() && base_column_diff(head, #[trigger] base[i]) == Some(diff) {
        let i = choose|i: int|
            0 <= i < base.len() && base_column_diff(head, #[trigger] base[i]) == Some(diff);
        assert(base[i].name == name);
    }
    if !(diff.change_type is Removed) && exists|i: int|
        0 <= i < head.len() && (#[trigger] head[i]).name == name && diff.new_type == Some(
            head[i].data_type,
        ) {
        let i = choose|i: int|
            0 <= i < head.len() && (#[trigger] head[i]).name == name && diff.new_type == Some(
                head[i].data_type,
            );
        if diff.change_type is Added && diff.old_type is None && type_of(base, name) is None {
            assert(head_column_diff(base, head[i]) == Some(diff));
        }
        if diff.change_type is TypeChanged && diff.old_type is Some && diff.old_type == type_of(
            base,
            name,
        ) && diff.old_type != diff.new_type {
            assert(head_column_diff(base, head[i]) == Some(diff));
        }
    }
    if diff.change_type is Removed && diff.new_type is None && type_of(head, name) is None
        && exists|i: int|
        0 <= i < base.len() && (#[trigger] base[i]).name == name && diff.old_type == Some(
            base[i].data_type,
        ) {
        let i = choose|i: int|
            0 <= i < base.len() && (#[trigger] base[i]).name == name && diff.old_type == Some(
                base[i].data_type,
            );
        assert(base_column_diff(head, base[i]) == Some(diff));
    }
}

/// The differences come in order: no addition or change of type behind a removal,
/// additions and changes in the order of HEAD's columns, and removals in the order of
/// the base's.
pub proof fn law_differences_come_in_order(
    base: Seq<TypedColumnView>,
    head: Seq<TypedColumnView>,
    x: int,
    y: int,
)
    requires
        0 <= x < y < column_diffs(base, head).len(),
    ensures
        ({
            let earlier = column_diffs(base, head)[x];
            let later = column_diffs(base, head)[y];
            &&& earlier.change_type is Removed ==> later.change_type is Removed
            &&& !(later.change_type is Removed) ==> exists|i: int, j: int|
                #![trigger head[i], head[j]]
                0 <= i < j < head.len() && head[i].name == earlier.column_name && head[j].name
                    == later.column_name && earlier.new_type == Some(head[i].data_type)
                    && later.new_type == Some(head[j].data_type)
            &&& earlier.change_type is Removed ==> exists|i: int, j: int|
                #![trigger base[i], base[j]]
                0 <= i < j < base.len() && base[i].name == earlier.column_name && base[j].name
                    == later.column_name && earlier.old_type == Some(base[i].data_type)
                    && later.old_type == Some(base[j].data_type)
        }),
{
    let f = |column: TypedColumnView| head_column_diff(base, column);
    let g = |column: TypedColumnView| base_column_diff(head, column);
    let first = head.filter_map(f);
    let second = base.filter_map(g);
    let all = column_diffs(base, head);
    assert(all == first + second);
    if y < first.len() {
        let at = lemma_filter_map_order(head, f, x, y);
        assert(head[at.0].name == all[x].column_name);
        assert(head[at.1].name == all[y].column_name);
    } else if x >= first.len() {
        let at = lemma_filter_map_order(base, g, x - first.len(), y - first.len());
        assert(base[at.0].name == all[x].column_name);
        assert(base[at.1].name == all[y].column_name);
    } else {
        let i = lemma_filter_map_source(head, f, x);
        let j = lemma_filter_map_source(base, g, y - first.len());
    }
}

/// Each column is counted once: there are as many differences as columns of HEAD
/// whose type is not that of their name at the base, and columns of the base that
/// HEAD has no column of the name of. Where no name occurs twice on a side, no
/// difference does.
pub proof fn law_every_column_differs_once(
    base: Seq<TypedColumnView>,
    head: Seq<TypedColumnView>,
)
    ensures
        column_diffs(base, head).len() == head.filter(
            |column: TypedColumnView| type_of(base, column.name) != Some(column.data_type),
        ).len() + base.filter(
            |column: TypedColumnView|
                forall|j: int| 0 <= j < head.len() ==> (#[trigger] head[j]).name != column.name,
        ).len(),
        (forall|i: int, j: int|
            0 <= i < j < base.len() ==> (#[trigger] base[i]).name != (#[trigger] base[j]).name) && (
        forall|i: int, j: int|
            0 <= i < j < head.len() ==> (#[trigger] head[i]).name != (#[trigger] head[j]).name)
            ==> column_diffs(base, head).no_duplicates(),
{
    let f = |column: TypedColumnView| head_column_diff(base, column);
    let g = |column: TypedColumnView| base_column_diff(head, column);
    let p = |column: TypedColumnView| type_of(base, column.name) != Some(column.data_type);
    let q = |column: TypedColumnView|
        forall|j: int| 0 <= j < head.len() ==> (#[trigger] head[j]).name != column.name;
    assert forall|i: int| 0 <= i < base.len() implies (g(#[trigger] base[i]) is Some <==> q(
        base[i],
    )) by {
        law_last_column_of_a_name_counts(head, base[i].name);
    }
    lemma_filter_map_count(head, f, p);
    lemma_filter_map_count(base, g, q);
    if distinct_names(base) && distinct_names(head) {
        lemma_one_difference_per_column(base, head);
    }
}

} // verus!

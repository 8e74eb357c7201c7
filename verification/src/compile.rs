//! What a compiler makes of a project, and the two things read off it: the
//! columns of each model, and the lowered project that is checked for breaking
//! changes.

use vstd::prelude::*;
use vstd::string::*;

use crate::columns::{column_views, TypedColumn, TypedColumnView};
use crate::models::{Model, TargetConfig};
use crate::results::{schema_views, Schemas};
use crate::string_map::StringMap;

verus! {

/// A column as the type checker found it.
#[derive(Debug, Clone)]
pub struct CompiledColumn<C> {
    pub name: String,
    /// Its type, as text.
    pub data_type: String,
    pub nullable: bool,
    /// Everything else that the compiler keeps of the column, its type as such
    /// among it. It is handed on, not read.
    pub rest: C,
}

/// The outcome of compiling a project.
#[derive(Debug)]
pub struct CompileResult<R, C, G> {
    /// The models of the project.
    pub models: Vec<Model<R>>,
    /// The columns that the type checker found, by model name.
    pub typed_models: StringMap<Vec<CompiledColumn<C>>>,
    /// Everything else that the compiler found, such as how the columns of the
    /// models hang together. It is handed on, not read.
    pub rest: G,
}

/// The name and type of a compiled column.
pub open spec fn name_and_type<C>(column: CompiledColumn<C>) -> TypedColumnView {
    TypedColumnView { name: column.name@, data_type: column.data_type@ }
}

/// The columns of each model, by model name.
pub open spec fn typed_columns<R, C, G>(result: CompileResult<R, C, G>) -> Map<
    Seq<char>,
    Seq<TypedColumnView>,
> {
    Map::new(
        |name: Seq<char>| result.typed_models@.contains_key(name),
        |name: Seq<char>|
            result.typed_models@[name]@.map_values(
                |column: CompiledColumn<C>| name_and_type(column),
            ),
    )
}

/// The names and types of compiled columns.
fn names_and_types<C>(columns: &Vec<CompiledColumn<C>>) -> (r: Vec<TypedColumn>)
    ensures
        column_views(r@) == columns@.map_values(
            |column: CompiledColumn<C>| name_and_type(column),
        ),
{
    let mut r: Vec<TypedColumn> = Vec::new();
    let mut i: usize = 0;
    while i < columns.len()
        invariant
            i <= columns@.len(),
            r@.len() == i,
            forall|j: int| 0 <= j < i ==> (#[trigger] r@[j])@ == name_and_type(columns@[j]),
        decreases columns@.len() - i,
    {
        let column = &columns[i];
        r.push(
            TypedColumn {
                name: column.name.as_str().to_owned(),
                data_type: column.data_type.as_str().to_owned(),
            },
        );
        i += 1;
    }
    assert(column_views(r@) =~= columns@.map_values(
        |column: CompiledColumn<C>| name_and_type(column),
    ));
    r
}

/// Reads the columns of each model off a compiled project.
pub fn typed_columns_from_compile<R, C, G>(result: &CompileResult<R, C, G>) -> (r: Schemas)
    ensures
        schema_views(r) == typed_columns(*result),
{
    let typed = &result.typed_models;
    let ghost keys = typed.order();
    let ghost goal = typed_columns(*result);
    let mut schemas: Schemas = StringMap::new();
    let count: usize = typed.len();
    let mut i: usize = 0;
    while i < count
        invariant
            count == keys.len(),
            i <= count,
            typed == result.typed_models,
            keys == typed.order(),
            goal == typed_columns(*result),
            forall|name: Seq<char>|
                schema_views(schemas).contains_key(name) <==> keys.take(i as int).contains(name),
            forall|name: Seq<char>|
                keys.take(i as int).contains(name) ==> #[trigger] schema_views(schemas)[name]
                    == goal[name],
        decreases count - i,
    {
        let ghost before = schema_views(schemas);
        let ghost key = keys[i as int];
        let columns = names_and_types(typed.value_at(i));
        let name = typed.key_at(i).as_str().to_owned();
        schemas.insert(name, columns);
        proof {
            assert(schema_views(schemas) =~= before.insert(key, column_views(columns@)));
            assert(column_views(columns@) == goal[key]);
            assert(keys.take(i + 1) =~= keys.take(i as int).push(key));
            assert forall|n: Seq<char>|
                schema_views(schemas).contains_key(n) <==> keys.take(i + 1).contains(n) by {
                assert(schema_views(schemas).contains_key(n) <==> n == key || before.contains_key(
                    n,
                ));
                let longer = keys.take(i + 1);
                assert(longer[i as int] == key);
                if keys.take(i as int).contains(n) {
                    let j = choose|j: int| 0 <= j < i && keys.take(i as int)[j] == n;
                    assert(longer[j] == n);
                }
                if longer.contains(n) {
                    let j = choose|j: int| 0 <= j < longer.len() && longer[j] == n;
                    if j < i {
                        assert(keys.take(i as int)[j] == n);
                    }
                }
            }
        }
        i += 1;
    }
    proof {
        assert(keys.take(keys.len() as int) =~= keys);
        assert forall|name: Seq<char>| goal.contains_key(name) <==> keys.contains(name) by {
            assert(typed@.dom().contains(name) <==> keys.to_set().contains(name));
        }
        assert(schema_views(schemas) =~= goal);
    }
    schemas
}

/// A model lowered for comparison.
#[derive(Debug)]
pub struct ModelIr<'a, R, C> {
    pub name: String,
    pub target: TargetConfig,
    pub typed_columns: Vec<&'a CompiledColumn<C>>,
    /// Everything else that the compiler keeps of the model.
    pub rest: &'a R,
}

/// A project lowered for comparison.
#[derive(Debug)]
pub struct ProjectIr<'a, R, C> {
    pub models: Vec<ModelIr<'a, R, C>>,
    /// Pairs of a model and one that it depends on.
    pub dag: Vec<(String, String)>,
    /// Pairs of a column and one that it comes from.
    pub lineage_edges: Vec<(String, String)>,
}

/// The columns that a list of references leads to.
pub open spec fn referred<'a, C>(columns: Seq<&'a CompiledColumn<C>>) -> Seq<CompiledColumn<C>> {
    Seq::new(columns.len(), |i: int| *columns[i])
}

/// The columns that the type checker found under a name, or none where it found
/// none.
pub open spec fn columns_of<C>(
    typed: Map<Seq<char>, Vec<CompiledColumn<C>>>,
    name: Seq<char>,
) -> Seq<CompiledColumn<C>> {
    if typed.contains_key(name) {
        typed[name]@
    } else {
        Seq::empty()
    }
}

/// Whether `ir` is a model lowered: its name, its target and all that is only
/// handed on, with the columns that the type checker found under its name.
pub open spec fn lowers_model<'a, R, C>(
    ir: ModelIr<'a, R, C>,
    model: Model<R>,
    typed: Map<Seq<char>, Vec<CompiledColumn<C>>>,
) -> bool {
    &&& ir.name@ == model.config.name@
    &&& ir.target.catalog@ == model.config.target.catalog@
    &&& ir.target.schema@ == model.config.target.schema@
    &&& ir.target.table@ == model.config.target.table@
    &&& referred(ir.typed_columns@) == columns_of(typed, model.config.name@)
    &&& *ir.rest == model.rest
}

/// Whether `ir` is the compiled project lowered: its models one by one, and
/// neither dependencies nor lineage, which the comparison does not read.
pub open spec fn lowers<'a, R, C, G>(
    ir: ProjectIr<'a, R, C>,
    result: CompileResult<R, C, G>,
) -> bool {
    &&& ir.models@.len() == result.models@.len()
    &&& forall|i: int|
        0 <= i < ir.models@.len() ==> lowers_model(
            #[trigger] ir.models@[i],
            result.models@[i],
            result.typed_models@,
        )
    &&& ir.dag@.len() == 0
    &&& ir.lineage_edges@.len() == 0
}

/// References to compiled columns.
fn refer_to<'a, C>(columns: &'a Vec<CompiledColumn<C>>) -> (r: Vec<&'a CompiledColumn<C>>)
    ensures
        referred(r@) == columns@,
{
    let mut r: Vec<&'a CompiledColumn<C>> = Vec::new();
    let mut i: usize = 0;
    while i < columns.len()
        invariant
            i <= columns@.len(),
            r@.len() == i,
            forall|j: int| 0 <= j < i ==> *(#[trigger] r@[j]) == columns@[j],
        decreases columns@.len() - i,
    {
        r.push(&columns[i]);
        i += 1;
    }
    assert(referred(r@) =~= columns@);
    r
}

/// Lowers a compiled project for comparison.
pub fn project_ir_from_compile<'a, R, C, G>(result: &'a CompileResult<R, C, G>) -> (r: ProjectIr<
    'a,
    R,
    C,
>)
    ensures
        lowers(r, *result),
{
    let mut models: Vec<ModelIr<'a, R, C>> = Vec::new();
    let mut i: usize = 0;
    while i < result.models.len()
        invariant
            i <= result.models@.len(),
            models@.len() == i,
            forall|j: int|
                0 <= j < i ==> lowers_model(
                    #[trigger] models@[j],
                    result.models@[j],
                    result.typed_models@,
                ),
        decreases result.models@.len() - i,
    {
        let model = &result.models[i];
        let config = &model.config;
        let typed_columns: Vec<&'a CompiledColumn<C>> = match result.typed_models.get(
            config.name.as_str(),
        ) {
            Some(columns) => refer_to(columns),
            None => Vec::new(),
        };
        assert(referred(typed_columns@) =~= columns_of(result.typed_models@, config.name@));
        models.push(
            ModelIr {
                name: config.name.as_str().to_owned(),
                target: TargetConfig {
                    catalog: config.target.catalog.as_str().to_owned(),
                    schema: config.target.schema.as_str().to_owned(),
                    table: config.target.table.as_str().to_owned(),
                },
                typed_columns,
                rest: &model.rest,
            },
        );
        i += 1;
    }
    ProjectIr { models, dag: Vec::new(), lineage_edges: Vec::new() }
}

/// Compares two compiled projects with `diff_project_ir`, which takes the base
/// and HEAD lowered. Without both of them there is nothing to find.
pub fn semantic_findings<
    'a,
    R,
    C,
    G,
    T,
    F: Fn(&ProjectIr<'a, R, C>, &ProjectIr<'a, R, C>) -> Vec<T>,
>(
    base: Option<&'a CompileResult<R, C, G>>,
    head: Option<&'a CompileResult<R, C, G>>,
    diff_project_ir: F,
) -> (r: Vec<T>)
    requires
        forall|old_ir: &ProjectIr<'a, R, C>, new_ir: &ProjectIr<'a, R, C>|
            call_requires(diff_project_ir, (old_ir, new_ir)),
    ensures
        match (base, head) {
            (Some(base), Some(head)) => exists|
                old_ir: ProjectIr<'a, R, C>,
                new_ir: ProjectIr<'a, R, C>,
            |
                lowers(old_ir, *base) && lowers(new_ir, *head) && #[trigger] call_ensures(
                    diff_project_ir,
                    (&old_ir, &new_ir),
                    r,
                ),
            _ => r@.len() == 0,
        },
{
    match (base, head) {
        (Some(base), Some(head)) => {
            let old_ir = project_ir_from_compile(base);
            let new_ir = project_ir_from_compile(head);
            diff_project_ir(&old_ir, &new_ir)
        },
        _ => Vec::new(),
    }
}

/// Reading columns off a compiled project keeps them whole: the same models, for each
/// of them as many columns, and each with its whole name and the whole text of its
/// type. So columns whose type texts differ are read as columns whose types differ.
pub proof fn law_columns_are_read_whole<R, C, G>(
    result: CompileResult<R, C, G>,
    model: Seq<char>,
    i: int,
    other: CompileResult<R, C, G>,
    j: int,
)
    ensures
        typed_columns(result).contains_key(model) <==> result.typed_models@.contains_key(model),
        result.typed_models@.contains_key(model) ==> typed_columns(result)[model].len()
            == result.typed_models@[model]@.len(),
        result.typed_models@.contains_key(model) && 0 <= i < result.typed_models@[model]@.len()
            ==> typed_columns(result)[model][i].name == result.typed_models@[model]@[i].name@
            && typed_columns(result)[model][i].data_type
            == result.typed_models@[model]@[i].data_type@,
        result.typed_models@.contains_key(model) && other.typed_models@.contains_key(model) && 0
            <= i < result.typed_models@[model]@.len() && 0 <= j
            < other.typed_models@[model]@.len() ==> (typed_columns(result)[model][i].data_type
            == typed_columns(other)[model][j].data_type
            <==> result.typed_models@[model]@[i].data_type@
            == other.typed_models@[model]@[j].data_type@),
{
}

/// A lowered project has the models of the project, in their order, each with its
/// whole name and target and with all that is only handed on; and neither
/// dependencies nor lineage.
pub proof fn law_lowered_models_are_the_models<'a, R, C, G>(
    ir: ProjectIr<'a, R, C>,
    result: CompileResult<R, C, G>,
    k: int,
)
    requires
        lowers(ir, result),
    ensures
        ir.models@.len() == result.models@.len(),
        ir.dag@.len() == 0,
        ir.lineage_edges@.len() == 0,
        0 <= k < result.models@.len() ==> {
            let lowered = ir.models@[k];
            let config = result.models@[k].config;
            &&& lowered.name@ == config.name@
            &&& lowered.target.catalog@ == config.target.catalog@
            &&& lowered.target.schema@ == config.target.schema@
            &&& lowered.target.table@ == config.target.table@
            &&& *lowered.rest == result.models@[k].rest
        },
{
    if 0 <= k < result.models@.len() {
        assert(lowers_model(ir.models@[k], result.models@[k], result.typed_models@));
    }
}

/// A lowered model has exactly the columns that the type checker found under its
/// name: as many, and at each place the very column, whatever it is like; and none
/// where it found none.
pub proof fn law_lowered_columns_are_the_columns<'a, R, C, G>(
    ir: ProjectIr<'a, R, C>,
    result: CompileResult<R, C, G>,
    k: int,
    i: int,
)
    requires
        lowers(ir, result),
        0 <= k < result.models@.len(),
    ensures
        ({
            let name = result.models@[k].config.name@;
            let lowered = ir.models@[k].typed_columns@;
            let typed = result.typed_models@;
            &&& !typed.contains_key(name) ==> lowered.len() == 0
            &&& typed.contains_key(name) ==> lowered.len() == typed[name]@.len()
            &&& typed.contains_key(name) && 0 <= i < typed[name]@.len() ==> *lowered[i]
                == typed[name]@[i]
        }),
{
    let name = result.models@[k].config.name@;
    let lowered = ir.models@[k].typed_columns@;
    assert(lowers_model(ir.models@[k], result.models@[k], result.typed_models@));
    assert(referred(lowered) == columns_of(result.typed_models@, name));
    assert(referred(lowered).len() == lowered.len());
    if 0 <= i < lowered.len() {
        assert(referred(lowered)[i] == *lowered[i]);
    }
}

} // verus!

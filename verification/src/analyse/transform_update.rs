//! The rule that turns an `UPDATE` into a plan: which kind of update a
//! statement is, and which columns the plan of each kind reads.

use vstd::prelude::*;

verus! {

/// The rule that rewrites update statements.
#[non_exhaustive]
pub struct TransformUpdateRule {}

impl TransformUpdateRule {
    pub fn new() -> (rule: Self) {
        TransformUpdateRule {  }
    }

    /// The name under which the rule is registered.
    pub fn name(&self) -> (name: &'static str)
        ensures
            name@ == "transform_update"@,
    {
        "transform_update"
    }
}

impl Default for TransformUpdateRule {
    fn default() -> (rule: Self) {
        TransformUpdateRule {  }
    }
}

/// What kind of column a column of a time-series table is.
#[derive(Debug, Clone, Copy, PartialEq, Eq, Structural)]
pub enum ColumnKind {
    Time,
    Tag,
    Field,
}

/// What kind of table an update is aimed at.
#[derive(Debug, Clone, Copy, PartialEq, Eq, Structural)]
pub enum TableKind {
    /// A time-series table of this engine.
    Tskv,
    /// Any other table.
    Other,
}

/// What the rule reads of an update statement.
pub struct UpdateTarget {
    /// Whether the table comes through the engine's own adapter.
    pub is_adapter: bool,
    /// The kind of table.
    pub table: TableKind,
    /// For each assignment of the statement, in order, the kind of the column
    /// it assigns to, or `None` where the table has no column of that name.
    pub assigned: Vec<Option<ColumnKind>>,
}

/// The kinds of update for which a plan is built.
#[derive(Debug, Clone, Copy, PartialEq, Eq, Structural)]
pub enum UpdateKind {
    /// Only tag columns are assigned.
    Tag,
    /// Only field columns are assigned.
    Field,
}

/// Why no plan is built for an update.
#[derive(Debug, Clone, Copy, PartialEq, Eq, Structural)]
pub enum UpdateError {
    /// The table does not come through the engine's own adapter.
    SourceNotAdapter,
    /// The table is not a time-series table.
    NotTskvTable,
    /// The assignment at this position names a column that the table lacks.
    ColumnNotFound { position: usize },
    /// Only the time column is assigned, or nothing at all: updating the time
    /// is not implemented.
    UpdateTime,
    /// Columns of more than one kind are assigned in one statement.
    MixedColumns,
}

/// Whether position `i` holds the first assignment to a column that the table
/// lacks.
pub open spec fn is_first_unknown(assigned: Seq<Option<ColumnKind>>, i: int) -> bool {
    &&& 0 <= i < assigned.len()
    &&& assigned[i] is None
    &&& forall|j: int| 0 <= j < i ==> #[trigger] assigned[j] is Some
}

/// Whether every assignment is to a column of the given kind. This is so of a
/// statement without assignments.
pub open spec fn all_of(assigned: Seq<Option<ColumnKind>>, kind: ColumnKind) -> bool {
    forall|i: int| 0 <= i < assigned.len() ==> #[trigger] assigned[i] == Some(kind)
}

/// Whether `result` is what the rule makes of `target`.
///
/// The table is checked first, then that every assigned column exists. After
/// that the kinds are tried in the order time, tag, field, and the first of
/// which all assigned columns are decides.
pub open spec fn is_analysis_of(target: UpdateTarget, result: Result<UpdateKind, UpdateError>) -> bool {
    let assigned = target.assigned@;
    let table_ok = target.is_adapter && target.table == TableKind::Tskv;
    let known = forall|i: int| 0 <= i < assigned.len() ==> #[trigger] assigned[i] is Some;
    match result {
        Err(UpdateError::SourceNotAdapter) => !target.is_adapter,
        Err(UpdateError::NotTskvTable) => target.is_adapter && target.table != TableKind::Tskv,
        Err(UpdateError::ColumnNotFound { position }) => table_ok && is_first_unknown(
            assigned,
            position as int,
        ),
        Err(UpdateError::UpdateTime) => table_ok && known && all_of(assigned, ColumnKind::Time),
        Ok(UpdateKind::Tag) => table_ok && known && !all_of(assigned, ColumnKind::Time) && all_of(
            assigned,
            ColumnKind::Tag,
        ),
        Ok(UpdateKind::Field) => table_ok && known && !all_of(assigned, ColumnKind::Time)
            && !all_of(assigned, ColumnKind::Tag) && all_of(assigned, ColumnKind::Field),
        Err(UpdateError::MixedColumns) => table_ok && known && !all_of(assigned, ColumnKind::Time)
            && !all_of(assigned, ColumnKind::Tag) && !all_of(assigned, ColumnKind::Field),
    }
}

/// Decides what becomes of an update statement.
pub fn analyze_internal(target: &UpdateTarget) -> (result: Result<UpdateKind, UpdateError>)
    ensures
        is_analysis_of(*target, result),
{
    if !target.is_adapter {
        return Err(UpdateError::SourceNotAdapter);
    }
    match target.table {
        TableKind::Tskv => {},
        TableKind::Other => {
            return Err(UpdateError::NotTskvTable);
        },
    }
    let mut is_update_time = true;
    let mut is_update_tag = true;
    let mut is_update_field = true;
    let mut i: usize = 0;
    while i < target.assigned.len()
        invariant
            i <= target.assigned@.len(),
            target.is_adapter,
            target.table == TableKind::Tskv,
            forall|j: int| 0 <= j < i ==> #[trigger] target.assigned@[j] is Some,
            is_update_time == all_of(target.assigned@.take(i as int), ColumnKind::Time),
            is_update_tag == all_of(target.assigned@.take(i as int), ColumnKind::Tag),
            is_update_field == all_of(target.assigned@.take(i as int), ColumnKind::Field),
        decreases target.assigned@.len() - i,
    {
        let ghost short = target.assigned@.take(i as int);
        let ghost long = target.assigned@.take(i as int + 1);
        proof {
            assert forall|kind: ColumnKind|
                all_of(long, kind) == (all_of(short, kind) && target.assigned@[i as int] == Some(
                    kind,
                )) by {
                if all_of(long, kind) {
                    assert(long[i as int] == Some(kind));
                    assert forall|j: int| 0 <= j < short.len() implies #[trigger] short[j] == Some(
                        kind,
                    ) by {
                        assert(long[j] == Some(kind));
                    }
                }
                if all_of(short, kind) && target.assigned@[i as int] == Some(kind) {
                    assert forall|j: int| 0 <= j < long.len() implies #[trigger] long[j] == Some(
                        kind,
                    ) by {
                        if j < i {
                            assert(short[j] == Some(kind));
                        }
                    }
                }
            }
        }
        match target.assigned[i] {
            None => {
                assert(is_first_unknown(target.assigned@, i as int));
                return Err(UpdateError::ColumnNotFound { position: i });
            },
            Some(ColumnKind::Time) => {
                is_update_tag = false;
                is_update_field = false;
            },
            Some(ColumnKind::Tag) => {
                is_update_time = false;
                is_update_field = false;
            },
            Some(ColumnKind::Field) => {
                is_update_time = false;
                is_update_tag = false;
            },
        }
        i += 1;
    }
    assert(target.assigned@.take(i as int) =~= target.assigned@);
    if is_update_time {
        return update_time();
    }
    if is_update_tag {
        return Ok(UpdateKind::Tag);
    }
    if is_update_field {
        return Ok(UpdateKind::Field);
    }
    Err(UpdateError::MixedColumns)
}

/// Decides what becomes of a plan, of which `target` holds what the rule
/// reads if the plan is an update, and nothing if it is not.
///
/// A plan that is no update stays as it is: the answer is `Ok(None)`, and
/// it is given for no update. An update gets the answer of
/// [`analyze_internal`].
pub fn analyze_plan(target: Option<&UpdateTarget>) -> (result: Result<
    Option<UpdateKind>,
    UpdateError,
>)
    ensures
        match target {
            None => result == Ok::<Option<UpdateKind>, UpdateError>(None),
            Some(target) => match result {
                Ok(Some(kind)) => is_analysis_of(*target, Ok(kind)),
                Ok(None) => false,
                Err(error) => is_analysis_of(*target, Err(error)),
            },
        },
{
    match target {
        None => Ok(None),
        Some(target) => match analyze_internal(target) {
            Ok(kind) => Ok(Some(kind)),
            Err(error) => Err(error),
        },
    }
}

/// Updating the time column is not supported.
pub fn update_time() -> (result: Result<UpdateKind, UpdateError>)
    ensures
        result == Err::<UpdateKind, UpdateError>(UpdateError::UpdateTime),
{
    Err(UpdateError::UpdateTime)
}

/// The columns that the scan of a tag update projects: the positions of the
/// tag columns and of the time column among the columns of the table, in the
/// order of the table.
pub fn update_tag(columns: &Vec<ColumnKind>) -> (projection: Vec<usize>)
    ensures
        forall|k: int|
            0 <= k < projection@.len() ==> (#[trigger] projection@[k]) < columns@.len()
                && columns@[projection@[k] as int] != ColumnKind::Field,
        forall|j: int, k: int|
            0 <= j < k < projection@.len() ==> projection@[j] < projection@[k],
        forall|i: int|
            0 <= i < columns@.len() && #[trigger] columns@[i] != ColumnKind::Field ==> exists|
                k: int,
            |
                0 <= k < projection@.len() && #[trigger] projection@[k] == i,
{
    let mut projection: Vec<usize> = Vec::new();
    let mut i: usize = 0;
    while i < columns.len()
        invariant
            i <= columns@.len(),
            forall|k: int|
                0 <= k < projection@.len() ==> (#[trigger] projection@[k]) < i
                    && columns@[projection@[k] as int] != ColumnKind::Field,
            forall|j: int, k: int|
                0 <= j < k < projection@.len() ==> projection@[j] < projection@[k],
            forall|p: int|
                0 <= p < i && #[trigger] columns@[p] != ColumnKind::Field ==> exists|k: int|
                    0 <= k < projection@.len() && #[trigger] projection@[k] == p,
        decreases columns@.len() - i,
    {
        let ghost before = projection@;
        match columns[i] {
            ColumnKind::Field => {},
            _ => {
                projection.push(i);
                assert forall|p: int|
                    0 <= p < i + 1 && #[trigger] columns@[p] != ColumnKind::Field implies exists|
                    k: int,
                |
                    0 <= k < projection@.len() && #[trigger] projection@[k] == p by {
                    if p < i {
                        let k = choose|k: int| 0 <= k < before.len() && #[trigger] before[k] == p;
                        assert(projection@[k] == p);
                    } else {
                        assert(projection@[before.len() as int] == p);
                    }
                }
            },
        }
        i += 1;
    }
    projection
}

/// Where each column of a field update gets its value from: for each column
/// of the table, in order, the position of the first assignment to a column
/// of that name, or `None` where the column keeps its value.
pub fn update_field(fields: &Vec<String>, assigned: &Vec<String>) -> (sources: Vec<Option<usize>>)
    ensures
        sources@.len() == fields@.len(),
        forall|i: int|
            0 <= i < fields@.len() ==> match #[trigger] sources@[i] {
                Some(at) => at < assigned@.len() && assigned@[at as int]@ == fields@[i]@ && forall|
                    k: int,
                |
                    0 <= k < at ==> (#[trigger] assigned@[k])@ != fields@[i]@,
                None => forall|k: int|
                    0 <= k < assigned@.len() ==> (#[trigger] assigned@[k])@ != fields@[i]@,
            },
{
    let mut sources: Vec<Option<usize>> = Vec::new();
    let mut i: usize = 0;
    while i < fields.len()
        invariant
            i <= fields@.len(),
            sources@.len() == i,
            forall|p: int|
                0 <= p < i ==> match #[trigger] sources@[p] {
                    Some(at) => at < assigned@.len() && assigned@[at as int]@ == fields@[p]@
                        && forall|k: int| 0 <= k < at ==> (#[trigger] assigned@[k])@ != fields@[p]@,
                    None => forall|k: int|
                        0 <= k < assigned@.len() ==> (#[trigger] assigned@[k])@ != fields@[p]@,
                },
        decreases fields@.len() - i,
    {
        let mut set_value: Option<usize> = None;
        let mut k: usize = 0;
        while k < assigned.len() && set_value.is_none()
            invariant
                i < fields@.len(),
                k <= assigned@.len(),
                match set_value {
                    Some(at) => at < assigned@.len() && assigned@[at as int]@ == fields@[i as int]@
                        && forall|j: int|
                        0 <= j < at ==> (#[trigger] assigned@[j])@ != fields@[i as int]@,
                    None => forall|j: int|
                        0 <= j < k ==> (#[trigger] assigned@[j])@ != fields@[i as int]@,
                },
            decreases assigned@.len() - k,
        {
            if assigned[k] == fields[i] {
                set_value = Some(k);
            }
            k += 1;
        }
        let ghost before = sources@;
        sources.push(set_value);
        assert forall|p: int| 0 <= p < i + 1 implies match #[trigger] sources@[p] {
            Some(at) => at < assigned@.len() && assigned@[at as int]@ == fields@[p]@ && forall|
                k: int,
            |
                0 <= k < at ==> (#[trigger] assigned@[k])@ != fields@[p]@,
            None => forall|k: int|
                0 <= k < assigned@.len() ==> (#[trigger] assigned@[k])@ != fields@[p]@,
        } by {
            if p < i {
                assert(sources@[p] == before[p]);
            }
        }
        i += 1;
    }
    sources
}

} // verus!

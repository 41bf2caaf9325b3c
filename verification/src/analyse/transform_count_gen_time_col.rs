//! The rule that gives `count` of a constant something to count: the scan
//! below such an aggregate is made to read the time column as well.

use vstd::prelude::*;

verus! {

/// The rule that adds the time column below a `count` of constants.
pub struct TransformCountGenTimeColRule {}

impl TransformCountGenTimeColRule {
    /// The name under which the rule is registered.
    pub fn name(&self) -> (name: &'static str)
        ensures
            name@ == "transform_count_gen_time_col"@,
    {
        "transform_count_gen_time_col"
    }
}

/// What the rule reads of one aggregate expression.
pub enum AggregateCall {
    /// A call of `count`: for each argument, whether it is a literal.
    Count(Vec<bool>),
    /// Anything else.
    Other,
}

/// Where the rows of a table scan come from.
#[derive(Debug, Clone, Copy, PartialEq, Eq, Structural)]
pub enum ScanSource {
    /// A table of the cluster, which has a time column at position 0.
    ClusterTable,
    /// Another table provider.
    OtherProvider,
    /// A source that is no table provider at all.
    NotProvider,
}

/// What the rule reads of one node of a plan.
pub enum PlanNode {
    /// A table scan with its projection, if it has one.
    TableScan(ScanSource, Option<Vec<usize>>),
    /// A join.
    Join,
    /// A cross join.
    CrossJoin,
    /// Any other node.
    Other,
}

/// What is to be changed in a plan.
#[derive(Debug, PartialEq, Eq)]
pub struct CountRewrite {
    /// How many steps below the aggregate the table scan stands.
    pub depth: usize,
    /// The projection that the scan gets: the time column, then what it read
    /// before.
    pub projection: Vec<usize>,
}

/// Why the rule failed.
#[derive(Debug, Clone, Copy, PartialEq, Eq, Structural)]
pub enum CountError {
    /// The scan below the aggregate reads a source that is no table provider.
    NotProvider,
}

/// Whether a `count` is called on literals alone, which is so of a call
/// without arguments.
pub open spec fn only_literal(call: AggregateCall) -> bool {
    match call {
        AggregateCall::Count(literal) => forall|i: int|
            0 <= i < literal@.len() ==> #[trigger] literal@[i],
        AggregateCall::Other => false,
    }
}

/// Whether one of the aggregate expressions is a `count` of literals alone.
pub open spec fn counts_literal(calls: Seq<AggregateCall>) -> bool {
    exists|i: int| 0 <= i < calls.len() && only_literal(#[trigger] calls[i])
}

/// Whether the walk down a plan ends at this node.
pub open spec fn ends_walk(node: PlanNode) -> bool {
    !(node is Other)
}

/// Whether `chain[i]` is the first node at which the walk ends.
pub open spec fn is_walk_end(chain: Seq<PlanNode>, i: int) -> bool {
    &&& 0 <= i < chain.len()
    &&& ends_walk(chain[i])
    &&& forall|j: int| 0 <= j < i ==> !ends_walk(#[trigger] chain[j])
}

/// The projection of a scan that reads the time column first and then what
/// `projection` reads.
pub open spec fn with_time_column(projection: Option<Vec<usize>>) -> Seq<usize> {
    match projection {
        Some(columns) => seq![0usize] + columns@,
        None => seq![0usize],
    }
}

/// Whether `result` is what the rule makes of an aggregate with the
/// expressions `calls` above the nodes `chain`, which starts with the
/// aggregate and goes on with the first input of each node.
pub open spec fn is_count_rewrite_of(
    calls: Seq<AggregateCall>,
    chain: Seq<PlanNode>,
    result: Result<Option<CountRewrite>, CountError>,
) -> bool {
    if !counts_literal(calls) {
        result == Ok::<Option<CountRewrite>, CountError>(None)
    } else {
        exists|i: int| #[trigger]
            is_walk_end(chain, i) && match chain[i] {
                PlanNode::TableScan(ScanSource::ClusterTable, projection) => result matches Ok(
                    Some(rewrite),
                ) && rewrite.depth == i && rewrite.projection@ == with_time_column(projection),
                PlanNode::TableScan(ScanSource::NotProvider, _) => result == Err::<
                    Option<CountRewrite>,
                    CountError,
                >(CountError::NotProvider),
                _ => result == Ok::<Option<CountRewrite>, CountError>(None),
            }
    }
}

/// Whether every argument is a literal.
fn all_literal(literal: &Vec<bool>) -> (all: bool)
    ensures
        all == forall|i: int| 0 <= i < literal@.len() ==> #[trigger] literal@[i],
{
    let mut i: usize = 0;
    while i < literal.len()
        invariant
            i <= literal@.len(),
            forall|j: int| 0 <= j < i ==> #[trigger] literal@[j],
        decreases literal@.len() - i,
    {
        if !literal[i] {
            return false;
        }
        i += 1;
    }
    true
}

/// Whether the call is a `count` whose arguments are all literals.
pub fn is_count_of_literals(call: &AggregateCall) -> (only: bool)
    ensures
        only == only_literal(*call),
{
    match call {
        AggregateCall::Count(literal) => all_literal(literal),
        AggregateCall::Other => false,
    }
}

/// The projection with the time column put in front.
pub fn add_time_column(projection: &Option<Vec<usize>>) -> (columns: Vec<usize>)
    ensures
        columns@ == with_time_column(*projection),
{
    let mut columns: Vec<usize> = Vec::new();
    columns.push(0);
    match projection {
        Some(old_columns) => {
            let mut i: usize = 0;
            while i < old_columns.len()
                invariant
                    i <= old_columns@.len(),
                    columns@ == seq![0usize] + old_columns@.take(i as int),
                decreases old_columns@.len() - i,
            {
                columns.push(old_columns[i]);
                assert(old_columns@.take(i as int + 1) =~= old_columns@.take(i as int).push(
                    old_columns@[i as int],
                ));
                i += 1;
            }
            assert(old_columns@.take(i as int) =~= old_columns@);
        },
        None => {},
    }
    columns
}

/// Decides what becomes of an aggregate.
///
/// Unless one of its expressions counts literals alone, nothing changes. Else
/// the plan is walked down from the aggregate, from each node to its first
/// input, to the first table scan or join. A scan of a cluster table gets the
/// time column put in front of its projection; a join, or a scan of another
/// table, leaves the plan as it is.
///
/// The walk must come to an end within `chain`: a plan that runs out of
/// inputs before a scan or a join is not one this rule is made for.
pub fn analyze_internal(calls: &Vec<AggregateCall>, chain: &Vec<PlanNode>) -> (result: Result<
    Option<CountRewrite>,
    CountError,
>)
    requires
        counts_literal(calls@) ==> exists|i: int| is_walk_end(chain@, i),
    ensures
        is_count_rewrite_of(calls@, chain@, result),
{
    let mut found = false;
    let mut c: usize = 0;
    while c < calls.len() && !found
        invariant
            c <= calls@.len(),
            found ==> counts_literal(calls@),
            !found ==> forall|j: int| 0 <= j < c ==> !only_literal(#[trigger] calls@[j]),
        decreases calls@.len() - c,
    {
        if is_count_of_literals(&calls[c]) {
            found = true;
        }
        c += 1;
    }
    if !found {
        return Ok(None);
    }
    let ghost end = choose|i: int| is_walk_end(chain@, i);
    let mut i: usize = 0;
    while i < chain.len()
        invariant
            i <= chain@.len(),
            counts_literal(calls@),
            is_walk_end(chain@, end),
            forall|j: int| 0 <= j < i ==> !ends_walk(#[trigger] chain@[j]),
        decreases chain@.len() - i,
    {
        match &chain[i] {
            PlanNode::TableScan(source, projection) => {
                assert(is_walk_end(chain@, i as int));
                match source {
                    ScanSource::ClusterTable => {
                        return Ok(
                            Some(CountRewrite { depth: i, projection: add_time_column(projection) }),
                        );
                    },
                    ScanSource::OtherProvider => {
                        return Ok(None);
                    },
                    ScanSource::NotProvider => {
                        return Err(CountError::NotProvider);
                    },
                }
            },
            PlanNode::Join => {
                assert(is_walk_end(chain@, i as int));
                return Ok(None);
            },
            PlanNode::CrossJoin => {
                assert(is_walk_end(chain@, i as int));
                return Ok(None);
            },
            PlanNode::Other => {},
        }
        i += 1;
    }
    proof {
        assert(!ends_walk(chain@[end]));
    }
    Ok(None)
}

/// Decides what becomes of a plan, of which `aggregate` holds the aggregate
/// expressions and the nodes below them if the plan is an aggregate, and
/// nothing if it is not.
///
/// A plan that is no aggregate stays as it is. An aggregate gets the answer
/// of [`analyze_internal`].
pub fn analyze_plan(aggregate: Option<(&Vec<AggregateCall>, &Vec<PlanNode>)>) -> (result: Result<
    Option<CountRewrite>,
    CountError,
>)
    requires
        aggregate matches Some((calls, chain)) ==> (counts_literal(calls@) ==> exists|i: int|
            is_walk_end(chain@, i)),
    ensures
        match aggregate {
            None => result == Ok::<Option<CountRewrite>, CountError>(None),
            Some((calls, chain)) => is_count_rewrite_of(calls@, chain@, result),
        },
{
    match aggregate {
        None => Ok(None),
        Some((calls, chain)) => analyze_internal(calls, chain),
    }
}

} // verus!

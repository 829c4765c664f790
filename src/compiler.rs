use crate::catalog::{catalog_wf, column_of, first_column_of, lemma_columns_same_length, table_of, Catalog};
use crate::parser::{aggregation_of, SQLParser};
use crate::error::{error_kind, CompileError, CompileErrorKind};
use crate::ops::{AggregationOp, GroupByOp, JoinOp, RangeCheckOp, SortOp};
use crate::sort::{
    copy_values, is_permutation, lemma_sorted_permutation_accepted, non_decreasing, pairs_of, sort_accepts, sort_rows_by_key,
    sorted_copy,
};
use crate::sql::{AggregationClause, AggregationFunction, JoinClause, OrderBy, OrderDirection, SQLQuery, WhereClause};
use crate::text::string_of;
use vstd::prelude::*;

verus! {

/// The range checks, sorts, group-bys, joins and aggregations a query lowers to, in clause order.
#[derive(Clone, Debug)]
pub struct CompiledQuery {
    pub range_checks: Vec<RangeCheckOp>,
    pub sorts: Vec<SortOp>,
    pub group_bys: Vec<GroupByOp>,
    pub joins: Vec<JoinOp>,
    pub aggregations: Vec<AggregationOp>,
}

/// The fields of a range-check operation.
pub open spec fn op_fields(op: RangeCheckOp) -> (u64, u64, u64) {
    (op.value, op.threshold, op.u)
}

/// The check `value < threshold`, with `u = threshold - value` when it holds.
pub open spec fn below_op(value: u64, threshold: u64) -> (u64, u64, u64) {
    (value, threshold, if value < threshold { (threshold - value) as u64 } else { 0 })
}

/// The check `value >= threshold`, with `u = value - threshold` when it holds.
pub open spec fn at_least_op(value: u64, threshold: u64) -> (u64, u64, u64) {
    (value, threshold, if value >= threshold { (value - threshold) as u64 } else { 0 })
}

/// The range checks that a `WHERE` condition lowers to over table `from`:
/// one per row of the column for each comparison (`col > k` as
/// `col >= k + 1`, `col = k` as `col < k + 1`), both sides of `AND` and `OR`
/// in turn. A missing column is a resolution error; a literal with no
/// successor in 64 bits is a grammar error.
pub open spec fn where_lowering(c: Catalog, from: Seq<char>, w: WhereClause) -> Result<Seq<(u64, u64, u64)>, CompileErrorKind>
    decreases w,
{
    match w {
        WhereClause::LessThan { column, value } => match column_of(c, from, column@) {
            None => Err(CompileErrorKind::Resolution),
            Some(vals) => Ok(vals.map_values(|x: u64| below_op(x, value))),
        },
        WhereClause::GreaterThan { column, value } => match column_of(c, from, column@) {
            None => Err(CompileErrorKind::Resolution),
            Some(vals) => if value == u64::MAX {
                Err(CompileErrorKind::Grammar)
            } else {
                Ok(vals.map_values(|x: u64| at_least_op(x, (value + 1) as u64)))
            },
        },
        WhereClause::Equal { column, value } => match column_of(c, from, column@) {
            None => Err(CompileErrorKind::Resolution),
            Some(vals) => if value == u64::MAX {
                Err(CompileErrorKind::Grammar)
            } else {
                Ok(vals.map_values(|x: u64| at_least_op(x, value)) + vals.map_values(|x: u64| below_op(x, (value + 1) as u64)))
            },
        },
        WhereClause::And(l, r) => match where_lowering(c, from, *l) {
            Err(e) => Err(e),
            Ok(a) => match where_lowering(c, from, *r) {
                Err(e) => Err(e),
                Ok(b) => Ok(a + b),
            },
        },
        WhereClause::Or(l, r) => match where_lowering(c, from, *l) {
            Err(e) => Err(e),
            Ok(a) => match where_lowering(c, from, *r) {
                Err(e) => Err(e),
                Ok(b) => Ok(a + b),
            },
        },
    }
}

impl SQLCompiler {
    /// Appends the range checks of a `WHERE` condition over table `table_name`.
    pub fn compile_where_clause(
        where_clause: &WhereClause,
        table_data: &Catalog,
        table_name: &String,
        compiled: &mut CompiledQuery,
    ) -> (res: Result<(), CompileError>)
        ensures
            res is Ok <==> where_lowering(*table_data, table_name@, *where_clause) is Ok,
            res matches Err(e) ==> Err::<Seq<(u64, u64, u64)>, CompileErrorKind>(error_kind(e)) == where_lowering(*table_data, table_name@, *where_clause),
            res is Ok ==> final(compiled).range_checks@.map_values(|op: RangeCheckOp| op_fields(op))
                == old(compiled).range_checks@.map_values(|op: RangeCheckOp| op_fields(op)) + where_lowering(*table_data, table_name@, *where_clause)->Ok_0,
            final(compiled).sorts@ == old(compiled).sorts@,
            final(compiled).group_bys@ == old(compiled).group_bys@,
            final(compiled).joins@ == old(compiled).joins@,
            final(compiled).aggregations@ == old(compiled).aggregations@,
        decreases where_clause,
    {
        match where_clause {
            WhereClause::And(l, r) | WhereClause::Or(l, r) => {
                match Self::compile_where_clause(l, table_data, table_name, compiled) {
                    Ok(()) => {},
                    Err(e) => return Err(e),
                }
                match Self::compile_where_clause(r, table_data, table_name, compiled) {
                    Ok(()) => {},
                    Err(e) => return Err(e),
                }
                Ok(())
            },
            WhereClause::LessThan { column, value } => {
                let vals = match table_data.column(table_name, column) {
                    Some(v) => v,
                    None => return Err(CompileError::Resolution(column.clone())),
                };
                Self::push_checks(vals, *value, false, compiled);
                Ok(())
            },
            WhereClause::GreaterThan { column, value } => {
                let vals = match table_data.column(table_name, column) {
                    Some(v) => v,
                    None => return Err(CompileError::Resolution(column.clone())),
                };
                if *value == u64::MAX {
                    return Err(CompileError::Grammar(column.clone()));
                }
                Self::push_checks(vals, *value + 1, true, compiled);
                Ok(())
            },
            WhereClause::Equal { column, value } => {
                let vals = match table_data.column(table_name, column) {
                    Some(v) => v,
                    None => return Err(CompileError::Resolution(column.clone())),
                };
                if *value == u64::MAX {
                    return Err(CompileError::Grammar(column.clone()));
                }
                let ghost start = compiled.range_checks@.map_values(|op: RangeCheckOp| op_fields(op));
                Self::push_checks(vals, *value, true, compiled);
                Self::push_checks(vals, *value + 1, false, compiled);
                assert(start + vals@.map_values(|x: u64| at_least_op(x, *value)) + vals@.map_values(|x: u64| below_op(x, (*value + 1) as u64))
                    =~= start + (vals@.map_values(|x: u64| at_least_op(x, *value)) + vals@.map_values(|x: u64| below_op(x, (*value + 1) as u64))));
                Ok(())
            },
        }
    }

    /// Appends one range check per value: `value >= threshold` when
    /// `at_least`, else `value < threshold`.
    fn push_checks(vals: &Vec<u64>, threshold: u64, at_least: bool, compiled: &mut CompiledQuery)
        ensures
            final(compiled).range_checks@.map_values(|op: RangeCheckOp| op_fields(op))
                == old(compiled).range_checks@.map_values(|op: RangeCheckOp| op_fields(op)) + (if at_least {
                    vals@.map_values(|x: u64| at_least_op(x, threshold))
                } else {
                    vals@.map_values(|x: u64| below_op(x, threshold))
                }),
            final(compiled).sorts@ == old(compiled).sorts@,
            final(compiled).group_bys@ == old(compiled).group_bys@,
            final(compiled).joins@ == old(compiled).joins@,
            final(compiled).aggregations@ == old(compiled).aggregations@,
    {
        let ghost start = compiled.range_checks@.map_values(|op: RangeCheckOp| op_fields(op));
        let ghost lowered = if at_least {
            vals@.map_values(|x: u64| at_least_op(x, threshold))
        } else {
            vals@.map_values(|x: u64| below_op(x, threshold))
        };
        let mut i: usize = 0;
        while i < vals.len()
            invariant
                i <= vals@.len(),
                lowered == (if at_least {
                    vals@.map_values(|x: u64| at_least_op(x, threshold))
                } else {
                    vals@.map_values(|x: u64| below_op(x, threshold))
                }),
                compiled.range_checks@.map_values(|op: RangeCheckOp| op_fields(op)) == start + lowered.subrange(0, i as int),
                compiled.sorts@ == old(compiled).sorts@,
                compiled.group_bys@ == old(compiled).group_bys@,
                compiled.joins@ == old(compiled).joins@,
                compiled.aggregations@ == old(compiled).aggregations@,
            decreases vals@.len() - i,
        {
            let val = vals[i];
            let u: u64 = if at_least {
                if val >= threshold { val - threshold } else { 0 }
            } else {
                if val < threshold { threshold - val } else { 0 }
            };
            let ghost before = compiled.range_checks@;
            compiled.range_checks.push(RangeCheckOp { value: val, threshold, u });
            proof {
                assert(compiled.range_checks@.map_values(|op: RangeCheckOp| op_fields(op))
                    =~= before.map_values(|op: RangeCheckOp| op_fields(op)).push((val, threshold, u)));
                assert(lowered.subrange(0, i + 1) =~= lowered.subrange(0, i as int).push(lowered[i as int]));
            }
            i = i + 1;
        }
        assert(lowered.subrange(0, vals@.len() as int) =~= lowered);
    }
}

/// Whether a sequence never increases.
pub open spec fn non_increasing(s: Seq<u64>) -> bool {
    forall|i: int, j: int| 0 <= i < j < s.len() ==> s[i] >= s[j]
}

/// Whether a sequence strictly increases.
pub open spec fn strictly_increasing(s: Seq<u64>) -> bool {
    forall|i: int, j: int| 0 <= i < j < s.len() ==> s[i] < s[j]
}

/// Every ascending sort that a query lowers to is accepted by the sort gate.
pub proof fn lemma_ascending_sorts_accepted(cq: CompiledQuery, q: SQLQuery, c: Catalog)
    requires
        compiled_is(cq, q, c),
    ensures
        forall|i: int| 0 <= i < cq.sorts@.len() && order_list(q)[i].direction == OrderDirection::Asc
            ==> sort_accepts(#[trigger] cq.sorts@[i].input@, cq.sorts@[i].sorted_output@),
{
    assert forall|i: int| 0 <= i < cq.sorts@.len() && order_list(q)[i].direction == OrderDirection::Asc
        implies sort_accepts(#[trigger] cq.sorts@[i].input@, cq.sorts@[i].sorted_output@) by {
        assert(sort_op_is(cq.sorts@[i], column_of(c, q.from@, order_list(q)[i].column@)->Some_0, order_list(q)[i].direction));
        lemma_sorted_permutation_accepted(cq.sorts@[i].input@, cq.sorts@[i].sorted_output@);
    }
}

/// The keys of every group-by that a query lowers to are sorted, as the
/// group-by gate requires.
pub proof fn lemma_group_keys_sorted(cq: CompiledQuery, q: SQLQuery, c: Catalog)
    requires
        compiled_is(cq, q, c),
    ensures
        forall|i: int| 0 <= i < cq.group_bys@.len() ==> non_decreasing(#[trigger] cq.group_bys@[i].group_keys@),
{
    assert forall|i: int| 0 <= i < cq.group_bys@.len() implies non_decreasing(#[trigger] cq.group_bys@[i].group_keys@) by {
        assert(group_op_is(cq.group_bys@[i], column_of(c, q.from@, group_list(q)[i]@)->Some_0));
    }
}

/// A non-increasing copy of `a` holding the same values.
pub fn descending_copy(a: &[u64]) -> (r: Vec<u64>)
    ensures
        non_increasing(r@),
        is_permutation(a@, r@),
{
    let s = sorted_copy(a);
    let n = s.len();
    let mut r: Vec<u64> = Vec::new();
    let mut i: usize = 0;
    while i < n
        invariant
            n == s@.len(),
            i <= n,
            r@.len() == i,
            forall|j: int| 0 <= j < i ==> #[trigger] r@[j] == s@[n - 1 - j],
        decreases n - i,
    {
        r.push(s[n - 1 - i]);
        i = i + 1;
    }
    proof {
        assert(r@ =~= s@.reverse());
        s@.lemma_reverse_to_multiset();
        assert forall|x: int, y: int| 0 <= x < y < r@.len() implies r@[x] >= r@[y] by {
            assert(s@[n - 1 - y] <= s@[n - 1 - x]);
        }
    }
    r
}

/// The distinct values of `a`, in increasing order.
pub fn distinct_sorted(a: &[u64]) -> (r: Vec<u64>)
    ensures
        strictly_increasing(r@),
        r@.to_set() == a@.to_set(),
{
    let s = sorted_copy(a);
    proof {
        a@.to_multiset_ensures();
        s@.to_multiset_ensures();
    }
    let n = s.len();
    let mut r: Vec<u64> = Vec::new();
    let mut i: usize = 0;
    while i < n
        invariant
            n == s@.len(),
            i <= n,
            non_decreasing(s@),
            strictly_increasing(r@),
            r@.to_set() == s@.subrange(0, i as int).to_set(),
            i > 0 ==> r@.len() > 0 && r@.last() == s@[i - 1],
            i == 0 ==> r@.len() == 0,
        decreases n - i,
    {
        let x = s[i];
        let ghost before = r@;
        proof {
            assert(s@.subrange(0, i + 1) =~= s@.subrange(0, i as int).push(x));
            s@.subrange(0, i as int).lemma_push_to_set_commute(x);
        }
        if i == 0 || r[r.len() - 1] != x {
            r.push(x);
            proof {
                before.lemma_push_to_set_commute(x);
                if i > 0 {
                    assert(s@[i - 1] <= x);
                }
            }
        } else {
            proof {
                assert(before.contains(x));
                assert(before.to_set().insert(x) =~= before.to_set());
            }
        }
        i = i + 1;
    }
    proof {
        assert(s@.subrange(0, n as int) =~= s@);
        assert forall|x: u64| a@.to_set().contains(x) <==> s@.to_set().contains(x) by {
            assert(a@.contains(x) <==> a@.to_multiset().count(x) > 0);
            assert(s@.contains(x) <==> s@.to_multiset().count(x) > 0);
        }
        assert(a@.to_set() =~= s@.to_set());
    }
    r
}

/// The `ORDER BY` keys of a query; none when it has no such clause.
pub open spec fn order_list(q: SQLQuery) -> Seq<OrderBy> {
    match q.order_by {
        Some(v) => v@,
        None => Seq::empty(),
    }
}

/// The `GROUP BY` columns of a query.
pub open spec fn group_list(q: SQLQuery) -> Seq<String> {
    match q.group_by {
        Some(v) => v@,
        None => Seq::empty(),
    }
}

/// The aggregates of a query.
pub open spec fn aggregation_list(q: SQLQuery) -> Seq<AggregationClause> {
    match q.aggregations {
        Some(v) => v@,
        None => Seq::empty(),
    }
}

/// The joins of a query.
pub open spec fn join_list(q: SQLQuery) -> Seq<JoinClause> {
    match q.joins {
        Some(v) => v@,
        None => Seq::empty(),
    }
}

/// The range checks of a query's `WHERE` clause.
pub open spec fn where_checks(q: SQLQuery, c: Catalog) -> Result<Seq<(u64, u64, u64)>, CompileErrorKind> {
    match q.where_clause {
        Some(w) => where_lowering(c, q.from@, w),
        None => Ok(Seq::empty()),
    }
}

/// Whether every `ORDER BY` column exists in the query's table.
pub open spec fn sorts_resolve(q: SQLQuery, c: Catalog) -> bool {
    forall|i: int| 0 <= i < order_list(q).len() ==> column_of(c, q.from@, #[trigger] order_list(q)[i].column@) is Some
}

/// Whether every `GROUP BY` column exists in the query's table.
pub open spec fn groups_resolve(q: SQLQuery, c: Catalog) -> bool {
    forall|i: int| 0 <= i < group_list(q).len() ==> column_of(c, q.from@, #[trigger] group_list(q)[i]@) is Some
}

/// Whether every aggregated column exists in the query's table.
pub open spec fn aggregations_resolve(q: SQLQuery, c: Catalog) -> bool {
    forall|i: int| 0 <= i < aggregation_list(q).len() ==> column_of(c, q.from@, #[trigger] aggregation_list(q)[i].column@) is Some
}

/// Whether both tables of a join and both of its key columns exist.
pub open spec fn join_resolves(q: SQLQuery, c: Catalog, j: JoinClause) -> bool {
    &&& table_of(c, q.from@) is Some
    &&& table_of(c, j.table@) is Some
    &&& column_of(c, q.from@, j.on.left_column@) is Some
    &&& column_of(c, j.table@, j.on.right_column@) is Some
}

/// Whether every join resolves.
pub open spec fn joins_resolve(q: SQLQuery, c: Catalog) -> bool {
    forall|i: int| 0 <= i < join_list(q).len() ==> join_resolves(q, c, #[trigger] join_list(q)[i])
}

/// Whether every select-list entry that is not an aggregate names a column
/// of the query's table.
pub open spec fn select_resolves(q: SQLQuery, c: Catalog) -> bool {
    forall|i: int| 0 <= i < q.columns@.len() ==> (aggregation_of(#[trigger] q.columns@[i]@) is None
        ==> column_of(c, q.from@, q.columns@[i]@) is Some)
}

/// Whether compiling `q` over `c` succeeds, and else the kind of its error:
/// a resolution error when the `FROM` table or a selected column is
/// missing, else the `WHERE` clause's error if it has one, else a
/// resolution error when any other clause names a missing table or column.
pub open spec fn compile_outcome(q: SQLQuery, c: Catalog) -> Result<(), CompileErrorKind> {
    if table_of(c, q.from@) is None || !select_resolves(q, c) {
        Err(CompileErrorKind::Resolution)
    } else {
        match where_checks(q, c) {
            Err(k) => Err(k),
            Ok(_) => if sorts_resolve(q, c) && groups_resolve(q, c) && aggregations_resolve(q, c) && joins_resolve(q, c) {
                Ok(())
            } else {
                Err(CompileErrorKind::Resolution)
            },
        }
    }
}

/// The sort that `ORDER BY col dir` lowers to: the column and its sorted
/// form, in ascending or descending order.
pub open spec fn sort_op_is(op: SortOp, col: Seq<u64>, dir: OrderDirection) -> bool {
    &&& op.input@ == col
    &&& is_permutation(col, op.sorted_output@)
    &&& dir == OrderDirection::Asc ==> non_decreasing(op.sorted_output@)
    &&& dir == OrderDirection::Desc ==> non_increasing(op.sorted_output@)
}

/// The group-by that `GROUP BY col` lowers to: the distinct keys, in order.
pub open spec fn group_op_is(op: GroupByOp, col: Seq<u64>) -> bool {
    strictly_increasing(op.group_keys@) && op.group_keys@.to_set() == col.to_set()
}

/// The name of the aggregate an aggregation function is computed by; an
/// average is computed as a sum.
pub open spec fn aggregate_name(f: AggregationFunction) -> Seq<char> {
    match f {
        AggregationFunction::Sum => seq!['s', 'u', 'm'],
        AggregationFunction::Count => seq!['c', 'o', 'u', 'n', 't'],
        AggregationFunction::Max => seq!['m', 'a', 'x'],
        AggregationFunction::Min => seq!['m', 'i', 'n'],
        AggregationFunction::Avg => seq!['s', 'u', 'm'],
    }
}

/// The aggregation an aggregate of the select list lowers to. With a
/// `GROUP BY`, its rows are the table's (first group column, aggregated
/// column) rows sorted by key; without one, it has no keys and the column
/// as it stands.
pub open spec fn aggregation_op_is(op: AggregationOp, a: AggregationClause, q: SQLQuery, c: Catalog) -> bool {
    let vals = column_of(c, q.from@, a.column@)->Some_0;
    &&& column_of(c, q.from@, a.column@) is Some
    &&& op.agg_type@ == aggregate_name(a.function)
    &&& if group_list(q).len() > 0 {
        let keys = column_of(c, q.from@, group_list(q)[0]@)->Some_0;
        &&& op.group_keys@.len() == op.values@.len()
        &&& non_decreasing(op.group_keys@)
        &&& pairs_of(op.group_keys@, op.values@).to_multiset() == pairs_of(keys, vals).to_multiset()
    } else {
        op.group_keys@.len() == 0 && op.values@ == vals
    }
}

/// The join a `JOIN` clause lowers to: both key columns, and the first
/// column of each table as its values.
pub open spec fn join_op_is(op: JoinOp, j: JoinClause, q: SQLQuery, c: Catalog) -> bool {
    &&& Some(op.table1_keys@) == column_of(c, q.from@, j.on.left_column@)
    &&& Some(op.table2_keys@) == column_of(c, j.table@, j.on.right_column@)
    &&& op.table1_values@ == first_column_of(table_of(c, q.from@)->Some_0)
    &&& op.table2_values@ == first_column_of(table_of(c, j.table@)->Some_0)
}

/// Whether `cq` holds what `q` lowers to over `c`.
pub open spec fn compiled_is(cq: CompiledQuery, q: SQLQuery, c: Catalog) -> bool {
    &&& cq.range_checks@.map_values(|op: RangeCheckOp| op_fields(op)) == where_checks(q, c)->Ok_0
    &&& cq.sorts@.len() == order_list(q).len()
    &&& forall|i: int| 0 <= i < cq.sorts@.len() ==> sort_op_is(#[trigger] cq.sorts@[i], column_of(c, q.from@, order_list(q)[i].column@)->Some_0, order_list(q)[i].direction)
    &&& cq.group_bys@.len() == group_list(q).len()
    &&& forall|i: int| 0 <= i < cq.group_bys@.len() ==> group_op_is(#[trigger] cq.group_bys@[i], column_of(c, q.from@, group_list(q)[i]@)->Some_0)
    &&& cq.aggregations@.len() == aggregation_list(q).len()
    &&& forall|i: int| 0 <= i < cq.aggregations@.len() ==> aggregation_op_is(#[trigger] cq.aggregations@[i], aggregation_list(q)[i], q, c)
    &&& cq.joins@.len() == join_list(q).len()
    &&& forall|i: int| 0 <= i < cq.joins@.len() ==> join_op_is(#[trigger] cq.joins@[i], join_list(q)[i], q, c)
}

fn aggregate_name_exec(f: AggregationFunction) -> (r: String)
    ensures
        r@ == aggregate_name(f),
{
    let sum: [char; 3] = ['s', 'u', 'm'];
    let count: [char; 5] = ['c', 'o', 'u', 'n', 't'];
    let max: [char; 3] = ['m', 'a', 'x'];
    let min: [char; 3] = ['m', 'i', 'n'];
    assert(sum@ =~= seq!['s', 'u', 'm']);
    assert(count@ =~= seq!['c', 'o', 'u', 'n', 't']);
    assert(max@ =~= seq!['m', 'a', 'x']);
    assert(min@ =~= seq!['m', 'i', 'n']);
    match f {
        AggregationFunction::Sum => string_of(sum.as_slice()),
        AggregationFunction::Count => string_of(count.as_slice()),
        AggregationFunction::Max => string_of(max.as_slice()),
        AggregationFunction::Min => string_of(min.as_slice()),
        AggregationFunction::Avg => string_of(sum.as_slice()),
    }
}

/// The error for a table or column name that the catalog does not hold.
fn unresolved(name: &String) -> (e: CompileError)
    ensures
        error_kind(e) == CompileErrorKind::Resolution,
{
    CompileError::Resolution(name.clone())
}

/// Turns parsed queries into gate operations over a catalog of tables.
pub struct SQLCompiler;

impl SQLCompiler {
    fn sort_ops(query: &SQLQuery, c: &Catalog) -> (res: Result<Vec<SortOp>, CompileError>)
        ensures
            res is Ok <==> sorts_resolve(*query, *c),
            res matches Err(e) ==> error_kind(e) == CompileErrorKind::Resolution,
            res matches Ok(v) ==> v@.len() == order_list(*query).len() && forall|i: int| 0 <= i < v@.len()
                ==> sort_op_is(#[trigger] v@[i], column_of(*c, query.from@, order_list(*query)[i].column@)->Some_0, order_list(*query)[i].direction),
    {
        let mut ops: Vec<SortOp> = Vec::new();
        match &query.order_by {
            None => {},
            Some(orders) => {
                let mut i: usize = 0;
                while i < orders.len()
                    invariant
                        query.order_by == Some(*orders),
                        i <= orders@.len(),
                        ops@.len() == i,
                        forall|k: int| 0 <= k < i ==> column_of(*c, query.from@, #[trigger] orders@[k].column@) is Some,
                        forall|k: int| 0 <= k < i ==> sort_op_is(#[trigger] ops@[k], column_of(*c, query.from@, orders@[k].column@)->Some_0, orders@[k].direction),
                    decreases orders@.len() - i,
                {
                    let col = match c.column(&query.from, &orders[i].column) {
                        Some(v) => v,
                        None => return Err(unresolved(&orders[i].column)),
                    };
                    let sorted = match orders[i].direction {
                        OrderDirection::Asc => sorted_copy(col.as_slice()),
                        OrderDirection::Desc => descending_copy(col.as_slice()),
                    };
                    ops.push(SortOp { input: copy_values(col.as_slice()), sorted_output: sorted });
                    i = i + 1;
                }
            },
        }
        Ok(ops)
    }

    fn group_ops(query: &SQLQuery, c: &Catalog) -> (res: Result<Vec<GroupByOp>, CompileError>)
        ensures
            res is Ok <==> groups_resolve(*query, *c),
            res matches Err(e) ==> error_kind(e) == CompileErrorKind::Resolution,
            res matches Ok(v) ==> v@.len() == group_list(*query).len() && forall|i: int| 0 <= i < v@.len()
                ==> group_op_is(#[trigger] v@[i], column_of(*c, query.from@, group_list(*query)[i]@)->Some_0),
    {
        let mut ops: Vec<GroupByOp> = Vec::new();
        match &query.group_by {
            None => {},
            Some(cols) => {
                let mut i: usize = 0;
                while i < cols.len()
                    invariant
                        query.group_by == Some(*cols),
                        i <= cols@.len(),
                        ops@.len() == i,
                        forall|k: int| 0 <= k < i ==> column_of(*c, query.from@, #[trigger] cols@[k]@) is Some,
                        forall|k: int| 0 <= k < i ==> group_op_is(#[trigger] ops@[k], column_of(*c, query.from@, cols@[k]@)->Some_0),
                    decreases cols@.len() - i,
                {
                    let col = match c.column(&query.from, &cols[i]) {
                        Some(v) => v,
                        None => return Err(unresolved(&cols[i])),
                    };
                    ops.push(GroupByOp { group_keys: distinct_sorted(col.as_slice()) });
                    i = i + 1;
                }
            },
        }
        Ok(ops)
    }

    fn aggregation_ops(query: &SQLQuery, c: &Catalog) -> (res: Result<Vec<AggregationOp>, CompileError>)
        requires
            catalog_wf(*c),
            groups_resolve(*query, *c),
        ensures
            res is Ok <==> aggregations_resolve(*query, *c),
            res matches Err(e) ==> error_kind(e) == CompileErrorKind::Resolution,
            res matches Ok(v) ==> v@.len() == aggregation_list(*query).len() && forall|i: int| 0 <= i < v@.len()
                ==> aggregation_op_is(#[trigger] v@[i], aggregation_list(*query)[i], *query, *c),
    {
        let mut ops: Vec<AggregationOp> = Vec::new();
        let empty: Vec<u64> = Vec::new();
        let mut keyed = false;
        let mut key_col: &Vec<u64> = &empty;
        match &query.group_by {
            Some(cols) => {
                if cols.len() > 0 {
                    assert(group_list(*query)[0] == cols@[0]);
                    match c.column(&query.from, &cols[0]) {
                        Some(v) => {
                            key_col = v;
                            keyed = true;
                        },
                        None => return Err(unresolved(&cols[0])),
                    }
                }
            },
            None => {},
        }
        match &query.aggregations {
            None => {},
            Some(aggs) => {
                let mut i: usize = 0;
                while i < aggs.len()
                    invariant
                        catalog_wf(*c),
                        query.aggregations == Some(*aggs),
                        keyed == (group_list(*query).len() > 0),
                        keyed ==> Some(key_col@) == column_of(*c, query.from@, group_list(*query)[0]@),
                        i <= aggs@.len(),
                        ops@.len() == i,
                        forall|k: int| 0 <= k < i ==> column_of(*c, query.from@, #[trigger] aggs@[k].column@) is Some,
                        forall|k: int| 0 <= k < i ==> aggregation_op_is(#[trigger] ops@[k], aggs@[k], *query, *c),
                    decreases aggs@.len() - i,
                {
                    let col = match c.column(&query.from, &aggs[i].column) {
                        Some(v) => v,
                        None => return Err(unresolved(&aggs[i].column)),
                    };
                    let agg_type = aggregate_name_exec(aggs[i].function);
                    if keyed {
                        proof {
                            lemma_columns_same_length(*c, query.from@, group_list(*query)[0]@, aggs@[i as int].column@);
                        }
                        let (group_keys, values) = sort_rows_by_key(key_col.as_slice(), col.as_slice());
                        ops.push(AggregationOp { group_keys, values, agg_type });
                    } else {
                        ops.push(AggregationOp { group_keys: Vec::new(), values: copy_values(col.as_slice()), agg_type });
                    }
                    i = i + 1;
                }
            },
        }
        Ok(ops)
    }

    fn join_ops(query: &SQLQuery, c: &Catalog) -> (res: Result<Vec<JoinOp>, CompileError>)
        ensures
            res is Ok <==> joins_resolve(*query, *c),
            res matches Err(e) ==> error_kind(e) == CompileErrorKind::Resolution,
            res matches Ok(v) ==> v@.len() == join_list(*query).len() && forall|i: int| 0 <= i < v@.len()
                ==> join_op_is(#[trigger] v@[i], join_list(*query)[i], *query, *c),
    {
        let mut ops: Vec<JoinOp> = Vec::new();
        match &query.joins {
            None => {},
            Some(joins) => {
                let mut i: usize = 0;
                while i < joins.len()
                    invariant
                        query.joins == Some(*joins),
                        i <= joins@.len(),
                        ops@.len() == i,
                        forall|k: int| 0 <= k < i ==> join_resolves(*query, *c, #[trigger] joins@[k]),
                        forall|k: int| 0 <= k < i ==> join_op_is(#[trigger] ops@[k], joins@[k], *query, *c),
                    decreases joins@.len() - i,
                {
                    let j = &joins[i];
                    assert(join_list(*query)[i as int] == joins@[i as int]);
                    let left = match c.find_table(&query.from) {
                        Some(t) => t,
                        None => return Err(unresolved(&query.from)),
                    };
                    let right = match c.find_table(&j.table) {
                        Some(t) => t,
                        None => return Err(unresolved(&j.table)),
                    };
                    let left_keys = match c.column(&query.from, &j.on.left_column) {
                        Some(v) => copy_values(v.as_slice()),
                        None => return Err(unresolved(&j.on.left_column)),
                    };
                    let right_keys = match c.column(&j.table, &j.on.right_column) {
                        Some(v) => copy_values(v.as_slice()),
                        None => return Err(unresolved(&j.on.right_column)),
                    };
                    let lt = &c.tables[left];
                    let rt = &c.tables[right];
                    let left_values = if lt.columns.len() > 0 { copy_values(lt.columns[0].values.as_slice()) } else { Vec::new() };
                    let right_values = if rt.columns.len() > 0 { copy_values(rt.columns[0].values.as_slice()) } else { Vec::new() };
                    ops.push(JoinOp { table1_keys: left_keys, table1_values: left_values, table2_keys: right_keys, table2_values: right_values });
                    i = i + 1;
                }
            },
        }
        Ok(ops)
    }

    /// Compiles a query over a catalog: its `WHERE` clause to range checks,
    /// `ORDER BY` to sorts, `GROUP BY` to group-bys, its aggregates to
    /// aggregations (rows sorted by the first `GROUP BY` key) and its joins
    /// to joins, each in clause order. The catalog must be well formed:
    /// distinct names, and one value per row in every column
    /// (`Catalog::is_well_formed`).
    pub fn compile(query: &SQLQuery, table_data: &Catalog) -> (res: Result<CompiledQuery, CompileError>)
        requires
            catalog_wf(*table_data),
        ensures
            res is Ok <==> compile_outcome(*query, *table_data) is Ok,
            res matches Err(e) ==> compile_outcome(*query, *table_data) == Err::<(), CompileErrorKind>(error_kind(e)),
            res matches Ok(cq) ==> compiled_is(cq, *query, *table_data),
    {
        let mut compiled = CompiledQuery {
            range_checks: Vec::new(),
            sorts: Vec::new(),
            group_bys: Vec::new(),
            joins: Vec::new(),
            aggregations: Vec::new(),
        };
        match table_data.find_table(&query.from) {
            Some(_) => {},
            None => return Err(unresolved(&query.from)),
        }
        let mut i: usize = 0;
        while i < query.columns.len()
            invariant
                i <= query.columns@.len(),
                forall|k: int| 0 <= k < i ==> (aggregation_of(#[trigger] query.columns@[k]@) is None
                    ==> column_of(*table_data, query.from@, query.columns@[k]@) is Some),
            decreases query.columns@.len() - i,
        {
            let col = &query.columns[i];
            match SQLParser::parse_aggregation(col.as_str()) {
                Some(_) => {},
                None => match table_data.column(&query.from, col) {
                    Some(_) => {},
                    None => return Err(unresolved(col)),
                },
            }
            i = i + 1;
        }
        match &query.where_clause {
            Some(w) => {
                match Self::compile_where_clause(w, table_data, &query.from, &mut compiled) {
                    Ok(()) => {},
                    Err(e) => return Err(e),
                }
            },
            None => {},
        }
        assert(compiled.range_checks@.map_values(|op: RangeCheckOp| op_fields(op)) =~= where_checks(*query, *table_data)->Ok_0);
        let sorts = match Self::sort_ops(query, table_data) {
            Ok(v) => v,
            Err(e) => return Err(e),
        };
        let group_bys = match Self::group_ops(query, table_data) {
            Ok(v) => v,
            Err(e) => return Err(e),
        };
        let aggregations = match Self::aggregation_ops(query, table_data) {
            Ok(v) => v,
            Err(e) => return Err(e),
        };
        let joins = match Self::join_ops(query, table_data) {
            Ok(v) => v,
            Err(e) => return Err(e),
        };
        Ok(CompiledQuery { range_checks: compiled.range_checks, sorts, group_bys, joins, aggregations })
    }
}

} // verus!

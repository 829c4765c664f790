use vstd::prelude::*;

verus! {

/// A parsed `SELECT` statement.
#[derive(Debug)]
pub struct SQLQuery {
    pub columns: Vec<String>,
    pub from: String,
    pub where_clause: Option<WhereClause>,
    pub group_by: Option<Vec<String>>,
    pub order_by: Option<Vec<OrderBy>>,
    pub having: Option<HavingClause>,
    pub joins: Option<Vec<JoinClause>>,
    pub aggregations: Option<Vec<AggregationClause>>,
}

/// A `WHERE` condition.
#[derive(Debug)]
pub enum WhereClause {
    /// `column < value`
    LessThan { column: String, value: u64 },
    /// `column > value`
    GreaterThan { column: String, value: u64 },
    /// `column = value`
    Equal { column: String, value: u64 },
    /// Both conditions.
    And(Box<WhereClause>, Box<WhereClause>),
    /// Either condition.
    Or(Box<WhereClause>, Box<WhereClause>),
}

/// A `JOIN` of another table.
#[derive(Clone, Debug)]
pub struct JoinClause {
    pub table: String,
    pub on: JoinCondition,
    pub join_type: JoinType,
}

/// The equality a join is made on: `left_column = right_column`.
#[derive(Clone, Debug)]
pub struct JoinCondition {
    pub left_column: String,
    pub right_column: String,
}

/// The kind of a join.
#[derive(Clone, Copy, Debug, PartialEq, Eq, Structural)]
pub enum JoinType {
    Inner,
    Left,
    Right,
    Full,
}

/// One key of an `ORDER BY` clause.
#[derive(Clone, Debug)]
pub struct OrderBy {
    pub column: String,
    pub direction: OrderDirection,
}

/// The direction of an `ORDER BY` key.
#[derive(Clone, Copy, Debug, PartialEq, Eq, Structural)]
pub enum OrderDirection {
    Asc,
    Desc,
}

/// A `HAVING` condition.
#[derive(Clone, Debug)]
pub enum HavingClause {
    /// An aggregate compared with a constant.
    Compare { aggregation: String, operator: ComparisonOp, value: u64 },
}

/// A comparison operator.
#[derive(Clone, Copy, Debug, PartialEq, Eq, Structural)]
pub enum ComparisonOp {
    LessThan,
    GreaterThan,
    Equal,
}

/// An aggregate in the select list, such as `sum(amount)`.
#[derive(Clone, Debug)]
pub struct AggregationClause {
    pub function: AggregationFunction,
    pub column: String,
}

/// An aggregate function of the select list.
#[derive(Clone, Copy, Debug, PartialEq, Eq, Structural)]
pub enum AggregationFunction {
    Sum,
    Count,
    Max,
    Min,
    Avg,
}

} // verus!

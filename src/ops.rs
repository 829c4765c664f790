use vstd::prelude::*;

verus! {

/// One `value < threshold` comparison, with the helper residue `u`.
#[derive(Clone, Copy, Debug, PartialEq, Eq, Structural)]
pub struct RangeCheckOp {
    pub value: u64,
    pub threshold: u64,
    pub u: u64,
}

/// A column and its claimed sorted form.
#[derive(Clone, Debug)]
pub struct SortOp {
    pub input: Vec<u64>,
    pub sorted_output: Vec<u64>,
}

/// A sorted key column whose group boundaries are to be marked.
#[derive(Clone, Debug)]
pub struct GroupByOp {
    pub group_keys: Vec<u64>,
}

/// Two tables' join keys and values.
#[derive(Clone, Debug)]
pub struct JoinOp {
    pub table1_keys: Vec<u64>,
    pub table1_values: Vec<u64>,
    pub table2_keys: Vec<u64>,
    pub table2_values: Vec<u64>,
}

/// An aggregate (`sum`, `count`, `max` or `min`) over a value column,
/// grouped by a key column.
#[derive(Clone, Debug)]
pub struct AggregationOp {
    pub group_keys: Vec<u64>,
    pub values: Vec<u64>,
    pub agg_type: String,
}

} // verus!

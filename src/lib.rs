//! Witness computation, SQL front end and query compiler for zero-knowledge
//! proofs of SQL query results.

pub mod aggregation;
pub mod catalog;
pub mod compiler;
pub mod database;
pub mod error;
pub mod group_by;
pub mod join;
pub mod ops;
pub mod optimization;
pub mod parser;
pub mod range_check;
pub mod sort;
pub mod sql;
pub mod text;

pub use error::{CompileError, CompileErrorKind, SynthesisError};
pub use catalog::{Catalog, ColumnData, TableData};
pub use compiler::{CompiledQuery, SQLCompiler};
pub use database::DatabaseTable;
pub use ops::{AggregationOp, GroupByOp, JoinOp, RangeCheckOp, SortOp};
pub use parser::SQLParser;
pub use sql::{
    AggregationClause, AggregationFunction, ComparisonOp, HavingClause, JoinClause, JoinCondition, JoinType, OrderBy,
    OrderDirection, SQLQuery, WhereClause,
};

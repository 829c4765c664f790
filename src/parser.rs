use crate::error::CompileError;
use crate::sql::{AggregationClause, AggregationFunction, OrderBy, OrderDirection, SQLQuery, WhereClause};
use crate::text::{
    chars_of, ends_with, find, first_occurrence, has_prefix, has_suffix, lower_of, lowercase, parse_u64, slice_chars,
    split_on, split_trimmed, starts_with, string_of, trim, trimmed, trimmed_pieces, u64_text,
};
use vstd::prelude::*;

verus! {

/// The text of a `WHERE` comparison whose operator stands at `i` in `t`:
/// the trimmed left side names the column, the trimmed right side spells
/// the value.
pub open spec fn comparison_parses_to(t: Seq<char>, i: int, column: String, value: u64) -> bool {
    column@ == trimmed(t.subrange(0, i)) && u64_text(trimmed(t.subrange(i + 3, t.len() as int))) == Some(value)
}

/// Whether `w` is the condition that the `WHERE` text `text` denotes. The
/// text is trimmed, then split at the first ` and `, else at the first
/// ` or `, else read as a comparison at the first ` < `, ` > ` or ` = `.
pub open spec fn where_parses_to(text: Seq<char>, w: WhereClause) -> bool
    decreases text.len(),
{
    let t = trimmed(text);
    match first_occurrence(t, seq![' ', 'a', 'n', 'd', ' ']) {
        Some(i) => match w {
            WhereClause::And(l, r) => where_parses_to(t.subrange(0, i), *l) && where_parses_to(
                t.subrange(i + 5, t.len() as int),
                *r,
            ),
            _ => false,
        },
        None => match first_occurrence(t, seq![' ', 'o', 'r', ' ']) {
            Some(i) => match w {
                WhereClause::Or(l, r) => where_parses_to(t.subrange(0, i), *l) && where_parses_to(
                    t.subrange(i + 4, t.len() as int),
                    *r,
                ),
                _ => false,
            },
            None => match first_occurrence(t, seq![' ', '<', ' ']) {
                Some(i) => match w {
                    WhereClause::LessThan { column, value } => comparison_parses_to(t, i, column, value),
                    _ => false,
                },
                None => match first_occurrence(t, seq![' ', '>', ' ']) {
                    Some(i) => match w {
                        WhereClause::GreaterThan { column, value } => comparison_parses_to(t, i, column, value),
                        _ => false,
                    },
                    None => match first_occurrence(t, seq![' ', '=', ' ']) {
                        Some(i) => match w {
                            WhereClause::Equal { column, value } => comparison_parses_to(t, i, column, value),
                            _ => false,
                        },
                        None => false,
                    },
                },
            },
        },
    }
}

/// The message of a `SELECT`-only rejection.
pub open spec fn only_select_message() -> Seq<char> {
    "Only SELECT queries are supported"@
}

/// The message of a statement without ` from `.
pub open spec fn missing_from_message() -> Seq<char> {
    "Missing FROM clause"@
}

/// The message of a comparison whose value is not a 64-bit unsigned number.
pub open spec fn invalid_number_message() -> Seq<char> {
    "Invalid number in WHERE clause"@
}

/// The message of a `WHERE` part with no comparison operator.
pub open spec fn unsupported_where_message() -> Seq<char> {
    "Unsupported WHERE clause format"@
}

/// The failure of a comparison whose operator stands at `i` in `t`: its
/// value does not spell a 64-bit unsigned number.
pub open spec fn number_failure(t: Seq<char>, i: int) -> Option<Seq<char>> {
    if u64_text(trimmed(t.subrange(i + 3, t.len() as int))) is None {
        Some(invalid_number_message())
    } else {
        None
    }
}

/// Why the `WHERE` text `text` is rejected, if it is: the first part, from
/// the left, whose value is not a 64-bit unsigned number or that has no
/// comparison operator.
pub open spec fn where_failure(text: Seq<char>) -> Option<Seq<char>>
    decreases text.len(),
{
    let t = trimmed(text);
    match first_occurrence(t, seq![' ', 'a', 'n', 'd', ' ']) {
        Some(i) => match where_failure(t.subrange(0, i)) {
            Some(m) => Some(m),
            None => where_failure(t.subrange(i + 5, t.len() as int)),
        },
        None => match first_occurrence(t, seq![' ', 'o', 'r', ' ']) {
            Some(i) => match where_failure(t.subrange(0, i)) {
                Some(m) => Some(m),
                None => where_failure(t.subrange(i + 4, t.len() as int)),
            },
            None => match first_occurrence(t, seq![' ', '<', ' ']) {
                Some(i) => number_failure(t, i),
                None => match first_occurrence(t, seq![' ', '>', ' ']) {
                    Some(i) => number_failure(t, i),
                    None => match first_occurrence(t, seq![' ', '=', ' ']) {
                        Some(i) => number_failure(t, i),
                        None => Some(unsupported_where_message()),
                    },
                },
            },
        },
    }
}

/// `e` when `a` is absent or not before `e`, else `a`.
pub open spec fn earlier(a: Option<int>, e: int) -> int {
    match a {
        Some(i) => if i < e { i } else { e },
        None => e,
    }
}

/// Where the `WHERE` text ends in the text that follows ` where `: at the
/// first ` group by `, ` having ` or ` order by `, else at the end.
pub open spec fn where_end(wp: Seq<char>) -> int {
    earlier(
        first_occurrence(wp, seq![' ', 'g', 'r', 'o', 'u', 'p', ' ', 'b', 'y', ' ']),
        earlier(
            first_occurrence(wp, seq![' ', 'h', 'a', 'v', 'i', 'n', 'g', ' ']),
            earlier(first_occurrence(wp, seq![' ', 'o', 'r', 'd', 'e', 'r', ' ', 'b', 'y', ' ']), wp.len() as int),
        ),
    )
}

/// The `WHERE` text of the text `after` that follows ` from `, if it has one.
pub open spec fn where_text(after: Seq<char>) -> Option<Seq<char>> {
    match first_occurrence(after, seq![' ', 'w', 'h', 'e', 'r', 'e', ' ']) {
        Some(w) => {
            let wp = after.subrange(w + 7, after.len() as int);
            Some(wp.subrange(0, where_end(wp)))
        },
        None => None,
    }
}

/// Whether `o` is the `ORDER BY` key that the text `piece` denotes: a
/// trailing ` desc` or ` asc` gives the direction, ascending by default.
pub open spec fn order_key_parses_to(piece: Seq<char>, o: OrderBy) -> bool {
    trimmed_key_parses_to(trimmed(piece), o)
}

/// Whether `o` is the `ORDER BY` key that the trimmed text `p` denotes.
pub open spec fn trimmed_key_parses_to(p: Seq<char>, o: OrderBy) -> bool {
    if ends_with(p, seq![' ', 'd', 'e', 's', 'c']) {
        o.direction == OrderDirection::Desc && o.column@ == trimmed(p.subrange(0, p.len() - 5))
    } else if ends_with(p, seq![' ', 'a', 's', 'c']) {
        o.direction == OrderDirection::Asc && o.column@ == trimmed(p.subrange(0, p.len() - 4))
    } else {
        o.direction == OrderDirection::Asc && o.column@ == p
    }
}

/// Whether `orders` are the keys of the comma-separated `ORDER BY` text.
pub open spec fn order_list_parses_to(text: Seq<char>, orders: Seq<OrderBy>) -> bool {
    let pieces = split_on(trimmed(text), ',');
    &&& orders.len() == pieces.len()
    &&& forall|i: int| 0 <= i < orders.len() ==> order_key_parses_to(pieces[i], #[trigger] orders[i])
}

/// The aggregate function and column that a select-list entry such as
/// `sum(amount)` names, if it names one.
pub open spec fn aggregation_of(col: Seq<char>) -> Option<(AggregationFunction, Seq<char>)> {
    if !ends_with(col, seq![')']) {
        None
    } else if starts_with(col, seq!['s', 'u', 'm', '(']) {
        Some((AggregationFunction::Sum, trimmed(col.subrange(4, col.len() - 1))))
    } else if starts_with(col, seq!['c', 'o', 'u', 'n', 't', '(']) {
        Some((AggregationFunction::Count, trimmed(col.subrange(6, col.len() - 1))))
    } else if starts_with(col, seq!['m', 'a', 'x', '(']) {
        Some((AggregationFunction::Max, trimmed(col.subrange(4, col.len() - 1))))
    } else if starts_with(col, seq!['m', 'i', 'n', '(']) {
        Some((AggregationFunction::Min, trimmed(col.subrange(4, col.len() - 1))))
    } else {
        None
    }
}

/// Whether an aggregation clause is the one that `parsed` describes.
pub open spec fn clause_is(c: AggregationClause, parsed: (AggregationFunction, Seq<char>)) -> bool {
    c.function == parsed.0 && c.column@ == parsed.1
}

/// The table name and the `WHERE` condition of the text after ` from `.
fn from_and_where(after: &[char]) -> (res: Result<(String, Option<WhereClause>), CompileError>)
    ensures
        res is Err <==> (where_text(after@) matches Some(t) && where_failure(t) is Some),
        res matches Err(e) ==> e is Grammar && Some(e->Grammar_0@) == where_failure(where_text(after@)->Some_0),
        res matches Ok(fw) ==> from_where_parse(after@, fw.0, fw.1),
{
    let m = after.len();
    match find(after, &[' ', 'w', 'h', 'e', 'r', 'e', ' ']) {
        Some(w) => {
            let name = slice_chars(after, 0, w);
            let from = string_of(trim(name.as_slice()).as_slice());
            let rest = slice_chars(after, w + 7, m);
            let end = where_end_exec(rest.as_slice());
            let where_part = slice_chars(rest.as_slice(), 0, end);
            match where_from_chars(where_part.as_slice()) {
                Ok(wc) => Ok((from, Some(wc))),
                Err(e) => Err(e),
            }
        },
        None => {
            let end = from_end_exec(after);
            let name = slice_chars(after, 0, end);
            Ok((string_of(trim(name.as_slice()).as_slice()), None))
        },
    }
}

/// The `GROUP BY` list of the text after ` from `.
fn group_by_from(after: &[char]) -> (r: Option<Vec<String>>)
    ensures
        group_by_parse(after@, r),
{
    let m = after.len();
    match find(after, &[' ', 'g', 'r', 'o', 'u', 'p', ' ', 'b', 'y', ' ']) {
        Some(g) => {
            let gp = slice_chars(after, g + 10, m);
            let e = group_end_exec(gp.as_slice());
            let list = slice_chars(gp.as_slice(), 0, e);
            let list_trimmed = trim(list.as_slice());
            Some(split_trimmed(list_trimmed.as_slice(), ','))
        },
        None => None,
    }
}

/// The `ORDER BY` list of the text after ` from `.
fn order_by_from(after: &[char]) -> (r: Option<Vec<OrderBy>>)
    ensures
        order_by_parse(after@, r),
{
    let m = after.len();
    match find(after, &[' ', 'o', 'r', 'd', 'e', 'r', ' ', 'b', 'y', ' ']) {
        Some(o) => {
            let op = slice_chars(after, o + 10, m);
            Some(order_keys_from(op.as_slice()))
        },
        None => None,
    }
}

/// The aggregates named in a select list, in order.
pub open spec fn aggregations_of(cols: Seq<Seq<char>>) -> Seq<(AggregationFunction, Seq<char>)>
    decreases cols.len(),
{
    if cols.len() == 0 {
        Seq::empty()
    } else {
        let prev = aggregations_of(cols.drop_last());
        match aggregation_of(cols.last()) {
            Some(a) => prev.push(a),
            None => prev,
        }
    }
}

/// Whether the strings hold exactly the given texts.
pub open spec fn strings_are(v: Seq<String>, texts: Seq<Seq<char>>) -> bool {
    v.len() == texts.len() && forall|i: int| 0 <= i < v.len() ==> #[trigger] v[i]@ == texts[i]
}

/// Where the table name ends when the text after `FROM` has no `WHERE`:
/// at ` group by`, else at ` order by`, else at the end.
pub open spec fn from_end(after: Seq<char>) -> int {
    match first_occurrence(after, seq![' ', 'g', 'r', 'o', 'u', 'p', ' ', 'b', 'y', ' ']) {
        Some(g) => g,
        None => match first_occurrence(after, seq![' ', 'o', 'r', 'd', 'e', 'r', ' ', 'b', 'y', ' ']) {
            Some(o) => o,
            None => after.len() as int,
        },
    }
}

/// Where the `GROUP BY` list ends: at ` order by`, else at ` having `, else
/// at the end.
pub open spec fn group_end(gp: Seq<char>) -> int {
    match first_occurrence(gp, seq![' ', 'o', 'r', 'd', 'e', 'r', ' ', 'b', 'y', ' ']) {
        Some(o) => o,
        None => match first_occurrence(gp, seq![' ', 'h', 'a', 'v', 'i', 'n', 'g', ' ']) {
            Some(h) => h,
            None => gp.len() as int,
        },
    }
}

/// Why the lowercased statement `q` is rejected, if it is: it does not
/// begin with `select`, has no ` from `, or has a `WHERE` text that is
/// rejected.
pub open spec fn query_failure(q: Seq<char>) -> Option<Seq<char>> {
    if !starts_with(q, seq!['s', 'e', 'l', 'e', 'c', 't']) {
        Some(only_select_message())
    } else {
        match first_occurrence(q, seq![' ', 'f', 'r', 'o', 'm', ' ']) {
            None => Some(missing_from_message()),
            Some(f) => match where_text(q.subrange(f + 6, q.len() as int)) {
                Some(wt) => where_failure(wt),
                None => None,
            },
        }
    }
}

/// Whether `from` and `wc` are the table name and the `WHERE` condition of
/// the text `after` that follows ` from `.
pub open spec fn from_where_parse(after: Seq<char>, from: String, wc: Option<WhereClause>) -> bool {
    match first_occurrence(after, seq![' ', 'w', 'h', 'e', 'r', 'e', ' ']) {
        Some(w) => from@ == trimmed(after.subrange(0, w)) && match (wc, where_text(after)) {
            (Some(c), Some(t)) => where_parses_to(t, c),
            _ => false,
        },
        None => wc is None && from@ == trimmed(after.subrange(0, from_end(after))),
    }
}

/// Whether `gb` is the `GROUP BY` list of the text `after`.
pub open spec fn group_by_parse(after: Seq<char>, gb: Option<Vec<String>>) -> bool {
    match first_occurrence(after, seq![' ', 'g', 'r', 'o', 'u', 'p', ' ', 'b', 'y', ' ']) {
        None => gb is None,
        Some(g) => {
            let gp = after.subrange(g + 10, after.len() as int);
            match gb {
                Some(v) => strings_are(v@, trimmed_pieces(trimmed(gp.subrange(0, group_end(gp))), ',')),
                None => false,
            }
        },
    }
}

/// Whether `ob` is the `ORDER BY` list of the text `after`.
pub open spec fn order_by_parse(after: Seq<char>, ob: Option<Vec<OrderBy>>) -> bool {
    match first_occurrence(after, seq![' ', 'o', 'r', 'd', 'e', 'r', ' ', 'b', 'y', ' ']) {
        None => ob is None,
        Some(o) => match ob {
            Some(v) => order_list_parses_to(after.subrange(o + 10, after.len() as int), v@),
            None => false,
        },
    }
}

/// Whether `aggs` holds the aggregates of the select list `cols`, and is
/// absent when it names none.
pub open spec fn aggregations_parse(cols: Seq<Seq<char>>, aggs: Option<Vec<AggregationClause>>) -> bool {
    let found = aggregations_of(cols);
    if found.len() == 0 {
        aggs is None
    } else {
        match aggs {
            Some(v) => v@.len() == found.len() && forall|i: int| 0 <= i < found.len() ==> clause_is(#[trigger] v@[i], found[i]),
            None => false,
        }
    }
}

/// Whether `query` is the statement that the lowercased text `q` denotes.
pub open spec fn query_parses_to(q: Seq<char>, query: SQLQuery) -> bool {
    &&& starts_with(q, seq!['s', 'e', 'l', 'e', 'c', 't'])
    &&& match first_occurrence(q, seq![' ', 'f', 'r', 'o', 'm', ' ']) {
        None => false,
        Some(f) => {
            let cols = trimmed_pieces(trimmed(q.subrange(6, f)), ',');
            let after = q.subrange(f + 6, q.len() as int);
            &&& strings_are(query.columns@, cols)
            &&& from_where_parse(after, query.from, query.where_clause)
            &&& group_by_parse(after, query.group_by)
            &&& order_by_parse(after, query.order_by)
            &&& query.having is None
            &&& query.joins is None
            &&& aggregations_parse(cols, query.aggregations)
        },
    }
}

} // verus!

verus! {

fn grammar_error(message: &str) -> (e: CompileError)
    ensures
        e is Grammar,
        e->Grammar_0@ == message@,
{
    let c = chars_of(message);
    CompileError::Grammar(string_of(c.as_slice()))
}

/// Reads the column and the value of a comparison whose operator stands at
/// `i` in `t`.
fn comparison_from(t: &[char], i: usize) -> (res: Result<(String, u64), CompileError>)
    requires
        i + 3 <= t@.len(),
    ensures
        res is Err <==> number_failure(t@, i as int) is Some,
        res matches Err(e) ==> e is Grammar && Some(e->Grammar_0@) == number_failure(t@, i as int),
        res matches Ok(cv) ==> cv.0@ == trimmed(t@.subrange(0, i as int)) && u64_text(trimmed(t@.subrange(i + 3, t@.len() as int))) == Some(cv.1),
{
    let n = t.len();
    let left = slice_chars(t, 0, i);
    let column = string_of(trim(left.as_slice()).as_slice());
    let right = slice_chars(t, i + 3, n);
    let digits = trim(right.as_slice());
    match parse_u64(digits.as_slice()) {
        Some(value) => Ok((column, value)),
        None => Err(grammar_error("Invalid number in WHERE clause")),
    }
}

/// Parses `WHERE` text given as characters.
fn where_from_chars(text: &[char]) -> (res: Result<WhereClause, CompileError>)
    ensures
        res is Err <==> where_failure(text@) is Some,
        res matches Err(e) ==> e is Grammar && Some(e->Grammar_0@) == where_failure(text@),
        res matches Ok(w) ==> where_parses_to(text@, w),
    decreases text@.len(),
{
    let t = trim(text);
    let n = t.len();
    match find(t.as_slice(), &[' ', 'a', 'n', 'd', ' ']) {
        Some(i) => {
            let left = slice_chars(t.as_slice(), 0, i);
            let right = slice_chars(t.as_slice(), i + 5, n);
            let l = match where_from_chars(left.as_slice()) {
                Ok(l) => l,
                Err(e) => return Err(e),
            };
            let r = match where_from_chars(right.as_slice()) {
                Ok(r) => r,
                Err(e) => return Err(e),
            };
            return Ok(WhereClause::And(Box::new(l), Box::new(r)));
        },
        None => {},
    }
    match find(t.as_slice(), &[' ', 'o', 'r', ' ']) {
        Some(i) => {
            let left = slice_chars(t.as_slice(), 0, i);
            let right = slice_chars(t.as_slice(), i + 4, n);
            let l = match where_from_chars(left.as_slice()) {
                Ok(l) => l,
                Err(e) => return Err(e),
            };
            let r = match where_from_chars(right.as_slice()) {
                Ok(r) => r,
                Err(e) => return Err(e),
            };
            return Ok(WhereClause::Or(Box::new(l), Box::new(r)));
        },
        None => {},
    }
    match find(t.as_slice(), &[' ', '<', ' ']) {
        Some(i) => {
            return match comparison_from(t.as_slice(), i) {
                Ok((column, value)) => Ok(WhereClause::LessThan { column, value }),
                Err(e) => Err(e),
            };
        },
        None => {},
    }
    match find(t.as_slice(), &[' ', '>', ' ']) {
        Some(i) => {
            return match comparison_from(t.as_slice(), i) {
                Ok((column, value)) => Ok(WhereClause::GreaterThan { column, value }),
                Err(e) => Err(e),
            };
        },
        None => {},
    }
    match find(t.as_slice(), &[' ', '=', ' ']) {
        Some(i) => {
            return match comparison_from(t.as_slice(), i) {
                Ok((column, value)) => Ok(WhereClause::Equal { column, value }),
                Err(e) => Err(e),
            };
        },
        None => {},
    }
    Err(grammar_error("Unsupported WHERE clause format"))
}

/// Parses one `ORDER BY` key, given trimmed.
fn order_key_from(p: &[char]) -> (o: OrderBy)
    ensures
        trimmed_key_parses_to(p@, o),
{
    let n = p.len();
    if has_suffix(p, &[' ', 'd', 'e', 's', 'c']) {
        let c = slice_chars(p, 0, n - 5);
        OrderBy { column: string_of(trim(c.as_slice()).as_slice()), direction: OrderDirection::Desc }
    } else if has_suffix(p, &[' ', 'a', 's', 'c']) {
        let c = slice_chars(p, 0, n - 4);
        OrderBy { column: string_of(trim(c.as_slice()).as_slice()), direction: OrderDirection::Asc }
    } else {
        OrderBy { column: string_of(p), direction: OrderDirection::Asc }
    }
}

/// Parses comma-separated `ORDER BY` text given as characters.
fn order_keys_from(text: &[char]) -> (orders: Vec<OrderBy>)
    ensures
        order_list_parses_to(text@, orders@),
{
    let t = trim(text);
    let pieces = split_trimmed(t.as_slice(), ',');
    let mut orders: Vec<OrderBy> = Vec::new();
    let mut k: usize = 0;
    while k < pieces.len()
        invariant
            k <= pieces@.len(),
            pieces@.len() == trimmed_pieces(t@, ',').len(),
            forall|i: int| 0 <= i < pieces@.len() ==> #[trigger] pieces@[i]@ == trimmed_pieces(t@, ',')[i],
            t@ == trimmed(text@),
            orders@.len() == k,
            forall|i: int| 0 <= i < k ==> order_key_parses_to(split_on(t@, ',')[i], #[trigger] orders@[i]),
        decreases pieces@.len() - k,
    {
        let p = chars_of(pieces[k].as_str());
        assert(p@ == trimmed(split_on(t@, ',')[k as int]));
        let o = order_key_from(p.as_slice());
        orders.push(o);
        k = k + 1;
    }
    orders
}

} // verus!

verus! {

/// Reads `SELECT` statements of the accepted subset of SQL.
pub struct SQLParser;

/// Where the table name ends in the text after `FROM` when it has no `WHERE`.
fn from_end_exec(after: &[char]) -> (r: usize)
    ensures
        r as int == from_end(after@),
        r <= after@.len(),
{
    match find(after, &[' ', 'g', 'r', 'o', 'u', 'p', ' ', 'b', 'y', ' ']) {
        Some(g) => g,
        None => match find(after, &[' ', 'o', 'r', 'd', 'e', 'r', ' ', 'b', 'y', ' ']) {
            Some(o) => o,
            None => after.len(),
        },
    }
}

/// Where the `WHERE` text ends in the text that follows ` where `.
fn where_end_exec(wp: &[char]) -> (r: usize)
    ensures
        r as int == where_end(wp@),
        r <= wp@.len(),
{
    let mut end = wp.len();
    match find(wp, &[' ', 'o', 'r', 'd', 'e', 'r', ' ', 'b', 'y', ' ']) {
        Some(i) => if i < end { end = i; },
        None => {},
    }
    match find(wp, &[' ', 'h', 'a', 'v', 'i', 'n', 'g', ' ']) {
        Some(i) => if i < end { end = i; },
        None => {},
    }
    match find(wp, &[' ', 'g', 'r', 'o', 'u', 'p', ' ', 'b', 'y', ' ']) {
        Some(i) => if i < end { end = i; },
        None => {},
    }
    end
}

/// Where the `GROUP BY` list ends.
fn group_end_exec(gp: &[char]) -> (r: usize)
    ensures
        r as int == group_end(gp@),
        r <= gp@.len(),
{
    match find(gp, &[' ', 'o', 'r', 'd', 'e', 'r', ' ', 'b', 'y', ' ']) {
        Some(o) => o,
        None => match find(gp, &[' ', 'h', 'a', 'v', 'i', 'n', 'g', ' ']) {
            Some(h) => h,
            None => gp.len(),
        },
    }
}

/// The aggregates named in a select list: none when it names none.
fn aggregations_from(columns: &Vec<String>) -> (r: Option<Vec<AggregationClause>>)
    ensures
        aggregations_parse(columns@.map_values(|c: String| c@), r),
{
    let ghost cols = columns@.map_values(|c: String| c@);
    let mut aggregations: Vec<AggregationClause> = Vec::new();
    let mut k: usize = 0;
    while k < columns.len()
        invariant
            k <= columns@.len(),
            cols == columns@.map_values(|c: String| c@),
            aggregations@.len() == aggregations_of(cols.subrange(0, k as int)).len(),
            forall|i: int| 0 <= i < aggregations@.len() ==> clause_is(#[trigger] aggregations@[i], aggregations_of(cols.subrange(0, k as int))[i]),
        decreases columns@.len() - k,
    {
        let ghost before = aggregations@;
        let a = SQLParser::parse_aggregation(columns[k].as_str());
        proof {
            assert(cols.subrange(0, k + 1).drop_last() =~= cols.subrange(0, k as int));
            assert(cols.subrange(0, k + 1).last() == cols[k as int]);
        }
        match a {
            Some(c) => {
                aggregations.push(c);
                assert(forall|i: int| 0 <= i < before.len() ==> aggregations@[i] == before[i]);
            },
            None => {},
        }
        k = k + 1;
    }
    assert(cols.subrange(0, cols.len() as int) =~= cols);
    if aggregations.len() == 0 { None } else { Some(aggregations) }
}

impl SQLParser {
    /// Parses a statement. It is trimmed and lowercased first; then it must
    /// begin with `select` and hold ` from `. The `WHERE` text runs to the
    /// first ` group by `, ` having ` or ` order by `.
    pub fn parse(sql: &str) -> (res: Result<SQLQuery, CompileError>)
        ensures
            res is Err <==> query_failure(lower_of(trimmed(sql@))) is Some,
            res matches Err(e) ==> e is Grammar && Some(e->Grammar_0@) == query_failure(lower_of(trimmed(sql@))),
            res matches Ok(query) ==> query_parses_to(lower_of(trimmed(sql@)), query),
    {
        let raw = chars_of(sql);
        let tr = trim(raw.as_slice());
        let ts = string_of(tr.as_slice());
        let low = lowercase(ts.as_str());
        Self::parse_normalized(low.as_str())
    }

    /// Parses a statement that is already trimmed and lowercased.
    pub fn parse_normalized(statement: &str) -> (res: Result<SQLQuery, CompileError>)
        ensures
            res is Err <==> query_failure(statement@) is Some,
            res matches Err(e) ==> e is Grammar && Some(e->Grammar_0@) == query_failure(statement@),
            res matches Ok(query) ==> query_parses_to(statement@, query),
    {
        let q = chars_of(statement);
        let n = q.len();
        if !has_prefix(q.as_slice(), &['s', 'e', 'l', 'e', 'c', 't']) {
            return Err(grammar_error("Only SELECT queries are supported"));
        }
        let f = match find(q.as_slice(), &[' ', 'f', 'r', 'o', 'm', ' ']) {
            Some(f) => f,
            None => return Err(grammar_error("Missing FROM clause")),
        };
        proof {
            let sel = seq!['s', 'e', 'l', 'e', 'c', 't'];
            assert(q@.subrange(0, 6) == sel);
            assert(q@.subrange(f as int, f + 6)[0] == ' ');
            if f < 6 {
                assert(q@[f as int] == sel[f as int]);
            }
        }
        let select_part = slice_chars(q.as_slice(), 6, f);
        let select_trimmed = trim(select_part.as_slice());
        let columns = split_trimmed(select_trimmed.as_slice(), ',');
        assert(columns@.map_values(|c: String| c@) =~= trimmed_pieces(trimmed(q@.subrange(6, f as int)), ','));
        let after = slice_chars(q.as_slice(), f + 6, n);
        let (from, where_clause) = match from_and_where(after.as_slice()) {
            Ok(fw) => fw,
            Err(e) => return Err(e),
        };
        let group_by = group_by_from(after.as_slice());
        let order_by = order_by_from(after.as_slice());
        let aggs = aggregations_from(&columns);
        let query = SQLQuery { columns, from, where_clause, group_by, order_by, having: None, joins: None, aggregations: aggs };
        Ok(query)
    }

    /// Parses `WHERE` text: split at the first ` and `, else at the first
    /// ` or `, else read as a comparison at ` < `, ` > ` or ` = `.
    pub fn parse_where_clause(where_part: &str) -> (res: Result<WhereClause, CompileError>)
        ensures
            res is Err <==> where_failure(where_part@) is Some,
            res matches Err(e) ==> e is Grammar && Some(e->Grammar_0@) == where_failure(where_part@),
            res matches Ok(w) ==> where_parses_to(where_part@, w),
    {
        let text = chars_of(where_part);
        where_from_chars(text.as_slice())
    }

    /// Parses comma-separated `ORDER BY` keys; a key without ` asc` or
    /// ` desc` sorts ascending. Every text parses.
    pub fn parse_order_by(order_part: &str) -> (res: Result<Vec<OrderBy>, CompileError>)
        ensures
            res matches Ok(orders) && order_list_parses_to(order_part@, orders@),
    {
        let text = chars_of(order_part);
        Ok(order_keys_from(text.as_slice()))
    }

    /// Reads an aggregate such as `sum(amount)` from a select-list entry.
    pub fn parse_aggregation(col: &str) -> (r: Option<AggregationClause>)
        ensures
            r is None <==> aggregation_of(col@) is None,
            r matches Some(c) ==> clause_is(c, aggregation_of(col@)->Some_0),
    {
        let c = chars_of(col);
        let n = c.len();
        let close: [char; 1] = [')'];
        assert(close@ =~= seq![')']);
        if !has_suffix(c.as_slice(), close.as_slice()) {
            return None;
        }
        let sum: [char; 4] = ['s', 'u', 'm', '('];
        let count: [char; 6] = ['c', 'o', 'u', 'n', 't', '('];
        let max: [char; 4] = ['m', 'a', 'x', '('];
        let min: [char; 4] = ['m', 'i', 'n', '('];
        assert(sum@ =~= seq!['s', 'u', 'm', '(']);
        assert(count@ =~= seq!['c', 'o', 'u', 'n', 't', '(']);
        assert(max@ =~= seq!['m', 'a', 'x', '(']);
        assert(min@ =~= seq!['m', 'i', 'n', '(']);
        let function: AggregationFunction;
        let skip: usize;
        if has_prefix(c.as_slice(), sum.as_slice()) {
            function = AggregationFunction::Sum;
            skip = 4;
        } else if has_prefix(c.as_slice(), count.as_slice()) {
            function = AggregationFunction::Count;
            skip = 6;
        } else if has_prefix(c.as_slice(), max.as_slice()) {
            function = AggregationFunction::Max;
            skip = 4;
        } else if has_prefix(c.as_slice(), min.as_slice()) {
            function = AggregationFunction::Min;
            skip = 4;
        } else {
            return None;
        }
        proof {
            assert(c@.subrange(n - 1, n as int)[0] == ')');
            assert(c@.subrange(0, skip as int)[skip - 1] == '(');
        }
        let inner = slice_chars(c.as_slice(), skip, n - 1);
        let column = string_of(trim(inner.as_slice()).as_slice());
        Some(AggregationClause { function, column })
    }
}

} // verus!

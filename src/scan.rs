//! The whole pass: classify every row, record it, resolve the columns.

use vstd::prelude::*;
use crate::error::Error;
use crate::index::{Columns, Index, RecordType, classify_row, observe_row};
use crate::schema::{ColumnSchema, resolve_all, schema_view};

verus! {

/// The observations after the rows are recorded in order into an empty index.
pub open spec fn scan(headers: Seq<String>, rows: Seq<Vec<String>>) -> Columns
    decreases rows.len(),
{
    if rows.len() == 0 {
        Seq::empty()
    } else {
        observe_row(scan(headers, rows.drop_last()), classify_row(headers, rows.last()@))
    }
}

/// Row `k` holds one value per header.
pub open spec fn row_fits(headers: Seq<String>, rows: Seq<Vec<String>>, k: int) -> bool {
    rows[k]@.len() == headers.len()
}

pub open spec fn rows_fit(headers: Seq<String>, rows: Seq<Vec<String>>) -> bool {
    forall|k: int| 0 <= k < rows.len() ==> #[trigger] row_fits(headers, rows, k)
}

/// Infers the schema of a table from its header and its data rows; cell `i`
/// of a row is the value of the column `headers[i]`. Fails, naming the first
/// such row, exactly when a row does not hold one value per header.
pub fn infer(headers: &Vec<String>, rows: &Vec<Vec<String>>) -> (r: Result<Vec<ColumnSchema>, Error>)
    ensures
        r is Ok <==> rows_fit(headers@, rows@),
        r is Ok ==> schema_view(r->Ok_0@) == resolve_all(scan(headers@, rows@)),
        r is Err ==> (r matches Err(Error::MissingHeaderValue(k)) && k < rows@.len() && !row_fits(
            headers@,
            rows@,
            k as int,
        ) && forall|j: int| 0 <= j < k ==> #[trigger] row_fits(headers@, rows@, j)),
{
    let mut index = Index::new();
    let mut k: usize = 0;
    while k < rows.len()
        invariant
            k <= rows@.len(),
            index.wf(),
            index@ == scan(headers@, rows@.take(k as int)),
            forall|j: int| 0 <= j < k ==> #[trigger] row_fits(headers@, rows@, j),
        decreases rows@.len() - k,
    {
        if rows[k].len() != headers.len() {
            assert(!row_fits(headers@, rows@, k as int));
            return Err(Error::MissingHeaderValue(k));
        }
        index.add(RecordType::from_row(headers, &rows[k]));
        assert(rows@.take(k + 1 as int).drop_last() =~= rows@.take(k as int));
        k = k + 1;
    }
    assert(rows@.take(k as int) =~= rows@);
    Ok(index.to_schema())
}

} // verus!

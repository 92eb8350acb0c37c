use vstd::prelude::*;
use crate::record::{
    Cell, DecodeError, BiasRecord, RateRecord, ColumnKind, row_ok, row_error_is, bias_columns,
    rate_columns, bias_record_is, rate_record_is, decode_bias_row, decode_rate_row,
};

verus! {

/// The records read from one query's result rows, and the rows left out with why.
pub struct Decoded<T> {
    pub records: Vec<T>,
    pub rejected: Vec<(usize, DecodeError)>,
}

/// Positions of the rows that read cleanly, in order.
pub open spec fn kept_rows(rows: Seq<Vec<Cell>>, kinds: Seq<ColumnKind>) -> Seq<int>
    decreases rows.len(),
{
    if rows.len() == 0 {
        Seq::empty()
    } else if row_ok(rows.last()@, kinds) {
        kept_rows(rows.drop_last(), kinds).push(rows.len() - 1)
    } else {
        kept_rows(rows.drop_last(), kinds)
    }
}

/// Positions of the rows that do not read, in order.
pub open spec fn dropped_rows(rows: Seq<Vec<Cell>>, kinds: Seq<ColumnKind>) -> Seq<int>
    decreases rows.len(),
{
    if rows.len() == 0 {
        Seq::empty()
    } else if row_ok(rows.last()@, kinds) {
        dropped_rows(rows.drop_last(), kinds)
    } else {
        dropped_rows(rows.drop_last(), kinds).push(rows.len() - 1)
    }
}

pub open spec fn rejected_is(
    rejected: Seq<(usize, DecodeError)>,
    rows: Seq<Vec<Cell>>,
    kinds: Seq<ColumnKind>,
) -> bool {
    &&& rejected.len() == dropped_rows(rows, kinds).len()
    &&& forall|j: int| 0 <= j < rejected.len() ==> {
        &&& (#[trigger] rejected[j]).0 == dropped_rows(rows, kinds)[j]
        &&& row_error_is(rows[rejected[j].0 as int]@, kinds, rejected[j].1)
    }
}

/// Reads every bias row; a row that does not read is left out and reported, the others kept.
pub fn decode_bias_rows(rows: &Vec<Vec<Cell>>) -> (r: Decoded<BiasRecord>)
    ensures
        r.records@.len() == kept_rows(rows@, bias_columns()).len(),
        forall|j: int| 0 <= j < r.records@.len() ==> bias_record_is(
            #[trigger] r.records@[j],
            rows@[kept_rows(rows@, bias_columns())[j]]@,
        ),
        rejected_is(r.rejected@, rows@, bias_columns()),
{
    let mut records: Vec<BiasRecord> = Vec::new();
    let mut rejected: Vec<(usize, DecodeError)> = Vec::new();
    let mut i: usize = 0;
    while i < rows.len()
        invariant
            i <= rows.len(),
            records@.len() == kept_rows(rows@.subrange(0, i as int), bias_columns()).len(),
            forall|j: int| 0 <= j < records@.len() ==> bias_record_is(
                #[trigger] records@[j],
                rows@[kept_rows(rows@.subrange(0, i as int), bias_columns())[j]]@,
            ),
            rejected_is(rejected@, rows@.subrange(0, i as int), bias_columns()),
        decreases rows.len() - i,
    {
        let ghost before = rows@.subrange(0, i as int);
        let ghost after = rows@.subrange(0, i + 1);
        proof {
            assert(after.drop_last() =~= before);
            assert(after.last() == rows@[i as int]);
            assert forall|j: int| 0 <= j < rejected@.len() implies (#[trigger] rejected@[j]).0 < i && after[rejected@[j].0 as int] == before[rejected@[j].0 as int] by {
                lemma_dropped_below(before, bias_columns(), j);
            }
            assert forall|j: int| 0 <= j < records@.len() implies kept_rows(before, bias_columns())[j] < i by {
                lemma_kept_below(before, bias_columns(), j);
            }
        }
        match decode_bias_row(&rows[i]) {
            Ok(rec) => records.push(rec),
            Err(e) => rejected.push((i, e)),
        }
        i = i + 1;
    }
    proof {
        assert(rows@.subrange(0, rows@.len() as int) =~= rows@);
    }
    Decoded { records, rejected }
}

/// Reads every detection-rate row; a row that does not read is left out and reported, the others kept.
pub fn decode_rate_rows(rows: &Vec<Vec<Cell>>) -> (r: Decoded<RateRecord>)
    ensures
        r.records@.len() == kept_rows(rows@, rate_columns()).len(),
        forall|j: int| 0 <= j < r.records@.len() ==> rate_record_is(
            #[trigger] r.records@[j],
            rows@[kept_rows(rows@, rate_columns())[j]]@,
        ),
        rejected_is(r.rejected@, rows@, rate_columns()),
{
    let mut records: Vec<RateRecord> = Vec::new();
    let mut rejected: Vec<(usize, DecodeError)> = Vec::new();
    let mut i: usize = 0;
    while i < rows.len()
        invariant
            i <= rows.len(),
            records@.len() == kept_rows(rows@.subrange(0, i as int), rate_columns()).len(),
            forall|j: int| 0 <= j < records@.len() ==> rate_record_is(
                #[trigger] records@[j],
                rows@[kept_rows(rows@.subrange(0, i as int), rate_columns())[j]]@,
            ),
            rejected_is(rejected@, rows@.subrange(0, i as int), rate_columns()),
        decreases rows.len() - i,
    {
        let ghost before = rows@.subrange(0, i as int);
        let ghost after = rows@.subrange(0, i + 1);
        proof {
            assert(after.drop_last() =~= before);
            assert(after.last() == rows@[i as int]);
            assert forall|j: int| 0 <= j < rejected@.len() implies (#[trigger] rejected@[j]).0 < i && after[rejected@[j].0 as int] == before[rejected@[j].0 as int] by {
                lemma_dropped_below(before, rate_columns(), j);
            }
            assert forall|j: int| 0 <= j < records@.len() implies kept_rows(before, rate_columns())[j] < i by {
                lemma_kept_below(before, rate_columns(), j);
            }
        }
        match decode_rate_row(&rows[i]) {
            Ok(rec) => records.push(rec),
            Err(e) => rejected.push((i, e)),
        }
        i = i + 1;
    }
    proof {
        assert(rows@.subrange(0, rows@.len() as int) =~= rows@);
    }
    Decoded { records, rejected }
}

proof fn lemma_kept_below(rows: Seq<Vec<Cell>>, kinds: Seq<ColumnKind>, j: int)
    requires
        0 <= j < kept_rows(rows, kinds).len(),
    ensures
        0 <= kept_rows(rows, kinds)[j] < rows.len(),
    decreases rows.len(),
{
    if rows.len() > 0 {
        let p = kept_rows(rows.drop_last(), kinds);
        if j < p.len() {
            lemma_kept_below(rows.drop_last(), kinds, j);
        }
    }
}

proof fn lemma_dropped_below(rows: Seq<Vec<Cell>>, kinds: Seq<ColumnKind>, j: int)
    requires
        0 <= j < dropped_rows(rows, kinds).len(),
    ensures
        0 <= dropped_rows(rows, kinds)[j] < rows.len(),
    decreases rows.len(),
{
    if rows.len() > 0 {
        let p = dropped_rows(rows.drop_last(), kinds);
        if j < p.len() {
            lemma_dropped_below(rows.drop_last(), kinds, j);
        }
    }
}

} // verus!

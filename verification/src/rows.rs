//! Rows: the records that the service answers with, typed field by field.

use vstd::prelude::*;
use crate::named::NamedMap;
use crate::raw::{fields_view, items_view, lemma_raw_view, RawModel, RawValue};
use crate::value::{typed, ColumnValue, ValueModel};

verus! {

/// A row: for each column name, the value of the field, if it has one.
pub type TableEntry = NamedMap<Option<ColumnValue>>;

/// Why an answer of the service is no sequence of rows.
#[derive(Debug, Clone, Copy, PartialEq, Eq, Structural)]
pub enum DecodeError {
    /// An object was expected where the answer holds something else, or an
    /// array of rows where it is none.
    Shape,
    /// A field holds an array or an object where a scalar was expected.
    Conversion,
}

/// The model of a field: its value, if it has one.
pub open spec fn field_view(field: Option<ColumnValue>) -> Option<ValueModel> {
    match field {
        Some(v) => Some(v@),
        None => None,
    }
}

/// The model of a row.
pub open spec fn entry_view(entry: TableEntry) -> Map<Seq<char>, Option<ValueModel>> {
    entry@.map_values(|field: Option<ColumnValue>| field_view(field))
}

/// The models of a sequence of rows.
pub open spec fn entries_view(entries: Seq<TableEntry>) -> Seq<Map<Seq<char>, Option<ValueModel>>> {
    Seq::new(entries.len(), |i: int| entry_view(entries[i]))
}

/// Whether each field holds null or a scalar.
pub open spec fn all_scalar(fields: Seq<(Seq<char>, RawModel)>) -> bool {
    forall|i: int| 0 <= i < fields.len() ==> typed((#[trigger] fields[i]).1) is Ok
}

/// The row that fields of null and scalars make: each name with the typed
/// value of its field; of two fields with one name the later one counts.
pub open spec fn row_of(fields: Seq<(Seq<char>, RawModel)>) -> Map<Seq<char>, Option<ValueModel>>
    decreases fields.len(),
{
    if fields.len() == 0 {
        Map::empty()
    } else {
        row_of(fields.drop_last()).insert(fields.last().0, typed(fields.last().1).unwrap())
    }
}

/// The row that an untyped value denotes: an object whose fields hold null
/// or scalars is a row; another object fails on a field, and anything else
/// has not the shape of a row.
pub open spec fn decoded_row(raw: RawModel) -> Result<Map<Seq<char>, Option<ValueModel>>, DecodeError> {
    match raw {
        RawModel::Object(fields) => if all_scalar(fields) {
            Ok(row_of(fields))
        } else {
            Err(DecodeError::Conversion)
        },
        _ => Err(DecodeError::Shape),
    }
}

/// The rows that a sequence of untyped values denotes, or the error of the
/// first of them that is no row.
pub open spec fn decoded_all(items: Seq<RawModel>) -> Result<
    Seq<Map<Seq<char>, Option<ValueModel>>>,
    DecodeError,
>
    decreases items.len(),
{
    if items.len() == 0 {
        Ok(Seq::empty())
    } else {
        match decoded_all(items.drop_last()) {
            Err(e) => Err(e),
            Ok(rows) => match decoded_row(items.last()) {
                Err(e) => Err(e),
                Ok(row) => Ok(rows.push(row)),
            },
        }
    }
}

/// The rows that an answer of the service denotes. The answer to a request
/// for one row by its identifier is that row; any other answer is an array
/// of rows.
pub open spec fn decoded_rows(by_id: bool, response: RawModel) -> Result<
    Seq<Map<Seq<char>, Option<ValueModel>>>,
    DecodeError,
> {
    if by_id {
        match decoded_row(response) {
            Ok(row) => Ok(seq![row]),
            Err(e) => Err(e),
        }
    } else {
        match response {
            RawModel::Array(items) => decoded_all(items),
            _ => Err(DecodeError::Shape),
        }
    }
}

/// Types the fields of one record.
pub fn decode_row(item: RawValue) -> (r: Result<TableEntry, DecodeError>)
    ensures
        match r {
            Ok(entry) => decoded_row(item@) == Ok::<_, DecodeError>(entry_view(entry)),
            Err(e) => decoded_row(item@) == Err::<Map<Seq<char>, Option<ValueModel>>, _>(e),
        },
{
    proof {
        lemma_raw_view(item);
    }
    match item {
        RawValue::Object(fields) => {
            let ghost all = fields_view(fields@);
            let ghost mut seen: int = 0;
            let mut pending = fields;
            let mut entry: TableEntry = NamedMap::new();
            while pending.len() > 0
                invariant
                    item@ == RawModel::Object(all),
                    0 <= seen <= all.len(),
                    fields_view(pending@) == all.skip(seen),
                    all_scalar(all.take(seen)),
                    entry_view(entry) == row_of(all.take(seen)),
                decreases pending.len(),
            {
                let ghost pending_before = pending@;
                let ghost entry_before = entry;
                let (name, raw) = pending.remove(0);
                proof {
                    assert(fields_view(pending_before).len() == pending_before.len());
                    assert(all.skip(seen)[0] == all[seen]);
                    assert(all.take(seen + 1).drop_last() =~= all.take(seen));
                    assert forall|i: int| 0 <= i < pending@.len() implies fields_view(pending@)[i]
                        == all.skip(seen + 1)[i] by {
                        assert(fields_view(pending_before)[i + 1] == all.skip(seen)[i + 1]);
                    }
                }
                match ColumnValue::try_from_value(raw) {
                    Ok(field) => {
                        entry.insert(name.as_str(), field);
                        proof {
                            assert(entry_view(entry) =~= entry_view(entry_before).insert(
                                name@,
                                field_view(field),
                            ));
                            seen = seen + 1;
                        }
                    },
                    Err(_) => {
                        return Err(DecodeError::Conversion);
                    },
                }
            }
            Ok(entry)
        },
        _ => Err(DecodeError::Shape),
    }
}

/// Types the records of an answer of the service. `by_id` says whether one
/// row was asked for by its identifier: the answer is then that row, and
/// otherwise an array of rows.
pub fn decode_rows(by_id: bool, response: RawValue) -> (r: Result<Vec<TableEntry>, DecodeError>)
    ensures
        match r {
            Ok(entries) => decoded_rows(by_id, response@) == Ok::<_, DecodeError>(
                entries_view(entries@),
            ),
            Err(e) => decoded_rows(by_id, response@) == Err::<
                Seq<Map<Seq<char>, Option<ValueModel>>>,
                _,
            >(e),
        },
{
    if by_id {
        return match decode_row(response) {
            Ok(entry) => {
                let mut entries: Vec<TableEntry> = Vec::new();
                entries.push(entry);
                assert(entries_view(entries@) =~= seq![entry_view(entry)]);
                Ok(entries)
            },
            Err(e) => Err(e),
        };
    }
    proof {
        lemma_raw_view(response);
    }
    match response {
        RawValue::Array(items) => {
            let ghost all = items_view(items@);
            let ghost mut seen: int = 0;
            let mut pending = items;
            let mut entries: Vec<TableEntry> = Vec::new();
            proof {
                assert(entries_view(entries@) =~= Seq::empty());
            }
            while pending.len() > 0
                invariant
                    !by_id,
                    response@ == RawModel::Array(all),
                    0 <= seen <= all.len(),
                    items_view(pending@) == all.skip(seen),
                    decoded_all(all.take(seen)) == Ok::<_, DecodeError>(entries_view(entries@)),
                decreases pending.len(),
            {
                let ghost pending_before = pending@;
                let ghost entries_before = entries@;
                let item = pending.remove(0);
                proof {
                    assert(items_view(pending_before).len() == pending_before.len());
                    assert(all.skip(seen)[0] == all[seen]);
                    assert(all.take(seen + 1).drop_last() =~= all.take(seen));
                    assert forall|i: int| 0 <= i < pending@.len() implies items_view(pending@)[i]
                        == all.skip(seen + 1)[i] by {
                        assert(items_view(pending_before)[i + 1] == all.skip(seen)[i + 1]);
                    }
                }
                match decode_row(item) {
                    Ok(entry) => {
                        entries.push(entry);
                        proof {
                            assert(entries_view(entries@) =~= entries_view(entries_before).push(
                                entry_view(entry),
                            ));
                            seen = seen + 1;
                        }
                    },
                    Err(e) => {
                        proof {
                            lemma_failure_stays(all, seen + 1);
                        }
                        return Err(e);
                    },
                }
            }
            proof {
                assert(all.take(seen) =~= all);
            }
            Ok(entries)
        },
        _ => Err(DecodeError::Shape),
    }
}

/// Where the first values of a sequence fail, the sequence fails as they do.
pub proof fn lemma_failure_stays(items: Seq<RawModel>, k: int)
    requires
        0 <= k <= items.len(),
        decoded_all(items.take(k)) is Err,
    ensures
        decoded_all(items) == decoded_all(items.take(k)),
    decreases items.len() - k,
{
    if k < items.len() {
        assert(items.take(k + 1).drop_last() =~= items.take(k));
        lemma_failure_stays(items, k + 1);
    } else {
        assert(items.take(k) =~= items);
    }
}

} // verus!

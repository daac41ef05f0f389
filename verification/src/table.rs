//! Tabular record parsing.
//!
//! One archive entry holds a header-led table whose data rows carry seven
//! fields in fixed order: timestamp in milliseconds, then the position
//! columns x, z, y, then three color fields. The four leading fields must be
//! decimal numbers; the color fields are carried through as raw text, as the
//! produced document never reads them.

use vstd::prelude::*;

use crate::num::scalar_of;
use crate::num::in_parse_range;
use crate::num::lemma_scalar_of_range;
use crate::num::parse_scalar;
use crate::ConvertError;

verus! {

/// One data row, parsed. Positions stay in the on-disk column order
/// (x, z, y); micro-units throughout.
pub struct RawRecord {
    pub ts: i64,
    pub x: i64,
    pub z: i64,
    pub y: i64,
    pub red: Vec<u8>,
    pub green: Vec<u8>,
    pub blue: Vec<u8>,
}

/// The mathematical shadow of a record.
pub struct RecModel {
    pub ts: int,
    pub x: int,
    pub z: int,
    pub y: int,
    pub red: Seq<u8>,
    pub green: Seq<u8>,
    pub blue: Seq<u8>,
}

impl View for RawRecord {
    type V = RecModel;

    open spec fn view(&self) -> RecModel {
        RecModel {
            ts: self.ts as int,
            x: self.x as int,
            z: self.z as int,
            y: self.y as int,
            red: self.red@,
            green: self.green@,
            blue: self.blue@,
        }
    }
}

impl DeepView for RawRecord {
    type V = RecModel;

    open spec fn deep_view(&self) -> RecModel {
        self.view()
    }
}

/// A freshly parsed record: all four numeric fields inside the parse range.
pub open spec fn rec_parsed(m: RecModel) -> bool {
    &&& in_parse_range(m.ts)
    &&& in_parse_range(m.x)
    &&& in_parse_range(m.z)
    &&& in_parse_range(m.y)
}

/// A row is usable when it has at least seven fields and its four leading
/// fields are decimal numbers.
pub open spec fn row_ok(row: Seq<Seq<u8>>) -> bool {
    &&& row.len() >= 7
    &&& scalar_of(row[0]) is Some
    &&& scalar_of(row[1]) is Some
    &&& scalar_of(row[2]) is Some
    &&& scalar_of(row[3]) is Some
}

/// The record a usable row denotes.
pub open spec fn spec_row(row: Seq<Seq<u8>>) -> RecModel {
    RecModel {
        ts: scalar_of(row[0])->Some_0,
        x: scalar_of(row[1])->Some_0,
        z: scalar_of(row[2])->Some_0,
        y: scalar_of(row[3])->Some_0,
        red: row[4],
        green: row[5],
        blue: row[6],
    }
}

/// Which error a bad row raises: too few fields wins over a bad number.
pub open spec fn spec_row_err(row: Seq<Seq<u8>>) -> ConvertError {
    if row.len() < 7 {
        ConvertError::RowFields
    } else {
        ConvertError::FieldNumeric
    }
}

/// All rows of one table, parsed in order; the first bad row decides the
/// error.
pub open spec fn spec_records(rows: Seq<Seq<Seq<u8>>>) -> Result<Seq<RecModel>, ConvertError>
    decreases rows.len(),
{
    if rows.len() == 0 {
        Ok(Seq::empty())
    } else {
        match spec_records(rows.drop_last()) {
            Err(e) => Err(e),
            Ok(rs) => if row_ok(rows.last()) {
                Ok(rs.push(spec_row(rows.last())))
            } else {
                Err(spec_row_err(rows.last()))
            },
        }
    }
}

/// Every record of a fully parsed table is in parse range.
pub proof fn lemma_records_parsed(rows: Seq<Seq<Seq<u8>>>)
    requires
        spec_records(rows) is Ok,
    ensures
        forall|i: int|
            0 <= i < spec_records(rows)->Ok_0.len() ==> #[trigger] rec_parsed(
                spec_records(rows)->Ok_0[i],
            ),
        spec_records(rows)->Ok_0.len() == rows.len(),
    decreases rows.len(),
{
    if rows.len() > 0 {
        lemma_records_parsed(rows.drop_last());
        let row = rows.last();
        lemma_scalar_of_range(row[0]);
        lemma_scalar_of_range(row[1]);
        lemma_scalar_of_range(row[2]);
        lemma_scalar_of_range(row[3]);
    }
}

/// A failing prefix decides the whole table's failure.
pub proof fn lemma_records_err_prefix(rows: Seq<Seq<Seq<u8>>>, k: int)
    requires
        0 <= k <= rows.len(),
        spec_records(rows.take(k)) is Err,
    ensures
        spec_records(rows) == spec_records(rows.take(k)),
    decreases rows.len() - k,
{
    if k < rows.len() {
        assert(rows.take(k + 1).drop_last() =~= rows.take(k));
        lemma_records_err_prefix(rows, k + 1);
    } else {
        assert(rows.take(k) =~= rows);
    }
}

/// What a table's bytes denote: the data rows of the header-led tabular
/// format, each row a list of fields, or nothing where the bytes are not a
/// well-formed table.
pub uninterp spec fn csv_rows_of(b: Seq<u8>) -> Option<Seq<Seq<Seq<u8>>>>;

/// Relies on csv (`Reader::from_reader`, `records`): reads the byte content
/// as a comma-separated table with a leading header row and yields the data
/// rows in order, a function of the bytes alone; any read error stands for a
/// malformed table.
#[verifier::external_body]
fn csv_rows(data: &Vec<u8>) -> (r: Result<Vec<Vec<Vec<u8>>>, ConvertError>)
    ensures
        match r {
            Ok(rows) => csv_rows_of(data@) == Some(rows.deep_view()),
            Err(e) => csv_rows_of(data@) is None && e == ConvertError::TableSyntax,
        },
{
    let mut rdr = csv::Reader::from_reader(data.as_slice());
    let mut out: Vec<Vec<Vec<u8>>> = Vec::new();
    for rec in rdr.records() {
        match rec {
            Ok(sr) => out.push(sr.iter().map(|f| f.as_bytes().to_vec()).collect()),
            Err(_) => return Err(ConvertError::TableSyntax),
        }
    }
    Ok(out)
}

/// Byte-for-byte copy of one field.
fn copy_bytes(src: &Vec<u8>) -> (r: Vec<u8>)
    ensures
        r@ == src@,
{
    let mut out: Vec<u8> = Vec::new();
    let mut i: usize = 0;
    while i < src.len()
        invariant
            0 <= i <= src@.len(),
            out@ == src@.take(i as int),
        decreases src@.len() - i,
    {
        out.push(src[i]);
        i = i + 1;
        proof {
            assert(out@ =~= src@.take(i as int));
        }
    }
    proof {
        assert(src@.take(src@.len() as int) =~= src@);
    }
    out
}

/// Field-for-field copy of one record.
pub fn copy_record(rec: &RawRecord) -> (r: RawRecord)
    ensures
        r@ == rec@,
{
    RawRecord {
        ts: rec.ts,
        x: rec.x,
        z: rec.z,
        y: rec.y,
        red: copy_bytes(&rec.red),
        green: copy_bytes(&rec.green),
        blue: copy_bytes(&rec.blue),
    }
}

/// Parse one data row into a record.
pub fn parse_row(row: &Vec<Vec<u8>>) -> (r: Result<RawRecord, ConvertError>)
    ensures
        match r {
            Ok(rec) => row_ok(row.deep_view()) && rec@ == spec_row(row.deep_view()),
            Err(e) => !row_ok(row.deep_view()) && e == spec_row_err(row.deep_view()),
        },
{
    if row.len() < 7 {
        return Err(ConvertError::RowFields);
    }
    proof {
        assert forall|k: int| 0 <= k < row@.len() implies row.deep_view()[k] == row@[k]@ by {
            assert(row@[k].deep_view() =~= row@[k]@);
        }
    }
    let ts = match parse_scalar(&row[0]) {
        Some(v) => v,
        None => {
            return Err(ConvertError::FieldNumeric);
        },
    };
    let x = match parse_scalar(&row[1]) {
        Some(v) => v,
        None => {
            return Err(ConvertError::FieldNumeric);
        },
    };
    let z = match parse_scalar(&row[2]) {
        Some(v) => v,
        None => {
            return Err(ConvertError::FieldNumeric);
        },
    };
    let y = match parse_scalar(&row[3]) {
        Some(v) => v,
        None => {
            return Err(ConvertError::FieldNumeric);
        },
    };
    let rec = RawRecord {
        ts,
        x,
        z,
        y,
        red: copy_bytes(&row[4]),
        green: copy_bytes(&row[5]),
        blue: copy_bytes(&row[6]),
    };
    Ok(rec)
}

/// Parse one entry's bytes into its records: the table is read, then every
/// data row in order; the first failure is the entry's failure.
pub fn parse_records(data: &Vec<u8>) -> (r: Result<Vec<RawRecord>, ConvertError>)
    ensures
        match r {
            Ok(recs) => csv_rows_of(data@) matches Some(rows) && spec_records(rows)
                == Ok::<Seq<RecModel>, ConvertError>(recs.deep_view()),
            Err(e) => (csv_rows_of(data@) is None && e == ConvertError::TableSyntax) || (
            csv_rows_of(data@) matches Some(rows) && spec_records(rows) == Err::<
                Seq<RecModel>,
                ConvertError,
            >(e)),
        },
{
    let rows = match csv_rows(data) {
        Ok(rows) => rows,
        Err(e) => {
            return Err(e);
        },
    };
    let ghost grows: Seq<Seq<Seq<u8>>> = rows.deep_view();
    let mut out: Vec<RawRecord> = Vec::new();
    let mut i: usize = 0;
    proof {
        assert(grows.take(0) =~= Seq::<Seq<Seq<u8>>>::empty());
        assert(out.deep_view() =~= Seq::<RecModel>::empty());
    }
    while i < rows.len()
        invariant
            0 <= i <= rows@.len(),
            grows == rows.deep_view(),
            grows.len() == rows@.len(),
            csv_rows_of(data@) == Some(grows),
            spec_records(grows.take(i as int)) == Ok::<Seq<RecModel>, ConvertError>(
                out.deep_view(),
            ),
        decreases rows@.len() - i,
    {
        proof {
            assert(grows.take(i + 1).drop_last() =~= grows.take(i as int));
            assert(grows.take(i + 1).last() == grows[i as int]);
            assert(rows.deep_view()[i as int] == rows@[i as int].deep_view());
        }
        match parse_row(&rows[i]) {
            Ok(rec) => {
                out.push(rec);
                proof {
                    assert(out.deep_view() =~= spec_records(grows.take(i + 1))->Ok_0);
                }
            },
            Err(e) => {
                proof {
                    lemma_records_err_prefix(grows, i + 1);
                }
                return Err(e);
            },
        }
        i = i + 1;
    }
    proof {
        assert(grows.take(grows.len() as int) =~= grows);
    }
    Ok(out)
}

} // verus!

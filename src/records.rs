//! Reading the comma-separated body of a timetable file with the `csv` crate.
use vstd::prelude::*;
use crate::text::strings;

verus! {

#[verifier::external_type_specification]
#[verifier::external_body]
pub struct ExCsvError(csv::Error);

/// The records of a comma-separated text, in order, each as its fields; `None` stands
/// for a record that could not be read.
pub uninterp spec fn csv_records(body: Seq<char>) -> Seq<Option<Seq<Seq<char>>>>;

pub open spec fn record_view(r: Result<Vec<String>, csv::Error>) -> Option<Seq<Seq<char>>> {
    match r {
        Ok(v) => Some(strings(v@)),
        Err(_) => None,
    }
}

/// Relies on `csv::Reader::records`, on a reader built with `has_headers(false)` and
/// `flexible(true)`: every record of `body`, as its fields, or the error met there. An
/// empty text has no records.
#[verifier::external_body]
pub(crate) fn read_records(body: &str) -> (r: Vec<Result<Vec<String>, csv::Error>>)
    ensures
        r@.map_values(|x: Result<Vec<String>, csv::Error>| record_view(x)) == csv_records(body@),
        body@.len() == 0 ==> r@.len() == 0,
{
    let mut reader = csv::ReaderBuilder::new().has_headers(false).flexible(true).from_reader(body.as_bytes());
    reader.records().map(|rec| rec.map(|fields| fields.iter().map(String::from).collect())).collect()
}

} // verus!

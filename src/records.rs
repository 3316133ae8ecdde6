//! Reading the data file's rows, and planning from its contents.
use crate::plan::{determine_renamings, planned, PlanError, RenamePlan};
use vstd::prelude::*;

verus! {

#[verifier::external_type_specification]
#[verifier::external_body]
pub struct ExCsvError(csv::Error);

/// The rows of fields that the tab-delimited reader finds in `data`, or
/// `None` where it rejects the data (a quoting error, invalid UTF-8, rows of
/// unequal length).
pub uninterp spec fn tab_delimited_rows(data: Seq<u8>) -> Option<Seq<Seq<Seq<char>>>>;

/// Relies on csv::ReaderBuilder (tab delimiter, no header row) and the
/// reader's records: which rows, or whether an error, depends on the bytes
/// alone.
#[verifier::external_body]
fn parse_tab_delimited(data: &[u8]) -> (r: Result<Vec<Vec<String>>, csv::Error>)
    ensures
        match r {
            Ok(rows) => tab_delimited_rows(data@) == Some(rows.deep_view()),
            Err(_) => tab_delimited_rows(data@) is None,
        },
{
    let mut reader = csv::ReaderBuilder::new().has_headers(false).delimiter(b'\t').from_reader(
        data,
    );
    let mut rows: Vec<Vec<String>> = Vec::new();
    for record in reader.records() {
        rows.push(record?.iter().map(String::from).collect());
    }
    Ok(rows)
}

/// Why a run could not produce a plan.
pub enum RenameError {
    /// The data file is not well-formed tab-delimited text.
    Parse(csv::Error),
    /// The rows or the file names do not have the expected shape.
    Plan(PlanError),
}

/// Reads the contents of a tab-delimited data file without a header row:
/// one row of text fields per line, in order.
pub fn read_rows(data: &[u8]) -> (r: Result<Vec<Vec<String>>, RenameError>)
    ensures
        match r {
            Ok(rows) => tab_delimited_rows(data@) == Some(rows.deep_view()),
            Err(e) => tab_delimited_rows(data@) is None && e is Parse,
        },
{
    match parse_tab_delimited(data) {
        Ok(rows) => Ok(rows),
        Err(e) => Err(RenameError::Parse(e)),
    }
}

/// Reads the rows of the data file contents `data` and plans the renaming
/// of `file_names` after them.
pub fn plan_renamings(data: &[u8], file_names: Vec<String>) -> (r: Result<
    RenamePlan,
    RenameError,
>)
    ensures
        match tab_delimited_rows(data@) {
            None => r matches Err(RenameError::Parse(_)),
            Some(rows) => match planned(rows, file_names.deep_view()) {
                Ok(m) => r matches Ok(plan) && plan.wf() && plan@ == m,
                Err(e) => r matches Err(RenameError::Plan(found)) && found == e,
            },
        },
{
    let rows = read_rows(data)?;
    match determine_renamings(rows, file_names) {
        Ok(plan) => Ok(plan),
        Err(e) => Err(RenameError::Plan(e)),
    }
}

} // verus!

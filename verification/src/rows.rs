use vstd::prelude::*;
use crate::value::DataValue;

verus! {

/// What a database directory records of the format it was written in.
#[derive(Debug)]
pub struct DbManifest {
    pub storage_version: u64,
}

/// Rows in a relation, together with headers for the fields.
#[derive(Debug)]
pub struct NamedRows {
    /// The headers
    pub headers: Vec<String>,
    /// The rows
    pub rows: Vec<Vec<DataValue>>,
    /// Contains the next named rows, if exists
    pub next: Option<Box<NamedRows>>,
}

impl NamedRows {
    /// create a named rows with the given headers and rows
    pub fn new(headers: Vec<String>, rows: Vec<Vec<DataValue>>) -> (r: NamedRows)
        ensures
            r.headers == headers,
            r.rows == rows,
            r.next is None,
    {
        NamedRows { headers, rows, next: None }
    }

    /// The rows, without the headers and without what follows.
    pub fn into_rows(self) -> (rows: Vec<Vec<DataValue>>)
        ensures
            rows == self.rows,
    {
        self.rows
    }
}

} // verus!

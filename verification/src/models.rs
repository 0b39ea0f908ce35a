//! Request and response bodies of the service's own API.

use vstd::prelude::*;

verus! {

/// `POST /query` request body: the retrieval code (1–64 characters once trimmed).
#[derive(Debug)]
pub struct QueryRequest {
    pub retrieval_code: String,
}

/// One report record as the service returns it.
#[derive(Debug, Clone)]
pub struct ReportRecord {
    pub harm_type: String,
    pub retrieval_code: String,
    pub report_time: String,
    pub harm_url: String,
    pub result: String,
}

/// `POST /query` response body.
#[derive(Debug)]
pub struct QueryResponse {
    pub success: bool,
    pub total: usize,
    pub records: Vec<ReportRecord>,
    /// `None` on success.
    pub error: Option<String>,
}

impl QueryResponse {
    /// A successful response carrying `records`; `total` is their number.
    pub fn ok(records: Vec<ReportRecord>) -> (r: Self)
        ensures
            r.success,
            r.total == records.len(),
            r.records@ == records@,
            r.error is None,
    {
        let total = records.len();
        QueryResponse { success: true, total, records, error: None }
    }

    /// A failed response with the message `msg` and no records.
    pub fn fail(msg: String) -> (r: Self)
        ensures
            !r.success,
            r.total == 0,
            r.records@.len() == 0,
            r.error == Some(msg),
    {
        QueryResponse { success: false, total: 0, records: Vec::new(), error: Some(msg) }
    }
}

/// `GET /health` response body.
#[derive(Debug)]
pub struct HealthResponse {
    pub status: &'static str,
    pub version: &'static str,
}

impl Default for HealthResponse {
    /// Status `"ok"` and the package version.
    fn default() -> (r: Self)
        ensures
            r.status@ == "ok"@,
            r.version@ == "0.1.0"@,
    {
        HealthResponse { status: "ok", version: "0.1.0" }
    }
}

} // verus!

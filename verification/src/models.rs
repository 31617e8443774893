use vstd::prelude::*;

verus! {

/// One request recorded by the server: one line of the log.
#[derive(Debug, PartialEq, Clone)]
pub struct LogEntry {
    /// When the request happened, as it stood in the log.
    pub timestamp: String,
    /// The HTTP method, like GET or POST.
    pub method: String,
    /// The requested endpoint, e.g. /api/users.
    pub endpoint: String,
    /// The HTTP status code.
    pub status: u16,
    /// Response latency in milliseconds.
    pub response_time_ms: u64,
}

/// The mathematical value of a `LogEntry`: its texts as character sequences.
pub struct EntryView {
    pub timestamp: Seq<char>,
    pub method: Seq<char>,
    pub endpoint: Seq<char>,
    pub status: u16,
    pub response_time_ms: u64,
}

impl View for LogEntry {
    type V = EntryView;

    open spec fn view(&self) -> EntryView {
        EntryView {
            timestamp: self.timestamp@,
            method: self.method@,
            endpoint: self.endpoint@,
            status: self.status,
            response_time_ms: self.response_time_ms,
        }
    }
}

} // verus!

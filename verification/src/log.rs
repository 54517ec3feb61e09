//! The structured records that the library hands to a logging sink.
//!
//! The library writes no log itself. Each operation that is to leave a
//! record appends it to a list that its caller passes in, and the caller
//! sends the list on to whatever sink it has.

use crate::message::HelloRequest;
use crate::runtime::ServerState;
use crate::service::CallError;
use vstd::prelude::*;

verus! {

/// One record for the log.
#[derive(Clone, Debug, PartialEq, Eq)]
pub enum LogRecord {
    /// The service got `request`.
    RequestReceived { request: HelloRequest },
    /// A call was answered with `error` and never reached the service.
    RequestRejected { error: CallError },
    /// The server went from one phase of its life to the next.
    StateChanged { from: ServerState, to: ServerState },
}

/// A record, with the request in it taken by its view.
pub ghost enum LogRecordView {
    RequestReceived { request: Seq<char> },
    RequestRejected { error: CallError },
    StateChanged { from: ServerState, to: ServerState },
}

impl View for LogRecord {
    type V = LogRecordView;

    open spec fn view(&self) -> LogRecordView {
        match *self {
            LogRecord::RequestReceived { request } => LogRecordView::RequestReceived {
                request: request@,
            },
            LogRecord::RequestRejected { error } => LogRecordView::RequestRejected { error },
            LogRecord::StateChanged { from, to } => LogRecordView::StateChanged { from, to },
        }
    }
}

/// `after` is `before` with one more record at its end, which reads as
/// `record`.
pub open spec fn spec_logged(
    before: Seq<LogRecord>,
    after: Seq<LogRecord>,
    record: LogRecordView,
) -> bool {
    &&& after.len() == before.len() + 1
    &&& after.drop_last() == before
    &&& after.last()@ == record
}

} // verus!

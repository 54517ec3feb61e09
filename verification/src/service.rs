//! The service contract and its implementation: one unary method, from a
//! request to its reply.

use crate::codec::{spec_decode_text, spec_encode_text};
use crate::log::{spec_logged, LogRecord, LogRecordView};
use crate::message::{HelloReply, HelloRequest};
use vstd::prelude::*;
use vstd::string::StringExecFns;

verus! {

/// The error of one call. It goes back to the caller of that call and
/// touches no other call.
#[derive(Clone, Copy, Debug, PartialEq, Eq, Structural)]
pub enum CallError {
    /// The bytes of the request are malformed.
    InvalidArgument,
}

/// The greeting for `name`: `Hello `, the name, `!`.
pub open spec fn spec_greeting(name: Seq<char>) -> Seq<char> {
    "Hello "@ + name + "!"@
}

/// The name under which the service is registered.
pub fn service_name() -> (name: &'static str)
    ensures
        name@ == "helloworld.Greeter"@,
{
    "helloworld.Greeter"
}

/// The name of the one method of the service.
pub fn method_name() -> (name: &'static str)
    ensures
        name@ == "SayHello"@,
{
    "SayHello"
}

/// The greeter. It holds no state: every reply depends on its request alone.
#[derive(Debug, Default)]
pub struct MyGreeter {}

impl MyGreeter {
    /// A greeter.
    pub fn new() -> MyGreeter {
        MyGreeter {}
    }

    /// Answers one request with its greeting, and leaves one record of the
    /// request in `log`. Never fails, whatever the name.
    pub fn say_hello(&self, request: HelloRequest, log: &mut Vec<LogRecord>) -> (reply: HelloReply)
        ensures
            reply@ == spec_greeting(request@),
            spec_logged(
                old(log)@,
                final(log)@,
                LogRecordView::RequestReceived { request: request@ },
            ),
    {
        let mut message = <String as StringExecFns>::from_str("Hello ");
        message.append(request.name.as_str());
        message.append("!");
        let ghost before = log@;
        log.push(LogRecord::RequestReceived { request });
        assert(log@.drop_last() == before);
        HelloReply { message }
    }

    /// Serves one call from the bytes of its request to the bytes of its
    /// reply: exactly one of the two comes back.
    ///
    /// Bytes that parse as a request are answered with the greeting for its
    /// name. Bytes that do not are answered with `InvalidArgument`; this is
    /// the error of this call alone. Either way `log` gets one record.
    pub fn handle_call(&self, payload: &[u8], log: &mut Vec<LogRecord>) -> (r: Result<
        Vec<u8>,
        CallError,
    >)
        ensures
            match r {
                Ok(reply) => spec_decode_text(payload@) matches Some(name) && reply@
                    == spec_encode_text(spec_greeting(name)) && spec_decode_text(reply@) == Some(
                    spec_greeting(name),
                ) && spec_logged(
                    old(log)@,
                    final(log)@,
                    LogRecordView::RequestReceived { request: name },
                ),
                Err(error) => spec_decode_text(payload@) is None && error
                    == CallError::InvalidArgument && spec_logged(
                    old(log)@,
                    final(log)@,
                    LogRecordView::RequestRejected { error },
                ),
            },
    {
        match HelloRequest::decode(payload) {
            Ok(request) => {
                let reply = self.say_hello(request, log);
                Ok(reply.encode())
            },
            Err(_) => {
                let error = CallError::InvalidArgument;
                let ghost before = log@;
                log.push(LogRecord::RequestRejected { error });
                assert(log@.drop_last() == before);
                Err(error)
            },
        }
    }
}

} // verus!

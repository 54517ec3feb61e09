//! The two messages of the greeting service.

use vstd::prelude::*;

verus! {

/// What a caller sends: the name to greet. Any text is allowed, the empty
/// text included.
#[derive(Clone, Debug, PartialEq, Eq)]
pub struct HelloRequest {
    pub name: String,
}

/// What the service answers: the greeting built for one request.
#[derive(Clone, Debug, PartialEq, Eq)]
pub struct HelloReply {
    pub message: String,
}

impl View for HelloRequest {
    type V = Seq<char>;

    /// A request is its name, as a sequence of characters.
    open spec fn view(&self) -> Seq<char> {
        self.name@
    }
}

impl View for HelloReply {
    type V = Seq<char>;

    /// A reply is its message, as a sequence of characters.
    open spec fn view(&self) -> Seq<char> {
        self.message@
    }
}

impl Default for HelloRequest {
    /// The request with the empty name: what a message without a name reads
    /// as.
    fn default() -> (request: HelloRequest)
        ensures
            request@ == Seq::<char>::empty(),
    {
        HelloRequest { name: String::new() }
    }
}

impl Default for HelloReply {
    /// The reply with the empty message: what a message without a text
    /// reads as.
    fn default() -> (reply: HelloReply)
        ensures
            reply@ == Seq::<char>::empty(),
    {
        HelloReply { message: String::new() }
    }
}

} // verus!

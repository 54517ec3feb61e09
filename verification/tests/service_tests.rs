use greeter::log::LogRecord;
use greeter::message::{HelloReply, HelloRequest};
use greeter::service::{method_name, service_name, CallError, MyGreeter};

fn greet(name: &str) -> String {
    let mut log = Vec::new();
    MyGreeter::new().say_hello(HelloRequest { name: name.to_string() }, &mut log).message
}

#[test]
fn say_hello_world() {
    assert_eq!(greet("World"), "Hello World!");
}

#[test]
fn say_hello_to_the_empty_name() {
    assert_eq!(greet(""), "Hello !");
}

#[test]
fn say_hello_is_hello_name_bang() {
    let names = [
        "a".to_string(),
        "Ada Lovelace".to_string(),
        " ".to_string(),
        "!".to_string(),
        "Hello ".to_string(),
        "Jürgen".to_string(),
        "世界".to_string(),
        "😀".to_string(),
        "line\nbreak".to_string(),
        "z".repeat(100_000),
    ];
    for name in names {
        assert_eq!(greet(&name), format!("Hello {}!", name));
    }
}

#[test]
fn say_hello_depends_on_the_request_alone() {
    let greeter = MyGreeter::default();
    let mut log = Vec::new();
    let first = greeter.say_hello(HelloRequest { name: "A".to_string() }, &mut log);
    let second = greeter.say_hello(HelloRequest { name: "B".to_string() }, &mut log);
    let third = greeter.say_hello(HelloRequest { name: "A".to_string() }, &mut log);
    assert_eq!(first, HelloReply { message: "Hello A!".to_string() });
    assert_eq!(second, HelloReply { message: "Hello B!".to_string() });
    assert_eq!(third, first);
}

#[test]
fn say_hello_leaves_one_record_of_the_request() {
    let mut log = vec![LogRecord::RequestReceived { request: HelloRequest { name: "earlier".to_string() } }];
    MyGreeter::new().say_hello(HelloRequest { name: "World".to_string() }, &mut log);
    assert_eq!(
        log,
        vec![
            LogRecord::RequestReceived { request: HelloRequest { name: "earlier".to_string() } },
            LogRecord::RequestReceived { request: HelloRequest { name: "World".to_string() } },
        ]
    );
}

#[test]
fn method_is_named_say_hello() {
    assert_eq!(method_name(), "SayHello");
}

#[test]
fn service_is_named_greeter() {
    assert_eq!(service_name(), "helloworld.Greeter");
}

#[test]
fn handle_call_answers_world() {
    let mut log = Vec::new();
    let request = [0x0A, 0x05, b'W', b'o', b'r', b'l', b'd'];
    let reply = MyGreeter::new().handle_call(&request, &mut log).unwrap();
    let mut expected = vec![0x0A, 12];
    expected.extend_from_slice(b"Hello World!");
    assert_eq!(reply, expected);
    assert_eq!(HelloReply::decode(&reply), Ok(HelloReply { message: "Hello World!".to_string() }));
    assert_eq!(log, vec![LogRecord::RequestReceived { request: HelloRequest { name: "World".to_string() } }]);
}

#[test]
fn handle_call_answers_a_request_without_a_name() {
    let mut log = Vec::new();
    let reply = MyGreeter::new().handle_call(&[], &mut log).unwrap();
    assert_eq!(HelloReply::decode(&reply), Ok(HelloReply { message: "Hello !".to_string() }));
    assert_eq!(log, vec![LogRecord::RequestReceived { request: HelloRequest::default() }]);
}

#[test]
fn handle_call_answers_a_request_from_a_newer_schema() {
    let mut log = Vec::new();
    let request = [0x10, 0x2A, 0x0A, 0x03, b'A', b'd', b'a', 0x1A, 0x01, 0xFF];
    let reply = MyGreeter::new().handle_call(&request, &mut log).unwrap();
    assert_eq!(HelloReply::decode(&reply), Ok(HelloReply { message: "Hello Ada!".to_string() }));
}

#[test]
fn handle_call_turns_malformed_bytes_into_invalid_argument() {
    let malformed: [&[u8]; 6] = [
        &[0x0A],
        &[0x0A, 0x05, b'W', b'o'],
        &[0x0A, 0x01, 0xFF],
        &[0x08, 0x01],
        &[0x13],
        &[0xFF],
    ];
    for request in malformed {
        let mut log = Vec::new();
        assert_eq!(MyGreeter::new().handle_call(request, &mut log), Err(CallError::InvalidArgument));
        assert_eq!(log, vec![LogRecord::RequestRejected { error: CallError::InvalidArgument }]);
    }
}

#[test]
fn a_failed_call_does_not_touch_the_calls_around_it() {
    let greeter = MyGreeter::new();
    let mut log = Vec::new();
    let good = HelloRequest { name: "World".to_string() }.encode();
    let before = greeter.handle_call(&good, &mut log);
    let failed = greeter.handle_call(&[0x0A, 0x09], &mut log);
    let after = greeter.handle_call(&good, &mut log);
    assert!(before.is_ok());
    assert_eq!(failed, Err(CallError::InvalidArgument));
    assert_eq!(after, before);
    assert_eq!(log.len(), 3);
}

#[test]
fn handle_call_matches_decode_say_hello_encode() {
    let greeter = MyGreeter::new();
    for name in ["", "World", "Grüße", &"n".repeat(500)] {
        let request = HelloRequest { name: name.to_string() };
        let mut log = Vec::new();
        let direct = greeter.say_hello(request.clone(), &mut log).encode();
        assert_eq!(greeter.handle_call(&request.encode(), &mut log), Ok(direct));
    }
}

use collab_canvas::request::decode;
use collab_canvas::request::few_brackets;
use collab_canvas::request::interpret;
use collab_canvas::request::Request;
use collab_canvas::request::MAX_BRACKETS;
use collab_canvas::server::Effect;
use collab_canvas::server::Event;
use collab_canvas::server::Server;
use collab_canvas::session::handle_error;
use collab_canvas::session::Action;
use collab_canvas::session::Message;
use collab_canvas::session::Role;
use collab_canvas::session::Session;
use collab_canvas::session::NAUGHTY_WARNING;
use collab_canvas::text::characters;
use collab_canvas::text::push_decimal;
use collab_canvas::text::push_escaped;
use collab_canvas::text::remove_all;

fn session(naughty: u32) -> Session {
    Session { data: Role::Unknown, name: String::new(), url: String::new(), naughty }
}

fn text(s: &str) -> Effect {
    Effect::Send(Message::Text(String::from(s)))
}

fn some(s: &str) -> Option<String> {
    Some(String::from(s))
}

const SIZE: &str = "{\"msg\": \"size\", \"w\": 40, \"h\": 40}";
const GREETING: &str = "{\"msg\": \"?\"}";
const PAINTER: &str = "{\"msg\": \"?\", \"?\": \"painter\", \"name\": \"Ada\", \"url\": \"http://a\"}";
const CANVAS: &str = "{\"msg\": \"?\", \"?\": \"canvas\"}";
const PIXELS: &str = "{\"msg\": \"p\"}";

fn decimal(n: u64) -> String {
    let mut out = String::new();
    push_decimal(&mut out, n);
    out
}

fn escaped(s: &str) -> String {
    let mut out = String::new();
    push_escaped(&mut out, s);
    out
}

#[test]
fn decimal_digits() {
    assert_eq!(decimal(0), "0");
    assert_eq!(decimal(7), "7");
    assert_eq!(decimal(10), "10");
    assert_eq!(decimal(40), "40");
    assert_eq!(decimal(109), "109");
    assert_eq!(decimal(4294967295), "4294967295");
    assert_eq!(decimal(u64::MAX), "18446744073709551615");
    let mut out = String::from("n=");
    push_decimal(&mut out, 51);
    assert_eq!(out, "n=51");
}

#[test]
fn quotes_are_escaped() {
    assert_eq!(escaped(""), "");
    assert_eq!(escaped("plain"), "plain");
    assert_eq!(escaped("say \"hi\""), "say \\\"hi\\\"");
    assert_eq!(escaped("\"\""), "\\\"\\\"");
    assert_eq!(escaped("back\\slash"), "back\\slash");
    assert_eq!(escaped("héllo \"ß\""), "héllo \\\"ß\\\"");
    let mut out = String::from(">");
    push_escaped(&mut out, "\"");
    assert_eq!(out, ">\\\"");
}

#[test]
fn markers_are_removed_from_the_left() {
    assert_eq!(remove_all("", "ab"), "");
    assert_eq!(remove_all("abc", ""), "abc");
    assert_eq!(remove_all("xabyabz", "ab"), "xyz");
    assert_eq!(remove_all("abab", "ab"), "");
    assert_eq!(remove_all("aabb", "ab"), "ab");
    assert_eq!(remove_all("aaa", "aa"), "a");
    assert_eq!(remove_all("a", "ab"), "a");
    assert_eq!(remove_all("xa", "ab"), "xa");
    assert_eq!(remove_all("FINAL WARNING x", "FINAL WARNING "), "x");
    for (text, marker) in [("aabb", "ab"), ("aaaa", "aa"), ("xyz", "y"), ("ééé", "é"), ("abcabc", "bc")] {
        assert_eq!(remove_all(text, marker), text.replace(marker, ""));
    }
}

#[test]
fn characters_of_a_text() {
    assert_eq!(characters(""), Vec::<char>::new());
    assert_eq!(characters("aß\""), vec!['a', 'ß', '"']);
}

#[test]
fn early_violations_are_warned() {
    let mut client = session(0);
    let action = handle_error(String::from("Invalid message"), &mut client);
    assert_eq!(client.naughty, 1);
    assert_eq!(
        action,
        Action::SendMessage(Message::Text(String::from(
            "{\"msg\": \"error\", \"Invalid message\", \"naughty\": 1}"
        )))
    );
    let mut client = session(48);
    let action = handle_error(String::from("x"), &mut client);
    assert_eq!(client.naughty, 49);
    assert_eq!(
        action,
        Action::SendMessage(Message::Text(String::from("{\"msg\": \"error\", \"x\", \"naughty\": 49}")))
    );
}

#[test]
fn fiftieth_violation_gets_the_final_warning() {
    assert_eq!(NAUGHTY_WARNING, 50);
    let mut client = session(49);
    let action = handle_error(String::from("Unknown message: \"q\""), &mut client);
    assert_eq!(client.naughty, 50);
    assert_eq!(
        action,
        Action::SendMessage(Message::Text(String::from(
            "{\"msg\": \"error\", \"FINAL WARNING Unknown message: \\\"q\\\"\", \"naughty\": 50}"
        )))
    );
}

#[test]
fn later_violations_remove_the_client() {
    let mut client = session(50);
    assert_eq!(handle_error(String::from("x"), &mut client), Action::RemoveClient);
    assert_eq!(client.naughty, 51);
    let mut client = session(1000);
    assert_eq!(handle_error(String::from("x"), &mut client), Action::RemoveClient);
    assert_eq!(client.naughty, 1001);
}

#[test]
fn violation_keeps_the_rest_of_the_session() {
    let mut client = Session {
        data: Role::Painter,
        name: String::from("Ada"),
        url: String::from("http://a"),
        naughty: 3,
    };
    handle_error(String::from("x"), &mut client);
    assert_eq!(client.data, Role::Painter);
    assert_eq!(client.name, "Ada");
    assert_eq!(client.url, "http://a");
    assert_eq!(client.naughty, 4);
}

#[test]
fn marker_inside_the_description_goes_with_the_marker() {
    let mut client = session(0);
    let action = handle_error(String::from("a FINAL WARNING b"), &mut client);
    assert_eq!(
        action,
        Action::SendMessage(Message::Text(String::from("{\"msg\": \"error\", \"a b\", \"naughty\": 1}")))
    );
    let mut client = session(49);
    let action = handle_error(String::from("a FINAL WARNING b"), &mut client);
    assert_eq!(
        action,
        Action::SendMessage(Message::Text(String::from(
            "{\"msg\": \"error\", \"FINAL WARNING a FINAL WARNING b\", \"naughty\": 50}"
        )))
    );
}

#[test]
fn the_ladder_of_warnings() {
    let mut client = session(0);
    for count in 1..=49u32 {
        let action = handle_error(String::from("bad"), &mut client);
        assert_eq!(
            action,
            Action::SendMessage(Message::Text(format!(
                "{{\"msg\": \"error\", \"bad\", \"naughty\": {}}}",
                count
            )))
        );
        assert_eq!(client.naughty, count);
    }
    assert_eq!(
        handle_error(String::from("bad"), &mut client),
        Action::SendMessage(Message::Text(String::from(
            "{\"msg\": \"error\", \"FINAL WARNING bad\", \"naughty\": 50}"
        )))
    );
    assert_eq!(handle_error(String::from("bad"), &mut client), Action::RemoveClient);
}

#[test]
fn interpret_reads_the_members() {
    assert_eq!(interpret(None, None, None, None), Request::Invalid(String::from("Invalid message")));
    assert_eq!(
        interpret(None, some("painter"), None, None),
        Request::Invalid(String::from("Invalid message"))
    );
    assert_eq!(
        interpret(some("?"), None, some("n"), some("u")),
        Request::Invalid(String::from("Expected field ?"))
    );
    assert_eq!(
        interpret(some("?"), some("painter"), some("Ada"), some("http://a")),
        Request::Painter { name: String::from("Ada"), url: String::from("http://a") }
    );
    assert_eq!(
        interpret(some("?"), some("painter"), None, None),
        Request::Painter { name: String::new(), url: String::new() }
    );
    assert_eq!(interpret(some("?"), some("canvas"), some("n"), None), Request::Canvas);
    assert_eq!(
        interpret(some("?"), some("Painter"), None, None),
        Request::Invalid(String::from("Painter is not a valid ?. Should be painter or canvas"))
    );
    assert_eq!(interpret(some("p"), some("painter"), None, None), Request::Pixels);
    assert_eq!(
        interpret(some("size"), None, None, None),
        Request::Invalid(String::from("Unknown message: size"))
    );
    assert_eq!(
        interpret(some(""), None, None, None),
        Request::Invalid(String::from("Unknown message: "))
    );
}

#[test]
fn decode_reads_json() {
    assert_eq!(
        decode(PAINTER),
        Request::Painter { name: String::from("Ada"), url: String::from("http://a") }
    );
    assert_eq!(
        decode("{\"msg\": \"?\", \"?\": \"painter\"}"),
        Request::Painter { name: String::new(), url: String::new() }
    );
    assert_eq!(decode(CANVAS), Request::Canvas);
    assert_eq!(decode(PIXELS), Request::Pixels);
    assert_eq!(decode(" \n{\"msg\":\"p\",\"extra\":[1,2,{\"a\":null}]}"), Request::Pixels);
    assert_eq!(decode("{}"), Request::Invalid(String::from("Invalid message")));
    assert_eq!(decode("[1, 2]"), Request::Invalid(String::from("Invalid message")));
    assert_eq!(decode("{\"msg\": \"?\"}"), Request::Invalid(String::from("Expected field ?")));
    assert_eq!(
        decode("{\"msg\": \"?\", \"?\": \"viewer\"}"),
        Request::Invalid(String::from("viewer is not a valid ?. Should be painter or canvas"))
    );
    assert_eq!(
        decode("{\"msg\": \"hello\"}"),
        Request::Invalid(String::from("Unknown message: hello"))
    );
    // values that are no strings read as their text
    assert_eq!(decode("{\"msg\": 12}"), Request::Invalid(String::from("Unknown message: 12")));
    assert_eq!(
        decode("{\"msg\": \"?\", \"?\": \"painter\", \"name\": 5, \"url\": true}"),
        Request::Painter { name: String::from("5"), url: String::from("true") }
    );
}

#[test]
fn decode_reports_what_the_parser_says() {
    assert_eq!(
        decode("hello"),
        Request::Malformed(String::from("(Cannot parse) JSON error near 'hello': index 0 in data"))
    );
    assert_eq!(
        decode(""),
        Request::Malformed(String::from("(Cannot parse) JSON error near '': index 0 in data"))
    );
    for bad in ["{\"msg\": \"p\"", "{\"msg\" \"p\"}", "   ", "{\"msg\": tru}", "\"p\"", "{\"a\":1 \"b\":2}"] {
        let error = jsonic::parse(bad).unwrap_err();
        assert_eq!(decode(bad), Request::Malformed(format!("(Cannot parse) {}", error)));
    }
}

#[test]
fn decode_refuses_deep_nesting() {
    assert_eq!(MAX_BRACKETS, 256);
    let mut at_limit = String::from("{\"msg\": \"p\", \"x\": ");
    for _ in 0..255 {
        at_limit.push('[');
    }
    for _ in 0..255 {
        at_limit.push(']');
    }
    at_limit.push('}');
    assert!(few_brackets(&at_limit));
    assert_eq!(decode(&at_limit), Request::Pixels);
    let mut over = String::new();
    for _ in 0..257 {
        over.push('[');
    }
    assert!(!few_brackets(&over));
    assert_eq!(
        decode(&over),
        Request::Malformed(String::from("(Cannot parse) too many brackets"))
    );
    let mut deep = String::new();
    for _ in 0..100000 {
        deep.push('{');
    }
    assert_eq!(
        decode(&deep),
        Request::Malformed(String::from("(Cannot parse) too many brackets"))
    );
    assert!(few_brackets(""));
    assert!(few_brackets("]]]]}}}}"));
}

#[test]
fn connect_asks_who_is_there() {
    let mut server = Server::new();
    assert_eq!(server.connect(1), vec![text(GREETING)]);
    assert_eq!(server.handle(Event::Connect(2)), vec![text(GREETING)]);
    assert_eq!(server.poll_painters(), Vec::<u64>::new());
}

#[test]
fn painter_and_canvas_are_told_the_tile_size() {
    let mut server = Server::new();
    server.connect(1);
    server.connect(2);
    assert_eq!(server.text(1, PAINTER), vec![text(SIZE)]);
    assert_eq!(server.text(2, CANVAS), vec![text(SIZE)]);
    // a second declaration as a viewer is answered again
    assert_eq!(server.text(2, CANVAS), vec![text(SIZE)]);
    assert_eq!(server.poll_painters(), vec![1]);
    assert_eq!(
        server.request(2, Request::Canvas),
        vec![text(SIZE)]
    );
}

#[test]
fn no_image_without_painters() {
    let mut server = Server::new();
    server.connect(1);
    assert_eq!(server.text(1, PIXELS), Vec::<Effect>::new());
    assert_eq!(server.text(1, CANVAS), vec![text(SIZE)]);
    assert_eq!(server.text(1, PIXELS), Vec::<Effect>::new());
    assert_eq!(server.handle(Event::Message(1, Message::Text(String::from(PIXELS)))), Vec::<Effect>::new());
}

#[test]
fn image_is_sent_with_its_side() {
    let mut server = Server::new();
    server.connect(1);
    server.connect(2);
    assert_eq!(server.text(1, PAINTER), vec![text(SIZE)]);
    assert_eq!(server.binary(1, vec![0xAB; 6400]), Vec::<Effect>::new());
    let mut frame = vec![0u8, 40];
    frame.extend(vec![0xABu8; 6400]);
    assert_eq!(server.text(2, PIXELS), vec![Effect::Send(Message::Binary(frame.clone()))]);
    // whoever has a session may ask, whatever it said it is
    assert_eq!(server.text(1, PIXELS), vec![Effect::Send(Message::Binary(frame))]);
    // a connection without a session gets nothing
    assert_eq!(server.text(3, PIXELS), Vec::<Effect>::new());
}

#[test]
fn side_is_sent_high_byte_first() {
    let mut server = Server::new();
    for id in 0..50 {
        server.connect(id);
        assert_eq!(server.text(id, PAINTER), vec![text(SIZE)]);
    }
    let effects = server.text(0, PIXELS);
    assert_eq!(effects.len(), 1);
    match &effects[0] {
        Effect::Send(Message::Binary(frame)) => {
            assert_eq!(frame.len(), 2 + 320 * 320 * 4);
            assert_eq!(&frame[0..2], &[1u8, 64]);
            assert_eq!(&frame[0..2], &320u16.to_be_bytes());
        },
        other => panic!("unexpected effect {:?}", other),
    }
}

#[test]
fn stale_image_is_still_sent_after_the_last_painter_left() {
    let mut server = Server::new();
    server.connect(1);
    server.connect(2);
    server.text(1, PAINTER);
    server.binary(1, vec![9; 6400]);
    assert_eq!(server.disconnect(1), Vec::<Effect>::new());
    assert_eq!(server.poll_painters(), Vec::<u64>::new());
    let mut frame = vec![0u8, 0];
    frame.extend(vec![9u8; 6400]);
    assert_eq!(server.text(2, PIXELS), vec![Effect::Send(Message::Binary(frame))]);
}

#[test]
fn tile_of_the_wrong_size_is_a_violation() {
    let mut server = Server::new();
    server.connect(1);
    server.text(1, PAINTER);
    assert_eq!(
        server.binary(1, vec![0; 6399]),
        vec![text("{\"msg\": \"error\", \"Warning: data is smaller than expected\", \"naughty\": 1}")]
    );
    assert_eq!(
        server.handle(Event::Message(1, Message::Binary(vec![0; 6401]))),
        vec![text("{\"msg\": \"error\", \"Warning: data is larger than expected\", \"naughty\": 2}")]
    );
    // also from a connection that is no painter
    server.connect(2);
    assert_eq!(
        server.binary(2, vec![]),
        vec![text("{\"msg\": \"error\", \"Warning: data is smaller than expected\", \"naughty\": 1}")]
    );
    // and ignored from one without a session
    assert_eq!(server.binary(3, vec![]), Vec::<Effect>::new());
}

#[test]
fn tile_from_a_stranger_goes_to_the_log() {
    let mut server = Server::new();
    server.connect(9);
    assert_eq!(
        server.binary(9, vec![0; 6400]),
        vec![Effect::Log(String::from(
            "Error updating pixels for 9: Error: could not find the client to update pixels."
        ))]
    );
    // it is not counted against the connection
    assert_eq!(
        server.text(9, "{}"),
        vec![text("{\"msg\": \"error\", \"Invalid message\", \"naughty\": 1}")]
    );
}

#[test]
fn text_violations_are_counted() {
    let mut server = Server::new();
    server.connect(1);
    assert_eq!(
        server.text(1, "nonsense"),
        vec![text(
            "{\"msg\": \"error\", \"(Cannot parse) JSON error near 'nonsense': index 0 in data\", \"naughty\": 1}"
        )]
    );
    assert_eq!(
        server.text(1, "{\"msg\": \"x\"}"),
        vec![text("{\"msg\": \"error\", \"Unknown message: x\", \"naughty\": 2}")]
    );
    assert_eq!(
        server.text(1, "{\"msg\": \"?\", \"?\": \"\\\"\"}"),
        vec![text(
            "{\"msg\": \"error\", \"\\\\\" is not a valid ?. Should be painter or canvas\", \"naughty\": 3}"
        )]
    );
    assert_eq!(
        server.text(1, "{\"msg\": \"?\"}"),
        vec![text("{\"msg\": \"error\", \"Expected field ?\", \"naughty\": 4}")]
    );
}

#[test]
fn frames_from_unknown_connections() {
    let mut server = Server::new();
    assert_eq!(
        server.text(5, "nonsense"),
        vec![Effect::Log(String::from("Unknown client id 5"))]
    );
    assert_eq!(server.text(5, "{}"), Vec::<Effect>::new());
    assert_eq!(server.text(5, PAINTER), Vec::<Effect>::new());
    assert_eq!(server.text(5, CANVAS), Vec::<Effect>::new());
    assert_eq!(server.poll_painters(), Vec::<u64>::new());
    assert_eq!(
        server.binary(5, vec![1; 6400]),
        vec![Effect::Log(String::from(
            "Error updating pixels for 5: Error: could not find the client to update pixels."
        ))]
    );
}

#[test]
fn fifty_one_violations_disconnect() {
    let mut server = Server::new();
    server.connect(1);
    server.connect(2);
    assert_eq!(server.text(1, PAINTER), vec![text(SIZE)]);
    assert_eq!(server.binary(1, vec![7; 6400]), Vec::<Effect>::new());
    for count in 1..=49 {
        assert_eq!(
            server.text(1, "{}"),
            vec![text(&format!("{{\"msg\": \"error\", \"Invalid message\", \"naughty\": {}}}", count))]
        );
        assert_eq!(server.poll_painters(), vec![1]);
    }
    assert_eq!(
        server.text(1, "{}"),
        vec![text("{\"msg\": \"error\", \"FINAL WARNING Invalid message\", \"naughty\": 50}")]
    );
    assert_eq!(server.poll_painters(), vec![1]);
    assert_eq!(server.binary(1, vec![8; 6400]), Vec::<Effect>::new());
    assert_eq!(server.text(1, "{}"), vec![Effect::Close]);
    // the session and the slot are gone
    assert_eq!(server.poll_painters(), Vec::<u64>::new());
    assert_eq!(server.text(1, "{}"), Vec::<Effect>::new());
    assert_eq!(
        server.binary(1, vec![7; 6400]),
        vec![Effect::Log(String::from(
            "Error updating pixels for 1: Error: could not find the client to update pixels."
        ))]
    );
    // the other connection is untouched
    assert_eq!(
        server.text(2, "{}"),
        vec![text("{\"msg\": \"error\", \"Invalid message\", \"naughty\": 1}")]
    );
}

#[test]
fn second_painter_declaration_is_fatal() {
    let mut server = Server::new();
    server.connect(1);
    assert_eq!(server.text(1, PAINTER), vec![text(SIZE)]);
    assert_eq!(
        server.text(1, PAINTER),
        vec![Effect::Log(String::from("Client already in image buffer")), Effect::Close]
    );
    assert_eq!(server.poll_painters(), Vec::<u64>::new());
    assert_eq!(server.text(1, PIXELS), Vec::<Effect>::new());
    // its slot went with its session
    assert_eq!(
        server.binary(1, vec![0; 6400]),
        vec![Effect::Log(String::from(
            "Error updating pixels for 1: Error: could not find the client to update pixels."
        ))]
    );
}

#[test]
fn sixty_fifth_painter_is_turned_away() {
    let mut server = Server::new();
    for id in 0..65 {
        server.connect(id);
    }
    for id in 0..64 {
        assert_eq!(server.text(id, PAINTER), vec![text(SIZE)]);
    }
    assert_eq!(
        server.text(64, PAINTER),
        vec![Effect::Log(String::from("Too many painters")), Effect::Close]
    );
    let mut painters = server.poll_painters();
    painters.sort();
    assert_eq!(painters, (0..64).collect::<Vec<u64>>());
    assert_eq!(server.text(64, CANVAS), Vec::<Effect>::new());
}

#[test]
fn disconnect_frees_the_slot() {
    let mut server = Server::new();
    for id in 0..3 {
        server.connect(id);
        assert_eq!(server.text(id, PAINTER), vec![text(SIZE)]);
    }
    assert_eq!(server.handle(Event::Disconnect(1)), Vec::<Effect>::new());
    let mut painters = server.poll_painters();
    painters.sort();
    assert_eq!(painters, vec![0, 2]);
    assert_eq!(server.disconnect(77), Vec::<Effect>::new());
    server.connect(1);
    assert_eq!(server.text(1, PAINTER), vec![text(SIZE)]);
    let mut painters = server.poll_painters();
    painters.sort();
    assert_eq!(painters, vec![0, 1, 2]);
}

#[test]
fn poll_asks_painters_only() {
    let mut server = Server::new();
    for id in 0..6 {
        server.connect(id);
    }
    server.text(1, PAINTER);
    server.text(3, PAINTER);
    server.text(4, CANVAS);
    let mut painters = server.poll_painters();
    painters.sort();
    assert_eq!(painters, vec![1, 3]);
    // a painter that turns viewer is no longer asked
    assert_eq!(server.text(3, CANVAS), vec![text(SIZE)]);
    assert_eq!(server.poll_painters(), vec![1]);
    assert_eq!(
        Server::pixel_request_message(),
        Message::Text(String::from("{\"msg\": \"p\"}"))
    );
}

#[test]
fn reconnecting_resets_the_session() {
    let mut server = Server::new();
    server.connect(1);
    server.text(1, "{}");
    server.text(1, "{}");
    assert_eq!(server.connect(1), vec![text(GREETING)]);
    assert_eq!(
        server.text(1, "{}"),
        vec![text("{\"msg\": \"error\", \"Invalid message\", \"naughty\": 1}")]
    );
}

use ruggine::protocol::{frame, payload};

#[test]
fn frame_appends_a_newline() {
    assert_eq!(frame("{\"Ack\":null}"), "{\"Ack\":null}\n");
    assert_eq!(frame(""), "\n");
}

#[test]
fn payload_drops_trailing_whitespace() {
    assert_eq!(payload("\"Ack\"\r\n"), "\"Ack\"");
    assert_eq!(payload("  x  \n"), "  x");
}

#[test]
fn payload_of_frame_round_trips() {
    let json = "{\"Login\":{\"username\":\"alice\"}}";
    assert_eq!(payload(&frame(json)), json);
}

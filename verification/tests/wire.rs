use rf_core::export::Export;
use rf_core::path::Path;
use rf_core::slot::Slot::{Nbr, Rep};
use rf_distributed::message::Message;
use rf_distributed::wire::{decode, encode, message_of, Frame};

fn frame(source: i32, timestamp: u64, export: &str) -> Frame {
    Frame { source, timestamp, export: export.to_string() }
}

#[test]
fn encode_writes_the_three_fields_in_order() {
    assert_eq!(
        encode(1, 5, "{\"map\":{}}"),
        "{\"source\":1,\"timestamp\":5,\"export\":{\"map\":{}}}"
    );
    assert_eq!(
        encode(-17, 1700000000123, "x"),
        "{\"source\":-17,\"timestamp\":1700000000123,\"export\":x}"
    );
    assert_eq!(encode(0, 0, ""), "{\"source\":0,\"timestamp\":0,\"export\":}");
}

#[test]
fn encode_writes_the_largest_and_smallest_numbers() {
    assert_eq!(
        encode(i32::MIN, u64::MAX, "e"),
        "{\"source\":-2147483648,\"timestamp\":18446744073709551615,\"export\":e}"
    );
    assert_eq!(
        encode(i32::MAX, 10, "e"),
        "{\"source\":2147483647,\"timestamp\":10,\"export\":e}"
    );
}

#[test]
fn decode_reads_what_encode_wrote() {
    let cases = [
        frame(1, 5, "{\"map\":{}}"),
        frame(-17, 1700000000123, "x"),
        frame(0, 0, ""),
        frame(i32::MIN, u64::MAX, "},\"export\":{,\"timestamp\":3,"),
        frame(i32::MAX, 909, "{\"source\":1,\"timestamp\":5,\"export\":7}"),
        frame(12, 100, "\u{e9}t\u{e9} \u{1f600}"),
    ];
    for case in cases {
        let payload = encode(case.source, case.timestamp, &case.export);
        assert_eq!(decode(&payload), Some(case));
    }
}

#[test]
fn decode_reads_a_payload_written_by_hand() {
    assert_eq!(
        decode("{\"source\":3,\"timestamp\":42,\"export\":{\"map\":{\"k\":\"1\"}}}"),
        Some(frame(3, 42, "{\"map\":{\"k\":\"1\"}}"))
    );
}

#[test]
fn decode_refuses_what_is_no_payload() {
    let malformed = [
        "",
        "{",
        "}",
        "hello",
        "{\"source\":1,\"timestamp\":5,\"export\":x",
        "{\"source\":1,\"timestamp\":5,\"export\":",
        "{\"source\":1,\"timestamp\":5,\"export\"x}",
        "{\"source\":1,\"timestamp\":5}",
        "{\"source\":1,\"export\":x,\"timestamp\":5}",
        "{\"source\":,\"timestamp\":5,\"export\":x}",
        "{\"source\":1,\"timestamp\":,\"export\":x}",
        "{\"source\":one,\"timestamp\":5,\"export\":x}",
        "{\"source\":1,\"timestamp\":-5,\"export\":x}",
        "{\"source\":1.0,\"timestamp\":5,\"export\":x}",
        "{\"source\":2147483648,\"timestamp\":5,\"export\":x}",
        "{\"source\":-2147483649,\"timestamp\":5,\"export\":x}",
        "{\"source\":1,\"timestamp\":18446744073709551616,\"export\":x}",
        "{ \"source\":1,\"timestamp\":5,\"export\":x}",
        "{\"source\": 1,\"timestamp\":5,\"export\":x}",
        "{\"source\":1 ,\"timestamp\":5,\"export\":x}",
        " {\"source\":1,\"timestamp\":5,\"export\":x}",
        "{\"Source\":1,\"timestamp\":5,\"export\":x}",
        "{\"source\":1,\"timestamp\":5,\"export\":x} ",
    ];
    for payload in malformed {
        assert_eq!(decode(payload), None, "{}", payload);
    }
}

#[test]
fn decode_refuses_numbers_that_encode_would_not_write() {
    let malformed = [
        "{\"source\":+1,\"timestamp\":5,\"export\":x}",
        "{\"source\":01,\"timestamp\":5,\"export\":x}",
        "{\"source\":-0,\"timestamp\":5,\"export\":x}",
        "{\"source\":-01,\"timestamp\":5,\"export\":x}",
        "{\"source\":1,\"timestamp\":05,\"export\":x}",
        "{\"source\":1,\"timestamp\":+5,\"export\":x}",
        "{\"source\":1,\"timestamp\":00,\"export\":x}",
    ];
    for payload in malformed {
        assert_eq!(decode(payload), None, "{}", payload);
    }
}

#[test]
fn a_message_survives_the_wire() {
    let mut export = Export::new();
    export.put(Path::new(), 2);
    export.put(Path::from(vec![Rep(0)]), 7);
    export.put(Path::from(vec![Nbr(0), Rep(0)]), 9);
    let message = Message::new(4, export, 1_700_000_000_000);

    let text = serde_json::to_string(&message.export).unwrap();
    let payload = encode(message.source, message.timestamp, &text);
    let frame = decode(&payload).unwrap();
    assert_eq!(frame.export, text);
    let export: Export = serde_json::from_str(&frame.export).unwrap();
    let received = message_of(&payload, Some(export)).unwrap();

    assert_eq!(received.source, message.source);
    assert_eq!(received.timestamp, message.timestamp);
    assert_eq!(received.export, message.export);
    assert_eq!(received, message);
}

#[test]
fn message_of_takes_source_and_time_from_the_payload() {
    let mut export = Export::new();
    export.put(Path::new(), 5);
    let payload = encode(-3, 77, "anything");
    assert_eq!(
        message_of(&payload, Some(export.clone())),
        Some(Message::new(-3, export.clone(), 77))
    );
    assert_eq!(message_of(&payload, None), None);
    assert_eq!(message_of("{\"source\":-3,\"timestamp\":77}", Some(export.clone())), None);
    assert_eq!(message_of("", Some(export)), None);
}

use intercept::codec::{decode_envelope, encode_envelope};
use intercept::model::{Envelope, Event, Execution, ProcessId, ReporterId};

fn sample_envelope() -> Envelope {
    Envelope {
        rid: ReporterId(42),
        timestamp: 1700000000,
        event: Event {
            pid: ProcessId(1234),
            execution: Execution {
                executable: String::from("/usr/bin/cc"),
                arguments: vec![
                    String::from("cc"),
                    String::from("-c"),
                    String::from("main.c"),
                ],
                working_dir: String::from("/home/user/project"),
                environment: vec![
                    (String::from("PATH"), String::from("/usr/bin:/bin")),
                    (String::from("LANG"), String::from("C")),
                ],
            },
        },
    }
}

#[test]
fn roundtrip_populated_envelope() {
    let envelope = sample_envelope();
    let bytes = encode_envelope(&envelope);
    let decoded = decode_envelope(&bytes);
    assert_eq!(decoded, Some(envelope));
}

#[test]
fn roundtrip_empty_arguments_and_environment() {
    let envelope = Envelope {
        rid: ReporterId(0),
        timestamp: 0,
        event: Event {
            pid: ProcessId(0),
            execution: Execution {
                executable: String::new(),
                arguments: Vec::new(),
                working_dir: String::new(),
                environment: Vec::new(),
            },
        },
    };
    let bytes = encode_envelope(&envelope);
    let decoded = decode_envelope(&bytes);
    assert_eq!(decoded, Some(envelope));
}

#[test]
fn roundtrip_non_ascii_strings() {
    let mut envelope = sample_envelope();
    envelope.event.execution.executable = String::from("/tmp/\u{00e9}\u{4e2d}\u{1f600}");
    envelope.event.execution.arguments = vec![String::from("\u{00fc}ber")];
    let bytes = encode_envelope(&envelope);
    let decoded = decode_envelope(&bytes);
    assert_eq!(decoded, Some(envelope));
}

#[test]
fn decode_rejects_empty_buffer() {
    let bytes: Vec<u8> = Vec::new();
    assert_eq!(decode_envelope(&bytes), None);
}

#[test]
fn decode_rejects_truncated_encoding() {
    let envelope = sample_envelope();
    let mut bytes = encode_envelope(&envelope);
    bytes.pop();
    assert_eq!(decode_envelope(&bytes), None);
}

#[test]
fn decode_rejects_trailing_garbage() {
    let envelope = sample_envelope();
    let mut bytes = encode_envelope(&envelope);
    bytes.push(0);
    assert_eq!(decode_envelope(&bytes), None);
}

#[test]
fn decode_rejects_surrogate_character() {
    let envelope = Envelope {
        rid: ReporterId(1),
        timestamp: 1,
        event: Event {
            pid: ProcessId(1),
            execution: Execution {
                executable: String::from("a"),
                arguments: Vec::new(),
                working_dir: String::new(),
                environment: Vec::new(),
            },
        },
    };
    let mut bytes = encode_envelope(&envelope);
    // The one character of the executable sits right after the two u64 ids,
    // the u32 pid and the executable's u64 length prefix; overwrite its four
    // scalar bytes with a surrogate value, which no character may hold.
    let at = 8 + 8 + 4 + 8;
    let surrogate = 0xD800u32.to_le_bytes();
    bytes[at..at + 4].copy_from_slice(&surrogate);
    assert_eq!(decode_envelope(&bytes), None);
}

#[test]
fn encoding_differs_from_input_strings() {
    // The encoding is a framed byte stream, not the strings themselves.
    let envelope = sample_envelope();
    let bytes = encode_envelope(&envelope);
    assert!(bytes.len() > envelope.event.execution.executable.len());
    assert_eq!(&bytes[0..8], &42u64.to_le_bytes());
}

use satoshi_suite::envelope::{decode_reveal_script, is_chunked, InscriptionData};
use satoshi_suite::WalletError;

use bitcoin::opcodes;
use bitcoin::script::{Builder as ScriptBuilder, PushBytes};

fn sample_envelope() -> InscriptionData {
    InscriptionData {
        body: Some(b"hello inscription".to_vec()),
        content_encoding: Some(b"br".to_vec()),
        content_type: Some(b"text/plain;charset=utf-8".to_vec()),
        delegate: None,
        duplicate_field: false,
        incomplete_field: false,
        metadata: Some(vec![0xa1, 0x61, 0x61, 0x01]),
        metaprotocol: Some(b"proto".to_vec()),
        parents: vec![vec![0x11; 36], vec![0x22; 36]],
        pointer: Some(vec![0x01, 0x00]),
        rune: Some(vec![0x12, 0x34]),
        unrecognized_even_field: false,
    }
}

fn encode(env: &InscriptionData) -> Vec<u8> {
    env.reveal_script_as_scriptbuf(Vec::new()).unwrap()
}

#[test]
fn round_trip_restores_every_field() {
    let env = sample_envelope();
    let script = encode(&env);
    let back = decode_reveal_script(&script).unwrap();
    assert_eq!(back, env);
}

#[test]
fn round_trip_of_empty_envelope() {
    let env = InscriptionData::default();
    let script = encode(&env);
    assert_eq!(script, vec![0x00, 0x63, 0x03, 0x6f, 0x72, 0x64, 0x68]);
    let back = decode_reveal_script(&script).unwrap();
    assert_eq!(back, env);
}

#[test]
fn large_body_spans_chunks_and_reassembles() {
    // Three times the single-push chunk limit, plus a remainder.
    let body: Vec<u8> = (0..(3 * 520 + 7)).map(|i| (i % 251) as u8).collect();
    let mut env = InscriptionData::default();
    env.body = Some(body.clone());
    env.content_type = Some(b"application/octet-stream".to_vec());
    let script = encode(&env);
    let back = decode_reveal_script(&script).unwrap();
    assert_eq!(back.body.as_deref(), Some(&body[..]));
    assert_eq!(back, env);
}

#[test]
fn large_metadata_spans_chunks_and_reassembles() {
    let metadata: Vec<u8> = (0..1300).map(|i| (i % 256) as u8).collect();
    let mut env = InscriptionData::default();
    env.metadata = Some(metadata.clone());
    let script = encode(&env);
    let back = decode_reveal_script(&script).unwrap();
    assert_eq!(back.metadata.as_deref(), Some(&metadata[..]));
}

#[test]
fn encoding_matches_script_builder_push_semantics() {
    // The same envelope written with the script builder the original
    // tooling used, field for field, must produce identical bytes.
    let env = sample_envelope();
    let mut b = ScriptBuilder::new()
        .push_opcode(opcodes::OP_FALSE)
        .push_opcode(opcodes::all::OP_IF)
        .push_slice(b"ord");
    let pairs: Vec<(u8, Vec<u8>)> = vec![
        (1, env.content_type.clone().unwrap()),
        (9, env.content_encoding.clone().unwrap()),
        (7, env.metaprotocol.clone().unwrap()),
        (3, env.parents[0].clone()),
        (3, env.parents[1].clone()),
        (2, env.pointer.clone().unwrap()),
        (5, env.metadata.clone().unwrap()),
        (13, env.rune.clone().unwrap()),
    ];
    for (tag, value) in pairs {
        let tag_arr = [tag];
        let tag_bytes: &PushBytes = tag_arr.as_slice().try_into().unwrap();
        let value_bytes: &PushBytes = value.as_slice().try_into().unwrap();
        b = b.push_slice(tag_bytes).push_slice(value_bytes);
    }
    let body_bytes: &PushBytes = env.body.as_deref().unwrap().try_into().unwrap();
    let expected = b
        .push_slice(b"")
        .push_slice(body_bytes)
        .push_opcode(opcodes::all::OP_ENDIF)
        .into_script()
        .into_bytes();
    // Delegate is absent here, so emission order is exactly the above.
    assert_eq!(encode(&env), expected);
}

#[test]
fn unknown_even_tag_is_flagged_but_decodes() {
    let env = sample_envelope();
    let mut script = vec![0x00, 0x63, 0x03, 0x6f, 0x72, 0x64];
    // An unrecognized even tag/value pair right after the marker.
    script.extend_from_slice(&[0x01, 22, 0x03, 0xaa, 0xbb, 0xcc]);
    let encoded = encode(&env);
    script.extend_from_slice(&encoded[6..]);
    let back = decode_reveal_script(&script).unwrap();
    assert!(back.unrecognized_even_field);
    assert_eq!(back.body, env.body);
    assert_eq!(back.content_type, env.content_type);
    assert_eq!(back.parents, env.parents);
}

#[test]
fn unknown_odd_tag_is_ignored_entirely() {
    let env = sample_envelope();
    let mut script = vec![0x00, 0x63, 0x03, 0x6f, 0x72, 0x64];
    script.extend_from_slice(&[0x01, 21, 0x02, 0xaa, 0xbb]);
    let encoded = encode(&env);
    script.extend_from_slice(&encoded[6..]);
    let back = decode_reveal_script(&script).unwrap();
    assert_eq!(back, env);
}

#[test]
fn duplicate_tag_raises_flag_and_keeps_first() {
    let mut script = vec![0x00, 0x63, 0x03, 0x6f, 0x72, 0x64];
    script.extend_from_slice(&[0x01, 0x02, 0x01, 0x07]); // pointer = [7]
    script.extend_from_slice(&[0x01, 0x02, 0x01, 0x09]); // pointer again
    script.push(0x68);
    let back = decode_reveal_script(&script).unwrap();
    assert!(back.duplicate_field);
    assert_eq!(back.pointer, Some(vec![0x07]));
}

#[test]
fn tag_without_value_marks_incomplete_field() {
    let mut script = vec![0x00, 0x63, 0x03, 0x6f, 0x72, 0x64];
    script.extend_from_slice(&[0x01, 0x02]); // a pointer tag, then nothing
    script.push(0x68);
    let back = decode_reveal_script(&script).unwrap();
    assert!(back.incomplete_field);
    assert_eq!(back.pointer, None);
}

#[test]
fn malformed_scripts_do_not_decode() {
    // Wrong protocol marker.
    assert!(decode_reveal_script(&vec![0x00, 0x63, 0x03, 0x6f, 0x72, 0x65, 0x68]).is_none());
    // Truncated: no closing opcode.
    assert!(decode_reveal_script(&vec![0x00, 0x63, 0x03, 0x6f, 0x72, 0x64]).is_none());
    // Trailing bytes after the close.
    assert!(
        decode_reveal_script(&vec![0x00, 0x63, 0x03, 0x6f, 0x72, 0x64, 0x68, 0x00]).is_none()
    );
}

#[test]
fn content_type_without_slash_is_rejected() {
    let mut env = InscriptionData::default();
    env.content_type = Some(b"textplain".to_vec());
    assert_eq!(
        env.reveal_script_as_scriptbuf(Vec::new()),
        Err(WalletError::InvalidContentType)
    );
    assert_eq!(env.validate_content_type(), Err(WalletError::InvalidContentType));
}

#[test]
fn content_type_with_invalid_text_is_rejected() {
    let mut env = InscriptionData::default();
    env.content_type = Some(vec![0xff, 0xfe, b'/', 0x80]);
    assert_eq!(
        env.reveal_script_as_scriptbuf(Vec::new()),
        Err(WalletError::InvalidContentType)
    );
}

#[test]
fn valid_content_type_passes_validation() {
    let env = sample_envelope();
    let validated = env.validate_content_type().unwrap();
    assert_eq!(validated, env);
    assert_eq!(env.content_type(), Some("text/plain;charset=utf-8".to_string()));
}

#[test]
fn oversized_single_push_field_is_rejected() {
    let mut env = InscriptionData::default();
    env.delegate = Some(vec![0x55; 521]);
    assert_eq!(
        env.reveal_script_as_scriptbuf(Vec::new()),
        Err(WalletError::FieldTooLarge)
    );
    env.delegate = Some(vec![0x55; 520]);
    assert!(env.reveal_script_as_scriptbuf(Vec::new()).is_ok());
}

#[test]
fn body_accessor_decodes_text() {
    let mut env = InscriptionData::default();
    env.body = Some(b"plain words".to_vec());
    assert_eq!(env.body(), Some("plain words".to_string()));
    env.body = Some(vec![0xff, 0xfe]);
    assert_eq!(env.body(), None);
}

#[test]
fn only_the_metadata_tag_is_chunked() {
    assert!(is_chunked([5]));
    assert!(!is_chunked([1]));
    assert!(!is_chunked([3]));
}

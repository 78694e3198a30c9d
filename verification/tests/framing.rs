use t32_language_server::transport::{decode, Decoded, Decoder};

fn decoder_with(bytes: &[u8]) -> Decoder {
    let mut dec = Decoder::build();
    dec.rest.extend_from_slice(bytes);
    dec
}

#[test]
fn decodes_one_message_and_keeps_the_rest() {
    let mut dec = decoder_with(b"Content-Length: 5\r\n\r\nhelloContent-Length: 2\r\n\r\n{");
    assert_eq!(decode(&mut dec), Decoded::Content(b"hello".to_vec()));
    assert_eq!(dec.rest, b"Content-Length: 2\r\n\r\n{".to_vec());
    assert_eq!(decode(&mut dec), Decoded::Incomplete);
    assert_eq!(dec.rest, b"Content-Length: 2\r\n\r\n{".to_vec());
    dec.rest.push(b'}');
    assert_eq!(decode(&mut dec), Decoded::Content(b"{}".to_vec()));
    assert!(dec.rest.is_empty());
}

#[test]
fn accepts_further_header_lines() {
    let mut dec = decoder_with(
        b"Content-Length: 3\r\nContent-Type: application/vscode-jsonrpc; charset=utf-8\r\n\r\nabc",
    );
    assert_eq!(decode(&mut dec), Decoded::Content(b"abc".to_vec()));
    assert!(dec.rest.is_empty());
}

#[test]
fn waits_for_a_complete_header() {
    let mut dec = decoder_with(b"Content-Length: 12\r\n");
    assert_eq!(decode(&mut dec), Decoded::Incomplete);
    assert_eq!(dec.rest, b"Content-Length: 12\r\n".to_vec());
}

#[test]
fn drops_a_malformed_header() {
    let mut dec = decoder_with(b"Content-Size: 3\r\n\r\nabc");
    let Decoded::Malformed(err) = decode(&mut dec) else {
        panic!("The header must be refused.")
    };
    assert_eq!(err.id, None);
    assert_eq!(err.error.code, -32700);
    assert_eq!(err.error.message, "Malformed message header.");
    assert_eq!(dec.rest, b"abc".to_vec());

    let mut dec = decoder_with(b"Content-Length: 3x\r\n\r\nabc");
    assert!(matches!(decode(&mut dec), Decoded::Malformed(_)));

    let mut dec = decoder_with(b"Content-Length: \r\n\r\n");
    assert!(matches!(decode(&mut dec), Decoded::Malformed(_)));
    assert!(dec.rest.is_empty());
}

#[test]
fn waits_for_content_longer_than_what_is_there() {
    let mut dec = decoder_with(b"Content-Length: 99999999999999999999999\r\n\r\nabc");
    assert_eq!(decode(&mut dec), Decoded::Incomplete);
    let mut dec = decoder_with(b"Content-Length: 0\r\n\r\n");
    assert_eq!(decode(&mut dec), Decoded::Content(Vec::new()));
    assert!(dec.rest.is_empty());
}

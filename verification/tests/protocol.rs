use sshctx::json::Json;
use sshctx::protocol::{
    read_frame, write_frame, Frame, FrameReader, ProtocolError, Request, Response, MAGIC, MAX_HEADER, MAX_PAYLOAD,
};
use sshctx::string_map::StringMap;

fn parse(text: &str) -> Json {
    Json::from_value(serde_json::from_str(text).unwrap())
}

#[test]
fn round_trips_binary_payload() {
    let mut params: StringMap<Json> = StringMap::new();
    params.insert("path".to_string(), Json::Text("/tmp/x".to_string()));
    let request = Request {
        id: "7".to_string(),
        method: "write".to_string(),
        params: Json::Object(params),
        readonly: false,
    };
    let expected = Frame { header: request.clone(), payload: vec![0, 255, 10, 13] };
    let sent = Frame { header: expected.header.encode().unwrap(), payload: expected.payload.clone() };
    let mut stream = write_frame(&sent).unwrap();
    stream.extend_from_slice(b"what follows");
    let (frame, taken) = read_frame(&stream).unwrap();
    assert_eq!(taken, stream.len() - b"what follows".len());
    let actual = Frame { header: Request::decode(&frame.header).unwrap(), payload: frame.payload };
    assert_eq!(actual, expected);
    assert_eq!(actual.clone(), expected);
}

#[test]
fn headers_of_requests() {
    let request = Request {
        id: "7".to_string(),
        method: "m".to_string(),
        params: parse("[1,2.5,{\"b\":null}]"),
        readonly: true,
    };
    assert_eq!(
        request.encode().unwrap(),
        b"{\"id\":\"7\",\"method\":\"m\",\"params\":[1,2.5,{\"b\":null}],\"readonly\":true}".to_vec()
    );
    assert_eq!(Request::from_header(&request.to_header()), Ok(request));
    let bare = Request::from_header(&parse("{\"id\":\"7\",\"method\":\"m\",\"more\":1}")).unwrap();
    assert_eq!(bare.params, Json::Null);
    assert!(!bare.readonly);
    let listed = Request::decode(&b"[\"7\",\"m\",3]".to_vec()).unwrap();
    assert_eq!((listed.id.as_str(), listed.params, listed.readonly), ("7", Json::Unsigned(3), false));
    let refused = |text: &str| Request::decode(&text.as_bytes().to_vec()).unwrap_err().message();
    assert_eq!(refused("{\"method\":\"m\"}"), "invalid JSON header: missing field `id`");
    assert_eq!(refused("{\"id\":\"7\"}"), "invalid JSON header: missing field `method`");
    assert_eq!(refused("{\"id\":7,\"method\":\"m\"}"), "invalid JSON header: invalid field `id`");
    assert_eq!(
        refused("{\"id\":\"7\",\"method\":\"m\",\"readonly\":null}"),
        "invalid JSON header: invalid field `readonly`"
    );
    assert_eq!(refused("3"), "invalid JSON header: invalid header");
    assert_eq!(refused("[\"7\",\"m\",3,false,1]"), "invalid JSON header: invalid header");
    let expected = serde_json::from_str::<serde_json::Value>("{").unwrap_err().to_string();
    assert_eq!(refused("{"), format!("invalid JSON header: {expected}"));
    let broken = Request { params: Json::Float("x".to_string()), ..listed_request() };
    assert_eq!(broken.encode().unwrap_err().message(), "invalid JSON header: invalid number");
}

fn listed_request() -> Request {
    Request { id: "1".to_string(), method: "m".to_string(), params: Json::Null, readonly: false }
}

#[test]
fn headers_of_responses() {
    let mut metadata = StringMap::new();
    metadata.insert("k".to_string(), Json::Bool(true));
    let response = Response {
        id: "7".to_string(),
        ok: false,
        result: parse("{\"exit_code\":3}"),
        error: Some("no".to_string()),
        metadata,
    };
    assert_eq!(
        response.encode().unwrap(),
        b"{\"error\":\"no\",\"id\":\"7\",\"metadata\":{\"k\":true},\"ok\":false,\"result\":{\"exit_code\":3}}".to_vec()
    );
    assert_eq!(Response::decode(&response.encode().unwrap()), Ok(response.clone()));
    assert_eq!(Response::from_header(&response.to_header()), Ok(response));
    let bare = Response::decode(&b"{\"id\":\"7\",\"ok\":true,\"error\":null}".to_vec()).unwrap();
    assert_eq!(
        bare,
        Response { id: "7".to_string(), ok: true, result: Json::Null, error: None, metadata: StringMap::new() }
    );
    let refused = |text: &str| Response::decode(&text.as_bytes().to_vec()).unwrap_err().message();
    assert_eq!(refused("{\"id\":\"7\"}"), "invalid JSON header: missing field `ok`");
    assert_eq!(refused("{\"id\":\"7\",\"ok\":1}"), "invalid JSON header: invalid field `ok`");
    assert_eq!(refused("{\"id\":\"7\",\"ok\":true,\"error\":1}"), "invalid JSON header: invalid field `error`");
    assert_eq!(
        refused("{\"id\":\"7\",\"ok\":true,\"metadata\":null}"),
        "invalid JSON header: invalid field `metadata`"
    );
}

#[test]
fn deep_values_are_written_and_not_read() {
    let nested = |levels: usize| {
        let mut value = Json::Null;
        for _ in 0..levels {
            value = Json::Array(vec![value]);
        }
        value
    };
    for (levels, read) in [(127, true), (128, false)] {
        let bytes = nested(levels).to_bytes().unwrap();
        assert_eq!(Json::from_bytes(&bytes).is_ok(), read);
    }
    let request = |levels: usize| Request { params: nested(levels), ..listed_request() };
    assert_eq!(Request::decode(&request(126).encode().unwrap()), Ok(request(126)));
    assert!(Request::decode(&request(127).encode().unwrap()).is_err());
}

#[test]
fn wire_form_is_length_prefixed() {
    let bytes = write_frame(&Frame { header: b"{}".to_vec(), payload: vec![7; 258] }).unwrap();
    assert_eq!(&bytes[..4], b"SCX1");
    assert_eq!(&bytes[..4], &MAGIC[..]);
    assert_eq!(&bytes[4..8], &[0, 0, 0, 2]);
    assert_eq!(&bytes[8..16], &[0, 0, 0, 0, 0, 0, 1, 2]);
    assert_eq!(&bytes[16..18], b"{}");
    assert_eq!(bytes.len(), 16 + 2 + 258);
}

#[test]
fn other_beginnings_are_refused() {
    let mut bytes = write_frame(&Frame { header: vec![], payload: vec![] }).unwrap();
    bytes[3] = b'2';
    let error = read_frame(&bytes).unwrap_err();
    assert_eq!(error, ProtocolError::Magic);
    assert_eq!(error.message(), "invalid frame magic");
}

#[test]
fn large_headers_are_refused_both_ways() {
    let error = write_frame(&Frame { header: vec![b' '; MAX_HEADER + 1], payload: vec![] }).unwrap_err();
    assert_eq!(error, ProtocolError::HeaderTooLarge);
    assert_eq!(error.message(), "frame header exceeds 8388608 bytes");
    let mut bytes = MAGIC.to_vec();
    bytes.extend_from_slice(&(MAX_HEADER as u32 + 1).to_be_bytes());
    bytes.extend_from_slice(&u64::MAX.to_be_bytes());
    assert_eq!(read_frame(&bytes).unwrap_err(), ProtocolError::HeaderTooLarge);
}

#[test]
fn large_payloads_are_refused_when_announced() {
    let mut bytes = MAGIC.to_vec();
    bytes.extend_from_slice(&0u32.to_be_bytes());
    bytes.extend_from_slice(&(MAX_PAYLOAD as u64 + 1).to_be_bytes());
    let error = read_frame(&bytes).unwrap_err();
    assert_eq!(error, ProtocolError::PayloadTooLarge);
    assert_eq!(error.message(), "frame payload exceeds 268435456 bytes");
}

#[test]
fn a_stream_that_ends_early_is_an_error() {
    let bytes = write_frame(&Frame { header: b"abc".to_vec(), payload: vec![1, 2, 3] }).unwrap();
    for cut in 0..bytes.len() {
        let error = read_frame(&bytes[..cut].to_vec()).unwrap_err();
        assert_eq!(error.message(), "I/O error: early eof");
    }
    assert_eq!(ProtocolError::Json("bad".to_string()).message(), "invalid JSON header: bad");
}

#[test]
fn pieces_are_asked_for_in_turn() {
    let bytes = write_frame(&Frame { header: b"head".to_vec(), payload: b"load!".to_vec() }).unwrap();
    let mut reader = FrameReader::new();
    let mut at = 0;
    let mut wanted = Vec::new();
    let frame = loop {
        let size = reader.wanted();
        wanted.push(size);
        let piece = bytes[at..at + size].to_vec();
        at += size;
        if let Some(frame) = reader.feed(piece).unwrap() {
            break frame;
        }
    };
    assert_eq!(wanted, vec![4, 4, 8, 4, 5]);
    assert_eq!(frame, Frame { header: b"head".to_vec(), payload: b"load!".to_vec() });
    assert_eq!(reader, FrameReader::new());
}

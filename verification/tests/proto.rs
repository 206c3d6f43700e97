use pivss::proto::{
    DeleteObjectRequest, DeleteObjectResponse, ErrorCode, ErrorResponse, GetObjectRequest,
    GetObjectResponse, KeyValue, ListKeyVersionsRequest, ListKeyVersionsResponse, Message,
    ProtoError, PutObjectRequest, PutObjectResponse,
};

fn kv(key: &str, version: i64, value: &[u8]) -> KeyValue {
    KeyValue { key: key.to_string(), version, value: value.to_vec() }
}

#[test]
fn roundtrip_put_object() {
    let req = PutObjectRequest {
        store_id: "store".into(),
        global_version: Some(3),
        transaction_items: vec![KeyValue {
            key: "backup/abc/v1".into(),
            version: 0,
            value: b"hello".to_vec(),
        }],
        delete_items: vec![],
    };
    let bytes = req.encode_to_vec();
    let back = PutObjectRequest::decode(bytes.as_slice()).unwrap();
    assert_eq!(req, back);
}

#[test]
fn every_message_roundtrips() {
    let m = kv("k", -1, b"v");
    assert_eq!(KeyValue::decode(&m.encode_to_vec()).unwrap(), m);
    let m = kv("", 0, b"");
    assert_eq!(KeyValue::decode(&m.encode_to_vec()).unwrap(), m);
    let m = GetObjectRequest { store_id: "s".to_string(), key: "k/ü".to_string() };
    assert_eq!(GetObjectRequest::decode(&m.encode_to_vec()).unwrap(), m);
    let m = GetObjectResponse { value: Some(kv("k", i64::MAX, &[0; 300])) };
    assert_eq!(GetObjectResponse::decode(&m.encode_to_vec()).unwrap(), m);
    let m = GetObjectResponse { value: None };
    assert_eq!(GetObjectResponse::decode(&m.encode_to_vec()).unwrap(), m);
    let m = PutObjectRequest {
        store_id: "s".to_string(),
        global_version: Some(i64::MIN),
        transaction_items: vec![kv("a", 1, b"x"), kv("b", 2, b"")],
        delete_items: vec![kv("c", 0, b"")],
    };
    assert_eq!(PutObjectRequest::decode(&m.encode_to_vec()).unwrap(), m);
    let m = PutObjectResponse {};
    assert_eq!(PutObjectResponse::decode(&m.encode_to_vec()).unwrap(), m);
    let m = DeleteObjectRequest { store_id: "s".to_string(), key_value: Some(kv("k", 4, b"")) };
    assert_eq!(DeleteObjectRequest::decode(&m.encode_to_vec()).unwrap(), m);
    let m = DeleteObjectResponse {};
    assert_eq!(DeleteObjectResponse::decode(&m.encode_to_vec()).unwrap(), m);
    let m = ListKeyVersionsRequest {
        store_id: "s".to_string(),
        key_prefix: Some(String::new()),
        page_size: Some(-3),
        page_token: Some("t".to_string()),
    };
    assert_eq!(ListKeyVersionsRequest::decode(&m.encode_to_vec()).unwrap(), m);
    let m = ListKeyVersionsResponse {
        key_versions: vec![kv("a", 1, b""), kv("b", 2, b"")],
        next_page_token: Some("n".to_string()),
        global_version: Some(0),
    };
    assert_eq!(ListKeyVersionsResponse::decode(&m.encode_to_vec()).unwrap(), m);
    let m = ErrorResponse { error_code: 4, message: "gone".to_string() };
    assert_eq!(ErrorResponse::decode(&m.encode_to_vec()).unwrap(), m);
}

#[test]
fn encoding_is_exact() {
    let m = PutObjectRequest {
        store_id: "ab".to_string(),
        global_version: Some(300),
        transaction_items: vec![kv("k", -1, &[7])],
        delete_items: vec![],
    };
    let mut item = vec![0x0a, 1, b'k', 0x10];
    item.extend_from_slice(&[0xff; 9]);
    item.extend_from_slice(&[1, 0x1a, 1, 7]);
    let mut want = vec![0x0a, 2, b'a', b'b', 0x10, 0xac, 0x02, 0x1a, item.len() as u8];
    want.extend_from_slice(&item);
    assert_eq!(m.encode_to_vec(), want);
    // A default is left out, a default in an optional field is not.
    assert_eq!(kv("", 0, b"").encode_to_vec(), Vec::<u8>::new());
    let m = ListKeyVersionsRequest {
        store_id: String::new(),
        key_prefix: Some(String::new()),
        page_size: Some(500),
        page_token: None,
    };
    assert_eq!(m.encode_to_vec(), vec![0x12, 0, 0x18, 0xf4, 0x03]);
}

#[test]
fn unknown_fields_are_skipped() {
    let mut bytes = vec![
        0x78, 5, // tag 15, a number
        0x7a, 2, 1, 2, // tag 15, bytes
        0x7d, 1, 2, 3, 4, // tag 15, 32 bits
        0x79, 1, 2, 3, 4, 5, 6, 7, 8, // tag 15, 64 bits
        0x7b, 0x08, 1, 0x7c, // tag 15, a group
    ];
    bytes.extend_from_slice(&kv("k", 2, b"v").encode_to_vec());
    assert_eq!(KeyValue::decode(&bytes).unwrap(), kv("k", 2, b"v"));
}

#[test]
fn the_last_field_wins_and_messages_merge() {
    let mut bytes = kv("a", 1, b"x").encode_to_vec();
    bytes.extend_from_slice(&kv("b", 0, b"").encode_to_vec());
    assert_eq!(KeyValue::decode(&bytes).unwrap(), kv("b", 1, b"x"));
    let mut bytes = GetObjectResponse { value: Some(kv("a", 1, b"x")) }.encode_to_vec();
    bytes.extend_from_slice(&GetObjectResponse { value: Some(kv("", 2, b"")) }.encode_to_vec());
    assert_eq!(
        GetObjectResponse::decode(&bytes).unwrap(),
        GetObjectResponse { value: Some(kv("a", 2, b"x")) }
    );
}

/// What is told of bytes that are no message.
fn told<M: std::fmt::Debug>(res: Result<M, ProtoError>) -> String {
    let text = res.unwrap_err().to_string();
    text.strip_prefix("failed to decode Protobuf message: ").unwrap().to_string()
}

#[test]
fn bad_bytes_are_refused() {
    assert_eq!(told(KeyValue::decode(&[0x80])), "invalid varint");
    assert_eq!(told(KeyValue::decode(&[0x10, 0x80])), "KeyValue.version: invalid varint");
    assert_eq!(told(KeyValue::decode(&[0x0a, 0x80])), "KeyValue.key: invalid varint");
    // Over 64 bits.
    let mut long = vec![0x10];
    long.extend_from_slice(&[0xff; 9]);
    long.push(2);
    assert_eq!(told(KeyValue::decode(&long)), "KeyValue.version: invalid varint");
    // No tag, no wire type, a key over 32 bits.
    assert_eq!(told(KeyValue::decode(&[0x00])), "invalid tag value: 0");
    assert_eq!(told(KeyValue::decode(&[0x0e])), "invalid wire type value: 6");
    assert_eq!(
        told(KeyValue::decode(&[0xff, 0xff, 0xff, 0xff, 0x7f])),
        "invalid key value: 34359738367"
    );
    assert_eq!(
        told(KeyValue::decode(&[0x08, 1])),
        "KeyValue.key: invalid wire type: Varint (expected LengthDelimited)"
    );
    assert_eq!(
        told(KeyValue::decode(&[0x15])),
        "KeyValue.version: invalid wire type: ThirtyTwoBit (expected Varint)"
    );
    assert_eq!(told(KeyValue::decode(&[0x0a, 3, b'a'])), "KeyValue.key: buffer underflow");
    assert_eq!(
        told(KeyValue::decode(&[0x0a, 1, 0xff])),
        "KeyValue.key: invalid string value: data is not UTF-8 encoded"
    );
    assert_eq!(told(KeyValue::decode(&[0x7d, 1])), "buffer underflow");
    assert_eq!(told(KeyValue::decode(&[0x7c])), "unexpected end group tag");
    assert_eq!(told(PutObjectResponse::decode(&[0x0a, 1])), "buffer underflow");
}

#[test]
fn bad_values_inside_messages_are_refused() {
    assert_eq!(
        told(GetObjectResponse::decode(&[0x12, 1, 0x80])),
        "GetObjectResponse.value: invalid varint"
    );
    assert_eq!(
        told(GetObjectResponse::decode(&[0x12, 2, 0x0a, 1])),
        "KeyValue.key: GetObjectResponse.value: buffer underflow"
    );
    assert_eq!(
        told(GetObjectResponse::decode(&[0x12, 2, 0x0a])),
        "GetObjectResponse.value: buffer underflow"
    );
    // A field of the value that ends behind it.
    assert_eq!(
        told(GetObjectResponse::decode(&[0x12, 2, 0x0a, 1, b'k'])),
        "GetObjectResponse.value: delimited length exceeded"
    );
    assert_eq!(
        told(PutObjectRequest::decode(&[0x1d])),
        "PutObjectRequest.transaction_items: invalid wire type: ThirtyTwoBit (expected LengthDelimited)"
    );
    assert_eq!(
        told(PutObjectRequest::decode(&[0x22, 2, 0x7d, 1])),
        "PutObjectRequest.delete_items: buffer underflow"
    );
}

#[test]
fn small_numbers_are_cut_to_their_size() {
    // 2^32 + 4 as the code of an error.
    let bytes = [0x08, 0x84, 0x80, 0x80, 0x80, 0x10];
    assert_eq!(ErrorResponse::decode(&bytes).unwrap().error_code, 4);
}

#[test]
fn error_codes_have_their_numbers() {
    assert_eq!(ErrorCode::Unknown.number(), 0);
    assert_eq!(ErrorCode::ConflictException.number(), 1);
    assert_eq!(ErrorCode::InvalidRequestException.number(), 2);
    assert_eq!(ErrorCode::InternalServerException.number(), 3);
    assert_eq!(ErrorCode::NoSuchKeyException.number(), 4);
    assert_eq!(ErrorCode::AuthException.number(), 5);
}

#[test]
fn unknown_groups_nest_up_to_a_limit() {
    let groups = |n: usize| [vec![0x7b; n], vec![0x7c; n]].concat();
    assert!(KeyValue::decode(&groups(100)).is_ok());
    assert_eq!(told(KeyValue::decode(&groups(101))), "recursion limit reached");
    // Inside another message there is one level less.
    let inside = |n: usize| {
        let body = groups(n);
        [vec![0x12, (body.len() % 128) as u8 | 0x80, (body.len() / 128) as u8], body].concat()
    };
    assert!(GetObjectResponse::decode(&inside(99)).unwrap().value.is_some());
    assert_eq!(
        told(GetObjectResponse::decode(&inside(100))),
        "GetObjectResponse.value: recursion limit reached"
    );
    // Where the limit ends comes before what is malformed there.
    let bad = |n: usize| [vec![0x7b; n], vec![0x06]].concat();
    assert_eq!(told(KeyValue::decode(&bad(100))), "invalid wire type value: 6");
    let bad_inside = |n: usize| [vec![0x12, (n + 1) as u8], bad(n)].concat();
    assert_eq!(
        told(GetObjectResponse::decode(&bad_inside(99))),
        "GetObjectResponse.value: invalid wire type value: 6"
    );
    assert_eq!(
        told(GetObjectResponse::decode(&bad_inside(100))),
        "GetObjectResponse.value: recursion limit reached"
    );
}

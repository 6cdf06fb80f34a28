use cw20_ics20::ack::{ack_success, decode_ack, encode_ack, Ics20Ack};
use cw20_ics20::error::ContractError;

#[test]
fn check_ack_json() {
    let success = Ics20Ack::Result(b"1".to_vec());
    let fail = Ics20Ack::Error(b"bad coin".to_vec());

    let success_json = String::from_utf8(encode_ack(&success)).unwrap();
    assert_eq!(r#"{"result":"MQ=="}"#, success_json.as_str());

    let fail_json = String::from_utf8(encode_ack(&fail)).unwrap();
    assert_eq!(r#"{"error":"bad coin"}"#, fail_json.as_str());
}

#[test]
fn ack_success_is_canonical_marker() {
    let bytes = ack_success();
    assert_eq!(String::from_utf8(bytes).unwrap(), r#"{"result":"MQ=="}"#);
}

#[test]
fn success_round_trip() {
    let ack = Ics20Ack::Result(b"1".to_vec());
    let decoded = decode_ack(&encode_ack(&ack)).unwrap();
    assert_eq!(decoded, ack);

    let longer = Ics20Ack::Result(vec![0, 1, 2, 3, 255, 254, 77, 12]);
    assert_eq!(decode_ack(&encode_ack(&longer)).unwrap(), longer);

    let two = Ics20Ack::Result(vec![10, 200]);
    assert_eq!(decode_ack(&encode_ack(&two)).unwrap(), two);

    let empty = Ics20Ack::Result(Vec::new());
    assert_eq!(decode_ack(&encode_ack(&empty)).unwrap(), empty);
}

#[test]
fn error_round_trip() {
    let plain = Ics20Ack::Error(b"bad coin".to_vec());
    assert_eq!(decode_ack(&encode_ack(&plain)).unwrap(), plain);

    let tricky = Ics20Ack::Error(b"a \"quoted\" \\ back\nslash\ttab".to_vec());
    assert_eq!(decode_ack(&encode_ack(&tricky)).unwrap(), tricky);

    let control = Ics20Ack::Error(vec![1, 2, 31, 65]);
    let encoded = encode_ack(&control);
    assert_eq!(
        String::from_utf8(encoded.clone()).unwrap(),
        r#"{"error":"\u0001\u0002\u001fA"}"#
    );
    assert_eq!(decode_ack(&encoded).unwrap(), control);

    let empty = Ics20Ack::Error(Vec::new());
    assert_eq!(decode_ack(&encode_ack(&empty)).unwrap(), empty);
}

#[test]
fn base64_known_vectors() {
    assert_eq!(
        String::from_utf8(encode_ack(&Ics20Ack::Result(b"Man".to_vec()))).unwrap(),
        r#"{"result":"TWFu"}"#
    );
    assert_eq!(
        String::from_utf8(encode_ack(&Ics20Ack::Result(b"Ma".to_vec()))).unwrap(),
        r#"{"result":"TWE="}"#
    );
    assert_eq!(
        String::from_utf8(encode_ack(&Ics20Ack::Result(b"M".to_vec()))).unwrap(),
        r#"{"result":"TQ=="}"#
    );
}

#[test]
fn decode_rejects_malformed() {
    let cases: &[&[u8]] = &[
        b"",
        b"junk",
        br#"{"result":"MQ==""#,
        br#"{"result":"M="}"#,
        br#"{"result":"MQ=A"}"#,
        br#"{"result":"M!=="}"#,
        br#"{"other":"MQ=="}"#,
        br#"{"error":"unterminated\"}"#,
        br#"{"error":"bad \q escape"}"#,
        br#"{"error":"\u0100"}"#,
        b"{\"error\":\"raw \x01 control\"}",
    ];
    for c in cases {
        assert_eq!(
            decode_ack(c),
            Err(ContractError::MalformedAck {}),
            "accepted {:?}",
            String::from_utf8_lossy(c)
        );
    }
}

#[test]
fn decode_accepts_counterparty_error() {
    let decoded = decode_ack(br#"{"error":"bad coin"}"#).unwrap();
    assert_eq!(decoded, Ics20Ack::Error(b"bad coin".to_vec()));

    let escaped = decode_ack(br#"{"error":"a\/bA"}"#).unwrap();
    assert_eq!(escaped, Ics20Ack::Error(b"a/bA".to_vec()));

    // raw non-ASCII UTF-8 passes through the string body untouched
    let utf8 = decode_ack("{\"error\":\"Ā\"}".as_bytes()).unwrap();
    assert_eq!(utf8, Ics20Ack::Error("Ā".as_bytes().to_vec()));
}

use arca::error::CoreError;
use arca::rpc::{check_frame_len, decode_frame, encode_frame, Request, MAX_FRAME_BYTES};

#[test]
fn decode_frame_rejects_short_prefix_truncated_and_oversized() {
    assert!(decode_frame(&[]).is_err()); // no prefix
    assert!(decode_frame(&[1, 0, 0]).is_err()); // 3-byte prefix
    // Declares a 10-byte body but supplies none.
    assert!(decode_frame(&10u32.to_le_bytes()).is_err());
    // An oversized length is rejected before anything is read.
    let oversized = (MAX_FRAME_BYTES + 1).to_le_bytes();
    assert!(decode_frame(&oversized)
        .unwrap_err()
        .to_string()
        .contains("frame too large"));
}

#[test]
fn frames_round_trip() {
    for body in [&b""[..], b"{}", b"{\"kind\":\"health\"}"] {
        let f = encode_frame(body).unwrap();
        assert_eq!(f.len(), body.len() + 4);
        assert_eq!(decode_frame(&f).unwrap(), body);
    }
    let f = encode_frame(b"abc").unwrap();
    assert_eq!(f, vec![3, 0, 0, 0, b'a', b'b', b'c']);
}

#[test]
fn the_limit_is_the_last_length_accepted() {
    assert!(check_frame_len(MAX_FRAME_BYTES).is_ok());
    match check_frame_len(MAX_FRAME_BYTES + 1) {
        Err(CoreError::Rpc(s)) => assert!(s.contains("frame too large")),
        other => panic!("unexpected {:?}", other),
    }
    let big = vec![0u8; MAX_FRAME_BYTES as usize + 1];
    assert!(encode_frame(&big).is_err());
}

#[test]
fn write_verbs_classified() {
    // Reads.
    assert!(!Request::Health.is_write());
    assert!(!Request::SnapshotMoney.is_write());
    assert!(!Request::SnapshotPp.is_write());
    assert!(!Request::TxList { since: None, tag: None, limit: None }.is_write());
    assert!(!Request::AlertPending { limit: None, include_delivered: None }.is_write());
    assert!(!Request::RecurringList {
        since: None,
        min_occurrences: None,
        include_ignored: None,
    }
    .is_write());
    // Writes.
    assert!(Request::ProviderRefresh { kind_filter: None }.is_write());
    assert!(Request::ManualUpsertProvider {
        provider_kind: "plaid".into(),
        label: "Plaid - First Bank".into(),
        config_json: None,
        secret_ref: None,
        poll_cadence: None,
    }
    .is_write());
    assert!(Request::ManualSnapshot { account_name: "x".into(), amount: "1.00".into() }.is_write());
    assert!(Request::AlertUpsert {
        name: "balance.low".into(),
        rule_json: r#"{"kind":"provider.stale"}"#.into(),
        channel: None,
        active: None,
    }
    .is_write());
    assert!(Request::ManualUpsertBusiness {
        tag: "acme".into(),
        display_name: None,
        active: None,
    }
    .is_write());
}

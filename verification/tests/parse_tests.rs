use csv_parser::{parse_amount, parse_kind, parse_record, parse_uint, TransactionType};

#[test]
fn parse_amount_plain_and_fractional() {
    assert_eq!(parse_amount("2.3".as_bytes()), Some(23000));
    assert_eq!(parse_amount("0".as_bytes()), Some(0));
    assert_eq!(parse_amount("10".as_bytes()), Some(100000));
    assert_eq!(parse_amount("2.".as_bytes()), Some(20000));
    assert_eq!(parse_amount(".5".as_bytes()), Some(5000));
    assert_eq!(parse_amount("-2.3".as_bytes()), Some(-23000));
    assert_eq!(parse_amount("0.005".as_bytes()), Some(50));
}

#[test]
fn parse_amount_rounds_half_away_from_zero() {
    assert_eq!(parse_amount("0.12345".as_bytes()), Some(1235));
    assert_eq!(parse_amount("0.12344".as_bytes()), Some(1234));
    assert_eq!(parse_amount("0.00005".as_bytes()), Some(1));
    assert_eq!(parse_amount("-0.12345".as_bytes()), Some(-1235));
    assert_eq!(parse_amount("1.99995".as_bytes()), Some(20000));
}

#[test]
fn parse_amount_rejects_malformed() {
    assert_eq!(parse_amount("".as_bytes()), None);
    assert_eq!(parse_amount("-".as_bytes()), None);
    assert_eq!(parse_amount(".".as_bytes()), None);
    assert_eq!(parse_amount("1.2.3".as_bytes()), None);
    assert_eq!(parse_amount("1a".as_bytes()), None);
    assert_eq!(parse_amount("1e3".as_bytes()), None);
    // One above the largest representable magnitude.
    assert_eq!(parse_amount("922337203685477.5808".as_bytes()), None);
    assert_eq!(parse_amount("922337203685477.5807".as_bytes()), Some(i64::MAX));
}

#[test]
fn parse_kind_is_case_insensitive() {
    assert_eq!(parse_kind("deposit".as_bytes()), Some(TransactionType::Deposit));
    assert_eq!(parse_kind("DePoSiT".as_bytes()), Some(TransactionType::Deposit));
    assert_eq!(parse_kind("WITHDRAWAL".as_bytes()), Some(TransactionType::Withdrawal));
    assert_eq!(parse_kind("dispute".as_bytes()), Some(TransactionType::Dispute));
    assert_eq!(parse_kind("Resolve".as_bytes()), Some(TransactionType::Resolve));
    assert_eq!(parse_kind("chargeback".as_bytes()), Some(TransactionType::Chargeback));
    assert_eq!(parse_kind("deposits".as_bytes()), None);
    assert_eq!(parse_kind("".as_bytes()), None);
}

#[test]
fn parse_uint_bounds() {
    assert_eq!(parse_uint("65535".as_bytes(), 65535), Some(65535));
    assert_eq!(parse_uint("65536".as_bytes(), 65535), None);
    assert_eq!(parse_uint("007".as_bytes(), 65535), Some(7));
    assert_eq!(parse_uint("".as_bytes(), 65535), None);
    assert_eq!(parse_uint("12x".as_bytes(), 65535), None);
}

#[test]
fn parse_record_reads_rows() {
    let t = parse_record("deposit, 1, 1, 2.3".as_bytes()).unwrap();
    assert_eq!(t.t_type(), TransactionType::Deposit);
    assert_eq!(t.client_id(), 1);
    assert_eq!(t.id(), 1);
    assert_eq!(t.amount(), Some(23000));

    // A dispute row may omit the amount column entirely, or leave it blank.
    let d = parse_record("dispute,1,1".as_bytes()).unwrap();
    assert_eq!(d.t_type(), TransactionType::Dispute);
    assert_eq!(d.amount(), None);
    let d2 = parse_record("dispute,1,1,   ".as_bytes()).unwrap();
    assert_eq!(d2.amount(), None);

    assert!(parse_record("deposit,1".as_bytes()).is_none());
    assert!(parse_record("deposit,1,1,2.3,9".as_bytes()).is_none());
    assert!(parse_record("deposit,65536,1,2.3".as_bytes()).is_none());
    assert!(parse_record("deposit,1,4294967296,2.3".as_bytes()).is_none());
    assert!(parse_record("unknown,1,1,2.3".as_bytes()).is_none());
}

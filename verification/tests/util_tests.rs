use blockchain_consensus::strutil::{i64_to_string, str_eq, u64_to_string};
use blockchain_consensus::util::{create_block_data, generate_transactions, get_config_suffix};

#[test]
fn decimal_rendering_matches_std() {
    assert_eq!(u64_to_string(0), "0");
    assert_eq!(u64_to_string(7), "7");
    assert_eq!(u64_to_string(1234567890), "1234567890");
    assert_eq!(u64_to_string(u64::MAX), u64::MAX.to_string());
    assert_eq!(i64_to_string(0), "0");
    assert_eq!(i64_to_string(-1), "-1");
    assert_eq!(i64_to_string(-987), "-987");
    assert_eq!(i64_to_string(i64::MIN), i64::MIN.to_string());
    assert_eq!(i64_to_string(i64::MAX), i64::MAX.to_string());
}

#[test]
fn string_comparison_by_characters() {
    assert!(str_eq("", ""));
    assert!(str_eq("héllo", "héllo"));
    assert!(!str_eq("abc", "abd"));
    assert!(!str_eq("abc", "abcd"));
}

#[test]
fn config_suffix_lists_the_given_parts() {
    assert_eq!(get_config_suffix(4, 20, Some(5), Some(8)), "d4_b20_t5_w8");
    assert_eq!(get_config_suffix(4, 20, Some(5), None), "d4_b20_t5");
    assert_eq!(get_config_suffix(0, 1, None, None), "d0_b1");
}

#[test]
fn block_data_with_and_without_transactions() {
    assert_eq!(create_block_data(3, &[]), "Block 3 data");
    let txs = vec!["t1".to_string(), "t2".to_string()];
    assert_eq!(
        create_block_data(3, &txs),
        "Block 3 with 2 transactions: t1, t2"
    );
    let one = vec!["only".to_string()];
    assert_eq!(create_block_data(1, &one), "Block 1 with 1 transactions: only");
}

#[test]
fn demo_transactions_move_tenths() {
    let txs = generate_transactions(1, 3);
    assert_eq!(txs.len(), 3);
    assert_eq!(txs[0], "TX1-0: Alice -> Bob: 0.1 BTC");
    assert_eq!(txs[1], "TX1-1: Alice -> Bob: 0.2 BTC");
    assert_eq!(txs[2], "TX1-2: Alice -> Bob: 0.3 BTC");
    let more = generate_transactions(2, 12);
    assert_eq!(more[9], "TX2-9: Alice -> Bob: 1.0 BTC");
    assert_eq!(more[11], "TX2-11: Alice -> Bob: 1.2 BTC");
}

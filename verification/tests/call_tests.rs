use oracle_prices::call::latest_answer_call_data;

#[test]
fn call_data_is_the_latest_answer_selector() {
    // First four bytes of keccak256("latestAnswer()").
    assert_eq!(latest_answer_call_data(), vec![0x50, 0xd2, 0x5b, 0xcd]);
}

#[test]
fn call_data_matches_alloy_keccak() {
    let digest = alloy::primitives::keccak256(b"latestAnswer()");
    assert_eq!(latest_answer_call_data().as_slice(), &digest[..4]);
}

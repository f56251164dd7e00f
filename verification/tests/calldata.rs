use realtime::calldata::extract_exec_transaction_inner;

fn word(n: u64) -> Vec<u8> {
    let mut out = vec![0u8; 24];
    out.extend_from_slice(&n.to_be_bytes());
    out
}

fn address_word(address: [u8; 20]) -> Vec<u8> {
    let mut out = vec![0u8; 12];
    out.extend_from_slice(&address);
    out
}

/// `execTransaction` with the data behind ten words of parameters.
fn exec_transaction(to: [u8; 20], data: &[u8]) -> Vec<u8> {
    let mut out = vec![0x6a, 0x76, 0x12, 0x02];
    out.extend(address_word(to));
    out.extend(word(0));
    out.extend(word(320));
    for _ in 0..7 {
        out.extend(word(1));
    }
    out.extend(word(data.len() as u64));
    out.extend_from_slice(data);
    out
}

#[test]
fn selector_is_that_of_exec_transaction() {
    let digest = alloy::primitives::keccak256(
        "execTransaction(address,uint256,bytes,uint8,uint256,uint256,uint256,address,address,bytes)",
    );
    assert_eq!(digest[..4], [0x6a, 0x76, 0x12, 0x02]);
}

#[test]
fn extracts_the_inner_call() {
    let calldata = exec_transaction([0x22; 20], &[1, 2, 3]);
    let (to, data) = extract_exec_transaction_inner([0x11; 20], &calldata);
    assert_eq!(to, [0x22; 20]);
    assert_eq!(data, vec![1, 2, 3]);
}

#[test]
fn extracts_an_empty_inner_call() {
    let calldata = exec_transaction([0x22; 20], &[]);
    let (to, data) = extract_exec_transaction_inner([0x11; 20], &calldata);
    assert_eq!(to, [0x22; 20]);
    assert!(data.is_empty());
}

#[test]
fn extracts_inner_data_that_stands_among_the_parameters() {
    let mut calldata = vec![0x6a, 0x76, 0x12, 0x02];
    calldata.extend(address_word([0x33; 20]));
    calldata.extend(word(2));
    calldata.extend(word(32));
    let (to, data) = extract_exec_transaction_inner([0x11; 20], &calldata);
    assert_eq!(to, [0x33; 20]);
    assert_eq!(data, vec![0, 0]);
}

#[test]
fn keeps_another_function() {
    let mut calldata = exec_transaction([0x22; 20], &[1, 2, 3]);
    calldata[3] = 0x03;
    let (to, data) = extract_exec_transaction_inner([0x11; 20], &calldata);
    assert_eq!(to, [0x11; 20]);
    assert_eq!(data, calldata);
}

#[test]
fn keeps_calldata_that_is_too_short() {
    for len in [0, 3, 4, 99] {
        let calldata = exec_transaction([0x22; 20], &[1, 2, 3])[..len].to_vec();
        let (to, data) = extract_exec_transaction_inner([0x11; 20], &calldata);
        assert_eq!(to, [0x11; 20]);
        assert_eq!(data, calldata);
    }
}

#[test]
fn keeps_calldata_whose_inner_data_is_cut_off() {
    let mut calldata = exec_transaction([0x22; 20], &[1, 2, 3]);
    calldata.pop();
    let (to, data) = extract_exec_transaction_inner([0x11; 20], &calldata);
    assert_eq!(to, [0x11; 20]);
    assert_eq!(data, calldata);
}

#[test]
fn keeps_calldata_whose_offset_points_far_away() {
    let mut calldata = exec_transaction([0x22; 20], &[1, 2, 3]);
    for byte in &mut calldata[92..100] {
        *byte = 0xff;
    }
    let (to, data) = extract_exec_transaction_inner([0x11; 20], &calldata);
    assert_eq!(to, [0x11; 20]);
    assert_eq!(data, calldata);
}

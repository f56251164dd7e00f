use alloy::primitives::keccak256;
use realtime::abi::calldata;

#[test]
fn calldata_begins_with_the_selector() {
    assert_eq!(
        calldata("sendSignal(bytes32)", &vec![1, 2, 3]),
        vec![0x66, 0xca, 0x2b, 0xc0, 1, 2, 3]
    );
    assert_eq!(calldata("transfer(address,uint256)", &vec![]), vec![0xa9, 0x05, 0x9c, 0xbb]);
    assert_eq!(calldata("", &vec![]), keccak256("")[..4].to_vec());
}

//! Calldata of the Safe's `execTransaction`.
use vstd::prelude::*;
use vstd::slice::slice_to_vec;

use crate::bytes::{
    address_word, be_nat, has_selector, law_length_prefixed_lies_within,
    lemma_low_address_of_address_word, lemma_low_uint_of_uint_word, lemma_pow256_values,
    length_prefixed, low_address, low_uint, read_array, read_length_prefixed, read_u64,
    starts_with, uint_word, Address,
};

verus! {

/// The selector of `execTransaction`.
pub open spec fn exec_transaction_selector() -> Seq<u8> {
    seq![0x6au8, 0x76, 0x12, 0x02]
}

/// The target and the calldata of the call that an `execTransaction` wraps: the address in the
/// first parameter and the byte string that the third parameter points to. `None` if the
/// calldata is of another function or does not hold them.
pub open spec fn exec_transaction_inner(calldata: Seq<u8>) -> Option<(Seq<u8>, Seq<u8>)> {
    if starts_with(calldata, exec_transaction_selector()) && calldata.len() >= 4 + 3 * 32 {
        let offset = low_uint(calldata.subrange(68, 100), 8);
        match length_prefixed(calldata, 4int + offset) {
            Some(data) => Some((low_address(calldata.subrange(4, 36)), data)),
            None => None,
        }
    } else {
        None
    }
}

/// If the calldata is that of the Safe's `execTransaction`, extracts the target and the calldata
/// of the inner call, so that the proxy can be traced directly. Otherwise returns the submitter
/// and the calldata unchanged.
pub fn extract_exec_transaction_inner(submitter: Address, calldata: &Vec<u8>) -> (inner: (
    Address,
    Vec<u8>,
))
    ensures
        exec_transaction_inner(calldata@) matches Some((to, data)) ==> inner.0@ == to && inner.1@
            == data,
        exec_transaction_inner(calldata@) is None ==> inner.0 == submitter && inner.1@
            == calldata@,
{
    let bytes: &[u8] = calldata.as_slice();
    let selector: [u8; 4] = [0x6a, 0x76, 0x12, 0x02];
    assert(selector@ =~= exec_transaction_selector());
    if has_selector(bytes, &selector) && bytes.len() >= 4 + 3 * 32 {
        proof {
            assert(bytes@.subrange(4, 36).subrange(12, 32) =~= bytes@.subrange(16, 36));
            assert(bytes@.subrange(68, 100).subrange(24, 32) =~= bytes@.subrange(92, 100));
        }
        let inner_to: Address = read_array::<20>(bytes, 4 + 12);
        let data_offset: u64 = read_u64(bytes, 4 + 88);
        if let Some(inner_data) = read_length_prefixed(bytes, 4, data_offset) {
            return (inner_to, inner_data);
        }
    }
    (submitter, slice_to_vec(bytes))
}

/// The inner call of an `execTransaction` is given back: for every calldata that the ABI lays
/// out with the selector, the target in the first word, in the third word an offset, and at that
/// offset the inner calldata behind its length, exactly that target and that inner calldata are
/// extracted.
pub proof fn law_exec_transaction_reads_back(
    calldata: Seq<u8>,
    to: Seq<u8>,
    offset: nat,
    data: Seq<u8>,
)
    requires
        to.len() == 20,
        offset <= u64::MAX,
        data.len() <= u64::MAX,
        calldata.len() >= 4 + 3 * 32,
        calldata.len() >= 4 + offset + 32 + data.len(),
        starts_with(calldata, exec_transaction_selector()),
        calldata.subrange(4, 36) == address_word(to),
        calldata.subrange(68, 100) == uint_word(offset),
        calldata.subrange(4int + offset, 4int + offset + 32) == uint_word(data.len()),
        calldata.subrange(4int + offset + 32, 4int + offset + 32 + data.len()) == data,
    ensures
        exec_transaction_inner(calldata) == Some((to, data)),
{
    lemma_pow256_values();
    lemma_low_uint_of_uint_word(offset, 8);
    lemma_low_uint_of_uint_word(data.len(), 8);
    lemma_low_address_of_address_word(to);
}

/// The inner call is read by the bytes: calldata is that of an `execTransaction` by its first four
/// bytes, the target is the last twenty bytes of the first parameter, and the inner calldata
/// stands where the last eight bytes of the third one say, as long as the last eight bytes there
/// say. Whatever the other bytes hold does not matter. Where these do not lie within the calldata
/// there is no inner call.
pub proof fn law_exec_transaction_is_read_by_its_bytes(calldata: Seq<u8>)
    ensures
        ({
            let n = calldata.len();
            let at = 4int + be_nat(calldata.subrange(92, 100));
            let len = be_nat(calldata.subrange(at + 24, at + 32));
            let known = n >= 100 && calldata[0] == 0x6a && calldata[1] == 0x76 && calldata[2]
                == 0x12 && calldata[3] == 0x02;
            if known && at + 32 <= n && at + 32 + len <= n {
                exec_transaction_inner(calldata) == Some(
                    (calldata.subrange(16, 36), calldata.subrange(at + 32, at + 32 + len)),
                )
            } else {
                exec_transaction_inner(calldata) is None
            }
        }),
{
    assert(exec_transaction_selector().len() == 4);
    if calldata.len() >= 100 {
        let head = calldata.subrange(0, 4);
        assert(head[0] == calldata[0] && head[1] == calldata[1] && head[2] == calldata[2]
            && head[3] == calldata[3]);
        if calldata[0] == 0x6a && calldata[1] == 0x76 && calldata[2] == 0x12 && calldata[3]
            == 0x02 {
            assert(head =~= exec_transaction_selector());
        }
        assert(calldata.subrange(4, 36).subrange(12, 32) =~= calldata.subrange(16, 36));
        assert(calldata.subrange(68, 100).subrange(24, 32) =~= calldata.subrange(92, 100));
        let at = 4int + be_nat(calldata.subrange(92, 100));
        law_length_prefixed_lies_within(calldata, at);
        if let Some(data) = length_prefixed(calldata, at) {
            assert(data =~= calldata.subrange(at + 32, at + 32 + data.len()));
        }
    }
}

} // verus!

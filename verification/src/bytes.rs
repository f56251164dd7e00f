//! Byte strings: big-endian integers, 32-byte words and bounded slices.
use vstd::prelude::*;
use vstd::slice::{slice_subrange, slice_to_vec};

verus! {

/// A 20-byte account address.
pub type Address = [u8; 20];

/// A 32-byte word: a hash, a storage slot or a big-endian 256-bit integer.
pub type Bytes32 = [u8; 32];

/// The value of a big-endian byte string.
pub open spec fn be_nat(s: Seq<u8>) -> nat
    decreases s.len(),
{
    if s.len() == 0 {
        0
    } else {
        be_nat(s.drop_last()) * 256 + s.last() as nat
    }
}

/// The number of values that `len` bytes can hold.
pub open spec fn pow256(len: nat) -> nat
    decreases len,
{
    if len == 0 {
        1
    } else {
        pow256((len - 1) as nat) * 256
    }
}

/// The `len` low bytes of `n`, most significant first.
pub open spec fn be_bytes(n: nat, len: nat) -> Seq<u8>
    decreases len,
{
    if len == 0 {
        Seq::empty()
    } else {
        be_bytes(n / 256, (len - 1) as nat).push((n % 256) as u8)
    }
}

/// A run of `len` zero bytes.
pub open spec fn zeros(len: nat) -> Seq<u8> {
    Seq::new(len, |i: int| 0u8)
}

/// The word that holds the unsigned integer `n`.
pub open spec fn uint_word(n: nat) -> Seq<u8> {
    be_bytes(n, 32)
}

/// The word that holds an address: twelve zero bytes, then the address.
pub open spec fn address_word(address: Seq<u8>) -> Seq<u8> {
    zeros(12) + address
}

/// The integer that the last `len` bytes of a word hold.
pub open spec fn low_uint(word: Seq<u8>, len: int) -> nat {
    be_nat(word.subrange(word.len() - len, word.len() as int))
}

/// The address in the last twenty bytes of a word.
pub open spec fn low_address(word: Seq<u8>) -> Seq<u8> {
    word.subrange(word.len() - 20, word.len() as int)
}

/// The byte string that the ABI lays out at `pos`: a word whose last eight bytes give the
/// length, then the bytes. `None` if it does not lie within `s`.
pub open spec fn length_prefixed(s: Seq<u8>, pos: int) -> Option<Seq<u8>> {
    if pos + 32 <= s.len() {
        let len = low_uint(s.subrange(pos, pos + 32), 8);
        if pos + 32 + len <= s.len() {
            Some(s.subrange(pos + 32, (pos + 32 + len) as int))
        } else {
            None
        }
    } else {
        None
    }
}

/// Whether `s` begins with `prefix`.
pub open spec fn starts_with(s: Seq<u8>, prefix: Seq<u8>) -> bool {
    s.len() >= prefix.len() && s.subrange(0, prefix.len() as int) == prefix
}

/// What an optional byte string holds.
pub open spec fn bytes_view(bytes: Option<Vec<u8>>) -> Option<Seq<u8>> {
    match bytes {
        Some(bytes) => Some(bytes@),
        None => None,
    }
}

pub proof fn lemma_be_nat_bound(s: Seq<u8>)
    ensures
        be_nat(s) < pow256(s.len()),
    decreases s.len(),
{
    if s.len() > 0 {
        lemma_be_nat_bound(s.drop_last());
    }
}

pub proof fn lemma_pow256_values()
    ensures
        pow256(4) == 0x1_0000_0000,
        pow256(8) == 0x1_0000_0000_0000_0000,
{
    reveal_with_fuel(pow256, 9);
}

pub proof fn lemma_be_bytes_len(n: nat, len: nat)
    ensures
        be_bytes(n, len).len() == len,
    decreases len,
{
    if len > 0 {
        lemma_be_bytes_len(n / 256, (len - 1) as nat);
    }
}

pub proof fn lemma_be_bytes_zero(len: nat)
    ensures
        be_bytes(0, len) == zeros(len),
    decreases len,
{
    if len > 0 {
        lemma_be_bytes_zero((len - 1) as nat);
    }
    assert(be_bytes(0, len) =~= zeros(len));
}

/// The value of a byte string is that of its head, shifted, and that of its tail.
pub proof fn lemma_be_nat_split(s: Seq<u8>, head: nat)
    requires
        head <= s.len(),
        be_nat(s) < pow256((s.len() - head) as nat),
    ensures
        be_nat(s.subrange(head as int, s.len() as int)) == be_nat(s),
    decreases s.len() - head,
{
    let tail = s.subrange(head as int, s.len() as int);
    if head == s.len() {
        assert(tail =~= Seq::<u8>::empty());
    } else {
        let rest = s.drop_last();
        assert(tail.drop_last() =~= rest.subrange(head as int, rest.len() as int));
        assert(be_nat(rest) < pow256((rest.len() - head) as nat));
        lemma_be_nat_split(rest, head);
    }
}

/// A number that fits in `len` bytes is read back from them.
pub proof fn lemma_be_nat_of_be_bytes(n: nat, len: nat)
    requires
        n < pow256(len),
    ensures
        be_nat(be_bytes(n, len)) == n,
    decreases len,
{
    if len > 0 {
        let high = be_bytes(n / 256, (len - 1) as nat);
        lemma_be_nat_of_be_bytes(n / 256, (len - 1) as nat);
        assert(be_bytes(n, len).drop_last() =~= high);
    }
}

/// The last bytes of a longer encoding are the shorter encoding.
pub proof fn lemma_be_bytes_suffix(n: nat, skipped: nat, len: nat)
    ensures
        be_bytes(n, skipped + len).subrange(skipped as int, (skipped + len) as int) == be_bytes(
            n,
            len,
        ),
    decreases len,
{
    lemma_be_bytes_len(n, skipped + len);
    if len == 0 {
        assert(be_bytes(n, skipped + len).subrange(skipped as int, skipped as int) =~= Seq::<
            u8,
        >::empty());
    } else {
        lemma_be_bytes_suffix(n / 256, skipped, (len - 1) as nat);
        lemma_be_bytes_len(n / 256, (skipped + len - 1) as nat);
        assert(be_bytes(n, skipped + len).subrange(skipped as int, (skipped + len) as int)
            =~= be_bytes(n / 256, (skipped + len - 1) as nat).subrange(
            skipped as int,
            (skipped + len - 1) as int,
        ).push((n % 256) as u8));
    }
}

/// An integer written into a word is read back from the word's last bytes.
pub proof fn lemma_low_uint_of_uint_word(n: nat, len: nat)
    requires
        len <= 32,
        n < pow256(len),
    ensures
        uint_word(n).len() == 32,
        low_uint(uint_word(n), len as int) == n,
{
    lemma_be_bytes_len(n, 32);
    lemma_be_bytes_suffix(n, (32 - len) as nat, len);
    lemma_be_nat_of_be_bytes(n, len);
}

/// An integer of 64 bits written into a word is the value of the word.
pub proof fn lemma_uint_word_value(n: nat)
    requires
        n <= u64::MAX,
    ensures
        uint_word(n).len() == 32,
        be_nat(uint_word(n)) == n,
{
    lemma_pow256_values();
    assert(pow256(8) <= pow256(32)) by {
        reveal_with_fuel(pow256, 33);
    }
    lemma_be_bytes_len(n, 32);
    lemma_be_nat_of_be_bytes(n, 32);
}

/// An address written into a word is read back from it.
pub proof fn lemma_low_address_of_address_word(address: Seq<u8>)
    requires
        address.len() == 20,
    ensures
        address_word(address).len() == 32,
        low_address(address_word(address)) == address,
{
    assert(low_address(address_word(address)) =~= address);
}

/// A big-endian byte string is read digit by digit: one more byte shifts the value by a byte and
/// counts itself.
pub proof fn law_big_endian_value(s: Seq<u8>, byte: u8)
    ensures
        be_nat(Seq::<u8>::empty()) == 0,
        be_nat(s.push(byte)) == 256 * be_nat(s) + byte,
{
    assert(s.push(byte).drop_last() =~= s);
}

/// A number is written in as many bytes as asked for, and is read back from them if it fits; so no
/// other bytes hold it.
pub proof fn law_big_endian_bytes(n: nat, len: nat)
    ensures
        pow256(0) == 1,
        pow256(len + 1) == 256 * pow256(len),
        be_bytes(n, len).len() == len,
        n < pow256(len) ==> be_nat(be_bytes(n, len)) == n,
{
    lemma_be_bytes_len(n, len);
    if n < pow256(len) {
        lemma_be_nat_of_be_bytes(n, len);
    }
}

/// A word holds an integer or an address at its end, behind zeros.
pub proof fn law_words(n: nat, address: Seq<u8>, i: int)
    requires
        address.len() == 20,
        0 <= i < 20,
    ensures
        uint_word(n).len() == 32,
        n < pow256(32) ==> be_nat(uint_word(n)) == n,
        address_word(address).len() == 32,
        address_word(address)[12 + i] == address[i],
        i < 12 ==> address_word(address)[i] == 0,
{
    law_big_endian_bytes(n, 32);
}

/// The last bytes of a word are taken as they stand: an integer by its value, an address as it is.
pub proof fn law_ends_of_words(head: Seq<u8>, tail: Seq<u8>)
    requires
        head.len() + tail.len() == 32,
    ensures
        low_uint(head + tail, tail.len() as int) == be_nat(tail),
        tail.len() == 20 ==> low_address(head + tail) == tail,
{
    assert((head + tail).subrange(32 - tail.len(), 32) =~= tail);
}

/// A length-prefixed byte string is found wherever it stands, with whatever before and behind it,
/// and whatever the unused bytes of its length hold.
pub proof fn law_length_prefixed_finds(
    before: Seq<u8>,
    unused: Seq<u8>,
    len: Seq<u8>,
    bytes: Seq<u8>,
    behind: Seq<u8>,
)
    requires
        unused.len() == 24,
        len.len() == 8,
        be_nat(len) == bytes.len(),
    ensures
        length_prefixed(before + unused + len + bytes + behind, before.len() as int) == Some(bytes),
{
    let s = before + unused + len + bytes + behind;
    let pos = before.len() as int;
    assert(s.subrange(pos, pos + 32) =~= unused + len);
    law_ends_of_words(unused, len);
    assert(s.subrange(pos + 32, pos + 32 + bytes.len()) =~= bytes);
}

/// A length-prefixed byte string that is found lies within the bytes, behind a word that ends in
/// its length; where no such bytes lie, none is found.
pub proof fn law_length_prefixed_lies_within(s: Seq<u8>, pos: int)
    requires
        0 <= pos,
    ensures
        match length_prefixed(s, pos) {
            Some(bytes) => {
                &&& pos + 32 + bytes.len() <= s.len()
                &&& bytes.len() == be_nat(s.subrange(pos + 24, pos + 32))
                &&& forall|i: int| 0 <= i < bytes.len() ==> #[trigger] bytes[i] == s[pos + 32 + i]
            },
            None => pos + 32 > s.len() || pos + 32 + be_nat(s.subrange(pos + 24, pos + 32))
                > s.len(),
        },
{
    if pos + 32 <= s.len() {
        assert(s.subrange(pos, pos + 32).subrange(24, 32) =~= s.subrange(pos + 24, pos + 32));
    }
}

/// Bytes begin with a prefix exactly if they are the prefix and something behind it.
pub proof fn law_prefix(s: Seq<u8>, prefix: Seq<u8>, rest: Seq<u8>)
    ensures
        starts_with(prefix + rest, prefix),
        starts_with(s, prefix) <==> s.len() >= prefix.len() && s == prefix + s.skip(
            prefix.len() as int,
        ),
{
    assert((prefix + rest).subrange(0, prefix.len() as int) =~= prefix);
    if s.len() >= prefix.len() {
        let n = prefix.len() as int;
        if starts_with(s, prefix) {
            assert(s =~= s.subrange(0, n) + s.skip(n));
        }
        if s == prefix + s.skip(n) {
            assert((prefix + s.skip(n)).subrange(0, n) =~= prefix);
        }
    }
}

/// Reads eight bytes as a big-endian integer.
pub fn read_u64(bytes: &[u8], start: usize) -> (value: u64)
    requires
        start + 8 <= bytes@.len(),
    ensures
        value == be_nat(bytes@.subrange(start as int, start + 8)),
{
    let mut value: u64 = 0;
    let mut i: usize = 0;
    assert(bytes@.subrange(start as int, start + 0) =~= Seq::<u8>::empty());
    while i < 8
        invariant
            i <= 8,
            start + 8 <= bytes.len(),
            value == be_nat(bytes@.subrange(start as int, start + i)),
        decreases 8 - i,
    {
        let ghost before = bytes@.subrange(start as int, start + i);
        let ghost after = bytes@.subrange(start as int, start + i + 1);
        proof {
            assert(after.drop_last() =~= before);
            lemma_be_nat_bound(after);
            assert(pow256(8) >= pow256((i + 1) as nat)) by {
                reveal_with_fuel(pow256, 9);
            }
            lemma_pow256_values();
        }
        value = value * 256 + bytes[start + i] as u64;
        i = i + 1;
    }
    value
}

/// Reads four bytes as a big-endian integer.
pub fn read_u32(bytes: &[u8], start: usize) -> (value: u32)
    requires
        start + 4 <= bytes@.len(),
    ensures
        value == be_nat(bytes@.subrange(start as int, start + 4)),
{
    let mut value: u32 = 0;
    let mut i: usize = 0;
    assert(bytes@.subrange(start as int, start + 0) =~= Seq::<u8>::empty());
    while i < 4
        invariant
            i <= 4,
            start + 4 <= bytes.len(),
            value == be_nat(bytes@.subrange(start as int, start + i)),
        decreases 4 - i,
    {
        let ghost before = bytes@.subrange(start as int, start + i);
        let ghost after = bytes@.subrange(start as int, start + i + 1);
        proof {
            assert(after.drop_last() =~= before);
            lemma_be_nat_bound(after);
            assert(pow256(4) >= pow256((i + 1) as nat)) by {
                reveal_with_fuel(pow256, 5);
            }
            lemma_pow256_values();
        }
        value = value * 256 + bytes[start + i] as u32;
        i = i + 1;
    }
    value
}

/// Copies `N` bytes into an array.
pub fn read_array<const N: usize>(bytes: &[u8], start: usize) -> (out: [u8; N])
    requires
        start + N <= bytes@.len(),
    ensures
        out@ == bytes@.subrange(start as int, start + N),
{
    let mut out: [u8; N] = [0u8; N];
    let mut i: usize = 0;
    while i < N
        invariant
            i <= N,
            start + N <= bytes.len(),
            forall|j: int| 0 <= j < i ==> out@[j] == bytes@[start + j],
        decreases N - i,
    {
        out[i] = bytes[start + i];
        i = i + 1;
    }
    assert(out@ =~= bytes@.subrange(start as int, start + N));
    out
}

/// Copies the bytes from `start` to `end`.
pub fn copy_range(bytes: &[u8], start: usize, end: usize) -> (out: Vec<u8>)
    requires
        start <= end <= bytes@.len(),
    ensures
        out@ == bytes@.subrange(start as int, end as int),
{
    slice_to_vec(slice_subrange(bytes, start, end))
}

/// Copies the length-prefixed byte string that stands `offset` bytes behind `base`.
pub fn read_length_prefixed(bytes: &[u8], base: usize, offset: u64) -> (out: Option<Vec<u8>>)
    ensures
        out is Some == length_prefixed(bytes@, base + offset) is Some,
        out matches Some(found) ==> Some(found@) == length_prefixed(bytes@, base + offset),
{
    let total: u128 = bytes.len() as u128;
    let pos: u128 = base as u128 + offset as u128;
    if pos + 32 > total {
        return None;
    }
    let start: usize = pos as usize;
    proof {
        assert(bytes@.subrange(start as int, start + 32).subrange(24, 32) =~= bytes@.subrange(
            start + 24,
            start + 32,
        ));
    }
    let len: u64 = read_u64(bytes, start + 24);
    if pos + 32 + len as u128 > total {
        return None;
    }
    Some(copy_range(bytes, start + 32, start + 32 + len as usize))
}

/// Whether two byte strings are equal.
pub fn bytes_equal(a: &[u8], b: &[u8]) -> (equal: bool)
    ensures
        equal == (a@ == b@),
{
    if a.len() != b.len() {
        return false;
    }
    let mut i: usize = 0;
    while i < a.len()
        invariant
            i <= a@.len(),
            a@.len() == b@.len(),
            forall|j: int| 0 <= j < i ==> a@[j] == b@[j],
        decreases a@.len() - i,
    {
        if a[i] != b[i] {
            return false;
        }
        i = i + 1;
    }
    assert(a@ =~= b@);
    true
}

/// Whether the bytes begin with the four-byte function selector.
pub fn has_selector(bytes: &[u8], selector: &[u8; 4]) -> (found: bool)
    ensures
        found == starts_with(bytes@, selector@),
{
    bytes.len() >= 4 && bytes_equal(slice_subrange(bytes, 0, 4), selector.as_slice())
}

} // verus!

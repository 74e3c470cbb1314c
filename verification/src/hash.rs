//! The compression function a commitment tree is built from.
//!
//! A tree is generic in its two-to-one hash, so any function on byte blocks
//! can be plugged in together with its parameters. Everything the library
//! proves about roots and authentication paths is stated over `compress`,
//! the mathematical function that an implementation computes.

use vstd::prelude::*;

verus! {

/// A two-to-one hash with its public parameters.
///
/// The library calls `evaluate` on two blocks of one length only: two
/// leaves, or two nodes of one level. It proves nothing about an
/// implementation and promises nothing in its name: what it needs of one
/// is asked of the caller who brings it, as `is_compression`.
pub trait TwoToOneHash {
    /// Combines a left and a right block into their parent.
    fn evaluate(&self, left: &Vec<u8>, right: &Vec<u8>) -> Vec<u8>
        requires
            left@.len() == right@.len(),
    ;

    /// The canonical default value of a parent. It stands in a statement
    /// where no real node is known yet.
    fn default_output(&self) -> Vec<u8>;
}

/// The block of `len` zero bytes.
pub open spec fn zero_block(len: nat) -> Seq<u8> {
    Seq::new(len, |i: int| 0u8)
}

/// Whether `out` is something that `hasher` may return for the blocks
/// `left` and `right`.
pub open spec fn may_return<H: TwoToOneHash>(
    hasher: &H,
    left: Seq<u8>,
    right: Seq<u8>,
    out: Seq<u8>,
) -> bool {
    exists|l: Vec<u8>, r: Vec<u8>, o: Vec<u8>|
        l@ == left && r@ == right && o@ == out && call_ensures(H::evaluate, (hasher, &l, &r), o)
}

/// Whether `hasher` returns something of `out_len` bytes for some pair of
/// blocks of `input_len` bytes.
pub open spec fn returns_len<H: TwoToOneHash>(hasher: &H, input_len: nat, out_len: nat) -> bool {
    exists|left: Seq<u8>, right: Seq<u8>, out: Seq<u8>|
        left.len() == input_len && right.len() == input_len && out.len() == out_len
            && #[trigger] may_return(hasher, left, right, out)
}

/// The length of the parent of two blocks of `input_len` bytes. Where the
/// function returns nothing for any such pair, it is `input_len`.
pub open spec fn digest_len<H: TwoToOneHash>(hasher: &H, input_len: nat) -> nat {
    if exists|out_len: nat| returns_len(hasher, input_len, out_len) {
        choose|out_len: nat| returns_len(hasher, input_len, out_len)
    } else {
        input_len
    }
}

/// The parent that `hasher` gives to a left and a right block. Where the
/// function returns nothing for a pair, the zero block stands for it.
pub open spec fn compress<H: TwoToOneHash>(hasher: &H, left: Seq<u8>, right: Seq<u8>) -> Seq<u8> {
    if exists|out: Seq<u8>| may_return(hasher, left, right, out) {
        choose|out: Seq<u8>| may_return(hasher, left, right, out)
    } else {
        zero_block(digest_len(hasher, left.len()))
    }
}

/// Whether `hasher` is a two-to-one compression function: what it returns
/// for two blocks of one length is determined by the two blocks, and how
/// long it is by their length.
pub open spec fn is_compression<H: TwoToOneHash>(hasher: &H) -> bool {
    forall|l1: Seq<u8>, r1: Seq<u8>, o1: Seq<u8>, l2: Seq<u8>, r2: Seq<u8>, o2: Seq<u8>|
        l1.len() == r1.len() && l2.len() == r2.len() && l1.len() == l2.len() && #[trigger] may_return(
            hasher,
            l1,
            r1,
            o1,
        ) && #[trigger] may_return(hasher, l2, r2, o2) ==> o1.len() == o2.len() && (l1 == l2 && r1
            == r2 ==> o1 == o2)
}

/// The parent of two blocks of one length has the length that this length
/// gives.
pub proof fn lemma_compress_len<H: TwoToOneHash>(hasher: &H, left: Seq<u8>, right: Seq<u8>)
    requires
        is_compression(hasher),
        left.len() == right.len(),
    ensures
        compress(hasher, left, right).len() == digest_len(hasher, left.len()),
{
    if exists|out: Seq<u8>| may_return(hasher, left, right, out) {
        let out = choose|out: Seq<u8>| may_return(hasher, left, right, out);
        assert(may_return(hasher, left, right, out));
        assert(returns_len(hasher, left.len(), out.len()));
        let chosen = choose|out_len: nat| returns_len(hasher, left.len(), out_len);
        assert(returns_len(hasher, left.len(), chosen));
    }
}

/// Calls `hasher` on two blocks of one length.
pub fn evaluate<H: TwoToOneHash>(hasher: &H, left: &Vec<u8>, right: &Vec<u8>) -> (out: Vec<u8>)
    requires
        is_compression(hasher),
        right@.len() == left@.len(),
    ensures
        out@ == compress(hasher, left@, right@),
        out@.len() == digest_len(hasher, left@.len()),
{
    let out = hasher.evaluate(left, right);
    proof {
        assert(may_return(hasher, left@, right@, out@));
        lemma_compress_len(hasher, left@, right@);
    }
    out
}

} // verus!

//! Big-endian fixed-width integer framing: the byte layout shared by the
//! leaf codecs and by the 8-byte value-length field of a field record.
use vstd::arithmetic::div_mod::lemma_breakdown;
use vstd::arithmetic::div_mod::lemma_small_mod;
use vstd::prelude::*;
use vstd::slice::slice_subrange;

verus! {

/// `256^w`: the number of values a big-endian encoding of `w` bytes can hold.
pub open spec fn pow256(w: nat) -> nat
    decreases w,
{
    if w == 0 {
        1
    } else {
        256 * pow256((w - 1) as nat)
    }
}

/// The `w`-byte big-endian encoding of `x % 256^w`, most significant byte
/// first.
pub open spec fn be_enc(x: nat, w: nat) -> Seq<u8>
    decreases w,
{
    if w == 0 {
        Seq::empty()
    } else {
        be_enc(x / 256, (w - 1) as nat) + seq![(x % 256) as u8]
    }
}

/// The value that a big-endian byte sequence denotes.
pub open spec fn be_val(s: Seq<u8>) -> nat
    decreases s.len(),
{
    if s.len() == 0 {
        0
    } else {
        be_val(s.drop_last()) * 256 + s.last() as nat
    }
}

pub broadcast proof fn lemma_be_enc_len(x: nat, w: nat)
    ensures
        (#[trigger] be_enc(x, w)).len() == w,
    decreases w,
{
    if w > 0 {
        lemma_be_enc_len(x / 256, (w - 1) as nat);
    }
}

/// The concrete widths the codec uses.
pub proof fn lemma_pow256_values()
    ensures
        pow256(1) == 0x100,
        pow256(2) == 0x10000,
        pow256(4) == 0x100000000,
        pow256(8) == 0x10000000000000000,
        pow256(16) == 0x100000000000000000000000000000000,
{
    reveal_with_fuel(pow256, 17);
}

/// A byte sequence denotes a value below `256^len`.
pub proof fn lemma_be_val_bound(s: Seq<u8>)
    ensures
        be_val(s) < pow256(s.len()),
    decreases s.len(),
{
    if s.len() > 0 {
        lemma_be_val_bound(s.drop_last());
    }
}

/// Decoding inverts encoding: the value of the `w`-byte encoding of `x` is
/// `x` itself whenever `x` fits in `w` bytes.
pub proof fn lemma_be_val_enc(x: nat, w: nat)
    ensures
        be_val(be_enc(x, w)) == x % pow256(w),
        x < pow256(w) ==> be_val(be_enc(x, w)) == x,
    decreases w,
{
    if w == 0 {
        assert(be_val(be_enc(x, 0)) == 0);
        assert(x % 1nat == 0) by (nonlinear_arith);
    } else {
        lemma_be_val_enc(x / 256, (w - 1) as nat);
        let tail = seq![(x % 256) as u8];
        let head = be_enc(x / 256, (w - 1) as nat);
        assert((head + tail).drop_last() =~= head);
        assert((head + tail).last() == (x % 256) as u8);
        assert(be_val(be_enc(x, w)) == be_val(head) * 256 + x % 256);
        lemma_pow256_pos((w - 1) as nat);
        lemma_breakdown(x as int, 256, pow256((w - 1) as nat) as int);
        assert(x % (256 * pow256((w - 1) as nat)) == 256 * ((x / 256) % pow256(
            (w - 1) as nat,
        )) + x % 256);
        if x < pow256(w) {
            lemma_small_mod(x, pow256(w));
        }
    }
}

/// Writes the `w`-byte big-endian encoding of `x`.
pub fn be_encode(x: u128, w: usize) -> (r: Vec<u8>)
    ensures
        r@ == be_enc(x as nat, w as nat),
        r@.len() == w,
    decreases w,
{
    if w == 0 {
        let r: Vec<u8> = Vec::new();
        assert(r@ =~= be_enc(x as nat, 0));
        r
    } else {
        let mut r = be_encode(x / 256, w - 1);
        r.push((x % 256) as u8);
        assert(r@ =~= be_enc(x as nat, w as nat));
        r
    }
}

/// Reads the value that a big-endian byte sequence of at most 16 bytes
/// denotes.
pub fn be_decode(s: &[u8]) -> (r: u128)
    requires
        s@.len() <= 16,
    ensures
        r as nat == be_val(s@),
    decreases s@.len(),
{
    let n = s.len();
    if n == 0 {
        0
    } else {
        let head = slice_subrange(s, 0, n - 1);
        let hi = be_decode(head);
        proof {
            assert(s@.drop_last() =~= head@);
            lemma_be_val_bound(head@);
            lemma_pow256_values();
            assert(pow256(head@.len()) <= pow256(15)) by {
                lemma_pow256_nondecreasing(head@.len(), 15);
            }
            reveal_with_fuel(pow256, 17);
        }
        hi * 256 + (s[n - 1] as u128)
    }
}

/// Every width holds at least one value.
pub proof fn lemma_pow256_pos(w: nat)
    ensures
        pow256(w) >= 1,
    decreases w,
{
    if w > 0 {
        lemma_pow256_pos((w - 1) as nat);
    }
}

/// `256^a <= 256^b` when `a <= b`.
pub proof fn lemma_pow256_nondecreasing(a: nat, b: nat)
    requires
        a <= b,
    ensures
        pow256(a) <= pow256(b),
    decreases b,
{
    if a < b && b > 0 {
        lemma_pow256_nondecreasing(a, (b - 1) as nat);
    }
}

} // verus!

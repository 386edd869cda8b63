use vstd::bytes::*;
use vstd::prelude::*;

use crate::Pod;

verus! {

/// The little-endian image of a `u64` whose value fits in `n` bytes is
/// `n` significant bytes followed by zero bytes, for `n` of 4 or 8.
proof fn lemma_u64_high_bytes_zero(x: u64, n: int)
    requires
        n == 4 || n == 8,
        n == 4 ==> x < 0x1_0000_0000,
    ensures
        forall|i: int| n <= i < 8 ==> #[trigger] spec_u64_to_le_bytes(x)[i] == 0u8,
{
    spec_u64_to_le_bytes_to_open(x);
    if n == 4 {
        assert(x < 0x1_0000_0000 ==> ((x >> 32) & 0xff) == 0 && ((x >> 40) & 0xff) == 0 && ((x
            >> 48) & 0xff) == 0 && ((x >> 56) & 0xff) == 0) by (bit_vector);
    }
}

/// A `u64` whose little-endian image ends in four zero bytes fits in four
/// bytes.
proof fn lemma_u64_fits_low_bytes(x: u64)
    requires
        spec_u64_to_le_bytes(x)[4] == 0u8,
        spec_u64_to_le_bytes(x)[5] == 0u8,
        spec_u64_to_le_bytes(x)[6] == 0u8,
        spec_u64_to_le_bytes(x)[7] == 0u8,
    ensures
        x < 0x1_0000_0000,
{
    spec_u64_to_le_bytes_to_open(x);
    let image = spec_u64_to_le_bytes_open(x);
    assert(image[4] == ((x >> 32) & 0xff) as u8);
    assert(image[5] == ((x >> 40) & 0xff) as u8);
    assert(image[6] == ((x >> 48) & 0xff) as u8);
    assert(image[7] == ((x >> 56) & 0xff) as u8);
    assert(((x >> 32) & 0xff) as u8 == 0 && ((x >> 40) & 0xff) as u8 == 0 && ((x >> 48) & 0xff) as u8
        == 0 && ((x >> 56) & 0xff) as u8 == 0 ==> x < 0x1_0000_0000) by (bit_vector);
}

/// Every byte of the image of zero is zero.
proof fn lemma_u64_zero_image()
    ensures
        forall|i: int| 0 <= i < 8 ==> #[trigger] spec_u64_to_le_bytes(0)[i] == 0u8,
{
    let x: u64 = 0;
    spec_u64_to_le_bytes_to_open(x);
    assert((x & 0xff) as u8 == 0 && ((x >> 8) & 0xff) as u8 == 0 && ((x >> 16) & 0xff) as u8 == 0
        && ((x >> 24) & 0xff) as u8 == 0 && ((x >> 32) & 0xff) as u8 == 0 && ((x >> 40) & 0xff) as u8
        == 0 && ((x >> 48) & 0xff) as u8 == 0 && ((x >> 56) & 0xff) as u8 == 0) by (bit_vector)
        requires
            x == 0,
    ;
}

/// The number of bytes in a `usize`.
pub open spec fn word_len() -> nat {
    (usize::BITS / 8) as nat
}

pub(crate) proof fn lemma_word_len()
    ensures
        word_len() == 4 || word_len() == 8,
        word_len() == 4 ==> usize::MAX == 0xffff_ffff,
        word_len() == 8 ==> usize::MAX == 0xffff_ffff_ffff_ffff,
{
}

impl Pod for usize {
    /// The size of the target's machine word.
    open spec fn byte_len() -> nat {
        word_len()
    }

    /// The low `word_len()` bytes of the value's little-endian image as a `u64`.
    open spec fn bytes_of(self) -> Seq<u8> {
        spec_u64_to_le_bytes(self as u64).subrange(0, word_len() as int)
    }

    proof fn lemma_bytes_len(self) {
        lemma_auto_spec_u64_to_from_le_bytes();
        assert(spec_u64_to_le_bytes(self as u64).len() == 8);
        lemma_word_len();
    }

    proof fn lemma_bytes_injective(a: Self, b: Self) {
        lemma_auto_spec_u64_to_from_le_bytes();
        lemma_word_len();
        let (ia, ib) = (spec_u64_to_le_bytes(a as u64), spec_u64_to_le_bytes(b as u64));
        assert(spec_u64_from_le_bytes(ia) == a as u64);
        assert(spec_u64_from_le_bytes(ib) == b as u64);
        if a.bytes_of() == b.bytes_of() {
            let n = word_len() as int;
            lemma_u64_high_bytes_zero(a as u64, n);
            lemma_u64_high_bytes_zero(b as u64, n);
            assert forall|i: int| 0 <= i < 8 implies ia[i] == ib[i] by {
                if i < n {
                    assert(a.bytes_of()[i] == b.bytes_of()[i]);
                }
            }
            assert(ia =~= ib);
        }
    }

    proof fn lemma_bytes_surjective(bytes: Seq<u8>) {
        lemma_auto_spec_u64_to_from_le_bytes();
        lemma_word_len();
        let n = word_len() as int;
        let wide = bytes + Seq::new((8 - n) as nat, |i: int| 0u8);
        let x = spec_u64_from_le_bytes(wide);
        assert(spec_u64_to_le_bytes(x) == wide);
        if n == 4 {
            assert(wide[4] == 0u8 && wide[5] == 0u8 && wide[6] == 0u8 && wide[7] == 0u8);
            lemma_u64_fits_low_bytes(x);
        }
        let v = x as usize;
        assert(v.bytes_of() =~= bytes);
    }

    fn byte_len_checked() -> (r: Option<usize>) {
        proof {
            lemma_word_len();
        }
        Some((usize::BITS / 8) as usize)
    }

    fn zeroed() -> (r: Self) {
        proof {
            lemma_word_len();
            lemma_u64_zero_image();
            lemma_auto_spec_u64_to_from_le_bytes();
            let z: usize = 0;
            assert(z as u64 == 0u64);
            assert(z.bytes_of() == spec_u64_to_le_bytes(0u64).subrange(0, word_len() as int));
            assert(spec_u64_to_le_bytes(0u64).len() == 8);
            assert(z.bytes_of() =~= Seq::new(Self::byte_len(), |i: int| 0u8));
        }
        0
    }

    fn as_bytes(&self) -> (r: Vec<u8>) {
        proof {
            lemma_word_len();
            lemma_auto_spec_u64_to_from_le_bytes();
        }
        let mut r = u64_to_le_bytes(*self as u64);
        r.truncate((usize::BITS / 8) as usize);
        assert(r@ =~= self.bytes_of());
        r
    }

    fn from_bytes_unchecked(bytes: &[u8]) -> (r: Self) {
        proof {
            lemma_word_len();
            lemma_auto_spec_u64_to_from_le_bytes();
        }
        let mut wide: Vec<u8> = Vec::new();
        let mut k: usize = 0;
        while k < 8
            invariant
                k <= 8,
                bytes@.len() == word_len(),
                wide@.len() == k,
                forall|i: int| 0 <= i < k && i < word_len() ==> wide@[i] == bytes@[i],
                forall|i: int| word_len() <= i < k ==> wide@[i] == 0u8,
            decreases 8 - k,
        {
            if k < bytes.len() {
                wide.push(bytes[k]);
            } else {
                wide.push(0);
            }
            k = k + 1;
        }
        let x = u64_from_le_bytes(wide.as_slice());
        proof {
            assert(spec_u64_to_le_bytes(spec_u64_from_le_bytes(wide@)) == wide@);
            if word_len() == 4 {
                lemma_u64_fits_low_bytes(x);
            }
        }
        let r = x as usize;
        assert(r.bytes_of() =~= bytes@);
        r
    }
}

/// Reinterpreting a word as signed and back gives the same word, and the
/// unsigned view of a signed word determines it.
proof fn lemma_word_casts(u: usize, a: isize, b: isize)
    ensures
        (#[verifier::truncate] ((#[verifier::truncate] (u as isize)) as usize)) == u,
        (#[verifier::truncate] (a as usize)) == (#[verifier::truncate] (b as usize)) ==> a == b,
{
    assert((#[verifier::truncate] ((#[verifier::truncate] (u as isize)) as usize)) == u)
        by (bit_vector);
    assert((#[verifier::truncate] (a as usize)) == (#[verifier::truncate] (b as usize)) ==> a == b)
        by (bit_vector);
}

impl Pod for isize {
    /// The size of the target's machine word.
    open spec fn byte_len() -> nat {
        word_len()
    }

    /// The image of the word with the same bits, read as unsigned.
    open spec fn bytes_of(self) -> Seq<u8> {
        (#[verifier::truncate] (self as usize)).bytes_of()
    }

    proof fn lemma_bytes_len(self) {
        (#[verifier::truncate] (self as usize)).lemma_bytes_len();
    }

    proof fn lemma_bytes_injective(a: Self, b: Self) {
        usize::lemma_bytes_injective(
            #[verifier::truncate] (a as usize),
            #[verifier::truncate] (b as usize),
        );
        lemma_word_casts(0, a, b);
    }

    proof fn lemma_bytes_surjective(bytes: Seq<u8>) {
        usize::lemma_bytes_surjective(bytes);
        let u = choose|u: usize| u.bytes_of() == bytes;
        lemma_word_casts(u, 0, 0);
        assert((#[verifier::truncate] (u as isize)).bytes_of() == bytes);
    }

    fn byte_len_checked() -> (r: Option<usize>) {
        usize::byte_len_checked()
    }

    fn zeroed() -> (r: Self) {
        let u = usize::zeroed();
        proof {
            lemma_word_casts(u, 0, 0);
        }
        u as isize
    }

    fn as_bytes(&self) -> (r: Vec<u8>) {
        (*self as usize).as_bytes()
    }

    fn from_bytes_unchecked(bytes: &[u8]) -> (r: Self) {
        let u = usize::from_bytes_unchecked(bytes);
        proof {
            lemma_word_casts(u, 0, 0);
        }
        u as isize
    }
}

} // verus!

use vstd::bytes::*;
use vstd::prelude::*;

use crate::words::lemma_word_len;
use crate::Pod;

verus! {

/// The image of every integer type has exactly the type's size in memory.
pub proof fn lemma_sizes_match_layout()
    ensures
        u8::byte_len() == vstd::layout::size_of::<u8>(),
        i8::byte_len() == vstd::layout::size_of::<i8>(),
        u16::byte_len() == vstd::layout::size_of::<u16>(),
        i16::byte_len() == vstd::layout::size_of::<i16>(),
        u32::byte_len() == vstd::layout::size_of::<u32>(),
        i32::byte_len() == vstd::layout::size_of::<i32>(),
        u64::byte_len() == vstd::layout::size_of::<u64>(),
        i64::byte_len() == vstd::layout::size_of::<i64>(),
        u128::byte_len() == vstd::layout::size_of::<u128>(),
        i128::byte_len() == vstd::layout::size_of::<i128>(),
        usize::byte_len() == vstd::layout::size_of::<usize>(),
        isize::byte_len() == vstd::layout::size_of::<isize>(),
{
    broadcast use vstd::layout::layout_of_primitives;

    lemma_word_len();
    assert(vstd::layout::size_of::<usize>() * 8 == usize::BITS);
}

impl Pod for u8 {
    open spec fn byte_len() -> nat {
        1
    }

    open spec fn bytes_of(self) -> Seq<u8> {
        seq![self]
    }

    proof fn lemma_bytes_len(self) {
    }

    proof fn lemma_bytes_injective(a: Self, b: Self) {
        if a.bytes_of() == b.bytes_of() {
            assert(a == a.bytes_of()[0]);
        }
    }

    proof fn lemma_bytes_surjective(bytes: Seq<u8>) {
        assert(bytes[0].bytes_of() =~= bytes);
    }

    fn byte_len_checked() -> (r: Option<usize>) {
        Some(1)
    }

    fn zeroed() -> (r: Self) {
        let r: u8 = 0;
        assert(r.bytes_of() =~= Seq::new(1, |i: int| 0u8));
        r
    }

    fn as_bytes(&self) -> (r: Vec<u8>) {
        let r = vec![*self];
        assert(r@ =~= self.bytes_of());
        r
    }

    fn from_bytes_unchecked(bytes: &[u8]) -> (r: Self) {
        let r = bytes[0];
        assert(r.bytes_of() =~= bytes@);
        r
    }
}

impl Pod for i8 {
    open spec fn byte_len() -> nat {
        1
    }

    open spec fn bytes_of(self) -> Seq<u8> {
        seq![#[verifier::truncate] (self as u8)]
    }

    proof fn lemma_bytes_len(self) {
    }

    proof fn lemma_bytes_injective(a: Self, b: Self) {
        if a.bytes_of() == b.bytes_of() {
            assert(a.bytes_of()[0] == #[verifier::truncate] (a as u8));
            assert(b.bytes_of()[0] == #[verifier::truncate] (b as u8));
            assert((#[verifier::truncate] (a as u8)) == (#[verifier::truncate] (b as u8)) ==> a
                == b) by (bit_vector);
        }
    }

    proof fn lemma_bytes_surjective(bytes: Seq<u8>) {
        let u = bytes[0];
        assert((#[verifier::truncate] ((#[verifier::truncate] (u as i8)) as u8)) == u)
            by (bit_vector);
        assert((#[verifier::truncate] (u as i8)).bytes_of() =~= bytes);
    }

    fn byte_len_checked() -> (r: Option<usize>) {
        Some(1)
    }

    fn zeroed() -> (r: Self) {
        let r: i8 = 0;
        assert(r.bytes_of() =~= Seq::new(1, |i: int| 0u8));
        r
    }

    fn as_bytes(&self) -> (r: Vec<u8>) {
        let r = vec![*self as u8];
        assert(r@ =~= self.bytes_of());
        r
    }

    fn from_bytes_unchecked(bytes: &[u8]) -> (r: Self) {
        let u = bytes[0];
        proof {
            assert((#[verifier::truncate] ((#[verifier::truncate] (u as i8)) as u8)) == u)
                by (bit_vector);
        }
        let r = u as i8;
        assert(r.bytes_of() =~= bytes@);
        r
    }
}

/// The little-endian image of a `u16` has 2 bytes and decodes back to it,
/// and every 2 bytes are the image of the value they decode to.
proof fn lemma_u16_image(x: u16, bytes: Seq<u8>)
    ensures
        spec_u16_to_le_bytes(x).len() == 2,
        spec_u16_from_le_bytes(spec_u16_to_le_bytes(x)) == x,
        bytes.len() == 2 ==> spec_u16_to_le_bytes(spec_u16_from_le_bytes(bytes)) == bytes,
{
    lemma_auto_spec_u16_to_from_le_bytes();
    assert(spec_u16_to_le_bytes(x).len() == 2);
    if bytes.len() == 2 {
        assert(spec_u16_to_le_bytes(spec_u16_from_le_bytes(bytes)) == bytes);
    }
}

impl Pod for u16 {
    open spec fn byte_len() -> nat {
        2
    }

    open spec fn bytes_of(self) -> Seq<u8> {
        spec_u16_to_le_bytes(self)
    }

    proof fn lemma_bytes_len(self) {
        lemma_u16_image(self, Seq::empty());
    }

    proof fn lemma_bytes_injective(a: Self, b: Self) {
        lemma_u16_image(a, Seq::empty());
        lemma_u16_image(b, Seq::empty());
    }

    proof fn lemma_bytes_surjective(bytes: Seq<u8>) {
        lemma_u16_image(0, bytes);
        assert(spec_u16_from_le_bytes(bytes).bytes_of() == bytes);
    }

    fn byte_len_checked() -> (r: Option<usize>) {
        Some(2)
    }

    fn zeroed() -> (r: Self) {
        let z: [u8; 2] = [0u8; 2];
        assert(z@ =~= Seq::new(2, |i: int| 0u8));
        Self::from_bytes_unchecked(z.as_slice())
    }

    fn as_bytes(&self) -> (r: Vec<u8>) {
        u16_to_le_bytes(*self)
    }

    fn from_bytes_unchecked(bytes: &[u8]) -> (r: Self) {
        proof {
            lemma_u16_image(0, bytes@);
        }
        u16_from_le_bytes(bytes)
    }
}

impl Pod for i16 {
    open spec fn byte_len() -> nat {
        2
    }

    open spec fn bytes_of(self) -> Seq<u8> {
        spec_u16_to_le_bytes(#[verifier::truncate] (self as u16))
    }

    proof fn lemma_bytes_len(self) {
        lemma_u16_image(#[verifier::truncate] (self as u16), Seq::empty());
    }

    proof fn lemma_bytes_injective(a: Self, b: Self) {
        lemma_u16_image(#[verifier::truncate] (a as u16), Seq::empty());
        lemma_u16_image(#[verifier::truncate] (b as u16), Seq::empty());
        assert((#[verifier::truncate] (a as u16)) == (#[verifier::truncate] (b as u16)) ==> a == b)
            by (bit_vector);
    }

    proof fn lemma_bytes_surjective(bytes: Seq<u8>) {
        lemma_u16_image(0, bytes);
        let u = spec_u16_from_le_bytes(bytes);
        assert((#[verifier::truncate] ((#[verifier::truncate] (u as i16)) as u16)) == u)
            by (bit_vector);
        assert((#[verifier::truncate] (u as i16)).bytes_of() == bytes);
    }

    fn byte_len_checked() -> (r: Option<usize>) {
        Some(2)
    }

    fn zeroed() -> (r: Self) {
        let z: [u8; 2] = [0u8; 2];
        assert(z@ =~= Seq::new(2, |i: int| 0u8));
        Self::from_bytes_unchecked(z.as_slice())
    }

    fn as_bytes(&self) -> (r: Vec<u8>) {
        u16_to_le_bytes(*self as u16)
    }

    fn from_bytes_unchecked(bytes: &[u8]) -> (r: Self) {
        proof {
            lemma_u16_image(0, bytes@);
        }
        let u = u16_from_le_bytes(bytes);
        proof {
            assert((#[verifier::truncate] ((#[verifier::truncate] (u as i16)) as u16)) == u)
                by (bit_vector);
        }
        u as i16
    }
}

/// The little-endian image of a `u32` has 4 bytes and decodes back to it,
/// and every 4 bytes are the image of the value they decode to.
proof fn lemma_u32_image(x: u32, bytes: Seq<u8>)
    ensures
        spec_u32_to_le_bytes(x).len() == 4,
        spec_u32_from_le_bytes(spec_u32_to_le_bytes(x)) == x,
        bytes.len() == 4 ==> spec_u32_to_le_bytes(spec_u32_from_le_bytes(bytes)) == bytes,
{
    lemma_auto_spec_u32_to_from_le_bytes();
    assert(spec_u32_to_le_bytes(x).len() == 4);
    if bytes.len() == 4 {
        assert(spec_u32_to_le_bytes(spec_u32_from_le_bytes(bytes)) == bytes);
    }
}

impl Pod for u32 {
    open spec fn byte_len() -> nat {
        4
    }

    open spec fn bytes_of(self) -> Seq<u8> {
        spec_u32_to_le_bytes(self)
    }

    proof fn lemma_bytes_len(self) {
        lemma_u32_image(self, Seq::empty());
    }

    proof fn lemma_bytes_injective(a: Self, b: Self) {
        lemma_u32_image(a, Seq::empty());
        lemma_u32_image(b, Seq::empty());
    }

    proof fn lemma_bytes_surjective(bytes: Seq<u8>) {
        lemma_u32_image(0, bytes);
        assert(spec_u32_from_le_bytes(bytes).bytes_of() == bytes);
    }

    fn byte_len_checked() -> (r: Option<usize>) {
        Some(4)
    }

    fn zeroed() -> (r: Self) {
        let z: [u8; 4] = [0u8; 4];
        assert(z@ =~= Seq::new(4, |i: int| 0u8));
        Self::from_bytes_unchecked(z.as_slice())
    }

    fn as_bytes(&self) -> (r: Vec<u8>) {
        u32_to_le_bytes(*self)
    }

    fn from_bytes_unchecked(bytes: &[u8]) -> (r: Self) {
        proof {
            lemma_u32_image(0, bytes@);
        }
        u32_from_le_bytes(bytes)
    }
}

impl Pod for i32 {
    open spec fn byte_len() -> nat {
        4
    }

    open spec fn bytes_of(self) -> Seq<u8> {
        spec_u32_to_le_bytes(#[verifier::truncate] (self as u32))
    }

    proof fn lemma_bytes_len(self) {
        lemma_u32_image(#[verifier::truncate] (self as u32), Seq::empty());
    }

    proof fn lemma_bytes_injective(a: Self, b: Self) {
        lemma_u32_image(#[verifier::truncate] (a as u32), Seq::empty());
        lemma_u32_image(#[verifier::truncate] (b as u32), Seq::empty());
        assert((#[verifier::truncate] (a as u32)) == (#[verifier::truncate] (b as u32)) ==> a == b)
            by (bit_vector);
    }

    proof fn lemma_bytes_surjective(bytes: Seq<u8>) {
        lemma_u32_image(0, bytes);
        let u = spec_u32_from_le_bytes(bytes);
        assert((#[verifier::truncate] ((#[verifier::truncate] (u as i32)) as u32)) == u)
            by (bit_vector);
        assert((#[verifier::truncate] (u as i32)).bytes_of() == bytes);
    }

    fn byte_len_checked() -> (r: Option<usize>) {
        Some(4)
    }

    fn zeroed() -> (r: Self) {
        let z: [u8; 4] = [0u8; 4];
        assert(z@ =~= Seq::new(4, |i: int| 0u8));
        Self::from_bytes_unchecked(z.as_slice())
    }

    fn as_bytes(&self) -> (r: Vec<u8>) {
        u32_to_le_bytes(*self as u32)
    }

    fn from_bytes_unchecked(bytes: &[u8]) -> (r: Self) {
        proof {
            lemma_u32_image(0, bytes@);
        }
        let u = u32_from_le_bytes(bytes);
        proof {
            assert((#[verifier::truncate] ((#[verifier::truncate] (u as i32)) as u32)) == u)
                by (bit_vector);
        }
        u as i32
    }
}

/// The little-endian image of a `u64` has 8 bytes and decodes back to it,
/// and every 8 bytes are the image of the value they decode to.
proof fn lemma_u64_image(x: u64, bytes: Seq<u8>)
    ensures
        spec_u64_to_le_bytes(x).len() == 8,
        spec_u64_from_le_bytes(spec_u64_to_le_bytes(x)) == x,
        bytes.len() == 8 ==> spec_u64_to_le_bytes(spec_u64_from_le_bytes(bytes)) == bytes,
{
    lemma_auto_spec_u64_to_from_le_bytes();
    assert(spec_u64_to_le_bytes(x).len() == 8);
    if bytes.len() == 8 {
        assert(spec_u64_to_le_bytes(spec_u64_from_le_bytes(bytes)) == bytes);
    }
}

impl Pod for u64 {
    open spec fn byte_len() -> nat {
        8
    }

    open spec fn bytes_of(self) -> Seq<u8> {
        spec_u64_to_le_bytes(self)
    }

    proof fn lemma_bytes_len(self) {
        lemma_u64_image(self, Seq::empty());
    }

    proof fn lemma_bytes_injective(a: Self, b: Self) {
        lemma_u64_image(a, Seq::empty());
        lemma_u64_image(b, Seq::empty());
    }

    proof fn lemma_bytes_surjective(bytes: Seq<u8>) {
        lemma_u64_image(0, bytes);
        assert(spec_u64_from_le_bytes(bytes).bytes_of() == bytes);
    }

    fn byte_len_checked() -> (r: Option<usize>) {
        Some(8)
    }

    fn zeroed() -> (r: Self) {
        let z: [u8; 8] = [0u8; 8];
        assert(z@ =~= Seq::new(8, |i: int| 0u8));
        Self::from_bytes_unchecked(z.as_slice())
    }

    fn as_bytes(&self) -> (r: Vec<u8>) {
        u64_to_le_bytes(*self)
    }

    fn from_bytes_unchecked(bytes: &[u8]) -> (r: Self) {
        proof {
            lemma_u64_image(0, bytes@);
        }
        u64_from_le_bytes(bytes)
    }
}

impl Pod for i64 {
    open spec fn byte_len() -> nat {
        8
    }

    open spec fn bytes_of(self) -> Seq<u8> {
        spec_u64_to_le_bytes(#[verifier::truncate] (self as u64))
    }

    proof fn lemma_bytes_len(self) {
        lemma_u64_image(#[verifier::truncate] (self as u64), Seq::empty());
    }

    proof fn lemma_bytes_injective(a: Self, b: Self) {
        lemma_u64_image(#[verifier::truncate] (a as u64), Seq::empty());
        lemma_u64_image(#[verifier::truncate] (b as u64), Seq::empty());
        assert((#[verifier::truncate] (a as u64)) == (#[verifier::truncate] (b as u64)) ==> a == b)
            by (bit_vector);
    }

    proof fn lemma_bytes_surjective(bytes: Seq<u8>) {
        lemma_u64_image(0, bytes);
        let u = spec_u64_from_le_bytes(bytes);
        assert((#[verifier::truncate] ((#[verifier::truncate] (u as i64)) as u64)) == u)
            by (bit_vector);
        assert((#[verifier::truncate] (u as i64)).bytes_of() == bytes);
    }

    fn byte_len_checked() -> (r: Option<usize>) {
        Some(8)
    }

    fn zeroed() -> (r: Self) {
        let z: [u8; 8] = [0u8; 8];
        assert(z@ =~= Seq::new(8, |i: int| 0u8));
        Self::from_bytes_unchecked(z.as_slice())
    }

    fn as_bytes(&self) -> (r: Vec<u8>) {
        u64_to_le_bytes(*self as u64)
    }

    fn from_bytes_unchecked(bytes: &[u8]) -> (r: Self) {
        proof {
            lemma_u64_image(0, bytes@);
        }
        let u = u64_from_le_bytes(bytes);
        proof {
            assert((#[verifier::truncate] ((#[verifier::truncate] (u as i64)) as u64)) == u)
                by (bit_vector);
        }
        u as i64
    }
}

/// The little-endian image of a `u128` has 16 bytes and decodes back to it,
/// and every 16 bytes are the image of the value they decode to.
proof fn lemma_u128_image(x: u128, bytes: Seq<u8>)
    ensures
        spec_u128_to_le_bytes(x).len() == 16,
        spec_u128_from_le_bytes(spec_u128_to_le_bytes(x)) == x,
        bytes.len() == 16 ==> spec_u128_to_le_bytes(spec_u128_from_le_bytes(bytes)) == bytes,
{
    lemma_auto_spec_u128_to_from_le_bytes();
    assert(spec_u128_to_le_bytes(x).len() == 16);
    if bytes.len() == 16 {
        assert(spec_u128_to_le_bytes(spec_u128_from_le_bytes(bytes)) == bytes);
    }
}

impl Pod for u128 {
    open spec fn byte_len() -> nat {
        16
    }

    open spec fn bytes_of(self) -> Seq<u8> {
        spec_u128_to_le_bytes(self)
    }

    proof fn lemma_bytes_len(self) {
        lemma_u128_image(self, Seq::empty());
    }

    proof fn lemma_bytes_injective(a: Self, b: Self) {
        lemma_u128_image(a, Seq::empty());
        lemma_u128_image(b, Seq::empty());
    }

    proof fn lemma_bytes_surjective(bytes: Seq<u8>) {
        lemma_u128_image(0, bytes);
        assert(spec_u128_from_le_bytes(bytes).bytes_of() == bytes);
    }

    fn byte_len_checked() -> (r: Option<usize>) {
        Some(16)
    }

    fn zeroed() -> (r: Self) {
        let z: [u8; 16] = [0u8; 16];
        assert(z@ =~= Seq::new(16, |i: int| 0u8));
        Self::from_bytes_unchecked(z.as_slice())
    }

    fn as_bytes(&self) -> (r: Vec<u8>) {
        u128_to_le_bytes(*self)
    }

    fn from_bytes_unchecked(bytes: &[u8]) -> (r: Self) {
        proof {
            lemma_u128_image(0, bytes@);
        }
        u128_from_le_bytes(bytes)
    }
}

impl Pod for i128 {
    open spec fn byte_len() -> nat {
        16
    }

    open spec fn bytes_of(self) -> Seq<u8> {
        spec_u128_to_le_bytes(#[verifier::truncate] (self as u128))
    }

    proof fn lemma_bytes_len(self) {
        lemma_u128_image(#[verifier::truncate] (self as u128), Seq::empty());
    }

    proof fn lemma_bytes_injective(a: Self, b: Self) {
        lemma_u128_image(#[verifier::truncate] (a as u128), Seq::empty());
        lemma_u128_image(#[verifier::truncate] (b as u128), Seq::empty());
        assert((#[verifier::truncate] (a as u128)) == (#[verifier::truncate] (b as u128)) ==> a == b)
            by (bit_vector);
    }

    proof fn lemma_bytes_surjective(bytes: Seq<u8>) {
        lemma_u128_image(0, bytes);
        let u = spec_u128_from_le_bytes(bytes);
        assert((#[verifier::truncate] ((#[verifier::truncate] (u as i128)) as u128)) == u)
            by (bit_vector);
        assert((#[verifier::truncate] (u as i128)).bytes_of() == bytes);
    }

    fn byte_len_checked() -> (r: Option<usize>) {
        Some(16)
    }

    fn zeroed() -> (r: Self) {
        let z: [u8; 16] = [0u8; 16];
        assert(z@ =~= Seq::new(16, |i: int| 0u8));
        Self::from_bytes_unchecked(z.as_slice())
    }

    fn as_bytes(&self) -> (r: Vec<u8>) {
        u128_to_le_bytes(*self as u128)
    }

    fn from_bytes_unchecked(bytes: &[u8]) -> (r: Self) {
        proof {
            lemma_u128_image(0, bytes@);
        }
        let u = u128_from_le_bytes(bytes);
        proof {
            assert((#[verifier::truncate] ((#[verifier::truncate] (u as i128)) as u128)) == u)
                by (bit_vector);
        }
        u as i128
    }
}

} // verus!

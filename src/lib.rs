//! Plain-old-data values and their byte images.
//!
//! A type implements [`Pod`] when every value of it is exactly a fixed number
//! of bytes: no padding, no pointers, and every byte pattern of that length is
//! a valid value. The trait ties each value to its byte image (a `Seq<u8>`),
//! and its operations produce that image, rebuild a value from bytes checked
//! by length, write a value's image into a buffer, and change single bytes of
//! a value. The trait is implemented for the fixed-width and pointer-sized
//! integers and for arrays of any `Pod` element type.
//!
//! Byte images are in little-endian order, which is the storage order of a
//! value on little-endian targets.

mod primitives;
mod arrays;
mod words;
mod laws;

pub use laws::{
    decode, lemma_array_composition, lemma_array_flatten, lemma_byte_array_identity,
    lemma_byte_identity, lemma_decode_unique, lemma_image_size, lemma_round_trip,
    lemma_size_mismatch,
};
pub use primitives::lemma_sizes_match_layout;

use vstd::prelude::*;

verus! {

/// The single failure that the byte operations can detect.
#[derive(Debug, Clone, Copy, PartialEq, Eq, Structural)]
pub enum Error {
    /// A byte buffer's length differs from the size of the target type.
    Size,
}

impl Error {
    /// The error's text, which is empty: the variant itself says what failed.
    pub fn message(&self) -> (r: String)
        ensures
            r@ == ""@,
    {
        proof {
            reveal_strlit("");
        }
        String::new()
    }
}

/// The result of a byte operation, failing with the library's `Error` by
/// default.
pub type Result<T, E = Error> = core::result::Result<T, E>;

/// A type whose values are exactly their byte images.
///
/// An implementation states how a value maps to its bytes (`bytes_of`) and
/// proves that this map is a bijection between the type's values and the byte
/// sequences of length `byte_len()`: every value has an image of that length,
/// distinct values have distinct images, and every byte sequence of that
/// length is the image of some value.
pub trait Pod: Sized + Copy {
    /// The number of bytes in every value's image.
    spec fn byte_len() -> nat;

    /// The byte image of a value.
    spec fn bytes_of(self) -> Seq<u8>;

    /// Every image has length `byte_len()`.
    proof fn lemma_bytes_len(self)
        ensures
            self.bytes_of().len() == Self::byte_len(),
    ;

    /// Distinct values have distinct images.
    proof fn lemma_bytes_injective(a: Self, b: Self)
        ensures
            a.bytes_of() == b.bytes_of() ==> a == b,
    ;

    /// Every byte sequence of length `byte_len()` is the image of a value.
    proof fn lemma_bytes_surjective(bytes: Seq<u8>)
        requires
            bytes.len() == Self::byte_len(),
        ensures
            exists|v: Self| v.bytes_of() == bytes,
    ;

    /// The size of the type in bytes, or `None` where it exceeds `usize`.
    fn byte_len_checked() -> (r: Option<usize>)
        ensures
            r == (if Self::byte_len() <= usize::MAX {
                Some(Self::byte_len() as usize)
            } else {
                None::<usize>
            }),
    ;

    /// The value whose image is all zero bytes.
    fn zeroed() -> (r: Self)
        ensures
            r.bytes_of() == Seq::new(Self::byte_len(), |i: int| 0u8),
    ;

    /// The byte image of `self`.
    fn as_bytes(&self) -> (r: Vec<u8>)
        ensures
            r@ == self.bytes_of(),
    ;

    /// The value whose image is `bytes`; the caller has checked the length.
    fn from_bytes_unchecked(bytes: &[u8]) -> (r: Self)
        requires
            bytes@.len() == Self::byte_len(),
        ensures
            r.bytes_of() == bytes@,
    ;

    /// The value whose image is `bytes`, or `Error::Size` where the length of
    /// `bytes` differs from the size of the type.
    fn from_bytes(bytes: &[u8]) -> (r: Result<Self, Error>)
        ensures
            r is Ok <==> bytes@.len() == Self::byte_len(),
            r matches Ok(v) ==> v.bytes_of() == bytes@,
            r matches Err(e) ==> e == Error::Size,
    {
        if Self::length_matches(bytes) {
            Ok(Self::from_bytes_unchecked(bytes))
        } else {
            Err(Error::Size)
        }
    }

    /// Overwrites byte `i` of `self`'s image with `b`; no other byte changes.
    fn set_byte(&mut self, i: usize, b: u8)
        requires
            i < old(self).bytes_of().len(),
        ensures
            final(self).bytes_of() == old(self).bytes_of().update(i as int, b),
    {
        let mut bytes = self.as_bytes();
        bytes.set(i, b);
        proof {
            self.lemma_bytes_len();
        }
        *self = Self::from_bytes_unchecked(bytes.as_slice());
    }

    /// Overwrites `self` with the value whose image is `bytes`, or leaves it
    /// unchanged and returns `Error::Size` where the length of `bytes` differs
    /// from the size of the type.
    fn copy_from_bytes(&mut self, bytes: &[u8]) -> (r: Result<(), Error>)
        ensures
            r is Ok <==> bytes@.len() == Self::byte_len(),
            r is Ok ==> final(self).bytes_of() == bytes@,
            r matches Err(e) ==> e == Error::Size && *final(self) == *old(self),
    {
        if Self::length_matches(bytes) {
            *self = Self::from_bytes_unchecked(bytes);
            Ok(())
        } else {
            Err(Error::Size)
        }
    }

    /// Writes `self`'s image into `bytes`; the caller has checked the length.
    fn write_bytes_unchecked(&self, bytes: &mut [u8])
        requires
            old(bytes)@.len() == Self::byte_len(),
        ensures
            final(bytes)@ == self.bytes_of(),
    {
        let image = self.as_bytes();
        proof {
            self.lemma_bytes_len();
        }
        let n = image.len();
        let mut k: usize = 0;
        while k < n
            invariant
                n == image@.len(),
                image@ == self.bytes_of(),
                bytes@.len() == n,
                k <= n,
                forall|j: int| 0 <= j < k ==> bytes@[j] == image@[j],
            decreases n - k,
        {
            bytes[k] = image[k];
            k = k + 1;
        }
        assert(bytes@ =~= self.bytes_of());
    }

    /// Writes `self`'s image into `bytes`, or leaves `bytes` unchanged and
    /// returns `Error::Size` where its length differs from the size of the
    /// type.
    fn write_bytes(&self, bytes: &mut [u8]) -> (r: Result<(), Error>)
        ensures
            r is Ok <==> old(bytes)@.len() == Self::byte_len(),
            r is Ok ==> final(bytes)@ == self.bytes_of(),
            r matches Err(e) ==> e == Error::Size && final(bytes)@ == old(bytes)@,
    {
        if Self::length_matches(bytes) {
            self.write_bytes_unchecked(bytes);
            Ok(())
        } else {
            Err(Error::Size)
        }
    }

    /// Whether `bytes` has exactly the size of the type.
    fn length_matches(bytes: &[u8]) -> (r: bool)
        ensures
            r == (bytes@.len() == Self::byte_len()),
    {
        let len = bytes.len();
        match Self::byte_len_checked() {
            Some(n) => len == n,
            None => false,
        }
    }
}

} // verus!

use vstd::prelude::*;

use crate::arrays::{lemma_chunk_position, lemma_chunk_split};
use crate::{Error, Pod};

verus! {

/// What decoding `bytes` as a `T` gives: the value whose image is `bytes`,
/// or `Error::Size` where the length of `bytes` is not the size of `T`.
pub open spec fn decode<T: Pod>(bytes: Seq<u8>) -> Result<T, Error> {
    if bytes.len() == T::byte_len() {
        Ok(choose|v: T| v.bytes_of() == bytes)
    } else {
        Err(Error::Size)
    }
}

/// A value decodes from its own image.
pub(crate) proof fn lemma_decode_value<T: Pod>(v: T, bytes: Seq<u8>)
    requires
        v.bytes_of() == bytes,
    ensures
        decode::<T>(bytes) == Ok::<T, Error>(v),
{
    v.lemma_bytes_len();
    assert(v.bytes_of() == bytes);
    let w = decode::<T>(bytes)->Ok_0;
    assert(w.bytes_of() == bytes);
    T::lemma_bytes_injective(v, w);
}

/// Reading a value back from its own image gives the value: decoding
/// `v`'s image succeeds and returns `v`, whose image is that same image.
pub proof fn lemma_round_trip<T: Pod>(v: T)
    ensures
        decode::<T>(v.bytes_of()) == Ok::<T, Error>(v),
{
    lemma_decode_value(v, v.bytes_of());
}

/// What `from_bytes` promises determines its result: a result that is `Ok`
/// exactly on buffers of the type's size, and whose value has the buffer as
/// its image, is `decode` of the buffer.
pub proof fn lemma_decode_unique<T: Pod>(bytes: Seq<u8>, r: Result<T, Error>)
    requires
        r is Ok <==> bytes.len() == T::byte_len(),
        r matches Ok(v) ==> v.bytes_of() == bytes,
        r matches Err(e) ==> e == Error::Size,
    ensures
        r == decode::<T>(bytes),
{
    if let Ok(v) = r {
        lemma_decode_value(v, bytes);
    }
}

/// Every value's image has exactly the size of its type, whatever the value.
pub proof fn lemma_image_size<T: Pod>(v: T)
    ensures
        v.bytes_of().len() == T::byte_len(),
{
    v.lemma_bytes_len();
}

/// Decoding fails with `Error::Size` exactly on buffers whose length is not
/// the size of the type, one byte short or one byte over among them, and
/// succeeds on every buffer of exactly that size, with a value whose image
/// is the buffer.
pub proof fn lemma_size_mismatch<T: Pod>(bytes: Seq<u8>)
    ensures
        decode::<T>(bytes) is Ok <==> bytes.len() == T::byte_len(),
        bytes.len() != T::byte_len() ==> decode::<T>(bytes) == Err::<T, Error>(Error::Size),
        bytes.len() + 1 == T::byte_len() ==> decode::<T>(bytes) == Err::<T, Error>(Error::Size),
        bytes.len() == T::byte_len() + 1 ==> decode::<T>(bytes) == Err::<T, Error>(Error::Size),
        bytes.len() == T::byte_len() ==> decode::<T>(bytes)->Ok_0.bytes_of() == bytes,
{
    if bytes.len() == T::byte_len() {
        T::lemma_bytes_surjective(bytes);
    }
}

/// The image of an array of `N` elements has `N` times the size of an
/// element, and is the elements' images one after another: the bytes from
/// `k * size` up to `(k + 1) * size` are the image of element `k`.
pub proof fn lemma_array_composition<T: Pod, const N: usize>(a: [T; N])
    ensures
        a.bytes_of().len() == N as nat * T::byte_len(),
        forall|k: int|
            0 <= k < N ==> a.bytes_of().subrange(
                k * T::byte_len(),
                (k + 1) * T::byte_len(),
            ) == #[trigger] a@[k].bytes_of(),
{
    let s = T::byte_len() as int;
    assert forall|k: int| 0 <= k < N implies a.bytes_of().subrange(k * s, (k + 1) * s)
        == #[trigger] a@[k].bytes_of() by {
        a@[k].lemma_bytes_len();
        assert((k + 1) * s == k * s + s) by (nonlinear_arith);
        assert forall|j: int| 0 <= j < s implies a.bytes_of()[k * s + j]
            == a@[k].bytes_of()[j] by {
            lemma_chunk_position(k, j, s, N as int);
        }
        if s > 0 {
            lemma_chunk_position(k, 0, s, N as int);
        }
        assert(a.bytes_of().subrange(k * s, (k + 1) * s) =~= a@[k].bytes_of());
    }
}

/// Concatenating sequences that all have length `s` puts byte `j` of
/// sequence `k` at index `k * s + j`.
proof fn lemma_flatten_uniform(c: Seq<Seq<u8>>, s: int)
    requires
        s >= 0,
        forall|k: int| 0 <= k < c.len() ==> #[trigger] c[k].len() == s,
    ensures
        c.flatten().len() == c.len() * s,
        forall|k: int, j: int|
            0 <= k < c.len() && 0 <= j < s ==> c.flatten()[k * s + j] == #[trigger] c[k][j],
    decreases c.len(),
{
    if c.len() > 0 {
        let rest = c.drop_first();
        lemma_flatten_uniform(rest, s);
        assert(c.flatten() == c[0] + rest.flatten());
        assert(c.len() * s == s + rest.len() * s) by (nonlinear_arith)
            requires
                rest.len() == c.len() - 1,
        ;
        assert forall|k: int, j: int| 0 <= k < c.len() && 0 <= j < s implies c.flatten()[k * s + j]
            == #[trigger] c[k][j] by {
            if k > 0 {
                assert(k * s + j - s == (k - 1) * s + j) by (nonlinear_arith);
                assert(k * s + j >= s) by (nonlinear_arith)
                    requires
                        k >= 1,
                        j >= 0,
                        s >= 0,
                ;
                assert((k - 1) * s + j < rest.len() * s) by (nonlinear_arith)
                    requires
                        0 <= k - 1 < rest.len(),
                        0 <= j < s,
                ;
                assert(rest[k - 1] == c[k]);
                assert(rest.flatten()[(k - 1) * s + j] == rest[k - 1][j]);
                assert(c.flatten()[k * s + j] == rest.flatten()[(k - 1) * s + j]);
            } else {
                assert(k * s == 0) by (nonlinear_arith)
                    requires
                        k == 0,
                ;
            }
        }
    }
}

/// The image of an array is the concatenation of its elements' images, in
/// index order.
pub proof fn lemma_array_flatten<T: Pod, const N: usize>(a: [T; N])
    ensures
        a.bytes_of() == a@.map_values(|e: T| e.bytes_of()).flatten(),
{
    let s = T::byte_len() as int;
    let c = a@.map_values(|e: T| e.bytes_of());
    assert forall|k: int| 0 <= k < c.len() implies #[trigger] c[k].len() == s by {
        a@[k].lemma_bytes_len();
    }
    lemma_flatten_uniform(c, s);
    if s > 0 {
        assert forall|i: int| 0 <= i < N * s implies a.bytes_of()[i] == c.flatten()[i] by {
            lemma_chunk_split(i, s, N as int);
            let (k, j) = (i / s, i % s);
            assert(c.flatten()[k * s + j] == c[k][j]);
        }
    } else {
        assert(N as nat * T::byte_len() == 0) by (nonlinear_arith)
            requires
                T::byte_len() == 0,
        ;
        assert(c.len() * s == 0) by (nonlinear_arith)
            requires
                s == 0,
        ;
    }
    assert(a.bytes_of() =~= c.flatten());
}

/// A byte is its own image.
pub proof fn lemma_byte_identity(v: u8)
    ensures
        v.bytes_of() == seq![v],
{
}

/// An array of bytes is its own image: byte `i` of the image is element `i`.
pub proof fn lemma_byte_array_identity<const N: usize>(a: [u8; N])
    ensures
        a.bytes_of() == a@,
{
    assert(a.bytes_of() =~= a@);
}

} // verus!

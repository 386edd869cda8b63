use vstd::arithmetic::div_mod::lemma_fundamental_div_mod_converse;
use vstd::prelude::*;

use crate::Pod;

verus! {

/// Byte `j` of element `k` sits at index `k * s + j` of an image made of
/// `n` chunks of `s` bytes each.
pub(crate) proof fn lemma_chunk_position(k: int, j: int, s: int, n: int)
    requires
        0 <= k < n,
        0 <= j < s,
    ensures
        0 <= k * s,
        k * s + j < n * s,
        k * s + s <= n * s,
        (k * s + j) / s == k,
        (k * s + j) % s == j,
{
    assert(0 <= k * s) by (nonlinear_arith)
        requires
            0 <= k,
            0 <= s,
    ;
    assert(k * s + s <= n * s) by (nonlinear_arith)
        requires
            k < n,
            0 <= s,
    ;
    lemma_fundamental_div_mod_converse(k * s + j, s, k, j);
}

/// Index `i` of an image made of `n` chunks of `s` bytes each is byte
/// `i % s` of chunk `i / s`.
pub(crate) proof fn lemma_chunk_split(i: int, s: int, n: int)
    requires
        0 <= i < n * s,
        0 < s,
    ensures
        0 <= i / s < n,
        0 <= i % s < s,
        i == (i / s) * s + i % s,
{
    let (k, j) = (i / s, i % s);
    assert(i == k * s + j && 0 <= j < s) by (nonlinear_arith)
        requires
            k == i / s,
            j == i % s,
            0 < s,
    ;
    assert(0 <= k < n) by (nonlinear_arith)
        requires
            i == k * s + j,
            0 <= j < s,
            0 <= i < n * s,
    ;
}

/// An array whose elements before index `k` have, in order, the chunks of
/// `T::byte_len()` bytes of `bytes` as images.
spec fn assemble<T: Pod, const N: usize>(bytes: Seq<u8>, k: nat) -> [T; N]
    decreases k,
{
    if k == 0 {
        vstd::array::spec_array_fill_for_copy_type(vstd::pervasive::arbitrary::<T>())
    } else {
        let s = T::byte_len() as int;
        let m = k - 1;
        vstd::array::spec_array_update(
            assemble::<T, N>(bytes, m as nat),
            m,
            choose|v: T| v.bytes_of() == bytes.subrange(m * s, m * s + s),
        )
    }
}

proof fn lemma_assemble<T: Pod, const N: usize>(bytes: Seq<u8>, k: nat)
    requires
        bytes.len() == N as nat * T::byte_len(),
        k <= N,
    ensures
        forall|m: int|
            0 <= m < k ==> #[trigger] assemble::<T, N>(bytes, k)@[m].bytes_of() == bytes.subrange(
                m * T::byte_len(),
                m * T::byte_len() + T::byte_len(),
            ),
    decreases k,
{
    if k > 0 {
        let s = T::byte_len() as int;
        let m = k - 1;
        lemma_assemble::<T, N>(bytes, m as nat);
        assert(0 <= m * s && m * s + s <= N * s) by (nonlinear_arith)
            requires
                0 <= m < N,
                s >= 0,
        ;
        T::lemma_bytes_surjective(bytes.subrange(m * s, m * s + s));
        let prev = assemble::<T, N>(bytes, m as nat);
        let e = choose|v: T| v.bytes_of() == bytes.subrange(m * s, m * s + s);
        broadcast use vstd::array::axiom_spec_array_update;

        assert(assemble::<T, N>(bytes, k)@ == prev@.update(m, e));
    }
}

impl<T: Pod, const N: usize> Pod for [T; N] {
    /// `N` elements of `T::byte_len()` bytes each.
    open spec fn byte_len() -> nat {
        N as nat * T::byte_len()
    }

    /// The elements' images, one after another in index order.
    open spec fn bytes_of(self) -> Seq<u8> {
        Seq::new(
            N as nat * T::byte_len(),
            |i: int| self@[i / T::byte_len() as int].bytes_of()[i % T::byte_len() as int],
        )
    }

    proof fn lemma_bytes_len(self) {
    }

    proof fn lemma_bytes_injective(a: Self, b: Self) {
        let s = T::byte_len() as int;
        if a.bytes_of() == b.bytes_of() {
            assert forall|k: int| 0 <= k < N implies a@[k] == b@[k] by {
                a@[k].lemma_bytes_len();
                b@[k].lemma_bytes_len();
                assert forall|j: int| 0 <= j < s implies a@[k].bytes_of()[j]
                    == b@[k].bytes_of()[j] by {
                    lemma_chunk_position(k, j, s, N as int);
                    assert(a.bytes_of()[k * s + j] == b.bytes_of()[k * s + j]);
                }
                assert(a@[k].bytes_of() =~= b@[k].bytes_of());
                T::lemma_bytes_injective(a@[k], b@[k]);
            }
            assert(a =~= b);
        }
    }

    proof fn lemma_bytes_surjective(bytes: Seq<u8>) {
        let s = T::byte_len() as int;
        lemma_assemble::<T, N>(bytes, N as nat);
        let a = assemble::<T, N>(bytes, N as nat);
        if s > 0 {
            assert forall|i: int| 0 <= i < N * s implies a.bytes_of()[i] == bytes[i] by {
                lemma_chunk_split(i, s, N as int);
                let (m, j) = (i / s, i % s);
                lemma_chunk_position(m, j, s, N as int);
            }
        } else {
            assert(N as nat * T::byte_len() == 0) by (nonlinear_arith)
                requires
                    T::byte_len() == 0,
            ;
        }
        assert(a.bytes_of() =~= bytes);
    }

    fn byte_len_checked() -> (r: Option<usize>) {
        match T::byte_len_checked() {
            Some(s) => {
                assert(s as int * N as int == N as nat * T::byte_len()) by (nonlinear_arith)
                    requires
                        s == T::byte_len(),
                ;
                s.checked_mul(N)
            },
            None => {
                if N == 0 {
                    Some(0)
                } else {
                    assert(N as nat * T::byte_len() > usize::MAX) by (nonlinear_arith)
                        requires
                            N >= 1,
                            T::byte_len() > usize::MAX,
                    ;
                    None
                }
            },
        }
    }

    fn zeroed() -> (r: Self) {
        let z = T::zeroed();
        let r: [T; N] = [z; N];
        proof {
            let s = T::byte_len() as int;
            z.lemma_bytes_len();
            assert forall|i: int| 0 <= i < N * s implies r.bytes_of()[i] == 0u8 by {
                lemma_chunk_split(i, s, N as int);
            }
            assert(r.bytes_of() =~= Seq::new(Self::byte_len(), |i: int| 0u8));
        }
        r
    }

    fn as_bytes(&self) -> (r: Vec<u8>) {
        let ghost s = T::byte_len() as int;
        let mut out: Vec<u8> = Vec::new();
        let mut k: usize = 0;
        while k < N
            invariant
                k <= N,
                s == T::byte_len(),
                out@.len() == k * s,
                forall|i: int| 0 <= i < k * s ==> out@[i] == self.bytes_of()[i],
            decreases N - k,
        {
            let image = self[k].as_bytes();
            proof {
                self@[k as int].lemma_bytes_len();
            }
            let mut j: usize = 0;
            while j < image.len()
                invariant
                    k < N,
                    s == T::byte_len(),
                    image@ == self@[k as int].bytes_of(),
                    image@.len() == s,
                    j <= s,
                    out@.len() == k * s + j,
                    forall|i: int| 0 <= i < k * s + j ==> out@[i] == self.bytes_of()[i],
                decreases s - j,
            {
                proof {
                    lemma_chunk_position(k as int, j as int, s, N as int);
                }
                out.push(image[j]);
                j = j + 1;
            }
            proof {
                assert((k + 1) * s == k * s + s) by (nonlinear_arith);
            }
            k = k + 1;
        }
        assert(out@ =~= self.bytes_of());
        out
    }

    fn from_bytes_unchecked(bytes: &[u8]) -> (r: Self) {
        let ghost s = T::byte_len() as int;
        let mut r: [T; N] = Self::zeroed();
        if N == 0 {
            assert(r.bytes_of() =~= bytes@);
            return r;
        }
        let len = bytes.len();
        let w = len / N;
        proof {
            assert(len as int == s * N) by (nonlinear_arith)
                requires
                    len as int == N as nat * s,
            ;
            lemma_fundamental_div_mod_converse(len as int, N as int, s, 0);
        }
        let mut k: usize = 0;
        while k < N
            invariant
                0 < N,
                k <= N,
                s == T::byte_len(),
                w == s,
                len == bytes@.len(),
                bytes@.len() == N * s,
                forall|m: int|
                    0 <= m < k ==> #[trigger] r@[m].bytes_of() == bytes@.subrange(
                        m * s,
                        m * s + s,
                    ),
            decreases N - k,
        {
            proof {
                assert(0 <= k * s && k * s + s <= N * s) by (nonlinear_arith)
                    requires
                        k < N,
                        s >= 0,
                ;
            }
            let start = k * w;
            let chunk = vstd::slice::slice_subrange(bytes, start, start + w);
            let e = T::from_bytes_unchecked(chunk);
            r[k] = e;
            k = k + 1;
        }
        proof {
            if s > 0 {
                assert forall|i: int| 0 <= i < N * s implies r.bytes_of()[i] == bytes@[i] by {
                    lemma_chunk_split(i, s, N as int);
                    let (m, j) = (i / s, i % s);
                    lemma_chunk_position(m, j, s, N as int);
                }
            } else {
                assert(N as nat * T::byte_len() == 0) by (nonlinear_arith)
                    requires
                        T::byte_len() == 0,
                ;
            }
            assert(r.bytes_of() =~= bytes@);
        }
        r
    }
}

} // verus!

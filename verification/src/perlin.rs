//! The lattice behind gradient noise: three random permutations that assign
//! a random vector to every point with integer coordinates.

use crate::numbering::{
    count_up, is_permutation, lemma_count_up_no_duplicates, lemma_full_table_is_permutation,
    lemma_permutation_is_below, lemma_same_items_no_duplicates, numbered,
};
use crate::vec3::Vec3;
use rand::seq::SliceRandom;
use vstd::prelude::*;

verus! {

/// The number of random vectors, and the length of each permutation.
pub const POINT_COUNT: usize = 256;

/// The place of an integer coordinate in a table of [`POINT_COUNT`] entries:
/// the coordinate modulo the length of the table.
pub open spec fn spec_wrap(coordinate: int) -> int {
    coordinate % 256
}

/// Brings a vector into a random order.
///
/// Calls `rand::seq::SliceRandom::shuffle` on the vector's slice, with the
/// generator of the current thread, `rand::thread_rng()`. The call swaps
/// items of the slice with each other and does nothing else to it, so the
/// vector holds afterwards what it held before. Nothing is claimed of the
/// order. The generator itself panics where the system gives it no seed.
#[verifier::external_body]
fn shuffle(perm: &mut Vec<usize>)
    ensures
        final(perm)@.to_multiset() == old(perm)@.to_multiset(),
{
    perm.shuffle(&mut rand::thread_rng());
}

/// A random permutation of `0..POINT_COUNT`.
pub fn generate_perm() -> (perm: Vec<usize>)
    ensures
        perm@.len() == POINT_COUNT,
        is_permutation(perm@),
{
    let mut perm = numbered(POINT_COUNT);
    let ghost before = perm@;
    shuffle(&mut perm);
    proof {
        before.to_multiset_ensures();
        perm@.to_multiset_ensures();
    }
    perm
}

/// Whether the table is a permutation of `0..POINT_COUNT`.
pub fn check_perm(perm: &Vec<usize>) -> (r: bool)
    ensures
        r == (perm@.len() == POINT_COUNT && is_permutation(perm@)),
{
    if perm.len() != POINT_COUNT {
        return false;
    }
    let mut seen: Vec<bool> = Vec::new();
    let mut i: usize = 0;
    while i < POINT_COUNT
        invariant
            i <= POINT_COUNT,
            seen@.len() == i,
            forall|k: int| 0 <= k < i ==> !seen@[k],
        decreases POINT_COUNT - i,
    {
        seen.push(false);
        i += 1;
    }
    let mut j: usize = 0;
    while j < POINT_COUNT
        invariant
            j <= POINT_COUNT,
            perm@.len() == POINT_COUNT,
            seen@.len() == POINT_COUNT,
            forall|k: int| 0 <= k < j ==> #[trigger] perm@[k] < POINT_COUNT,
            perm@.take(j as int).no_duplicates(),
            forall|v: int|
                0 <= v < POINT_COUNT ==> (#[trigger] seen@[v] <==> perm@.take(j as int).contains(
                    v as usize,
                )),
        decreases POINT_COUNT - j,
    {
        let v = perm[j];
        if v >= POINT_COUNT {
            proof {
                if is_permutation(perm@) {
                    lemma_permutation_is_below(perm@);
                }
            }
            return false;
        }
        if seen[v] {
            proof {
                let head = perm@.take(j as int);
                let k = choose|k: int| 0 <= k < head.len() && head[k] == v;
                assert(perm@[k] == v);
                if is_permutation(perm@) {
                    lemma_count_up_no_duplicates(POINT_COUNT as int);
                    lemma_same_items_no_duplicates(perm@, count_up(POINT_COUNT as int));
                }
            }
            return false;
        }
        seen.set(v, true);
        proof {
            let head = perm@.take(j as int);
            let next = perm@.take(j + 1);
            assert(next =~= head.push(v));
            assert forall|a: int, b: int|
                0 <= a < next.len() && 0 <= b < next.len() && a != b implies next[a] != next[b] by {
                if a < j && b < j {
                    assert(head[a] != head[b]);
                } else if a < j {
                    assert(head.contains(head[a]));
                } else {
                    assert(head.contains(head[b]));
                }
            }
            assert forall|w: int| 0 <= w < POINT_COUNT implies (#[trigger] seen@[w] <==> next.contains(
                w as usize,
            )) by {
                if w == v {
                    assert(next[j as int] == v);
                } else {
                    if head.contains(w as usize) {
                        let k = choose|k: int| 0 <= k < head.len() && head[k] == w as usize;
                        assert(next[k] == w as usize);
                    }
                    if next.contains(w as usize) {
                        let k = choose|k: int| 0 <= k < next.len() && next[k] == w as usize;
                        assert(head[k] == w as usize);
                    }
                }
            }
        }
        j += 1;
    }
    proof {
        assert(perm@.take(j as int) =~= perm@);
        lemma_full_table_is_permutation(perm@);
    }
    true
}

/// The place of `coordinate + step` in a table of [`POINT_COUNT`] entries.
pub fn wrap(coordinate: i32, step: u8) -> (r: usize)
    ensures
        r == spec_wrap(coordinate + step),
        r < POINT_COUNT,
{
    let s: i64 = coordinate as i64 + step as i64;
    if s >= 0 {
        (s % 256) as usize
    } else {
        let back: i64 = (-s - 1) % 256;
        (255 - back) as usize
    }
}

/// The lattice of random vectors.
pub struct Perlin {
    random_vectors: Vec<Vec3>,
    perm_x: Vec<usize>,
    perm_y: Vec<usize>,
    perm_z: Vec<usize>,
}

/// The bitwise exclusive or of three table entries is a place in a table.
proof fn lemma_xor_stays_in_table(a: usize, b: usize, c: usize)
    by (bit_vector)
    requires
        a < 256,
        b < 256,
        c < 256,
    ensures
        a ^ b ^ c < 256,
{
}

impl Perlin {
    #[verifier::type_invariant]
    spec fn tables_match(self) -> bool {
        &&& self.random_vectors@.len() == POINT_COUNT
        &&& self.perm_x@.len() == POINT_COUNT
        &&& self.perm_y@.len() == POINT_COUNT
        &&& self.perm_z@.len() == POINT_COUNT
        &&& is_permutation(self.perm_x@)
        &&& is_permutation(self.perm_y@)
        &&& is_permutation(self.perm_z@)
    }

    /// The random vectors.
    pub closed spec fn vectors(self) -> Seq<Vec3> {
        self.random_vectors@
    }

    /// The three permutations, for x, y and z.
    pub closed spec fn perms(self) -> (Seq<usize>, Seq<usize>, Seq<usize>) {
        (self.perm_x@, self.perm_y@, self.perm_z@)
    }

    /// The vector at the lattice point `(i, j, k)`.
    pub open spec fn spec_vector_at(self, i: int, j: int, k: int) -> Vec3 {
        self.vectors()[(self.perms().0[spec_wrap(i)] ^ self.perms().1[spec_wrap(j)]
            ^ self.perms().2[spec_wrap(k)]) as int]
    }

    /// A lattice over the given vectors, with three fresh random
    /// permutations. Needs exactly [`POINT_COUNT`] vectors, else there is no
    /// lattice.
    pub fn new(random_vectors: Vec<Vec3>) -> (r: Option<Perlin>)
        ensures
            r is Some <==> random_vectors@.len() == POINT_COUNT,
            r is Some ==> r->0.vectors() == random_vectors@,
    {
        Perlin::with_perms(random_vectors, generate_perm(), generate_perm(), generate_perm())
    }

    /// A lattice over the given vectors and permutations. Needs exactly
    /// [`POINT_COUNT`] vectors and three permutations of `0..POINT_COUNT`,
    /// else there is no lattice.
    pub fn with_perms(
        random_vectors: Vec<Vec3>,
        perm_x: Vec<usize>,
        perm_y: Vec<usize>,
        perm_z: Vec<usize>,
    ) -> (r: Option<Perlin>)
        ensures
            r is Some <==> {
                &&& random_vectors@.len() == POINT_COUNT
                &&& perm_x@.len() == POINT_COUNT && is_permutation(perm_x@)
                &&& perm_y@.len() == POINT_COUNT && is_permutation(perm_y@)
                &&& perm_z@.len() == POINT_COUNT && is_permutation(perm_z@)
            },
            r is Some ==> r->0.vectors() == random_vectors@ && r->0.perms() == (
                perm_x@,
                perm_y@,
                perm_z@,
            ),
    {
        if random_vectors.len() == POINT_COUNT && check_perm(&perm_x) && check_perm(&perm_y)
            && check_perm(&perm_z) {
            Some(Perlin { random_vectors, perm_x, perm_y, perm_z })
        } else {
            None
        }
    }

    /// The permutation for x.
    pub fn perm_x(&self) -> (r: &Vec<usize>)
        ensures
            r@ == self.perms().0,
            r@.len() == POINT_COUNT,
            is_permutation(r@),
    {
        proof {
            use_type_invariant(self);
        }
        &self.perm_x
    }

    /// The permutation for y.
    pub fn perm_y(&self) -> (r: &Vec<usize>)
        ensures
            r@ == self.perms().1,
            r@.len() == POINT_COUNT,
            is_permutation(r@),
    {
        proof {
            use_type_invariant(self);
        }
        &self.perm_y
    }

    /// The permutation for z.
    pub fn perm_z(&self) -> (r: &Vec<usize>)
        ensures
            r@ == self.perms().2,
            r@.len() == POINT_COUNT,
            is_permutation(r@),
    {
        proof {
            use_type_invariant(self);
        }
        &self.perm_z
    }

    /// The vector at the lattice point `(i + di, j + dj, k + dk)`: the three
    /// coordinates, each modulo the length of the tables, are looked up in
    /// the three permutations, and the bitwise exclusive or of what is found
    /// there says which of the random vectors it is.
    pub fn vector_at(&self, i: i32, j: i32, k: i32, di: u8, dj: u8, dk: u8) -> (r: Vec3)
        ensures
            r == self.spec_vector_at(i + di, j + dj, k + dk),
    {
        proof {
            use_type_invariant(self);
            lemma_permutation_is_below(self.perm_x@);
            lemma_permutation_is_below(self.perm_y@);
            lemma_permutation_is_below(self.perm_z@);
        }
        let a = self.perm_x[wrap(i, di)];
        let b = self.perm_y[wrap(j, dj)];
        let c = self.perm_z[wrap(k, dk)];
        proof {
            lemma_xor_stays_in_table(a, b, c);
        }
        self.random_vectors[a ^ b ^ c]
    }

    /// The vectors at the eight corners of the lattice cell whose lowest
    /// corner is `(i, j, k)`. The corner `(i + di, j + dj, k + dk)` stands at
    /// `4 * di + 2 * dj + dk`.
    pub fn corners(&self, i: i32, j: i32, k: i32) -> (r: Vec<Vec3>)
        ensures
            r@.len() == 8,
            forall|c: int|
                0 <= c < 8 ==> #[trigger] r@[c] == self.spec_vector_at(
                    i + c / 4 % 2,
                    j + c / 2 % 2,
                    k + c % 2,
                ),
    {
        let mut out: Vec<Vec3> = Vec::new();
        let mut c: u8 = 0;
        while c < 8
            invariant
                c <= 8,
                out@.len() == c,
                forall|d: int|
                    0 <= d < c ==> #[trigger] out@[d] == self.spec_vector_at(
                        i + d / 4 % 2,
                        j + d / 2 % 2,
                        k + d % 2,
                    ),
            decreases 8 - c,
        {
            out.push(self.vector_at(i, j, k, c / 4 % 2, c / 2 % 2, c % 2));
            c += 1;
        }
        out
    }
}

} // verus!

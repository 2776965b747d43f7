use vstd::prelude::*;
use crate::permutation::lemma_swap_multiset;
use crate::random::random_usize;

verus! {

broadcast use {
    vstd::seq_lib::to_multiset_contains,
    vstd::multiset::group_multiset_axioms,
};

/// The number of lattice gradients that the noise draws from.
pub const POINT_COUNT: usize = 256;

/// `s` holds each of `0..n` exactly once.
pub open spec fn is_permutation_table(s: Seq<usize>, n: nat) -> bool {
    &&& s.len() == n
    &&& s.no_duplicates()
    &&& forall|i: int| 0 <= i < s.len() ==> #[trigger] s[i] < n
}

/// The permutation tables that hash an integer lattice point of Perlin noise
/// to one of the `POINT_COUNT` gradients.
#[derive(Debug)]
pub struct Perlin {
    perm_x: Vec<usize>,
    perm_y: Vec<usize>,
    perm_z: Vec<usize>,
}

/// The gradient slot of the lattice point `(i, j, k)`: the three tables are
/// read at the coordinates taken modulo 256, and the entries combined by xor.
pub open spec fn spec_lattice_index(
    px: Seq<usize>,
    py: Seq<usize>,
    pz: Seq<usize>,
    i: i32,
    j: i32,
    k: i32,
) -> usize {
    px[(i & 255) as int] ^ py[(j & 255) as int] ^ pz[(k & 255) as int]
}

/// `targets` names, for each position `k` of a sequence of length `n`, a
/// position not after `k` to exchange it with.
pub open spec fn is_swap_plan(targets: Seq<usize>, n: nat) -> bool {
    &&& targets.len() == n
    &&& forall|k: int| 0 <= k < targets.len() ==> #[trigger] targets[k] <= k
}

/// `s` after exchanging, for `k` from `i - 1` down to 1, the entries at `k`
/// and `t[k]`.
pub open spec fn swapped_from(s: Seq<usize>, t: Seq<usize>, i: nat) -> Seq<usize>
    decreases i,
{
    if i <= 1 {
        s
    } else {
        let k = (i - 1) as int;
        swapped_from(s.update(k, s[t[k] as int]).update(t[k] as int, s[k]), t, (i - 1) as nat)
    }
}

/// A shuffle by exchanges keeps the entries.
pub proof fn lemma_swapped_from_multiset(s: Seq<usize>, t: Seq<usize>, i: nat)
    requires
        i <= s.len(),
        i <= t.len(),
        forall|k: int| 0 <= k < i ==> #[trigger] t[k] <= k,
    ensures
        swapped_from(s, t, i).len() == s.len(),
        swapped_from(s, t, i).to_multiset() == s.to_multiset(),
    decreases i,
{
    if i > 1 {
        let k = (i - 1) as int;
        lemma_swap_multiset(s, k, t[k] as int);
        lemma_swapped_from_multiset(s.update(k, s[t[k] as int]).update(t[k] as int, s[k]), t, (i - 1) as nat);
    }
}

impl Perlin {
    pub closed spec fn table_x(&self) -> Seq<usize> {
        self.perm_x@
    }

    pub closed spec fn table_y(&self) -> Seq<usize> {
        self.perm_y@
    }

    pub closed spec fn table_z(&self) -> Seq<usize> {
        self.perm_z@
    }

    /// Each table is a permutation of `0..POINT_COUNT`.
    pub open spec fn wf(&self) -> bool {
        &&& is_permutation_table(self.table_x(), POINT_COUNT as nat)
        &&& is_permutation_table(self.table_y(), POINT_COUNT as nat)
        &&& is_permutation_table(self.table_z(), POINT_COUNT as nat)
    }

    /// Three independently shuffled tables.
    pub fn new() -> (r: Perlin)
        ensures
            r.wf(),
    {
        let perm_x = Self::perlin_generate_perm(POINT_COUNT);
        let perm_y = Self::perlin_generate_perm(POINT_COUNT);
        let perm_z = Self::perlin_generate_perm(POINT_COUNT);
        Perlin { perm_x, perm_y, perm_z }
    }

    /// The gradient slot of the lattice point `(i, j, k)`.
    pub fn lattice_index(&self, i: i32, j: i32, k: i32) -> (r: usize)
        requires
            self.wf(),
        ensures
            r == spec_lattice_index(self.table_x(), self.table_y(), self.table_z(), i, j, k),
            r < POINT_COUNT,
    {
        proof {
            assert(0 <= (i & 255) < 256) by (bit_vector);
            assert(0 <= (j & 255) < 256) by (bit_vector);
            assert(0 <= (k & 255) < 256) by (bit_vector);
        }
        let a = self.perm_x[(i & 255) as usize];
        let b = self.perm_y[(j & 255) as usize];
        let c = self.perm_z[(k & 255) as usize];
        proof {
            assert(a < 256 && b < 256 && c < 256 ==> a ^ b ^ c < 256) by (bit_vector);
        }
        a ^ b ^ c
    }

    /// A uniformly shuffled permutation of `0..point_count`.
    pub fn perlin_generate_perm(point_count: usize) -> (r: Vec<usize>)
        ensures
            is_permutation_table(r@, point_count as nat),
    {
        let mut p: Vec<usize> = Vec::new();
        let mut k: usize = 0;
        while k < point_count
            invariant
                k <= point_count,
                p@.len() == k,
                forall|q: int| 0 <= q < k ==> #[trigger] p@[q] == q,
            decreases point_count - k,
        {
            p.push(k);
            k = k + 1;
        }
        let ghost identity = p@;
        proof {
            assert(identity.no_duplicates());
            identity.lemma_multiset_has_no_duplicates();
        }
        Self::permute(&mut p);
        proof {
            assert forall|x: usize| p@.to_multiset().contains(x) implies p@.to_multiset().count(x)
                == 1 by {
                assert(identity.to_multiset().contains(x));
            }
            p@.lemma_multiset_has_no_duplicates_conv();
            assert forall|i: int| 0 <= i < p@.len() implies #[trigger] p@[i] < point_count by {
                let x = p@[i];
                assert(p@.contains(x));
                assert(identity.to_multiset().count(x) > 0);
                assert(identity.contains(x));
                let q = choose|q: int| 0 <= q < identity.len() && identity[q] == x;
                assert(identity[q] == q);
            }
        }
        p
    }

    /// Shuffles `p` in place (Fisher-Yates): from the back, each entry is
    /// exchanged with one at a random position not after it.
    pub fn permute(p: &mut Vec<usize>)
        ensures
            final(p)@.len() == old(p)@.len(),
            final(p)@.to_multiset() == old(p)@.to_multiset(),
            exists|targets: Seq<usize>|
                #![trigger swapped_from(old(p)@, targets, old(p)@.len() as nat)]
                is_swap_plan(targets, old(p)@.len() as nat) && final(p)@ == swapped_from(
                    old(p)@,
                    targets,
                    old(p)@.len() as nat,
                ),
    {
        let n = p.len();
        let mut targets: Vec<usize> = Vec::new();
        let mut k: usize = 0;
        while k < n
            invariant
                k <= n,
                n == old(p)@.len(),
                targets@.len() == k,
                forall|i: int| 0 <= i < k ==> #[trigger] targets@[i] <= i,
            decreases n - k,
        {
            let t = random_usize(0, k);
            targets.push(t);
            k = k + 1;
        }
        let ghost start = p@;
        Self::permute_with(p, &targets);
        proof {
            lemma_swapped_from_multiset(start, targets@, n as nat);
        }
    }

    /// Applies a drawn shuffle: for `k` from the last position down to 1,
    /// the entries at `k` and `targets[k]` are exchanged.
    pub fn permute_with(p: &mut Vec<usize>, targets: &Vec<usize>)
        requires
            is_swap_plan(targets@, old(p)@.len() as nat),
        ensures
            final(p)@ == swapped_from(old(p)@, targets@, old(p)@.len() as nat),
    {
        let n = p.len();
        let mut i: usize = n;
        while i > 1
            invariant
                i <= n,
                p@.len() == n,
                is_swap_plan(targets@, n as nat),
                swapped_from(p@, targets@, i as nat) == swapped_from(old(p)@, targets@, n as nat),
            decreases i,
        {
            let k = i - 1;
            let target = targets[k];
            let a = p[k];
            let b = p[target];
            p[k] = b;
            p[target] = a;
            i = k;
        }
    }
}

} // verus!

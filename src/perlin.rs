//! The permutation tables of Perlin noise and the hash that picks the
//! gradient of a lattice corner.
//!
//! The gradients themselves are real vectors and live with the noise
//! evaluation; this module decides which of the 256 gradients a corner uses.

use crate::random::below;
use vstd::prelude::*;

verus! {

/// Number of gradients, and of entries in each permutation table.
pub const POINT_COUNT: usize = 256;

/// `s` holds each of the values `0..256` exactly once.
pub open spec fn is_permutation(s: Seq<u8>) -> bool {
    &&& s.len() == 256
    &&& forall|a: int, b: int| 0 <= a < b < 256 ==> s[a] != s[b]
    &&& forall|k: u8| #[trigger] s.contains(k)
}

/// The identity table `0, 1, ..., 255`.
pub open spec fn identity_table() -> Seq<u8> {
    Seq::new(256, |i: int| i as u8)
}

/// Draws for a shuffle: the `k`-th draw picks a position at or below
/// `255 - k`, the position it is swapped with.
pub open spec fn valid_draws(draws: Seq<u32>) -> bool {
    &&& draws.len() == 255
    &&& forall|k: int| 0 <= k < 255 ==> #[trigger] draws[k] <= 255 - k
}

/// The identity table after the first `n` swaps: swap `k` exchanges position
/// `255 - k` with position `draws[k]`.
pub open spec fn shuffled_prefix(draws: Seq<u32>, n: nat) -> Seq<u8>
    decreases n,
{
    if n == 0 {
        identity_table()
    } else {
        let prev = shuffled_prefix(draws, (n - 1) as nat);
        let i = 255 - (n - 1);
        let j = draws[n - 1] as int;
        prev.update(i, prev[j]).update(j, prev[i])
    }
}

/// The table after all 255 swaps.
pub open spec fn shuffled(draws: Seq<u32>) -> Seq<u8> {
    shuffled_prefix(draws, 255)
}

/// Shuffles `0..256` with the given draws (Fisher–Yates): each position
/// from the last down to the second is swapped with the position drawn for
/// it, which lies at or below it.
pub fn shuffle(draws: &Vec<u32>) -> (r: Vec<u8>)
    requires
        valid_draws(draws@),
    ensures
        r@ == shuffled(draws@),
        is_permutation(r@),
{
    let mut p: Vec<u8> = Vec::with_capacity(POINT_COUNT);
    let mut k: usize = 0;
    while k < POINT_COUNT
        invariant
            k <= 256,
            p@ == Seq::new(k as nat, |i: int| i as u8),
        decreases 256 - k,
    {
        p.push(k as u8);
        k = k + 1;
    }
    assert(p@ == shuffled_prefix(draws@, 0));
    // `pos[v]` is where the value `v` currently stands.
    let ghost mut pos: Seq<int> = Seq::new(256, |v: int| v);
    let mut n: usize = 0;
    while n < 255
        invariant
            n <= 255,
            valid_draws(draws@),
            p@ == shuffled_prefix(draws@, n as nat),
            p@.len() == 256,
            pos.len() == 256,
            forall|v: int| 0 <= v < 256 ==> 0 <= #[trigger] pos[v] < 256 && p@[pos[v]] == v,
            forall|a: int| 0 <= a < 256 ==> #[trigger] pos[p@[a] as int] == a,
        decreases 255 - n,
    {
        let i: usize = 255 - n;
        let j: usize = draws[n] as usize;
        assert(draws@[n as int] <= 255 - n);
        let ghost before = p@;
        let a = p[i];
        let b = p[j];
        p.set(i, b);
        p.set(j, a);
        proof {
            let old_pos = pos;
            assert(old_pos[a as int] == i && old_pos[b as int] == j);
            pos = pos.update(a as int, j as int).update(b as int, i as int);
            assert forall|c: int| 0 <= c < 256 implies #[trigger] pos[p@[c] as int] == c by {
                if c != i && c != j {
                    assert(p@[c] == before[c]);
                    assert(old_pos[before[c] as int] == c);
                }
            }
        }
        n = n + 1;
    }
    proof {
        assert forall|k: u8| #[trigger] p@.contains(k) by {
            assert(p@[pos[k as int]] == k);
        }
        assert forall|a: int, b: int| 0 <= a < b < 256 implies p@[a] != p@[b] by {
            assert(pos[p@[a] as int] == a);
            assert(pos[p@[b] as int] == b);
        }
    }
    p
}

/// A random permutation of `0..256`: the shuffle of some valid draws, taken
/// from `rng`.
pub fn generate_perm(rng: &mut rand::rngs::SmallRng) -> (r: Vec<u8>)
    ensures
        is_permutation(r@),
        exists|draws: Seq<u32>| valid_draws(draws) && r@ == shuffled(draws),
{
    let mut draws: Vec<u32> = Vec::with_capacity(255);
    let mut i: u32 = 255;
    while i > 0
        invariant
            i <= 255,
            draws@.len() == 255 - i,
            forall|k: int| 0 <= k < draws@.len() ==> #[trigger] draws@[k] <= 255 - k,
        decreases i,
    {
        draws.push(below(rng, i + 1));
        i = i - 1;
    }
    shuffle(&draws)
}

/// The three permutation tables of a Perlin noise generator, one per axis.
pub struct PerlinTables {
    perm_x: Vec<u8>,
    perm_y: Vec<u8>,
    perm_z: Vec<u8>,
}

/// The table entry for lattice coordinate `c`: tables repeat every 256 cells.
pub open spec fn wrap(c: int) -> int {
    c % 256
}

impl PerlinTables {
    pub closed spec fn x_table(&self) -> Seq<u8> {
        self.perm_x@
    }

    pub closed spec fn y_table(&self) -> Seq<u8> {
        self.perm_y@
    }

    pub closed spec fn z_table(&self) -> Seq<u8> {
        self.perm_z@
    }

    /// Each table is a permutation of `0..256`.
    pub open spec fn wf(&self) -> bool {
        &&& is_permutation(self.x_table())
        &&& is_permutation(self.y_table())
        &&& is_permutation(self.z_table())
    }

    /// The gradient index of the lattice corner `(x, y, z)`.
    pub open spec fn corner_spec(&self, x: int, y: int, z: int) -> u8 {
        self.x_table()[wrap(x)] ^ self.y_table()[wrap(y)] ^ self.z_table()[wrap(z)]
    }

    /// Three independent random permutations drawn from `rng`, each the
    /// shuffle of some valid draws.
    pub fn new(rng: &mut rand::rngs::SmallRng) -> (t: PerlinTables)
        ensures
            t.wf(),
            exists|d: Seq<u32>| valid_draws(d) && t.x_table() == shuffled(d),
            exists|d: Seq<u32>| valid_draws(d) && t.y_table() == shuffled(d),
            exists|d: Seq<u32>| valid_draws(d) && t.z_table() == shuffled(d),
    {
        let perm_x = generate_perm(rng);
        let perm_y = generate_perm(rng);
        let perm_z = generate_perm(rng);
        PerlinTables { perm_x, perm_y, perm_z }
    }

    /// The gradient index of the lattice corner `(x, y, z)`: the exclusive or
    /// of the three tables' entries at the coordinates taken modulo 256.
    pub fn corner(&self, x: i32, y: i32, z: i32) -> (r: u8)
        requires
            self.wf(),
        ensures
            r == self.corner_spec(x as int, y as int, z as int),
    {
        let xi = (x & 255) as usize;
        let yi = (y & 255) as usize;
        let zi = (z & 255) as usize;
        proof {
            assert((x & 255) as int == (x as int) % 256) by (bit_vector);
            assert((y & 255) as int == (y as int) % 256) by (bit_vector);
            assert((z & 255) as int == (z as int) % 256) by (bit_vector);
        }
        self.perm_x[xi] ^ self.perm_y[yi] ^ self.perm_z[zi]
    }
}

} // verus!

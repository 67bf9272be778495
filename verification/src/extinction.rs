use vstd::prelude::*;
use crate::stars::{Color3, Pos3, Star, spec_planck_color, spec_temperature, MAX_MASS};

verus! {

/// Per-star cache read by the extinction pass: the world position and
/// display color of every placed star, indexed by the star's stable
/// index.  The scheduler's owner resizes it to the star target and
/// feeds it each newly placed batch.
pub struct ExtinctionCache {
    pub positions: Vec<Pos3>,
    pub colours: Vec<Color3>,
    pub required_size: usize,
    pub size: usize,
}

/// No star among the first `upto` of the batch carries index j.
pub open spec fn spec_untouched(batch: Seq<Star>, upto: int, j: int) -> bool {
    forall|k: int| 0 <= k < upto ==> (#[trigger] batch[k]).index != j
}

/// The sequence s cut or padded with `fill` to length n, old entries
/// kept in place.
pub open spec fn spec_resized<T>(s: Seq<T>, n: int, fill: T) -> Seq<T> {
    Seq::new(n as nat, |j: int| if j < s.len() { s[j] } else { fill })
}

/// Appending the next resized element extends the resized prefix by
/// one.
proof fn lemma_resized_push<T>(prev: Seq<T>, v: Seq<T>, x: T, i: int, fill: T)
    requires
        0 <= i,
        prev == spec_resized(v, i, fill),
        x == (if i < v.len() { v[i] } else { fill }),
    ensures
        prev.push(x) == spec_resized(v, i + 1, fill),
{
    let lhs = prev.push(x);
    let rhs = spec_resized(v, i + 1, fill);
    assert forall|j: int| 0 <= j < i + 1 implies lhs[j] == rhs[j] by {
        assert(rhs[j] == (if j < v.len() { v[j] } else { fill }));
        if j < i {
            assert(lhs[j] == prev[j]);
            assert(prev[j] == (if j < v.len() { v[j] } else { fill }));
        } else {
            assert(lhs[i] == x);
        }
    };
    assert(lhs =~= rhs);
}

/// A copy of v cut or padded with `fill` to length n.
fn resized_positions(v: &Vec<Pos3>, n: usize) -> (r: Vec<Pos3>)
    ensures
        r@ == spec_resized(v@, n as int, Pos3 { x: 0, y: 0, z: 0 }),
{
    let mut out: Vec<Pos3> = Vec::new();
    let mut i: usize = 0;
    while i < n
        invariant
            i <= n,
            out@ == spec_resized(v@, i as int, Pos3 { x: 0, y: 0, z: 0 }),
        decreases n - i,
    {
        let x = if i < v.len() { v[i] } else { Pos3 { x: 0, y: 0, z: 0 } };
        let ghost prev = out@;
        out.push(x);
        proof {
            lemma_resized_push(prev, v@, x, i as int, Pos3 { x: 0, y: 0, z: 0 });
        }
        i = i + 1;
    }
    out
}

/// A copy of v cut or padded with `fill` to length n.
fn resized_colours(v: &Vec<Color3>, n: usize) -> (r: Vec<Color3>)
    ensures
        r@ == spec_resized(v@, n as int, Color3 { r: 0, g: 0, b: 0 }),
{
    let mut out: Vec<Color3> = Vec::new();
    let mut i: usize = 0;
    while i < n
        invariant
            i <= n,
            out@ == spec_resized(v@, i as int, Color3 { r: 0, g: 0, b: 0 }),
        decreases n - i,
    {
        let x = if i < v.len() { v[i] } else { Color3 { r: 0, g: 0, b: 0 } };
        let ghost prev = out@;
        out.push(x);
        proof {
            lemma_resized_push(prev, v@, x, i as int, Color3 { r: 0, g: 0, b: 0 });
        }
        i = i + 1;
    }
    out
}

impl ExtinctionCache {
    /// Both attribute arrays cover exactly the current size.
    pub open spec fn wf(self) -> bool {
        &&& self.positions@.len() == self.size
        &&& self.colours@.len() == self.size
    }

    /// An empty cache for a star set of size zero.
    pub fn new() -> (r: ExtinctionCache)
        ensures
            r.wf(),
            r.required_size == 0,
            r.size == 0,
    {
        ExtinctionCache { positions: Vec::new(), colours: Vec::new(), required_size: 0, size: 0 }
    }

    /// Fold a freshly placed batch into the cache: first match the
    /// arrays to the required size, keeping what is already there,
    /// then write each new star's position and derived color at its
    /// index.  Entries no batch star covers are left as they were.
    pub fn update_positions(&mut self, batch: &Vec<Star>)
        requires
            old(self).wf(),
            forall|k: int| 0 <= k < batch@.len()
                ==> (#[trigger] batch@[k]).index < old(self).required_size,
            forall|k1: int, k2: int| 0 <= k1 < k2 < batch@.len()
                ==> (#[trigger] batch@[k1]).index != (#[trigger] batch@[k2]).index,
            forall|k: int| 0 <= k < batch@.len()
                ==> (#[trigger] batch@[k]).mass <= MAX_MASS,
        ensures
            final(self).wf(),
            final(self).size == old(self).required_size,
            final(self).required_size == old(self).required_size,
            final(self).positions@.len() == old(self).required_size,
            forall|k: int| 0 <= k < batch@.len()
                ==> final(self).positions@[(#[trigger] batch@[k]).index as int]
                    == batch@[k].position,
            forall|k: int| 0 <= k < batch@.len()
                ==> final(self).colours@[(#[trigger] batch@[k]).index as int]
                    == spec_planck_color(spec_temperature(batch@[k].mass as int)),
            forall|j: int| 0 <= j < old(self).required_size
                && spec_untouched(batch@, batch@.len() as int, j)
                ==> #[trigger] final(self).positions@[j] == spec_resized(
                        old(self).positions@, old(self).required_size as int,
                        Pos3 { x: 0, y: 0, z: 0 })[j]
                    && final(self).colours@[j] == spec_resized(
                        old(self).colours@, old(self).required_size as int,
                        Color3 { r: 0, g: 0, b: 0 })[j],
    {
        let n = self.required_size;
        if self.size != n {
            self.positions = resized_positions(&self.positions, n);
            self.colours = resized_colours(&self.colours, n);
            self.size = n;
        } else {
            proof {
                assert(self.positions@ =~= spec_resized(
                    old(self).positions@, n as int, Pos3 { x: 0, y: 0, z: 0 }));
                assert(self.colours@ =~= spec_resized(
                    old(self).colours@, n as int, Color3 { r: 0, g: 0, b: 0 }));
            }
        }
        let ghost base_pos = self.positions@;
        let ghost base_col = self.colours@;
        let mut k: usize = 0;
        while k < batch.len()
            invariant
                k <= batch@.len(),
                self.positions@.len() == n,
                self.colours@.len() == n,
                self.required_size == n,
                self.size == n,
                base_pos.len() == n,
                base_col.len() == n,
                forall|k2: int| 0 <= k2 < batch@.len()
                    ==> (#[trigger] batch@[k2]).index < n,
                forall|k1: int, k2: int| 0 <= k1 < k2 < batch@.len()
                    ==> (#[trigger] batch@[k1]).index != (#[trigger] batch@[k2]).index,
                forall|k2: int| 0 <= k2 < batch@.len()
                    ==> (#[trigger] batch@[k2]).mass <= MAX_MASS,
                forall|k2: int| 0 <= k2 < k
                    ==> self.positions@[(#[trigger] batch@[k2]).index as int]
                        == batch@[k2].position,
                forall|k2: int| 0 <= k2 < k
                    ==> self.colours@[(#[trigger] batch@[k2]).index as int]
                        == spec_planck_color(spec_temperature(batch@[k2].mass as int)),
                forall|j: int| 0 <= j < n && spec_untouched(batch@, k as int, j)
                    ==> #[trigger] self.positions@[j] == base_pos[j]
                        && self.colours@[j] == base_col[j],
            decreases batch@.len() - k,
        {
            let star = batch[k];
            let colour = star.color();
            let ghost prev_pos = self.positions@;
            let ghost prev_col = self.colours@;
            self.positions.set(star.index as usize, star.position);
            self.colours.set(star.index as usize, colour);
            proof {
                let idx = batch@[k as int].index as int;
                assert(self.positions@ == prev_pos.update(idx, batch@[k as int].position));
                assert forall|j: int| 0 <= j < n && spec_untouched(batch@, k + 1 as int, j)
                    implies self.positions@[j] == base_pos[j]
                        && self.colours@[j] == base_col[j] by {
                    assert(batch@[k as int].index != j);
                    assert(spec_untouched(batch@, k as int, j));
                    assert(prev_pos[j] == base_pos[j]);
                    assert(prev_col[j] == base_col[j]);
                    assert(prev_pos.update(idx, batch@[k as int].position)[j] == prev_pos[j]);
                    assert(prev_col.update(
                        idx, spec_planck_color(spec_temperature(batch@[k as int].mass as int)),
                    )[j] == prev_col[j]);
                };
            }
            k = k + 1;
        }
    }
}

} // verus!

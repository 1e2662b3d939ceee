//! The lattice of gradient noise: three shuffled index tables, one per axis,
//! and the gradient vectors that they select.

use vstd::prelude::*;
use vstd::seq_lib::to_multiset_update;
use crate::scalar::{magnitude, magnitude_of, ONE, ZERO};
use crate::utilities::random_int;
use crate::vec3::Vec3;

verus! {

/// The number of lattice points along each axis.
pub const POINT_COUNT: usize = 256;

pub struct Perlin {
    pub point_count: usize,
    pub rand_vec: Vec<Vec3>,
    pub perm_x: Vec<usize>,
    pub perm_y: Vec<usize>,
    pub perm_z: Vec<usize>,
}

/// The numbers `0, 1, .., n - 1` in order.
pub open spec fn counting(n: nat) -> Seq<usize> {
    Seq::new(n, |i: int| i as usize)
}

/// `table` holds each of the numbers below its length once.
pub open spec fn is_shuffle(table: Seq<usize>) -> bool {
    table.to_multiset() == counting(table.len()).to_multiset()
}

/// `table` with the entries at `i` and `j` exchanged.
pub open spec fn exchanged(table: Seq<usize>, i: int, j: int) -> Seq<usize> {
    table.update(i, table[j]).update(j, table[i])
}

/// The index of the gradient at the lattice point `(a, b, c)`, each
/// coordinate taken modulo 256.
pub open spec fn lattice_index(
    perm_x: Seq<usize>,
    perm_y: Seq<usize>,
    perm_z: Seq<usize>,
    a: int,
    b: int,
    c: int,
) -> usize {
    perm_x[a % 256] ^ perm_y[b % 256] ^ perm_z[c % 256]
}

/// Every entry of a shuffle is below its length.
pub proof fn lemma_shuffle_entries(table: Seq<usize>, i: int)
    requires
        is_shuffle(table),
        0 <= i < table.len() <= usize::MAX,
    ensures
        table[i] < table.len(),
{
    let ordered = counting(table.len());
    table.to_multiset_ensures();
    ordered.to_multiset_ensures();
    assert(table.contains(table[i]));
    assert(table.to_multiset().count(table[i]) > 0);
    assert(ordered.to_multiset().count(table[i]) > 0);
    assert(ordered.contains(table[i]));
    let k = choose|k: int| 0 <= k < ordered.len() && ordered[k] == table[i];
    assert(ordered[k] == k);
}

/// Exchanging two entries keeps what a table holds.
pub proof fn lemma_exchange_keeps_entries(table: Seq<usize>, i: int, j: int)
    requires
        0 <= i < table.len(),
        0 <= j < table.len(),
    ensures
        exchanged(table, i, j).to_multiset() == table.to_multiset(),
{
    broadcast use vstd::multiset::group_multiset_axioms;

    let half = table.update(i, table[j]);
    to_multiset_update(table, i, table[j]);
    to_multiset_update(half, j, table[i]);
    let m = table.to_multiset();
    let ti = table[i];
    let tj = table[j];
    table.to_multiset_ensures();
    assert(table.contains(ti) && table.contains(tj));
    assert(m.count(ti) > 0 && m.count(tj) > 0);
    if i == j {
        assert(exchanged(table, i, j) =~= table);
    } else {
        assert(half[j] == tj);
        let m1 = m.insert(tj);
        let m2 = m1.remove(ti);
        let m3 = m2.insert(ti);
        let m4 = m3.remove(tj);
        assert(exchanged(table, i, j).to_multiset() == m4);
        assert forall|v: usize| m4.count(v) == m.count(v) by {
            assert(m1.count(v) == m.count(v) + (if v == tj { 1int } else { 0int }));
            assert(m1.count(ti) > 0);
            assert(m2.count(v) == m1.count(v) - (if v == ti { 1int } else { 0int }));
            assert(m3.count(v) == m2.count(v) + (if v == ti { 1int } else { 0int }));
            assert(m3.count(tj) > 0);
            assert(m4.count(v) == m3.count(v) - (if v == tj { 1int } else { 0int }));
        }
        assert(m4 =~= m);
    }
}

/// Exchanges the entries at `i` and `target`.
pub fn exchange(perm: &mut Vec<usize>, i: usize, target: usize)
    requires
        i < old(perm)@.len(),
        target < old(perm)@.len(),
    ensures
        final(perm)@ == exchanged(old(perm)@, i as int, target as int),
{
    let tmp: usize = perm[i];
    let moved: usize = perm[target];
    perm.set(i, moved);
    perm.set(target, tmp);
}

/// `target` is a place that the random source can draw for the place
/// `place`: it draws among the places up to `place`.
pub closed spec fn draws_for(place: int, target: usize) -> bool {
    &&& 0 <= place <= i32::MAX
    &&& exists|drawn: i32| #[trigger]
        call_ensures(random_int, (0i32, place as i32), drawn) && drawn == target
}

/// What is drawn for a place is a place up to it.
pub proof fn lemma_draws_are_in_range(place: int, target: usize)
    requires
        draws_for(place, target),
    ensures
        target <= place,
{
}

/// `table` after the first `steps` steps of a shuffle: the steps go from the
/// last place down, and the step at a place exchanges the entry there with
/// the entry at the place that `draws` holds for it.
pub open spec fn shuffled_by(table: Seq<usize>, draws: Seq<usize>, steps: int) -> Seq<usize>
    decreases steps,
{
    if steps <= 0 {
        table
    } else {
        exchanged(
            shuffled_by(table, draws, steps - 1),
            table.len() - steps,
            draws[table.len() - steps] as int,
        )
    }
}

/// The first steps of a shuffle go by the draws for the places that they
/// reach, whatever is held for the places below.
proof fn lemma_shuffle_reads_upper_draws(
    table: Seq<usize>,
    a: Seq<usize>,
    b: Seq<usize>,
    steps: int,
)
    requires
        0 <= steps <= table.len(),
        a.len() == table.len(),
        b.len() == table.len(),
        forall|place: int| table.len() - steps <= place < table.len() ==> a[place] == b[place],
    ensures
        shuffled_by(table, a, steps) == shuffled_by(table, b, steps),
    decreases steps,
{
    if steps > 0 {
        lemma_shuffle_reads_upper_draws(table, a, b, steps - 1);
    }
}

/// Shuffles `perm`: from the last place down to the first, the entry at each
/// place is exchanged with the entry at a place drawn at random from those up
/// to it. The table comes out as these exchanges leave it, for the places
/// that the random source drew; whatever it drew, `perm` holds afterwards
/// what it held before.
pub fn permute(perm: &mut Vec<usize>)
    requires
        old(perm)@.len() <= i32::MAX,
    ensures
        final(perm)@.len() == old(perm)@.len(),
        final(perm)@.to_multiset() == old(perm)@.to_multiset(),
        exists|draws: Seq<usize>|
            {
                &&& draws.len() == old(perm)@.len()
                &&& forall|place: int|
                    0 <= place < draws.len() ==> draws_for(place, #[trigger] draws[place])
                &&& final(perm)@ == #[trigger] shuffled_by(
                    old(perm)@,
                    draws,
                    old(perm)@.len() as int,
                )
            },
{
    let ghost count = perm@.len() as int;
    let ghost mut draws: Seq<usize> = Seq::new(perm@.len(), |place: int| 0usize);
    let mut i: usize = perm.len();
    while i > 0
        invariant
            i <= perm@.len(),
            perm@.len() == old(perm)@.len(),
            perm@.len() <= i32::MAX,
            perm@.to_multiset() == old(perm)@.to_multiset(),
            count == old(perm)@.len(),
            draws.len() == count,
            forall|place: int| i <= place < count ==> draws_for(place, #[trigger] draws[place]),
            perm@ == shuffled_by(old(perm)@, draws, count - i),
        decreases i,
    {
        i -= 1;
        let drawn: i32 = random_int(0, i as i32);
        let target: usize = drawn as usize;
        proof {
            lemma_exchange_keeps_entries(perm@, i as int, target as int);
            let before = draws;
            draws = draws.update(i as int, target);
            lemma_shuffle_reads_upper_draws(old(perm)@, before, draws, count - i - 1);
            assert(call_ensures(random_int, (0i32, i as i32), drawn));
            assert(draws_for(i as int, target));
            assert forall|place: int| i <= place < count implies draws_for(
                place,
                #[trigger] draws[place],
            ) by {
                if place > i {
                    assert(draws[place] == before[place]);
                }
            }
        }
        exchange(perm, i, target);
    }
    assert(perm@ == shuffled_by(old(perm)@, draws, old(perm)@.len() as int));
}

/// A fresh shuffle of the numbers below `count`.
pub fn shuffled(count: usize) -> (perm: Vec<usize>)
    requires
        count <= i32::MAX,
    ensures
        perm@.len() == count,
        is_shuffle(perm@),
{
    let mut perm: Vec<usize> = Vec::new();
    let mut i: usize = 0;
    while i < count
        invariant
            i <= count,
            perm@ == counting(i as nat),
        decreases count - i,
    {
        perm.push(i);
        assert(perm@ =~= counting((i + 1) as nat));
        i += 1;
    }
    permute(&mut perm);
    perm
}

impl Perlin {
    /// The three tables are shuffles of the numbers below 256, and there is a
    /// gradient for each of those numbers.
    pub open spec fn well_formed(&self) -> bool {
        &&& self.point_count == POINT_COUNT
        &&& self.rand_vec@.len() == POINT_COUNT
        &&& self.perm_x@.len() == POINT_COUNT
        &&& self.perm_y@.len() == POINT_COUNT
        &&& self.perm_z@.len() == POINT_COUNT
        &&& is_shuffle(self.perm_x@)
        &&& is_shuffle(self.perm_y@)
        &&& is_shuffle(self.perm_z@)
    }

    /// The table of an axis: axis 0 and 1 name the first two tables, every
    /// other number the third.
    pub open spec fn table(&self, axis: i32) -> Vec<usize> {
        if axis == 0 {
            self.perm_x
        } else if axis == 1 {
            self.perm_y
        } else {
            self.perm_z
        }
    }

    /// The lattice over the gradients `rand_vec`, with freshly shuffled
    /// tables.
    pub fn new(rand_vec: Vec<Vec3>) -> (perlin: Self)
        requires
            rand_vec@.len() == POINT_COUNT,
        ensures
            perlin.well_formed(),
            perlin.rand_vec@ == rand_vec@,
    {
        let mut result = Perlin {
            point_count: POINT_COUNT,
            rand_vec,
            perm_x: Vec::new(),
            perm_y: Vec::new(),
            perm_z: Vec::new(),
        };
        result.perlin_generate_perm(0);
        result.perlin_generate_perm(1);
        result.perlin_generate_perm(2);
        result
    }

    /// Replaces the table of one axis by a fresh shuffle of the numbers below
    /// `point_count`: axis 0 and 1 name the first two tables, every other
    /// number the third.
    pub fn perlin_generate_perm(&mut self, axis: i32)
        requires
            old(self).point_count <= i32::MAX,
        ensures
            final(self).point_count == old(self).point_count,
            final(self).rand_vec@ == old(self).rand_vec@,
            final(self).perm_x@ == old(self).perm_x@ || axis == 0,
            final(self).perm_y@ == old(self).perm_y@ || axis == 1,
            final(self).perm_z@ == old(self).perm_z@ || (axis != 0 && axis != 1),
            final(self).table(axis)@.len() == old(self).point_count,
            is_shuffle(final(self).table(axis)@),
    {
        let perm: Vec<usize> = shuffled(self.point_count);
        match axis {
            0 => {
                self.perm_x = perm;
            },
            1 => {
                self.perm_y = perm;
            },
            _ => {
                self.perm_z = perm;
            },
        }
    }

    /// The gradient at the lattice point `(i + di, j + dj, k + dk)`.
    pub fn corner(&self, i: usize, j: usize, k: usize, di: usize, dj: usize, dk: usize) -> (gradient:
        Vec3)
        requires
            self.well_formed(),
            di <= 1,
            dj <= 1,
            dk <= 1,
        ensures
            gradient == self.rand_vec@[lattice_index(
                self.perm_x@,
                self.perm_y@,
                self.perm_z@,
                i + di,
                j + dj,
                k + dk,
            ) as int],
            lattice_index(self.perm_x@, self.perm_y@, self.perm_z@, i + di, j + dj, k + dk)
                < POINT_COUNT,
    {
        let a: usize = wrapped(i, di);
        let b: usize = wrapped(j, dj);
        let c: usize = wrapped(k, dk);
        let px: usize = self.perm_x[a];
        let py: usize = self.perm_y[b];
        let pz: usize = self.perm_z[c];
        proof {
            lemma_shuffle_entries(self.perm_x@, a as int);
            lemma_shuffle_entries(self.perm_y@, b as int);
            lemma_shuffle_entries(self.perm_z@, c as int);
            assert(px ^ py ^ pz < 256) by (bit_vector)
                requires
                    px < 256,
                    py < 256,
                    pz < 256,
            ;
        }
        self.rand_vec[px ^ py ^ pz]
    }

    /// The gradients at the eight corners of the lattice cell at `(i, j, k)`:
    /// the corner `(i + di, j + dj, k + dk)` stands at the place
    /// `4 * di + 2 * dj + dk`.
    pub open spec fn cell_corners(&self, i: int, j: int, k: int) -> Seq<Vec3> {
        Seq::new(
            8,
            |n: int|
                self.rand_vec@[lattice_index(
                    self.perm_x@,
                    self.perm_y@,
                    self.perm_z@,
                    i + n / 4,
                    j + (n / 2) % 2,
                    k + n % 2,
                ) as int],
        )
    }

    /// The gradients at the eight corners of the lattice cell at `(i, j, k)`.
    pub fn corners(&self, i: usize, j: usize, k: usize) -> (c: Vec<Vec3>)
        requires
            self.well_formed(),
        ensures
            c@ == self.cell_corners(i as int, j as int, k as int),
    {
        let mut c: Vec<Vec3> = Vec::new();
        c.push(self.corner(i, j, k, 0, 0, 0));
        c.push(self.corner(i, j, k, 0, 0, 1));
        c.push(self.corner(i, j, k, 0, 1, 0));
        c.push(self.corner(i, j, k, 0, 1, 1));
        c.push(self.corner(i, j, k, 1, 0, 0));
        c.push(self.corner(i, j, k, 1, 0, 1));
        c.push(self.corner(i, j, k, 1, 1, 0));
        c.push(self.corner(i, j, k, 1, 1, 1));
        assert(c@ =~= self.cell_corners(i as int, j as int, k as int));
        c
    }

    /// `value` is a value of the noise at `p`: what `blend` makes of `p` and
    /// of the gradients at the corners of the cell that `cell` gives for `p`.
    pub open spec fn noises<C: Fn(&Vec3) -> (usize, usize, usize), B: Fn(&Vec<Vec3>, &Vec3) -> i64>(
        &self,
        cell: &C,
        blend: &B,
        p: Vec3,
        value: i64,
    ) -> bool {
        exists|i: usize, j: usize, k: usize, c: Vec<Vec3>|
            #![trigger call_ensures(*cell, (&p,), (i, j, k)), call_ensures(*blend, (&c, &p), value)]
            {
                &&& call_ensures(*cell, (&p,), (i, j, k))
                &&& c@ == self.cell_corners(i as int, j as int, k as int)
                &&& call_ensures(*blend, (&c, &p), value)
            }
    }

    /// The noise at `p`.
    pub fn noise<C: Fn(&Vec3) -> (usize, usize, usize), B: Fn(&Vec<Vec3>, &Vec3) -> i64>(
        &self,
        p: &Vec3,
        cell: &C,
        blend: &B,
    ) -> (value: i64)
        requires
            self.well_formed(),
            forall|q: &Vec3| call_requires(*cell, (q,)),
            forall|c: &Vec<Vec3>, q: &Vec3| call_requires(*blend, (c, q)),
        ensures
            self.noises(cell, blend, *p, value),
    {
        let (i, j, k) = cell(p);
        let c: Vec<Vec3> = self.corners(i, j, k);
        let value: i64 = blend(&c, p);
        assert(call_ensures(*cell, (p,), (i, j, k)));
        assert(call_ensures(*blend, (&c, p), value));
        value
    }

    /// After `steps` octaves from the point `p`, the sum of the octaves is
    /// `accum`, and the next octave is taken at `at` with the weight
    /// `weight`: the first octave is taken at `p` with the weight one; `fold`
    /// adds an octave, weighted, to the sum, and `next` gives the weight and
    /// the point of the octave after it.
    pub open spec fn octaves<
        C: Fn(&Vec3) -> (usize, usize, usize),
        B: Fn(&Vec<Vec3>, &Vec3) -> i64,
        F: Fn(i64, i64, i64) -> i64,
        N: Fn(i64, &Vec3) -> (i64, Vec3),
    >(
        &self,
        cell: &C,
        blend: &B,
        fold: &F,
        next: &N,
        p: Vec3,
        steps: int,
        accum: i64,
        weight: i64,
        at: Vec3,
    ) -> bool
        decreases steps,
    {
        if steps <= 0 {
            accum == ZERO && weight == ONE && at == p
        } else {
            exists|before: i64, heavier: i64, from: Vec3, value: i64|
                #![trigger call_ensures(*fold, (before, heavier, value), accum), call_ensures(*next, (heavier, &from), (weight, at))]
                {
                    &&& self.octaves(cell, blend, fold, next, p, steps - 1, before, heavier, from)
                    &&& self.noises(cell, blend, from, value)
                    &&& call_ensures(*fold, (before, heavier, value), accum)
                    &&& call_ensures(*next, (heavier, &from), (weight, at))
                }
        }
    }

    /// Turbulence at `p`: the magnitude of the sum of `depth` octaves of
    /// noise.
    pub fn turb<
        C: Fn(&Vec3) -> (usize, usize, usize),
        B: Fn(&Vec<Vec3>, &Vec3) -> i64,
        F: Fn(i64, i64, i64) -> i64,
        N: Fn(i64, &Vec3) -> (i64, Vec3),
    >(&self, p: &Vec3, depth: i32, cell: &C, blend: &B, fold: &F, next: &N) -> (value: i64)
        requires
            self.well_formed(),
            forall|q: &Vec3| call_requires(*cell, (q,)),
            forall|c: &Vec<Vec3>, q: &Vec3| call_requires(*blend, (c, q)),
            forall|accum: i64, weight: i64, octave: i64|
                call_requires(*fold, (accum, weight, octave)),
            forall|weight: i64, q: &Vec3| call_requires(*next, (weight, q)),
        ensures
            exists|accum: i64, weight: i64, at: Vec3| #[trigger]
                self.octaves(cell, blend, fold, next, *p, depth as int, accum, weight, at) && value
                    == magnitude_of(accum),
    {
        let mut accum: i64 = ZERO;
        let mut temp_p: Vec3 = *p;
        let mut weight: i64 = ONE;
        let mut done: i32 = 0;
        while done < depth
            invariant
                0 <= done,
                done <= depth || done == 0,
                self.well_formed(),
                forall|q: &Vec3| call_requires(*cell, (q,)),
                forall|c: &Vec<Vec3>, q: &Vec3| call_requires(*blend, (c, q)),
                forall|accum: i64, weight: i64, octave: i64|
                    call_requires(*fold, (accum, weight, octave)),
                forall|weight: i64, q: &Vec3| call_requires(*next, (weight, q)),
                self.octaves(cell, blend, fold, next, *p, done as int, accum, weight, temp_p),
            decreases depth - done,
        {
            let ghost before = accum;
            let ghost heavier = weight;
            let ghost from = temp_p;
            let octave: i64 = self.noise(&temp_p, cell, blend);
            accum = fold(accum, weight, octave);
            let stepped = next(weight, &temp_p);
            weight = stepped.0;
            temp_p = stepped.1;
            done += 1;
            assert(call_ensures(*fold, (before, heavier, octave), accum));
            assert(call_ensures(*next, (heavier, &from), (weight, temp_p)));
        }
        assert(self.octaves(cell, blend, fold, next, *p, depth as int, accum, weight, temp_p));
        magnitude(accum)
    }
}

/// `i + d` modulo 256, computed without leaving the range of `usize`.
pub fn wrapped(i: usize, d: usize) -> (w: usize)
    requires
        d <= 1,
    ensures
        w == (i + d) % 256,
{
    let low: usize = i & 255;
    assert(low == i % 256) by (bit_vector)
        requires
            low == i & 255,
    ;
    let sum: usize = low + d;
    let w: usize = sum & 255;
    assert(w == sum % 256) by (bit_vector)
        requires
            w == sum & 255,
    ;
    w
}

} // verus!

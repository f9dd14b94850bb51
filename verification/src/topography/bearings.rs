//! The bearings of the lines between the seeds of the plates.

use crate::mesh::Coord;
use vstd::prelude::*;

verus! {

/// For every two plates, the bearing in degrees of the line from the seed
/// of the one to the seed of the other: `degrees[a][b]` is the bearing from
/// the plate at `a` to the plate at `b`.
pub struct Bearings {
    pub degrees: Vec<Vec<u32>>,
}

impl Bearings {
    /// Whether there is a bearing for every two of `count` plates.
    pub open spec fn wf(self, count: int) -> bool {
        &&& self.degrees@.len() == count
        &&& forall|a: int| 0 <= a < count ==> (#[trigger] self.degrees@[a])@.len() == count
    }

    /// The bearing of the line between the plates at `a` and `b`, measured
    /// from the one that comes first.
    pub open spec fn spec_between(self, a: int, b: int) -> u32 {
        if a <= b {
            self.degrees@[a]@[b]
        } else {
            self.degrees@[b]@[a]
        }
    }

    /// Whether there is a bearing for every two of `count` plates.
    pub fn fits(&self, count: usize) -> (r: bool)
        ensures
            r == self.wf(count as int),
    {
        if self.degrees.len() != count {
            return false;
        }
        let mut a: usize = 0;
        while a < count
            invariant
                a <= count,
                self.degrees@.len() == count,
                forall|k: int| 0 <= k < a ==> (#[trigger] self.degrees@[k])@.len() == count,
            decreases count - a,
        {
            if self.degrees[a].len() != count {
                return false;
            }
            a += 1;
        }
        true
    }

    /// Whether the bearing from each seed to each later one is what
    /// `bearing` gave for the two, and every other entry is zero.
    pub open spec fn spec_measured<B: Fn(Coord, Coord) -> u32>(
        self,
        seeds: Seq<Coord>,
        bearing: B,
    ) -> bool {
        &&& self.wf(seeds.len() as int)
        &&& forall|a: int, b: int|
            0 <= a < b < seeds.len() ==> bearing.ensures(
                (seeds[a], seeds[b]),
                #[trigger] self.degrees@[a]@[b],
            )
        &&& forall|a: int, b: int|
            0 <= b <= a < seeds.len() ==> #[trigger] self.degrees@[a]@[b] == 0
    }

    /// Measures the bearings between the seeds, with one call of `bearing`
    /// for each seed and each later one.
    pub fn measure<B: Fn(Coord, Coord) -> u32>(seeds: &Vec<Coord>, bearing: &B) -> (r: Bearings)
        requires
            forall|from: Coord, to: Coord| bearing.requires((from, to)),
        ensures
            r.spec_measured(seeds@, *bearing),
    {
        let n = seeds.len();
        let mut degrees: Vec<Vec<u32>> = Vec::new();
        let mut a: usize = 0;
        while a < n
            invariant
                n == seeds@.len(),
                a <= n,
                degrees@.len() == a,
                forall|from: Coord, to: Coord| bearing.requires((from, to)),
                forall|i: int| 0 <= i < a ==> (#[trigger] degrees@[i])@.len() == n,
                forall|i: int, j: int|
                    0 <= i < j < n && i < a ==> bearing.ensures(
                        (seeds@[i], seeds@[j]),
                        #[trigger] degrees@[i]@[j],
                    ),
                forall|i: int, j: int|
                    0 <= j <= i < a ==> #[trigger] degrees@[i]@[j] == 0,
            decreases n - a,
        {
            let mut row: Vec<u32> = Vec::new();
            let mut b: usize = 0;
            while b < n
                invariant
                    n == seeds@.len(),
                    a < n,
                    b <= n,
                    row@.len() == b,
                    forall|from: Coord, to: Coord| bearing.requires((from, to)),
                    forall|j: int|
                        a < j < b ==> bearing.ensures(
                            (seeds@[a as int], seeds@[j]),
                            #[trigger] row@[j],
                        ),
                    forall|j: int| 0 <= j < b && j <= a ==> #[trigger] row@[j] == 0,
                decreases n - b,
            {
                let degree = if a < b {
                    bearing(seeds[a], seeds[b])
                } else {
                    0
                };
                row.push(degree);
                b += 1;
            }
            degrees.push(row);
            a += 1;
        }
        Bearings { degrees }
    }

    /// The bearing of the line between the plates at `a` and `b`, measured
    /// from the one that comes first, so that it is the same for both.
    pub fn between(&self, a: usize, b: usize) -> (r: u32)
        requires
            a < self.degrees@.len(),
            b < self.degrees@.len(),
            self.wf(self.degrees@.len() as int),
        ensures
            r == self.spec_between(a as int, b as int),
            r == self.spec_between(b as int, a as int),
    {
        if a <= b {
            self.degrees[a][b]
        } else {
            self.degrees[b][a]
        }
    }
}

} // verus!

//! A queue that hands its items out in random order.

use crate::utils::random::std_rng_below;
use crate::utils::random::std_rng_from_seed;
use crate::utils::random::std_rng_gen_below;
use crate::utils::random::std_rng_seeded;
use crate::utils::random::std_rng_state;
use vstd::prelude::*;

verus! {

/// First in, random out: a queue whose `dequeue` picks one of the items that
/// are waiting, each with the same chance, with a generator of its own.
pub struct FIRO<T> {
    data: Vec<T>,
    rng: rand::rngs::StdRng,
}

/// What is left of the waiting items when the one at `i` leaves: the last
/// item takes its place.
pub open spec fn spec_without<T>(items: Seq<T>, i: int) -> Seq<T> {
    items.update(i, items.last()).drop_last()
}

impl<T> FIRO<T> {
    /// The items that are waiting, in the order the queue keeps them in.
    pub closed spec fn items(&self) -> Seq<T> {
        self.data@
    }

    /// The state that the queue's generator is in.
    pub closed spec fn generator(&self) -> Seq<u8> {
        std_rng_state(self.rng)
    }

    /// The place of the item that `dequeue` hands out next.
    pub open spec fn spec_pick(&self) -> int {
        std_rng_below(self.generator(), self.items().len() as u64).1 as int
    }

    /// An empty queue whose generator is seeded with `seed`.
    pub fn new(seed: u64) -> (r: Self)
        ensures
            r.items() == Seq::<T>::empty(),
            r.generator() == std_rng_seeded(seed),
    {
        let rng = std_rng_from_seed(seed);
        FIRO { data: Vec::new(), rng }
    }

    /// Puts the item at the end of the waiting items.
    pub fn enqueue(&mut self, item: T)
        ensures
            final(self).items() == old(self).items().push(item),
            final(self).generator() == old(self).generator(),
    {
        self.data.push(item);
    }

    /// The number of items that are waiting.
    pub fn len(&self) -> (n: usize)
        ensures
            n == self.items().len(),
    {
        self.data.len()
    }

    /// Hands out one of the waiting items, picked by the generator, and puts
    /// the last item in its place. Returns `None`, and changes nothing, when
    /// no item is waiting.
    pub fn dequeue(&mut self) -> (r: Option<T>)
        ensures
            r is None <==> old(self).items().len() == 0,
            r is None ==> final(self).items() == old(self).items() && final(self).generator()
                == old(self).generator(),
            r is Some ==> {
                &&& 0 <= old(self).spec_pick() < old(self).items().len()
                &&& r->Some_0 == old(self).items()[old(self).spec_pick()]
                &&& final(self).items() == spec_without(old(self).items(), old(self).spec_pick())
                &&& final(self).generator() == std_rng_below(
                    old(self).generator(),
                    old(self).items().len() as u64,
                ).0
            },
    {
        if self.data.is_empty() {
            None
        } else {
            let len = self.data.len();
            let random_index = std_rng_gen_below(&mut self.rng, len as u64) as usize;
            let item = self.data.swap_remove(random_index);
            proof {
                assert(self.data@ =~= spec_without(old(self).data@, random_index as int));
            }
            Some(item)
        }
    }
}

} // verus!

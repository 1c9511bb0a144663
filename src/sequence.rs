use vstd::prelude::*;

use rand::seq::SliceRandom;

use crate::shapes::{kind_of_index, Tetromino};

verus! {

broadcast use vstd::seq_lib::group_to_multiset_ensures;

/// Relies on rand's `SliceRandom::partial_shuffle` (rand 0.8): it permutes
/// the slice in place and hands back, as its first part, the last `amount`
/// elements of the permuted slice, which it has chosen at random.
#[verifier::external_body]
fn partial_shuffle_ids(ids: &mut Vec<usize>, amount: usize) -> (r: Vec<usize>)
    requires
        amount <= old(ids)@.len(),
    ensures
        final(ids)@.len() == old(ids)@.len(),
        final(ids)@.to_multiset() == old(ids)@.to_multiset(),
        r@ == final(ids)@.subrange(old(ids)@.len() - amount, old(ids)@.len() as int),
{
    let (chosen, _) = ids.partial_shuffle(&mut rand::thread_rng(), amount);
    chosen.to_vec()
}

/// The model of a sequence: the piece handed out next, the pending bag
/// (drawn from its end) and the size of each refill.
pub struct SequenceView {
    pub current: Tetromino,
    pub bag: Seq<Tetromino>,
    pub bag_size: int,
}

impl SequenceView {
    pub open spec fn wf(self) -> bool {
        &&& 1 <= self.bag_size <= 7
        &&& self.bag.len() < self.bag_size
        &&& self.bag.no_duplicates()
    }
}

pub open spec fn clamp_bag_size(n: int) -> int {
    if n < 1 {
        1
    } else if n > 7 {
        7
    } else {
        n
    }
}

/// The pieces to come: a bag of distinct kinds, refilled with a random
/// choice of `bag_size` distinct kinds whenever it runs empty.
pub struct TetrominoSequence {
    cur_tetro: Tetromino,
    bag: Vec<Tetromino>,
    bag_size: usize,
}

impl View for TetrominoSequence {
    type V = SequenceView;

    closed spec fn view(&self) -> SequenceView {
        SequenceView { current: self.cur_tetro, bag: self.bag@, bag_size: self.bag_size as int }
    }
}

impl TetrominoSequence {
    /// A sequence whose refills hold `bag_size` pieces, held within 1 and 7;
    /// its first piece is drawn at once.
    pub fn new(bag_size: usize) -> (r: TetrominoSequence)
        ensures
            r@.wf(),
            r@.bag_size == clamp_bag_size(bag_size as int),
            r@.bag.len() == r@.bag_size - 1,
            refill(r@).len() == r@.bag_size,
            refill(r@).no_duplicates(),
    {
        let mut this = TetrominoSequence::starting_with(bag_size, Tetromino::I);
        this.pop();
        this
    }

    /// A sequence whose next piece is `first`, with an empty bag.
    pub fn starting_with(bag_size: usize, first: Tetromino) -> (r: TetrominoSequence)
        ensures
            r@.wf(),
            r@.bag_size == clamp_bag_size(bag_size as int),
            r@.current == first,
            r@.bag.len() == 0,
    {
        let size = if bag_size < 1 {
            1
        } else if bag_size > 7 {
            7
        } else {
            bag_size
        };
        TetrominoSequence { cur_tetro: first, bag: Vec::new(), bag_size: size }
    }

    /// The piece that the next `pop` hands out.
    pub fn peek(&self) -> (r: Tetromino)
        ensures
            r == self@.current,
    {
        self.cur_tetro
    }

    /// The number of pieces of each refill.
    pub fn bag_size(&self) -> (r: usize)
        ensures
            r == self@.bag_size,
    {
        self.bag_size
    }

    /// Hands out the current piece and draws the next from the bag; an empty
    /// bag is first refilled with `bag_size` distinct kinds.
    pub fn pop(&mut self) -> (r: Tetromino)
        requires
            old(self)@.wf(),
        ensures
            r == old(self)@.current,
            final(self)@.wf(),
            final(self)@.bag_size == old(self)@.bag_size,
            old(self)@.bag.len() > 0 ==> final(self)@.current == old(self)@.bag.last()
                && final(self)@.bag == old(self)@.bag.drop_last(),
            old(self)@.bag.len() == 0 ==> refill(final(self)@).len() == old(self)@.bag_size
                && refill(final(self)@).no_duplicates(),
    {
        if self.bag.len() == 0 {
            let mut ids: Vec<usize> = Vec::new();
            let mut i: usize = 0;
            while i < 7
                invariant
                    i <= 7,
                    ids@.len() == i,
                    forall|j: int| 0 <= j < i ==> ids@[j] == j + 1,
                decreases 7 - i,
            {
                ids.push(i + 1);
                i += 1;
            }
            let ghost orig = ids@;
            proof {
                assert(orig.no_duplicates());
                orig.lemma_multiset_has_no_duplicates();
            }
            let chosen = partial_shuffle_ids(&mut ids, self.bag_size);
            proof {
                let f = ids@;
                assert forall|x: usize| f.to_multiset().contains(x) implies f.to_multiset().count(x) == 1 by {
                    assert(orig.to_multiset().contains(x));
                }
                f.lemma_multiset_has_no_duplicates_conv();
                assert forall|j: int| 0 <= j < f.len() implies 1 <= #[trigger] f[j] <= 7 by {
                    assert(f.contains(f[j]));
                    assert(f.to_multiset().contains(f[j]));
                    assert(orig.to_multiset().contains(f[j]));
                    assert(orig.contains(f[j]));
                }
            }
            self.fill_bag(&chosen);
        }
        let ret = self.cur_tetro;
        let next = self.bag.pop().unwrap();
        self.cur_tetro = next;
        ret
    }
}

impl TetrominoSequence {
    /// Fills the empty bag with the kinds of the ids in `chosen`, in order:
    /// id `i` stands for the kind of index `i % 7`. Distinct ids within 1
    /// and 7 give distinct kinds.
    pub fn fill_bag(&mut self, chosen: &Vec<usize>)
        requires
            old(self)@.bag.len() == 0,
        ensures
            final(self)@.bag == chosen@.map_values(|x: usize| kind_of_index(x as int)),
            final(self)@.current == old(self)@.current,
            final(self)@.bag_size == old(self)@.bag_size,
            chosen@.no_duplicates() && (forall|j: int| 0 <= j < chosen@.len() ==> 1 <= #[trigger] chosen@[j] <= 7)
                ==> final(self)@.bag.no_duplicates(),
    {
        let ghost distinct = chosen@.no_duplicates() && (forall|j: int|
            0 <= j < chosen@.len() ==> 1 <= #[trigger] chosen@[j] <= 7);
        let mut k: usize = 0;
        while k < chosen.len()
            invariant
                k <= chosen@.len(),
                distinct == (chosen@.no_duplicates() && (forall|j: int|
                    0 <= j < chosen@.len() ==> 1 <= #[trigger] chosen@[j] <= 7)),
                self.bag@.len() == k,
                forall|j: int| 0 <= j < k ==> self.bag@[j] == kind_of_index(#[trigger] chosen@[j] as int),
                distinct ==> self.bag@.no_duplicates(),
                self.cur_tetro == old(self).cur_tetro,
                self.bag_size == old(self).bag_size,
            decreases chosen@.len() - k,
        {
            let t = Tetromino::from_index(chosen[k]);
            proof {
                if distinct {
                    assert forall|j: int| 0 <= j < k implies self.bag@[j] != t by {
                        assert(chosen@[j] != chosen@[k as int]);
                    }
                }
            }
            self.bag.push(t);
            k += 1;
        }
        assert(self.bag@ =~= chosen@.map_values(|x: usize| kind_of_index(x as int)));
    }
}

/// The bag as it stood right after a refill: the pending pieces and the
/// current one, which was drawn last.
pub open spec fn refill(s: SequenceView) -> Seq<Tetromino> {
    s.bag.push(s.current)
}

} // verus!

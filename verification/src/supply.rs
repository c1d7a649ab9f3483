//! The piece supply: a queue of shapes that is refilled seven at a time,
//! each refill holding every shape once, in an order that the draws decide.

use std::collections::VecDeque;
use vstd::prelude::*;
use rand::Rng;
use crate::piece::{spawned, Piece, PieceShape};

verus! {

/// The seven shapes, in the order a refill starts from.
pub open spec fn all_shapes() -> Seq<PieceShape> {
    seq![
        PieceShape::Straight,
        PieceShape::LShape,
        PieceShape::BackwardLShape,
        PieceShape::TShape,
        PieceShape::RightZig,
        PieceShape::LeftZig,
        PieceShape::Square,
    ]
}

/// Seven shapes, each of the seven once.
pub open spec fn is_batch(shapes: Seq<PieceShape>) -> bool {
    &&& shapes.len() == 7
    &&& shapes.no_duplicates()
    &&& forall|shape: PieceShape| shapes.contains(shape)
}

/// The pool without the item at `i`: the last item takes its place.
pub open spec fn swap_removed(pool: Seq<PieceShape>, i: int) -> Seq<PieceShape> {
    pool.update(i, pool.last()).drop_last()
}

/// The `k`-th pick, or 0 where the picks have run out.
pub open spec fn pick_at(picks: Seq<usize>, k: int) -> int {
    if 0 <= k < picks.len() {
        picks[k] as int
    } else {
        0
    }
}

/// The order in which the pool is dealt out: the `k`-th pick, reduced to the
/// size of the pool, names the next item, the last item of the pool fills
/// the gap, and so on with the picks that follow. The last item left needs
/// no pick.
pub open spec fn deal_from(pool: Seq<PieceShape>, picks: Seq<usize>, k: int) -> Seq<PieceShape>
    decreases pool.len(),
{
    if pool.len() <= 1 {
        pool
    } else {
        let i = pick_at(picks, k) % (pool.len() as int);
        seq![pool[i]] + deal_from(swap_removed(pool, i), picks, k + 1)
    }
}

/// The refill that six picks give.
pub open spec fn dealt(picks: Seq<usize>) -> Seq<PieceShape> {
    deal_from(all_shapes(), picks, 0)
}

/// Taking an item out of a pool without repeats leaves the other items,
/// still without repeats.
proof fn lemma_swap_removed(pool: Seq<PieceShape>, i: int)
    requires
        pool.no_duplicates(),
        0 <= i < pool.len(),
    ensures
        swap_removed(pool, i).len() == pool.len() - 1,
        swap_removed(pool, i).no_duplicates(),
        forall|x: PieceShape|
            swap_removed(pool, i).contains(x) <==> (pool.contains(x) && x != pool[i]),
{
    let rest = swap_removed(pool, i);
    let n = pool.len() as int;
    assert forall|x: PieceShape| rest.contains(x) <==> (pool.contains(x) && x != pool[i]) by {
        if rest.contains(x) {
            let j = choose|j: int| 0 <= j < rest.len() && rest[j] == x;
            if j == i {
                assert(pool[n - 1] == x);
            } else {
                assert(pool[j] == x);
            }
        }
        if pool.contains(x) && x != pool[i] {
            let j = choose|j: int| 0 <= j < pool.len() && pool[j] == x;
            if j == n - 1 {
                assert(rest[i] == x);
            } else {
                assert(rest[j] == x);
            }
        }
    }
}

/// Dealing a pool without repeats gives the same items, each once.
pub proof fn lemma_deal_permutes(pool: Seq<PieceShape>, picks: Seq<usize>, k: int)
    requires
        pool.no_duplicates(),
    ensures
        deal_from(pool, picks, k).len() == pool.len(),
        deal_from(pool, picks, k).no_duplicates(),
        forall|x: PieceShape| deal_from(pool, picks, k).contains(x) <==> pool.contains(x),
    decreases pool.len(),
{
    if pool.len() > 1 {
        let i = pick_at(picks, k) % (pool.len() as int);
        let rest = swap_removed(pool, i);
        let tail = deal_from(rest, picks, k + 1);
        let whole = deal_from(pool, picks, k);
        lemma_swap_removed(pool, i);
        lemma_deal_permutes(rest, picks, k + 1);
        assert(whole =~= seq![pool[i]] + tail);
        assert(whole[0] == pool[i]);
        assert(forall|j: int| 1 <= j < whole.len() ==> whole[j] == tail[j - 1]);
        assert forall|x: PieceShape| whole.contains(x) <==> pool.contains(x) by {
            if whole.contains(x) {
                let j = choose|j: int| 0 <= j < whole.len() && whole[j] == x;
                if j > 0 {
                    assert(tail[j - 1] == x);
                    assert(tail.contains(x));
                }
            }
            if pool.contains(x) {
                if x == pool[i] {
                    assert(whole[0] == x);
                } else {
                    assert(rest.contains(x));
                    assert(tail.contains(x));
                    let j = choose|j: int| 0 <= j < tail.len() && tail[j] == x;
                    assert(whole[j + 1] == x);
                }
            }
        }
        assert forall|a: int, b: int| 0 <= a < b < whole.len() implies whole[a] != whole[b] by {
            if a == 0 {
                assert(tail[b - 1] == whole[b]);
                assert(tail.contains(whole[b]));
                assert(rest.contains(whole[b]));
                assert(whole[b] != pool[i]);
            } else {
                assert(tail[a - 1] == whole[a]);
                assert(tail[b - 1] == whole[b]);
                assert(tail[a - 1] != tail[b - 1]);
            }
        }
    }
}

/// Whatever the picks, a refill holds each of the seven shapes once.
pub proof fn lemma_dealt_is_batch(picks: Seq<usize>)
    ensures
        is_batch(dealt(picks)),
{
    let all = all_shapes();
    assert(all.len() == 7);
    assert(all.no_duplicates());
    lemma_deal_permutes(all, picks, 0);
    assert(dealt(picks).len() == 7);
    assert(dealt(picks).no_duplicates());
    assert forall|shape: PieceShape| dealt(picks).contains(shape) by {
        assert(all.contains(shape)) by {
            lemma_all_shapes_complete(shape);
        }
    }
}

/// Every shape is one of the seven.
proof fn lemma_all_shapes_complete(shape: PieceShape)
    ensures
        all_shapes().contains(shape),
{
    let all = all_shapes();
    assert(all.contains(shape)) by {
        match shape {
            PieceShape::Straight => assert(all[0] == shape),
            PieceShape::LShape => assert(all[1] == shape),
            PieceShape::BackwardLShape => assert(all[2] == shape),
            PieceShape::TShape => assert(all[3] == shape),
            PieceShape::RightZig => assert(all[4] == shape),
            PieceShape::LeftZig => assert(all[5] == shape),
            PieceShape::Square => assert(all[6] == shape),
        }
    }
}

/// Deals the seven shapes out in the order that six picks decide: each pick,
/// reduced to the number of shapes still in the pool, takes one of them.
pub fn deal(picks: [usize; 6]) -> (batch: Vec<PieceShape>)
    ensures
        batch@ == dealt(picks@),
        is_batch(batch@),
{
    let mut pool: Vec<PieceShape> = vec![
        PieceShape::Straight,
        PieceShape::LShape,
        PieceShape::BackwardLShape,
        PieceShape::TShape,
        PieceShape::RightZig,
        PieceShape::LeftZig,
        PieceShape::Square,
    ];
    assert(pool@ =~= all_shapes());
    let mut batch: Vec<PieceShape> = Vec::new();
    let mut k: usize = 0;
    while k < 6
        invariant
            k <= 6,
            pool.len() == 7 - k,
            batch@ + deal_from(pool@, picks@, k as int) == dealt(picks@),
        decreases 6 - k,
    {
        let index: usize = picks[k] % pool.len();
        let ghost before = pool@;
        let shape = pool.swap_remove(index);
        proof {
            assert(pick_at(picks@, k as int) == picks@[k as int]);
            assert(pool@ == swap_removed(before, index as int));
            assert(batch@.push(shape) + deal_from(pool@, picks@, k + 1) =~= batch@ + deal_from(
                before,
                picks@,
                k as int,
            ));
        }
        batch.push(shape);
        k += 1;
    }
    let last = pool.remove(0);
    proof {
        assert(batch@.push(last) =~= dealt(picks@));
        lemma_dealt_is_batch(picks@);
    }
    batch.push(last);
    batch
}

/// Where the picks of a refill come from.
pub enum DrawSource {
    /// The random number generator of the running thread.
    Random,
    /// A fixed list of numbers, read round and round from `next`. An empty
    /// list stands for a list of zeros.
    Scripted { picks: Vec<usize>, next: usize },
}

/// A draw source as a plain value.
pub enum SourceView {
    Random,
    Scripted { picks: Seq<usize>, next: nat },
}

impl View for DrawSource {
    type V = SourceView;

    open spec fn view(&self) -> SourceView {
        match *self {
            DrawSource::Random => SourceView::Random,
            DrawSource::Scripted { picks, next } => SourceView::Scripted {
                picks: picks@,
                next: next as nat,
            },
        }
    }
}

impl SourceView {
    /// A script is read at a place inside it.
    pub open spec fn wf(self) -> bool {
        match self {
            SourceView::Random => true,
            SourceView::Scripted { picks, next } => next < picks.len() || (picks.len() == 0
                && next == 0),
        }
    }

    /// What a scripted source draws below `bound`: the number at its place,
    /// reduced to the bound.
    pub open spec fn drawn(self, bound: int) -> int {
        match self {
            SourceView::Random => 0,
            SourceView::Scripted { picks, next } => if picks.len() == 0 {
                0
            } else {
                picks[next as int] as int % bound
            },
        }
    }

    /// The source after one draw: a script moves one place on, and from its
    /// end back to its start.
    pub open spec fn stepped(self) -> SourceView {
        match self {
            SourceView::Random => SourceView::Random,
            SourceView::Scripted { picks, next } => SourceView::Scripted {
                picks,
                next: if next + 1 < picks.len() {
                    next + 1
                } else {
                    0
                },
            },
        }
    }

    /// The source after `draws` draws.
    pub open spec fn stepped_by(self, draws: nat) -> SourceView
        decreases draws,
    {
        if draws == 0 {
            self
        } else {
            self.stepped_by((draws - 1) as nat).stepped()
        }
    }
}

/// The six picks that a scripted source gives to one refill: the first
/// below 7, the next below 6, down to the last below 2.
pub open spec fn scripted_picks(source: SourceView) -> Seq<usize> {
    Seq::new(6, |k: int| source.stepped_by(k as nat).drawn(7 - k) as usize)
}

/// Draws a number below `bound` from the generator of the running thread,
/// with `rand::thread_rng` and `rand::Rng::gen_range` from 0 to `bound`.
/// `gen_range` gives a number from its lower bound up to, not including, its
/// upper bound, and refuses an empty range, hence the `requires`. Which
/// number comes is left open. The generator is seeded by the operating
/// system on first use and stops the program if that fails.
#[verifier::external_body]
fn random_below(bound: usize) -> (r: usize)
    requires
        bound > 0,
    ensures
        r < bound,
{
    rand::thread_rng().gen_range(0, bound)
}

impl DrawSource {
    /// A source that reads `picks` round and round, from its start.
    pub fn scripted(picks: Vec<usize>) -> (source: DrawSource)
        ensures
            source@ == (SourceView::Scripted { picks: picks@, next: 0 }),
            source@.wf(),
    {
        DrawSource::Scripted { picks, next: 0 }
    }

    /// Draws a number below `bound`. A scripted source gives the number at
    /// its place, reduced to the bound, and moves on; of the random source
    /// only the range is known.
    pub fn draw(&mut self, bound: usize) -> (r: usize)
        requires
            bound > 0,
            old(self)@.wf(),
        ensures
            r < bound,
            final(self)@ == old(self)@.stepped(),
            final(self)@.wf(),
            old(self)@ is Scripted ==> r == old(self)@.drawn(bound as int),
    {
        match self {
            DrawSource::Random => random_below(bound),
            DrawSource::Scripted { picks, next } => {
                if picks.len() == 0 {
                    0
                } else {
                    let r: usize = picks[*next] % bound;
                    if *next + 1 < picks.len() {
                        *next = *next + 1;
                    } else {
                        *next = 0;
                    }
                    r
                }
            },
        }
    }
}

/// The supply as a plain value: the shapes that wait, front first, and the
/// source of the picks.
pub struct SupplyView {
    pub queue: Seq<PieceShape>,
    pub source: SourceView,
}

impl SupplyView {
    /// Between three and nine shapes wait. Where seven or more wait, the last
    /// seven are a whole refill; what stands before them, or the whole queue
    /// where fewer than seven wait, is the rest of an earlier refill and
    /// holds no shape twice.
    pub open spec fn wf(self) -> bool {
        let n = self.queue.len() as int;
        &&& self.source.wf()
        &&& 3 <= n <= 9
        &&& if n >= 7 {
            is_batch(self.queue.skip(n - 7)) && self.queue.take(n - 7).no_duplicates()
        } else {
            self.queue.no_duplicates()
        }
    }

    /// Whether the supply stands at the start of a refill.
    pub open spec fn at_batch_start(self) -> bool {
        self.queue.len() == 7
    }
}

/// `post` is `pre` after `dropped` shapes left the front and one refill
/// joined the back. A scripted source fixes the refill; of a random one it
/// is known to hold each shape once.
pub open spec fn refilled(pre: SupplyView, post: SupplyView, dropped: int) -> bool {
    let kept = pre.queue.len() - dropped;
    &&& post.queue.len() == kept + 7
    &&& post.queue.take(kept) == pre.queue.skip(dropped)
    &&& is_batch(post.queue.skip(kept))
    &&& post.source == pre.source.stepped_by(6)
    &&& pre.source is Scripted ==> post.queue.skip(kept) == dealt(scripted_picks(pre.source))
}

/// `post` is `pre` after one shape was taken: the front shape left, and
/// where fewer than four were waiting a refill joined first.
pub open spec fn popped(pre: SupplyView, post: SupplyView) -> bool {
    if pre.queue.len() < 4 {
        refilled(pre, post, 1)
    } else {
        post == (SupplyView { queue: pre.queue.drop_first(), source: pre.source })
    }
}

/// One draw more is one step more.
proof fn lemma_one_more_step(source: SourceView, draws: nat)
    ensures
        source.stepped_by(draws + 1) == source.stepped_by(draws).stepped(),
        source.stepped_by(0) == source,
{
}

/// Drawing keeps a source well formed.
pub proof fn lemma_stepped_keeps_wf(source: SourceView, draws: nat)
    requires
        source.wf(),
    ensures
        source.stepped_by(draws).wf(),
        source is Random ==> source.stepped_by(draws) == source,
    decreases draws,
{
    if draws > 0 {
        lemma_stepped_keeps_wf(source, (draws - 1) as nat);
    }
}

/// Taking a shape keeps the supply well formed.
pub proof fn lemma_popped_keeps_wf(pre: SupplyView, post: SupplyView)
    requires
        pre.wf(),
        popped(pre, post),
    ensures
        post.wf(),
        pre.queue.len() < 4 ==> post.queue.len() == pre.queue.len() + 6,
        pre.queue.len() >= 4 ==> post.queue.len() == pre.queue.len() - 1,
        post.queue.len() < 7 || pre.queue.len() < 4 ==> forall|i: int|
            0 <= i < pre.queue.len() - 1 ==> post.queue[i] == pre.queue[i + 1],
{
    let n = pre.queue.len() as int;
    lemma_stepped_keeps_wf(pre.source, 6);
    if n < 4 {
        assert(post.queue.take(post.queue.len() - 7) =~= pre.queue.skip(1));
        assert forall|i: int| 0 <= i < n - 1 implies post.queue[i] == pre.queue[i + 1] by {
            assert(post.queue.take(n - 1)[i] == pre.queue.skip(1)[i]);
        }
    } else if n >= 8 {
        assert(post.queue.skip(n - 8) =~= pre.queue.skip(n - 7));
        assert(post.queue.take(n - 8) =~= pre.queue.take(n - 7).drop_first());
    } else if n == 7 {
        assert(pre.queue.skip(0) =~= pre.queue);
    }
}

/// Seven shapes taken one after another, starting where a refill starts, are
/// the seven shapes, each once; and the supply then stands where the next
/// refill starts, so that the same holds of the seven after them, without
/// end. `states` holds the supply before the first take and after each of
/// the seven; the shape that a take hands out is the front of the queue
/// before it.
pub proof fn law_seven_from_batch_start(states: Seq<SupplyView>)
    requires
        states.len() == 8,
        states[0].wf(),
        states[0].at_batch_start(),
        forall|i: int| 0 <= i < 7 ==> popped(#[trigger] states[i], states[i + 1]),
    ensures
        is_batch(Seq::new(7, |i: int| states[i].queue[0])),
        states[7].wf(),
        states[7].at_batch_start(),
{
    let first = states[0].queue;
    let taken = Seq::new(7, |i: int| states[i].queue[0]);
    assert(first.skip(0) =~= first);
    assert(popped(states[0], states[1]));
    lemma_popped_keeps_wf(states[0], states[1]);
    assert(popped(states[1], states[2]));
    lemma_popped_keeps_wf(states[1], states[2]);
    assert(popped(states[2], states[3]));
    lemma_popped_keeps_wf(states[2], states[3]);
    assert(popped(states[3], states[4]));
    lemma_popped_keeps_wf(states[3], states[4]);
    assert(popped(states[4], states[5]));
    lemma_popped_keeps_wf(states[4], states[5]);
    assert(popped(states[5], states[6]));
    lemma_popped_keeps_wf(states[5], states[6]);
    assert(popped(states[6], states[7]));
    lemma_popped_keeps_wf(states[6], states[7]);
    assert(states[1].queue[0] == first[1]);
    assert(states[2].queue[0] == first[2]);
    assert(states[3].queue[0] == first[3]);
    assert(states[4].queue[0] == first[4]);
    assert(states[5].queue[0] == first[5]);
    assert(states[6].queue[0] == first[6]);
    assert(taken =~= first);
}

/// The queue of shapes from which the board takes its pieces.
pub struct PieceGenerator {
    pieces: VecDeque<PieceShape>,
    source: DrawSource,
}

impl View for PieceGenerator {
    type V = SupplyView;

    closed spec fn view(&self) -> SupplyView {
        SupplyView { queue: self.pieces@, source: self.source@ }
    }
}

impl PieceGenerator {
    /// A supply that shuffles with the random numbers of the running thread,
    /// filled with its first refill.
    pub fn new() -> (generator: PieceGenerator)
        ensures
            generator@.wf(),
            generator@.at_batch_start(),
            is_batch(generator@.queue),
            generator@.source == SourceView::Random,
    {
        let generator = PieceGenerator::with_source(DrawSource::Random);
        proof {
            lemma_stepped_keeps_wf(SourceView::Random, 6);
        }
        generator
    }

    /// A supply that shuffles with the picks of `source`, filled with its
    /// first refill.
    pub fn with_source(source: DrawSource) -> (generator: PieceGenerator)
        requires
            source@.wf(),
        ensures
            generator@.wf(),
            generator@.at_batch_start(),
            is_batch(generator@.queue),
            generator@.source == source@.stepped_by(6),
            source@ is Scripted ==> generator@.queue == dealt(scripted_picks(source@)),
    {
        let pieces = VecDeque::with_capacity(10);
        let mut generator = PieceGenerator { pieces, source };
        generator.populate();
        proof {
            let q = generator@.queue;
            assert(q.skip(0) =~= q);
            assert(q.take(0) =~= Seq::<PieceShape>::empty());
        }
        generator
    }

    /// Takes the front shape and hands it out as a piece on its spawn cells.
    /// Where fewer than four shapes wait, a refill joins the queue first, so
    /// the supply never runs dry.
    pub fn pop(&mut self) -> (piece: Piece)
        requires
            old(self)@.wf(),
        ensures
            final(self)@.wf(),
            piece@ == spawned(old(self)@.queue[0]),
            popped(old(self)@, final(self)@),
    {
        let ghost pre = self@;
        if self.pieces.len() < 4 {
            self.populate();
        }
        let ghost mid = self@;
        let front = self.pieces.pop_front();
        proof {
            let post = self@;
            assert(post.queue =~= mid.queue.drop_first());
            if pre.queue.len() < 4 {
                assert(mid.queue.take(3) =~= pre.queue);
                assert(mid.queue[0] == mid.queue.take(3)[0]);
                assert(post.queue.take(2) =~= pre.queue.skip(1));
                assert(post.queue.skip(2) =~= mid.queue.skip(3));
            }
            lemma_popped_keeps_wf(pre, post);
        }
        Piece::create(front.unwrap())
    }

    fn push(&mut self, piece: PieceShape)
        ensures
            final(self)@ == (SupplyView { queue: old(self)@.queue.push(piece), ..old(self)@ }),
    {
        self.pieces.push_back(piece);
    }

    /// Draws the six picks of one refill: below 7, below 6, down to below 2.
    fn draw_picks(&mut self) -> (picks: [usize; 6])
        requires
            old(self)@.source.wf(),
        ensures
            final(self)@.queue == old(self)@.queue,
            final(self)@.source == old(self)@.source.stepped_by(6),
            final(self)@.source.wf(),
            old(self)@.source is Scripted ==> picks@ == scripted_picks(old(self)@.source),
    {
        let ghost source = self@.source;
        proof {
            lemma_one_more_step(source, 0);
            lemma_one_more_step(source, 1);
            lemma_one_more_step(source, 2);
            lemma_one_more_step(source, 3);
            lemma_one_more_step(source, 4);
            lemma_one_more_step(source, 5);
        }
        let first = self.source.draw(7);
        assert(self@.source == source.stepped_by(1));
        let second = self.source.draw(6);
        assert(self@.source == source.stepped_by(2));
        let third = self.source.draw(5);
        assert(self@.source == source.stepped_by(3));
        let fourth = self.source.draw(4);
        assert(self@.source == source.stepped_by(4));
        let fifth = self.source.draw(3);
        assert(self@.source == source.stepped_by(5));
        let sixth = self.source.draw(2);
        assert(self@.source == source.stepped_by(6));
        let picks: [usize; 6] = [first, second, third, fourth, fifth, sixth];
        proof {
            if source is Scripted {
                assert(picks@ =~= scripted_picks(source));
            }
        }
        picks
    }

    /// Draws six picks, deals the seven shapes by them, and queues them.
    fn populate(&mut self)
        requires
            old(self)@.source.wf(),
        ensures
            refilled(old(self)@, final(self)@, 0),
            final(self)@.source.wf(),
    {
        let ghost pre = self@;
        let picks = self.draw_picks();
        let batch = deal(picks);
        let mut i: usize = 0;
        while i < 7
            invariant
                i <= 7,
                batch@.len() == 7,
                self@.source == pre.source.stepped_by(6),
                self@.queue == pre.queue + batch@.take(i as int),
            decreases 7 - i,
        {
            let shape = batch[i];
            proof {
                assert(batch@.take(i + 1) =~= batch@.take(i as int).push(shape));
                assert((pre.queue + batch@.take(i as int)).push(shape) =~= pre.queue + batch@.take(
                    i + 1,
                ));
            }
            self.push(shape);
            i += 1;
        }
        proof {
            let post = self@;
            let kept = pre.queue.len() as int;
            assert(batch@.take(7) =~= batch@);
            assert(post.queue.take(kept) =~= pre.queue.skip(0));
            assert(post.queue.skip(kept) =~= batch@);
        }
    }
}

} // verus!

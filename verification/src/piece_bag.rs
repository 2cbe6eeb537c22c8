use crate::enums::{PieceType, Rotation};
use crate::pieces::Piece;
use rand::rngs::StdRng;
use rand::seq::SliceRandom;
use rand::SeedableRng;
use std::collections::VecDeque;
use vstd::prelude::*;

verus! {

/// The generator of `rand` that the bag shuffles with. Nothing is known of
/// what is inside it.
#[verifier::external_type_specification]
#[verifier::external_body]
pub struct ExStdRng(rand::rngs::StdRng);

/// Calls `SeedableRng::seed_from_u64` for `StdRng`: a generator whose
/// stream is fixed by the seed. Nothing is claimed of the stream.
#[verifier::external_body]
fn rng_from_seed(seed: u64) -> (rng: StdRng) {
    StdRng::seed_from_u64(seed)
}

/// The error of `rand` that says that a generator could not be made.
#[verifier::external_type_specification]
#[verifier::external_body]
pub struct ExRandError(rand::Error);

/// Calls `SeedableRng::from_rng` for `StdRng` on `OsRng`: a generator seeded
/// by the operating system, or the error of `rand` where the system has no
/// entropy to give. Nothing is claimed of the stream, nor of when the call
/// succeeds.
#[verifier::external_body]
fn rng_from_os() -> (rng: Result<StdRng, rand::Error>) {
    StdRng::from_rng(rand::rngs::OsRng)
}

/// Calls `SliceRandom::shuffle` on the list. The claim is that the list holds
/// the same items after the call as before, each as often: `shuffle` only
/// swaps items of the slice. Nothing is claimed of their order.
#[verifier::external_body]
fn shuffle_types(types: &mut Vec<PieceType>, rng: &mut StdRng)
    ensures
        final(types)@.to_multiset() == old(types)@.to_multiset(),
{
    types.as_mut_slice().shuffle(rng);
}

/// The types of a list of pieces.
pub open spec fn types_of(pieces: Seq<Piece>) -> Seq<PieceType> {
    pieces.map_values(|p: Piece| p.piece_type)
}

/// Seven piece types of which no two are the same: one of each.
pub open spec fn is_full_set(s: Seq<PieceType>) -> bool {
    s.len() == 7 && s.no_duplicates()
}

/// Counted from its start in groups of seven, no group of the line holds a
/// piece type twice.
#[verifier::opaque]
pub open spec fn in_cycles(line: Seq<PieceType>) -> bool {
    forall|i: int, j: int|
        0 <= i < j < line.len() && i / 7 == j / 7 ==> #[trigger] line[i] != #[trigger] line[j]
}

/// How many piece types are left of the group being dealt once `dealt`
/// pieces were dealt from a bag that started with one full group: all seven
/// before the first, and then what is left of the group that the last piece
/// came from. A new group comes in only when a piece is asked of an empty
/// rest.
pub open spec fn rest_after(dealt: int) -> int {
    if dealt == 0 {
        7
    } else {
        (7 - dealt % 7) % 7
    }
}

/// The randomizer: it deals the seven piece types in shuffled groups of
/// seven, and keeps the next pieces ready to be shown.
///
/// `buffer_next_pieces` holds the pieces that were dealt and not yet played,
/// the next to play at its back. `internal_permutation` holds what is left of
/// the group that is being dealt, the next to deal at its end.
pub struct PieceBag {
    pub buffer_next_pieces: VecDeque<Piece>,
    pub internal_permutation: Vec<PieceType>,
    pub rng: StdRng,
    pub buffer_size: usize,
}

/// The bag `post` is what comes of a bag with the rest `perm` of a group and
/// the buffer `buffer` when one more piece is dealt into the buffer: the
/// piece comes in upright at the front, and it is the next of `perm`, or the
/// first of a new full group where `perm` was used up.
pub open spec fn dealt_one(perm: Seq<PieceType>, buffer: Seq<Piece>, post: PieceBag) -> bool {
    let newest = post.buffer_next_pieces@[0];
    let group = post.internal_permutation@.push(newest.piece_type);
    &&& post.buffer_next_pieces@.len() == buffer.len() + 1
    &&& post.buffer_next_pieces@.skip(1) == buffer
    &&& newest.wf()
    &&& newest.rotation == Rotation::R0
    &&& if perm.len() > 0 {
        group == perm
    } else {
        is_full_set(group)
    }
}

/// The bag `post` is what comes of the bag `pre` when the piece `out` is
/// taken from it: `out` is the piece that was at the back of the buffer, and
/// one more piece was dealt into the buffer in its place.
#[verifier::opaque]
pub open spec fn drew(pre: PieceBag, post: PieceBag, out: Piece) -> bool {
    &&& pre.buffer_next_pieces@.len() > 0
    &&& out == pre.buffer_next_pieces@.last()
    &&& post.buffer_size == pre.buffer_size
    &&& dealt_one(pre.internal_permutation@, pre.buffer_next_pieces@.drop_last(), post)
}

impl PieceBag {
    /// Every piece in the buffer is well formed.
    pub open spec fn wf(&self) -> bool {
        forall|i: int|
            0 <= i < self.buffer_next_pieces@.len() ==> (#[trigger] self.buffer_next_pieces@[i]).wf()
    }

    /// The piece types that the bag holds, the last to come out first and the
    /// next to come out last: what is left of the group being dealt, then the
    /// buffer.
    pub open spec fn line(&self) -> Seq<PieceType> {
        self.internal_permutation@ + types_of(self.buffer_next_pieces@)
    }

    /// The pieces that wait in the buffer, the next to play first.
    pub open spec fn queue(&self) -> Seq<Piece> {
        self.buffer_next_pieces@.reverse()
    }

    /// What the bag holds is made of groups of one of each type, short only
    /// of what was played of the group that is coming out now.
    pub open spec fn cyclic(&self) -> bool {
        in_cycles(self.line())
    }

    /// The next piece to come out is the first of its group.
    pub open spec fn at_boundary(&self) -> bool {
        self.line().len() % 7 == 0
    }

    /// A bag that shows `buffer_size` pieces ahead. With a seed the sequence
    /// of pieces is fixed by it; without one the operating system seeds it,
    /// and the seed is 0 where the system has no entropy to give.
    pub fn new(buffer_size: usize, seed: Option<u64>) -> (bag: PieceBag)
        ensures
            bag.wf(),
            bag.cyclic(),
            bag.at_boundary(),
            bag.buffer_size == buffer_size,
            bag.buffer_next_pieces@.len() == buffer_size,
            bag.internal_permutation@.len() == rest_after(buffer_size as int),
            forall|i: int|
                0 <= i < buffer_size ==> (#[trigger] bag.buffer_next_pieces@[i]).rotation
                    == Rotation::R0,
    {
        let rng = match seed {
            Some(s) => rng_from_seed(s),
            None => match rng_from_os() {
                Ok(rng) => rng,
                Err(_) => rng_from_seed(0),
            },
        };
        let mut inst = PieceBag {
            buffer_next_pieces: VecDeque::new(),
            internal_permutation: Vec::new(),
            rng,
            buffer_size,
        };
        inst.fill_permutation();
        proof {
            reveal(in_cycles);
            assert(inst.internal_permutation@.skip(0) =~= inst.internal_permutation@);
            assert(inst.line() =~= inst.internal_permutation@);
        }
        let mut n: usize = 0;
        while n < buffer_size
            invariant
                0 <= n <= buffer_size,
                inst.wf(),
                inst.cyclic(),
                inst.at_boundary(),
                inst.buffer_size == buffer_size,
                inst.buffer_next_pieces@.len() == n,
                inst.internal_permutation@.len() == rest_after(n as int),
                forall|i: int|
                    0 <= i < n ==> (#[trigger] inst.buffer_next_pieces@[i]).rotation == Rotation::R0,
            decreases buffer_size - n,
        {
            let ghost before = inst;
            inst.new_block_in_buffer();
            proof {
                lemma_dealt_line(before.internal_permutation@, before.buffer_next_pieces@, inst);
                assert forall|i: int| 0 <= i < n + 1 implies (
                #[trigger] inst.buffer_next_pieces@[i]).rotation == Rotation::R0 by {
                    if i > 0 {
                        assert(inst.buffer_next_pieces@[i] == inst.buffer_next_pieces@.skip(1)[i - 1]);
                    }
                }
            }
            n += 1;
        }
        inst
    }

    /// Takes the next piece out of the bag. One more piece is dealt into the
    /// buffer at once, so the buffer is as long after the call as before.
    pub fn next_piece(&mut self) -> (piece: Piece)
        requires
            old(self).wf(),
            old(self).buffer_next_pieces@.len() > 0,
        ensures
            drew(*old(self), *final(self), piece),
            piece == old(self).buffer_next_pieces@.last(),
            piece.wf(),
            piece.piece_type == old(self).line().last(),
            final(self).wf(),
            final(self).buffer_size == old(self).buffer_size,
            final(self).buffer_next_pieces@.len() == old(self).buffer_next_pieces@.len(),
            final(self).buffer_next_pieces@.skip(1) == old(self).buffer_next_pieces@.drop_last(),
            final(self).buffer_next_pieces@[0].rotation == Rotation::R0,
            old(self).internal_permutation@.len() > 0 ==> {
                &&& final(self).internal_permutation@ == old(self).internal_permutation@.drop_last()
                &&& final(self).buffer_next_pieces@[0].piece_type == old(self).internal_permutation@.last()
            },
            old(self).internal_permutation@.len() == 0 ==> is_full_set(
                final(self).internal_permutation@.push(
                    final(self).buffer_next_pieces@[0].piece_type,
                ),
            ),
            old(self).cyclic() ==> final(self).cyclic(),
    {
        let ghost line = self.line();
        let ret = self.buffer_next_pieces.pop_back().unwrap();
        let ghost rest = self.buffer_next_pieces@;
        proof {
            reveal(in_cycles);
            assert(self.line() =~= line.drop_last());
            assert(ret.piece_type == line.last());
            assert(in_cycles(line) ==> in_cycles(line.drop_last()));
        }
        self.new_block_in_buffer();
        proof {
            reveal(drew);
            lemma_dealt_line(old(self).internal_permutation@, rest, *self);
            if old(self).internal_permutation@.len() > 0 {
                let whole = self.internal_permutation@.push(
                    self.buffer_next_pieces@[0].piece_type,
                );
                assert(whole.drop_last() =~= self.internal_permutation@);
            }
        }
        ret
    }

    /// Puts a piece at the head of the queue: it is the next to come out.
    /// Nothing is dealt for it.
    pub fn add_top(&mut self, p: Piece)
        requires
            old(self).wf(),
            p.wf(),
        ensures
            final(self).wf(),
            final(self).buffer_size == old(self).buffer_size,
            final(self).internal_permutation@ == old(self).internal_permutation@,
            final(self).buffer_next_pieces@ == old(self).buffer_next_pieces@.push(p),
    {
        self.buffer_next_pieces.push_back(p);
    }

    /// The pieces that come next, the next to play first: as many as the bag
    /// shows ahead, or all that wait where they are fewer.
    #[verifier::loop_isolation(false)]
    pub fn iter_next_pieces(&self) -> (pieces: Vec<&Piece>)
        ensures
            pieces@.len() == (if self.buffer_size <= self.buffer_next_pieces@.len() {
                self.buffer_size as int
            } else {
                self.buffer_next_pieces@.len() as int
            }),
            forall|i: int| 0 <= i < pieces@.len() ==> *(#[trigger] pieces@[i]) == self.queue()[i],
    {
        let len = self.buffer_next_pieces.len();
        let shown = if self.buffer_size <= len {
            self.buffer_size
        } else {
            len
        };
        let mut pieces: Vec<&Piece> = Vec::new();
        let mut i: usize = 0;
        while i < shown
            invariant
                0 <= i <= shown <= len,
                len == self.buffer_next_pieces@.len(),
                pieces@.len() == i,
                forall|k: int| 0 <= k < i ==> *(#[trigger] pieces@[k]) == self.queue()[k],
            decreases shown - i,
        {
            pieces.push(&self.buffer_next_pieces[len - 1 - i]);
            i += 1;
        }
        pieces
    }

    /// Deals a new group: one of each piece type, shuffled, behind what is
    /// left of the group before.
    pub fn fill_permutation(&mut self)
        ensures
            final(self).buffer_size == old(self).buffer_size,
            final(self).buffer_next_pieces@ == old(self).buffer_next_pieces@,
            final(self).internal_permutation@.len() == old(self).internal_permutation@.len() + 7,
            final(self).internal_permutation@.take(old(self).internal_permutation@.len() as int)
                == old(self).internal_permutation@,
            is_full_set(
                final(self).internal_permutation@.skip(old(self).internal_permutation@.len() as int),
            ),
    {
        let mut nums: Vec<PieceType> = vec![
            PieceType::I,
            PieceType::S,
            PieceType::Z,
            PieceType::O,
            PieceType::T,
            PieceType::L,
            PieceType::J,
        ];
        let ghost sorted = nums@;
        shuffle_types(&mut nums, &mut self.rng);
        proof {
            assert(sorted.no_duplicates());
            sorted.lemma_multiset_has_no_duplicates();
            nums@.lemma_multiset_has_no_duplicates_conv();
            sorted.to_multiset_ensures();
            nums@.to_multiset_ensures();
        }
        let ghost start = self.internal_permutation@;
        let ghost group = nums@;
        self.deal_group(nums);
        assert(self.internal_permutation@.take(start.len() as int) =~= start);
        assert(self.internal_permutation@.skip(start.len() as int) =~= group);
    }

    /// Puts a group of one of each piece type behind what is left of the
    /// group before, in the order it has: its last type is the first of it
    /// to be dealt.
    pub fn deal_group(&mut self, group: Vec<PieceType>)
        requires
            is_full_set(group@),
        ensures
            final(self).internal_permutation@ == old(self).internal_permutation@ + group@,
            final(self).buffer_next_pieces@ == old(self).buffer_next_pieces@,
            final(self).buffer_size == old(self).buffer_size,
            final(self).rng == old(self).rng,
    {
        let ghost start = self.internal_permutation@;
        let mut k: usize = 0;
        assert(start + group@.take(0) =~= start);
        while k < 7
            invariant
                0 <= k <= 7,
                group@.len() == 7,
                self.buffer_size == old(self).buffer_size,
                self.buffer_next_pieces@ == old(self).buffer_next_pieces@,
                self.rng == old(self).rng,
                self.internal_permutation@ == start + group@.take(k as int),
            decreases 7 - k,
        {
            self.internal_permutation.push(group[k]);
            assert(group@.take(k + 1) =~= group@.take(k as int).push(group@[k as int]));
            assert(self.internal_permutation@ =~= start + group@.take(k + 1));
            k += 1;
        }
        assert(group@.take(7) =~= group@);
    }

    /// Deals one piece into the buffer, from a new group where the group
    /// before is used up.
    pub fn new_block_in_buffer(&mut self)
        requires
            old(self).wf(),
        ensures
            final(self).wf(),
            final(self).buffer_size == old(self).buffer_size,
            dealt_one(old(self).internal_permutation@, old(self).buffer_next_pieces@, *final(self)),
    {
        if self.internal_permutation.len() == 0 {
            self.fill_permutation();
            assert(self.internal_permutation@.skip(0) =~= self.internal_permutation@);
        }
        let ghost group = self.internal_permutation@;
        let piece = self.internal_permutation.pop().unwrap();
        self.buffer_next_pieces.push_front(Piece::new(piece));
        proof {
            assert(self.buffer_next_pieces@.skip(1) =~= old(self).buffer_next_pieces@);
            assert(self.internal_permutation@.push(piece) =~= group);
            assert forall|i: int| 0 <= i < self.buffer_next_pieces@.len() implies (
            #[trigger] self.buffer_next_pieces@[i]).wf() by {
                if i > 0 {
                    assert(self.buffer_next_pieces@[i] == old(self).buffer_next_pieces@[i - 1]);
                }
            }
        }
    }
}

impl Default for PieceBag {
    /// A bag that shows five pieces ahead, seeded by the operating system.
    fn default() -> (bag: PieceBag)
        ensures
            bag.wf(),
            bag.cyclic(),
            bag.at_boundary(),
            bag.buffer_size == 5,
            bag.buffer_next_pieces@.len() == 5,
            bag.internal_permutation@.len() == 2,
            forall|i: int|
                0 <= i < 5 ==> (#[trigger] bag.buffer_next_pieces@[i]).rotation == Rotation::R0,
    {
        PieceBag::new(5, None)
    }
}

/// Dealing one piece into the buffer leaves the line of the bag as it is, or
/// puts a new full group behind it; either way the line stays in groups of
/// one of each type, and the next piece stays where it was in its group.
pub proof fn lemma_dealt_line(perm: Seq<PieceType>, buffer: Seq<Piece>, post: PieceBag)
    requires
        dealt_one(perm, buffer, post),
    ensures
        perm.len() > 0 ==> post.line() == perm + types_of(buffer),
        perm.len() == 0 ==> post.line().len() == 7 + buffer.len() && is_full_set(
            post.line().take(7),
        ) && post.line().skip(7) == types_of(buffer),
        in_cycles(perm + types_of(buffer)) ==> in_cycles(post.line()),
        (post.line().len() - (perm + types_of(buffer)).len()) % 7 == 0,
{
    reveal(in_cycles);
    let newest = post.buffer_next_pieces@[0];
    let group = post.internal_permutation@.push(newest.piece_type);
    let old_line = perm + types_of(buffer);
    assert(post.buffer_next_pieces@ =~= seq![newest] + post.buffer_next_pieces@.skip(1));
    assert(types_of(post.buffer_next_pieces@) =~= seq![newest.piece_type] + types_of(buffer));
    assert(post.line() =~= group + types_of(buffer));
    if perm.len() == 0 {
        assert(post.line().take(7) =~= group);
        assert(post.line().skip(7) =~= types_of(buffer));
        assert(old_line =~= types_of(buffer));
        if in_cycles(old_line) {
            assert forall|i: int, j: int|
                0 <= i < j < post.line().len() && i / 7 == j / 7 implies #[trigger] post.line()[i]
                != #[trigger] post.line()[j] by {
                if j < 7 {
                    assert(post.line()[i] == group[i] && post.line()[j] == group[j]);
                } else {
                    assert(i >= 7);
                    assert(post.line()[i] == old_line[i - 7] && post.line()[j] == old_line[j - 7]);
                    assert((i - 7) / 7 == (j - 7) / 7);
                }
            }
        }
    }
}

/// Seven piece types of which no two are the same are all seven.
pub proof fn lemma_full_set_has_all(s: Seq<PieceType>)
    requires
        is_full_set(s),
    ensures
        forall|t: PieceType| s.contains(t),
{
    assert forall|t: PieceType| s.contains(t) by {
        if !s.contains(t) {
            let a = s[0].ordinal();
            let b = s[1].ordinal();
            let c = s[2].ordinal();
            let d = s[3].ordinal();
            let e = s[4].ordinal();
            let f = s[5].ordinal();
            let g = s[6].ordinal();
            assert(s[0] != t && s[1] != t && s[2] != t && s[3] != t && s[4] != t && s[5] != t
                && s[6] != t);
            assert(false);
        }
    }
}

/// The line `line` ends with `tail`.
pub open spec fn ends_with(line: Seq<PieceType>, tail: Seq<PieceType>) -> bool {
    tail.len() <= line.len() && line.skip(line.len() - tail.len()) == tail
}

/// If a line ends with the first `n` items of `first`, and a second line
/// ends with the first line short of its last item, then the second line
/// ends with the first `n - 1` items of `first`, and the item that the first
/// line is short of is item `n - 1` of `first`.
pub proof fn lemma_ends_with_step(
    a: Seq<PieceType>,
    b: Seq<PieceType>,
    first: Seq<PieceType>,
    n: int,
)
    requires
        1 <= n <= first.len(),
        ends_with(a, first.take(n)),
        ends_with(b, a.drop_last()),
    ensures
        ends_with(b, first.take(n - 1)),
        a.last() == first[n - 1],
{
    let at = a.len() - n;
    assert(a.skip(at)[n - 1] == first.take(n)[n - 1]);
    let bt = b.len() - (a.len() - 1);
    let tail = b.skip(b.len() - (n - 1));
    let want = first.take(n - 1);
    assert forall|k: int| 0 <= k < n - 1 implies #[trigger] tail[k] == want[k] by {
        assert(b.skip(bt)[at + k] == a.drop_last()[at + k]);
        assert(a.skip(at)[k] == first.take(n)[k]);
    }
    assert(tail =~= want);
}

/// Taking a piece out of a bag takes the last type off its line; what else
/// the line held stays at its end, in its order. In front of it a new full
/// group may have come in.
pub proof fn lemma_draw_line(pre: PieceBag, post: PieceBag, out: Piece)
    requires
        drew(pre, post, out),
    ensures
        pre.line().len() > 0,
        out.piece_type == pre.line().last(),
        ends_with(post.line(), pre.line().drop_last()),
        (post.line().len() - (pre.line().len() - 1)) % 7 == 0,
        pre.cyclic() ==> post.cyclic(),
{
    reveal(drew);
    let rest = pre.buffer_next_pieces@.drop_last();
    let shorter = pre.internal_permutation@ + types_of(rest);
    assert(shorter =~= pre.line().drop_last());
    assert(in_cycles(pre.line()) ==> in_cycles(shorter)) by {
        reveal(in_cycles);
    }
    lemma_dealt_line(pre.internal_permutation@, rest, post);
    if pre.internal_permutation@.len() == 0 {
        assert(post.line().skip(7) == shorter);
    } else {
        assert(post.line().skip(0) =~= post.line());
    }
}

/// After `i` pieces were taken from a bag, one after the other, the line of
/// the bag still ends with what the line held at first, short of its last
/// `i` types; and those are the types of the pieces taken, the last of the
/// line first.
pub proof fn lemma_draws_follow_line(bags: Seq<PieceBag>, out: Seq<Piece>, i: int)
    requires
        0 <= i < bags.len(),
        out.len() == bags.len() - 1,
        i <= bags[0].line().len(),
        forall|k: int| 0 <= k < bags.len() - 1 ==> drew(bags[k], bags[k + 1], #[trigger] out[k]),
    ensures
        ends_with(bags[i].line(), bags[0].line().take(bags[0].line().len() - i)),
        forall|m: int|
            0 <= m < i ==> (#[trigger] out[m]).piece_type == bags[0].line()[bags[0].line().len() - 1
                - m],
        (bags[i].line().len() - (bags[0].line().len() - i)) % 7 == 0,
        bags[0].cyclic() ==> bags[i].cyclic(),
    decreases i,
{
    let first = bags[0].line();
    let len = first.len() as int;
    if i == 0 {
        assert(first.take(len) =~= first);
        assert(first.skip(0) =~= first);
    } else {
        lemma_draws_follow_line(bags, out, i - 1);
        let pre = bags[i - 1];
        let post = bags[i];
        assert(drew(pre, post, out[i - 1]));
        lemma_draw_line(pre, post, out[i - 1]);
        lemma_ends_with_step(pre.line(), post.line(), first, len - (i - 1));
    }
}

/// The seven-bag rule: seven pieces taken in a row from a bag that holds
/// full groups, the first of them at the start of a group, are one of each
/// of the seven piece types. After them the bag again holds full groups and
/// is at the start of a group.
///
/// `bags` holds the bag before the first piece is taken and after each of
/// the seven; `out` holds the pieces.
pub proof fn lemma_seven_bag(bags: Seq<PieceBag>, out: Seq<Piece>)
    requires
        bags.len() == 8,
        out.len() == 7,
        bags[0].cyclic(),
        bags[0].at_boundary(),
        forall|k: int| 0 <= k < 7 ==> drew(bags[k], bags[k + 1], #[trigger] out[k]),
    ensures
        is_full_set(types_of(out)),
        forall|t: PieceType| types_of(out).contains(t),
        bags[7].cyclic(),
        bags[7].at_boundary(),
{
    reveal(in_cycles);
    let first = bags[0].line();
    let len = first.len() as int;
    assert(drew(bags[0], bags[1], out[0]));
    lemma_draw_line(bags[0], bags[1], out[0]);
    assert(len >= 7);
    lemma_draws_follow_line(bags, out, 7);
    let types = types_of(out);
    assert forall|a: int, b: int| 0 <= a < types.len() && 0 <= b < types.len() && a != b implies types[a]
        != types[b] by {
        assert(types[a] == out[a].piece_type);
        assert(types[b] == out[b].piece_type);
        assert((len - 1 - a) / 7 == (len - 1 - b) / 7);
        if a < b {
            assert(first[len - 1 - b] != first[len - 1 - a]);
        } else {
            assert(first[len - 1 - a] != first[len - 1 - b]);
        }
    }
    lemma_full_set_has_all(types);
}

} // verus!

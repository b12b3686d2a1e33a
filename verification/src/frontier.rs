use vstd::prelude::*;
use crate::board::Board;
use crate::heuristic::material;
use crate::heuristic::spec_material;
use crate::moves::_moves;
use crate::moves::positions::Positions;
use crate::moves::spec_children;
use crate::moves::spec_moves;
use crate::moves::Move;
use crate::search::Params;

verus! {

/// The positions one move away from a position, in a `SmallVec` that keeps
/// up to 64 of them without touching the heap. The verifier does not look
/// into the list: what it knows of one is what the functions below say of
/// `held`.
#[verifier::external_body]
pub struct Frontier {
    list: smallvec::SmallVec<[Board; 64]>,
}

/// The positions that a list holds, in order.
pub uninterp spec fn held(list: Frontier) -> Seq<Board>;

/// `SmallVec::new`: the list that holds nothing.
#[verifier::external_body]
fn new_list() -> (list: Frontier)
    ensures
        held(list) == Seq::<Board>::empty(),
{
    Frontier { list: smallvec::SmallVec::new() }
}

/// `SmallVec::push`: the list holds what it held, and `board` after it. A
/// list of more than 64 positions moves to the heap, so there is no length
/// at which the call fails.
#[verifier::external_body]
fn push_board(list: &mut Frontier, board: Board)
    ensures
        held(*final(list)) == held(*old(list)).push(board),
{
    list.list.push(board)
}

/// `SmallVec::len`: the number of positions that the list holds.
#[verifier::external_body]
fn list_len(list: &Frontier) -> (len: usize)
    ensures
        len == held(*list).len(),
{
    list.list.len()
}

/// Indexing a `SmallVec`, which indexes the slice of what it holds: the
/// position at place `at`. The index has to be below the length, or the
/// call panics.
#[verifier::external_body]
fn board_at(list: &Frontier, at: usize) -> (board: Board)
    requires
        at < held(*list).len(),
    ensures
        board == held(*list)[at as int],
{
    list.list[at]
}

/// The key by which the positions one move away are sorted before they are
/// searched: the static score, negated for White, so that the position
/// that looks best for the side to move has the least key.
pub open spec fn spec_presort_key(board: Board, params: Params, white: bool) -> int {
    if white {
        -spec_material(board, params)
    } else {
        spec_material(board, params)
    }
}

/// Computes the key of `board` for the sort.
pub fn presort_key(board: &Board, params: &Params, white: bool) -> (key: i32)
    ensures
        key == spec_presort_key(*board, *params, white),
{
    if white {
        -material(board, params)
    } else {
        material(board, params)
    }
}

/// The positions of `list` whose key is `key`, in the order they have
/// there.
pub open spec fn with_key(list: Seq<Board>, params: Params, white: bool, key: int) -> Seq<Board> {
    list.filter(|b: Board| spec_presort_key(b, params, white) == key)
}

/// `sort_by_cached_key` of the slice that a `SmallVec` holds, with
/// `presort_key` as the key: afterwards the list holds the same positions,
/// in ascending order of their keys, and positions of one key in the order
/// they had.
#[verifier::external_body]
fn sort_by_key(list: &mut Frontier, params: &Params, white: bool)
    ensures
        held(*final(list)).to_multiset() == held(*old(list)).to_multiset(),
        forall|i: int, j: int|
            0 <= i < j < held(*final(list)).len() ==> spec_presort_key(
                #[trigger] held(*final(list))[i],
                *params,
                white,
            ) <= spec_presort_key(#[trigger] held(*final(list))[j], *params, white),
        forall|key: int|
            #[trigger] with_key(held(*final(list)), *params, white, key) == with_key(
                held(*old(list)),
                *params,
                white,
                key,
            ),
{
    list.list.sort_by_cached_key(|board| presort_key(board, params, white))
}

impl Frontier {
    /// The number of positions in the list.
    pub fn len(&self) -> (len: usize)
        ensures
            len == held(*self).len(),
    {
        list_len(self)
    }

    /// The position at place `at`, if the list is that long.
    pub fn get(&self, at: usize) -> (board: Option<Board>)
        ensures
            board == (if at < held(*self).len() {
                Some(held(*self)[at as int])
            } else {
                None
            }),
    {
        if at < list_len(self) {
            Some(board_at(self, at))
        } else {
            None
        }
    }

    /// The position at place `at` of a list that is that long.
    pub fn at(&self, at: usize) -> (board: Board)
        requires
            at < held(*self).len(),
        ensures
            board == held(*self)[at as int],
    {
        board_at(self, at)
    }
}

/// Collects the positions one move away from `board`, in the order of the
/// moves.
pub fn collect_children(board: &Board) -> (list: Frontier)
    ensures
        held(list) == spec_children(*board),
{
    let pos = Positions::from_board(board);
    let offered = _moves(board, &pos);
    let mut list = new_list();
    let mut i: usize = 0;
    while i < offered.len()
        invariant
            i <= offered.len(),
            offered@ == spec_moves(*board),
            pos == Positions::spec_from_board(*board),
            held(list) == offered@.take(i as int).map_values(|mov: Move| board.spec_apply(mov)),
        decreases offered.len() - i,
    {
        let next = board._apply(offered[i], &pos);
        proof {
            assert(offered@.take(i + 1).map_values(|mov: Move| board.spec_apply(mov))
                =~= offered@.take(i as int).map_values(|mov: Move| board.spec_apply(mov)).push(
                next,
            ));
        }
        push_board(&mut list, next);
        i += 1;
    }
    proof {
        assert(offered@.take(offered.len() as int) =~= offered@);
    }
    list
}

/// Whether `kids` holds the same positions as `children`, in any order.
pub open spec fn same_positions(kids: Seq<Board>, children: Seq<Board>) -> bool {
    &&& kids.len() == children.len()
    &&& forall|i: int| 0 <= i < kids.len() ==> children.contains(#[trigger] kids[i])
    &&& forall|i: int| 0 <= i < children.len() ==> kids.contains(#[trigger] children[i])
}

/// Sorts the positions so that the one whose static score is best for the
/// side to move comes first; positions of one score keep their order.
pub fn presort(list: &mut Frontier, params: &Params, white: bool)
    ensures
        same_positions(held(*final(list)), held(*old(list))),
        held(*final(list)).to_multiset() == held(*old(list)).to_multiset(),
        forall|i: int, j: int|
            0 <= i < j < held(*final(list)).len() ==> spec_presort_key(
                #[trigger] held(*final(list))[i],
                *params,
                white,
            ) <= spec_presort_key(#[trigger] held(*final(list))[j], *params, white),
        forall|key: int|
            #[trigger] with_key(held(*final(list)), *params, white, key) == with_key(
                held(*old(list)),
                *params,
                white,
                key,
            ),
{
    sort_by_key(list, params, white);
    proof {
        let before = held(*old(list));
        let after = held(*list);
        before.to_multiset_ensures();
        after.to_multiset_ensures();
        assert forall|i: int| 0 <= i < after.len() implies before.contains(
            #[trigger] after[i],
        ) by {
            assert(after.contains(after[i]));
            assert(after.to_multiset().count(after[i]) > 0);
            assert(before.to_multiset().count(after[i]) > 0);
        }
        assert forall|i: int| 0 <= i < before.len() implies after.contains(
            #[trigger] before[i],
        ) by {
            assert(before.contains(before[i]));
            assert(before.to_multiset().count(before[i]) > 0);
            assert(after.to_multiset().count(before[i]) > 0);
        }
    }
}

} // verus!

use vstd::prelude::*;
use crate::board::Board;
use crate::board::squares_wf;
use crate::board::Player;
use crate::location::Location;
use crate::piece::Color;
use crate::search::spec_minimax;
use crate::search::Params;

verus! {

/// `lru::LruCache`, of which the verifier sees nothing but the name.
#[verifier::external_type_specification]
#[verifier::external_body]
#[verifier::reject_recursive_types(K)]
#[verifier::reject_recursive_types(V)]
#[verifier::reject_recursive_types(S)]
pub struct ExLruCache<K, V, S>(lru::LruCache<K, V, S>);

/// `lru::DefaultHasher`, the hasher of a cache made by `LruCache::new`, of
/// which the verifier sees nothing but the name.
#[verifier::external_type_specification]
#[verifier::external_body]
pub struct ExDefaultHasher(lru::DefaultHasher);

/// What a cache holds: its pairs of key and value, the one used last first.
pub uninterp spec fn entries(cache: lru::LruCache<(u128, u128, u64), i32>) -> Seq<
    ((u128, u128, u64), i32),
>;

/// The number of pairs that a cache was made to hold at most.
pub uninterp spec fn capacity(cache: lru::LruCache<(u128, u128, u64), i32>) -> nat;

/// The place of the first pair from `from` on whose key is `key`; the
/// length of `pairs` if there is none.
pub open spec fn place_from(pairs: Seq<((u128, u128, u64), i32)>, key: (u128, u128, u64), from: int) -> int
    decreases pairs.len() - from,
{
    if from < 0 || from >= pairs.len() {
        pairs.len() as int
    } else if pairs[from].0 == key {
        from
    } else {
        place_from(pairs, key, from + 1)
    }
}

/// The place of the pair whose key is `key`; the length of `pairs` if
/// there is none.
pub open spec fn place_of(pairs: Seq<((u128, u128, u64), i32)>, key: (u128, u128, u64)) -> int {
    place_from(pairs, key, 0)
}

/// The pairs after a use of the pair at `place`: it has moved to the front.
pub open spec fn used(pairs: Seq<((u128, u128, u64), i32)>, place: int) -> Seq<
    ((u128, u128, u64), i32),
> {
    seq![pairs[place]] + pairs.remove(place)
}

/// The pairs after `key` has been given the value `value` in a cache of
/// capacity `cap`, which is never 0: the pair stands in front; an older
/// pair of that key is gone, and if there was none and the cache was full,
/// the pair used longest ago is gone.
pub open spec fn stored(
    pairs: Seq<((u128, u128, u64), i32)>,
    cap: nat,
    key: (u128, u128, u64),
    value: i32,
) -> Seq<((u128, u128, u64), i32)> {
    if place_of(pairs, key) < pairs.len() {
        seq![(key, value)] + pairs.remove(place_of(pairs, key))
    } else if pairs.len() == cap && cap > 0 {
        seq![(key, value)] + pairs.drop_last()
    } else {
        seq![(key, value)] + pairs
    }
}

/// The greatest capacity with which a cache is made.
pub const MEMO_LIMIT: usize = 0x100_0000;

/// `LruCache::new`: an empty cache that holds at most `cap` pairs. A
/// capacity of 0 is not accepted, and the call reserves a hash table for
/// `cap` pairs at once, which panics if the table would be larger than an
/// allocation can be: `MEMO_LIMIT` pairs are far below that.
#[verifier::external_body]
fn new_cache(cap: usize) -> (cache: lru::LruCache<(u128, u128, u64), i32>)
    requires
        0 < cap <= MEMO_LIMIT,
    ensures
        entries(cache) == Seq::<((u128, u128, u64), i32)>::empty(),
        capacity(cache) == cap,
{
    lru::LruCache::new(std::num::NonZeroUsize::new(cap).unwrap())
}

/// `LruCache::get`: the value stored for `key`, if there is one, and that
/// pair is then the one used last.
#[verifier::external_body]
pub(crate) fn cache_get(cache: &mut lru::LruCache<(u128, u128, u64), i32>, key: (u128, u128, u64)) -> (value:
    Option<i32>)
    ensures
        capacity(*final(cache)) == capacity(*old(cache)),
        place_of(entries(*old(cache)), key) < entries(*old(cache)).len() ==> value == Some(
            entries(*old(cache))[place_of(entries(*old(cache)), key)].1,
        ) && entries(*final(cache)) == used(
            entries(*old(cache)),
            place_of(entries(*old(cache)), key),
        ),
        place_of(entries(*old(cache)), key) >= entries(*old(cache)).len() ==> value is None
            && entries(*final(cache)) == entries(*old(cache)),
{
    cache.get(&key).copied()
}

/// `LruCache::put`: stores `value` for `key` as the pair used last. It
/// replaces the value of a key that is present; for a new key in a full
/// cache it drops the pair used longest ago.
#[verifier::external_body]
pub(crate) fn cache_put(cache: &mut lru::LruCache<(u128, u128, u64), i32>, key: (u128, u128, u64), value: i32)
    ensures
        capacity(*final(cache)) == capacity(*old(cache)),
        entries(*final(cache)) == stored(
            entries(*old(cache)),
            capacity(*old(cache)),
            key,
            value,
        ),
{
    cache.put(key, value);
}

/// An empty cache for at most `cap` values of a search; none for a capacity
/// of 0 or above `MEMO_LIMIT`.
pub fn memo(cap: usize) -> (cache: Option<lru::LruCache<(u128, u128, u64), i32>>)
    ensures
        cache is None <==> cap == 0 || cap > MEMO_LIMIT,
        cache matches Some(made) ==> entries(made) == Seq::<((u128, u128, u64), i32)>::empty()
            && capacity(made) == cap,
{
    if cap == 0 || cap > MEMO_LIMIT {
        None
    } else {
        Some(new_cache(cap))
    }
}

/// A pair that `place_of` finds has the key that was asked for.
pub proof fn lemma_place_from(pairs: Seq<((u128, u128, u64), i32)>, key: (u128, u128, u64), from: int)
    requires
        0 <= from,
    ensures
        from <= place_from(pairs, key, from) || place_from(pairs, key, from) == pairs.len(),
        place_from(pairs, key, from) <= pairs.len(),
        place_from(pairs, key, from) < pairs.len() ==> pairs[place_from(pairs, key, from)].0
            == key,
    decreases pairs.len() - from,
{
    if from < pairs.len() && pairs[from].0 != key {
        lemma_place_from(pairs, key, from + 1);
    }
}

/// The number that stands for a slot in a key: 0 for a captured piece.
pub open spec fn slot_code(slot: Option<Location>) -> int {
    match slot {
        Some(held) => held.spec_code(),
        None => 0,
    }
}

/// The number that stands for the first `n` slots of `player`: their codes
/// as the digits of a number in base 256.
pub open spec fn slots_code(player: Player, n: nat) -> int
    decreases n,
{
    if n == 0 {
        0
    } else {
        slots_code(player, (n - 1) as nat) * 256 + slot_code(player.slots[n - 1])
    }
}

/// The greatest number of `n` digits in base 256.
pub open spec fn digits_limit(n: nat) -> int
    decreases n,
{
    if n == 0 {
        0
    } else {
        digits_limit((n - 1) as nat) * 256 + 255
    }
}

pub open spec fn color_code(color: Color) -> int {
    match color {
        Color::White => 0,
        Color::Black => 1,
    }
}

/// The number that stands for what a position holds beside the squares of
/// its pieces, and for the depth of the search.
pub open spec fn rest_code(board: Board, depth: int) -> int {
    (((depth * 2 + (if board.meta.raw().1 {
        1int
    } else {
        0int
    })) * 256 + board.meta.raw().0) * 2 + color_code(board.white.color)) * 2 + color_code(
        board.black.color,
    )
}

/// The key under which the value of `board`, searched `depth` plies deep,
/// is kept.
pub open spec fn spec_key(board: Board, depth: int) -> (u128, u128, u64) {
    (
        slots_code(board.white, 16) as u128,
        slots_code(board.black, 16) as u128,
        rest_code(board, depth) as u64,
    )
}

/// The code of `n` slots is a number of `n` digits.
pub proof fn lemma_slots_code_bounds(player: Player, n: nat)
    requires
        n <= 16,
        squares_wf(player),
    ensures
        0 <= slots_code(player, n) <= digits_limit(n),
    decreases n,
{
    if n > 0 {
        lemma_slots_code_bounds(player, (n - 1) as nat);
        match player.slots[n - 1] {
            Some(held) => {
                held.lemma_code(held);
            },
            None => {},
        }
    }
}

/// Sixteen digits in base 256 fit in a `u128`.
pub proof fn lemma_digits_limit()
    ensures
        digits_limit(16) == u128::MAX,
{
    reveal_with_fuel(digits_limit, 17);
}

/// Two players whose first `n` slots have the same code hold the same in
/// those slots.
pub proof fn lemma_slots_code_injective(a: Player, b: Player, n: nat)
    requires
        n <= 16,
        squares_wf(a),
        squares_wf(b),
        slots_code(a, n) == slots_code(b, n),
    ensures
        forall|i: int| 0 <= i < n ==> a.slots[i] == b.slots[i],
    decreases n,
{
    if n > 0 {
        let ca = slot_code(a.slots[n - 1]);
        let cb = slot_code(b.slots[n - 1]);
        match a.slots[n - 1] {
            Some(held) => {
                held.lemma_code(held);
            },
            None => {},
        }
        match b.slots[n - 1] {
            Some(held) => {
                held.lemma_code(held);
            },
            None => {},
        }
        assert(0 <= ca <= 128 && 0 <= cb <= 128);
        assert(slots_code(a, (n - 1) as nat) == slots_code(b, (n - 1) as nat));
        lemma_slots_code_injective(a, b, (n - 1) as nat);
        match (a.slots[n - 1], b.slots[n - 1]) {
            (Some(x), Some(y)) => {
                x.lemma_code(y);
            },
            _ => {},
        }
    }
}

/// Two positions whose pieces stand on the board, with depths that an
/// `i32` holds, have one key only if they are one position and one depth.
pub proof fn lemma_key_injective(a: Board, da: int, b: Board, db: int)
    requires
        squares_wf(a.white),
        squares_wf(a.black),
        squares_wf(b.white),
        squares_wf(b.black),
        0 <= da < 0x8000_0000,
        0 <= db < 0x8000_0000,
        spec_key(a, da) == spec_key(b, db),
    ensures
        a == b,
        da == db,
{
    lemma_digits_limit();
    lemma_slots_code_bounds(a.white, 16);
    lemma_slots_code_bounds(a.black, 16);
    lemma_slots_code_bounds(b.white, 16);
    lemma_slots_code_bounds(b.black, 16);
    lemma_slots_code_injective(a.white, b.white, 16);
    lemma_slots_code_injective(a.black, b.black, 16);
    assert(a.white.slots =~= b.white.slots);
    assert(a.black.slots =~= b.black.slots);
    assert(rest_code(a, da) == rest_code(b, db));
    a.meta.lemma_raw_injective(b.meta);
}

/// Computes the code of the slots of `player`.
fn player_key(player: &Player) -> (code: u128)
    ensures
        code == slots_code(*player, 16),
        squares_wf(*player),
{
    let mut code: u128 = 0;
    let mut i: usize = 0;
    proof {
        lemma_digits_limit();
    }
    while i < 16
        invariant
            i <= 16,
            code == slots_code(*player, i as nat),
            code <= digits_limit(i as nat),
            digits_limit(16) == u128::MAX,
            forall|j: int|
                0 <= j < i ==> (#[trigger] player.slots[j] matches Some(held) ==> held.wf()),
        decreases 16 - i,
    {
        let digit: u8 = match player.slots[i] {
            Some(held) => held.code(),
            None => 0,
        };
        proof {
            lemma_digits_monotone((i + 1) as nat, 16);
        }
        code = code * 256 + digit as u128;
        i += 1;
    }
    code
}

/// More digits make a greater limit.
proof fn lemma_digits_monotone(n: nat, m: nat)
    requires
        n <= m,
    ensures
        digits_limit(n) <= digits_limit(m),
        0 <= digits_limit(n),
    decreases m,
{
    if n < m {
        lemma_digits_monotone(n, (m - 1) as nat);
    } else if n > 0 {
        lemma_digits_monotone((n - 1) as nat, (m - 1) as nat);
    }
}

/// Computes the key of `board` and `depth`.
pub fn board_key(board: &Board, depth: i32) -> (key: (u128, u128, u64))
    requires
        depth >= 0,
    ensures
        key == spec_key(*board, depth as int),
        squares_wf(board.white),
        squares_wf(board.black),
{
    let white = player_key(&board.white);
    let black = player_key(&board.black);
    let raw = board.meta.bits();
    let flag: u64 = if raw.1 {
        1
    } else {
        0
    };
    let first: u64 = match board.white.color {
        Color::White => 0,
        Color::Black => 1,
    };
    let second: u64 = match board.black.color {
        Color::White => 0,
        Color::Black => 1,
    };
    let rest: u64 = (((depth as u64 * 2 + flag) * 256 + raw.0 as u64) * 2 + first) * 2 + second;
    (white, black, rest)
}

/// Whether every pair of a cache is true of the search with `params`: a
/// pair whose key is that of a position and a depth holds the exact value
/// of the position at that depth.
pub open spec fn sound(pairs: Seq<((u128, u128, u64), i32)>, params: Params) -> bool {
    forall|i: int, board: Board, depth: nat|
        0 <= i < pairs.len() && squares_wf(board.white) && squares_wf(board.black) && depth
            < 0x8000_0000 && #[trigger] spec_key(board, depth as int) == (#[trigger] pairs[i]).0
            ==> pairs[i].1 == spec_minimax(board, depth, params)
}

/// A use of a pair leaves a sound cache sound.
pub proof fn lemma_used_sound(pairs: Seq<((u128, u128, u64), i32)>, place: int, params: Params)
    requires
        sound(pairs, params),
        0 <= place < pairs.len(),
    ensures
        sound(used(pairs, place), params),
{
    let after = used(pairs, place);
    assert forall|i: int, board: Board, depth: nat|
        0 <= i < after.len() && squares_wf(board.white) && squares_wf(board.black) && depth
            < 0x8000_0000 && #[trigger] spec_key(board, depth as int) == (
        #[trigger] after[i]).0 implies after[i].1 == spec_minimax(board, depth, params) by {
        if i == 0 {
            assert(after[i] == pairs[place]);
        } else if i <= place {
            assert(after[i] == pairs[i - 1]);
        } else {
            assert(after[i] == pairs[i]);
        }
    }
}

/// Storing the exact value of a position leaves a sound cache sound.
pub proof fn lemma_stored_sound(
    pairs: Seq<((u128, u128, u64), i32)>,
    cap: nat,
    board: Board,
    depth: nat,
    value: i32,
    params: Params,
)
    requires
        sound(pairs, params),
        squares_wf(board.white),
        squares_wf(board.black),
        depth < 0x8000_0000,
        value == spec_minimax(board, depth, params),
    ensures
        sound(stored(pairs, cap, spec_key(board, depth as int), value), params),
{
    let key = spec_key(board, depth as int);
    let after = stored(pairs, cap, key, value);
    let place = place_of(pairs, key);
    lemma_place_from(pairs, key, 0);
    assert forall|i: int, other: Board, d: nat|
        0 <= i < after.len() && squares_wf(other.white) && squares_wf(other.black) && d
            < 0x8000_0000 && #[trigger] spec_key(other, d as int) == (#[trigger] after[i]).0
        implies after[i].1 == spec_minimax(other, d, params) by {
        if i == 0 {
            assert(after[0] == (key, value));
            lemma_key_injective(other, d as int, board, depth as int);
        } else if place < pairs.len() {
            if i <= place {
                assert(after[i] == pairs[i - 1]);
            } else {
                assert(after[i] == pairs[i]);
            }
        } else if pairs.len() == cap && cap > 0 {
            assert(after == seq![(key, value)] + pairs.drop_last());
            assert(after[i] == pairs.drop_last()[i - 1]);
            assert(after[i] == pairs[i - 1]);
        } else {
            assert(after == seq![(key, value)] + pairs);
            assert(after[i] == pairs[i - 1]);
        }
    }
}

} // verus!

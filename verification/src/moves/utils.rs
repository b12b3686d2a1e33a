use vstd::prelude::*;

verus! {

/// Whether square `sq` (`rank * 8 + file`) is set in the bitboard `b`.
pub open spec fn has_square(b: u64, sq: int) -> bool {
    0 <= sq < 64 && (b >> (sq as u64)) & 1 == 1
}

pub open spec fn spec_file(n: u8) -> u64 {
    0x0101_0101_0101_0101u64 << n
}

pub open spec fn spec_rank(n: u8) -> u64 {
    0xffu64 << (8 * n) as u8
}

/// The mask of the eight squares of column `n`.
#[verifier::when_used_as_spec(spec_file)]
pub fn file(n: u8) -> (mask: u64)
    requires
        n < 8,
    ensures
        mask == spec_file(n),
        forall|sq: int| has_square(mask, sq) <==> 0 <= sq < 64 && sq % 8 == n,
{
    let mask: u64 = 0x0101_0101_0101_0101u64 << n;
    proof {
        assert forall|sq: int| has_square(mask, sq) <==> 0 <= sq < 64 && sq % 8 == n by {
            if 0 <= sq < 64 {
                let s: u64 = sq as u64;
                assert(((0x0101_0101_0101_0101u64 << n) >> s) & 1 == 1 <==> s % 8 == n as u64)
                    by (bit_vector)
                    requires
                        n < 8,
                        s < 64,
                ;
            }
        }
    }
    mask
}

/// The mask of the eight squares of row `n`.
#[verifier::when_used_as_spec(spec_rank)]
pub fn rank(n: u8) -> (mask: u64)
    requires
        n < 8,
    ensures
        mask == spec_rank(n),
        forall|sq: int| has_square(mask, sq) <==> 0 <= sq < 64 && sq / 8 == n,
{
    let shift: u8 = 8 * n;
    let mask: u64 = 0xffu64 << shift;
    proof {
        assert forall|sq: int| has_square(mask, sq) <==> 0 <= sq < 64 && sq / 8 == n by {
            if 0 <= sq < 64 {
                let s: u64 = sq as u64;
                assert(((0xffu64 << shift) >> s) & 1 == 1 <==> s / 8 == n as u64) by (bit_vector)
                    requires
                        n < 8,
                        s < 64,
                        shift == 8 * n,
                ;
            }
        }
    }
    mask
}

/// The bitwise or of all the entries of `s`.
pub open spec fn or_seq(s: Seq<u64>) -> u64
    decreases s.len(),
{
    if s.len() == 0 {
        0
    } else {
        or_seq(s.drop_last()) | s.last()
    }
}

/// The union of the bitboards of `array`.
pub fn or<const D: usize>(array: [u64; D]) -> (all: u64)
    ensures
        all == or_seq(array@),
{
    let mut all: u64 = 0;
    let mut i: usize = 0;
    while i < D
        invariant
            i <= D,
            all == or_seq(array@.take(i as int)),
        decreases D - i,
    {
        proof {
            let next = array@.take(i + 1);
            assert(next.drop_last() =~= array@.take(i as int));
        }
        all = all | array[i];
        i += 1;
    }
    proof {
        assert(array@.take(D as int) =~= array@);
    }
    all
}

/// A square is in the union exactly when one of the bitboards holds it.
pub proof fn lemma_or_seq_has(s: Seq<u64>, sq: int)
    ensures
        has_square(or_seq(s), sq) <==> exists|i: int| 0 <= i < s.len() && has_square(s[i], sq),
    decreases s.len(),
{
    if s.len() == 0 {
        if 0 <= sq < 64 {
            let q: u64 = sq as u64;
            assert((0u64 >> q) & 1 != 1) by (bit_vector);
        }
    } else {
        let front = s.drop_last();
        lemma_or_seq_has(front, sq);
        if 0 <= sq < 64 {
            let q: u64 = sq as u64;
            let a: u64 = or_seq(front);
            let b: u64 = s.last();
            assert((((a | b) >> q) & 1 == 1) <==> ((a >> q) & 1 == 1 || (b >> q) & 1 == 1))
                by (bit_vector);
        }
        if has_square(or_seq(s), sq) {
            if has_square(s.last(), sq) {
                assert(has_square(s[s.len() - 1], sq));
            } else {
                let i = choose|i: int| 0 <= i < front.len() && has_square(front[i], sq);
                assert(has_square(s[i], sq));
            }
        }
        if exists|i: int| 0 <= i < s.len() && has_square(s[i], sq) {
            let i = choose|i: int| 0 <= i < s.len() && has_square(s[i], sq);
            if i < s.len() - 1 {
                assert(has_square(front[i], sq));
            }
        }
    }
}

/// A bitboard that shares no square with the union shares none with any of
/// the bitboards.
pub proof fn lemma_or_seq_disjoint(s: Seq<u64>, mask: u64, i: int)
    requires
        or_seq(s) & mask == 0,
        0 <= i < s.len(),
    ensures
        s[i] & mask == 0,
    decreases s.len(),
{
    let front = or_seq(s.drop_last());
    let last = s.last();
    assert(front & mask == 0 && last & mask == 0) by (bit_vector)
        requires
            (front | last) & mask == 0,
    ;
    if i < s.len() - 1 {
        lemma_or_seq_disjoint(s.drop_last(), mask, i);
    }
}

/// The bitboard turned by half a turn: the bits in reverse order.
pub open spec fn spec_invert(x: u64) -> u64 {
    let x = (x >> 32) | (x << 32);
    let x = ((x >> 16) & 0x0000_ffff_0000_ffff) | ((x & 0x0000_ffff_0000_ffff) << 16);
    let x = ((x >> 8) & 0x00ff_00ff_00ff_00ff) | ((x & 0x00ff_00ff_00ff_00ff) << 8);
    let x = ((x >> 4) & 0x0f0f_0f0f_0f0f_0f0f) | ((x & 0x0f0f_0f0f_0f0f_0f0f) << 4);
    let x = ((x >> 2) & 0x3333_3333_3333_3333) | ((x & 0x3333_3333_3333_3333) << 2);
    ((x >> 1) & 0x5555_5555_5555_5555) | ((x & 0x5555_5555_5555_5555) << 1)
}

/// Mirrors the board through its centre: square `sq` goes to `63 - sq`, that
/// is `(rank, file)` to `(7 - rank, 7 - file)`.
#[verifier::when_used_as_spec(spec_invert)]
pub fn invert(x: u64) -> (turned: u64)
    ensures
        turned == spec_invert(x),
        forall|sq: int| has_square(turned, sq) <==> has_square(x, 63 - sq),
{
    let mut y: u64 = (x >> 32) | (x << 32);
    let mask: u64 = 0x0000_ffff_0000_ffff;
    y = ((y >> 16) & mask) | ((y & mask) << 16);
    let mask: u64 = 0x00ff_00ff_00ff_00ff;
    y = ((y >> 8) & mask) | ((y & mask) << 8);
    let mask: u64 = 0x0f0f_0f0f_0f0f_0f0f;
    y = ((y >> 4) & mask) | ((y & mask) << 4);
    let mask: u64 = 0x3333_3333_3333_3333;
    y = ((y >> 2) & mask) | ((y & mask) << 2);
    let mask: u64 = 0x5555_5555_5555_5555;
    y = ((y >> 1) & mask) | ((y & mask) << 1);
    proof {
        assert forall|sq: int| has_square(y, sq) <==> has_square(x, 63 - sq) by {
            lemma_invert_has(x, sq);
        }
    }
    y
}

/// `invert` moves the content of each square to the square opposite.
pub proof fn lemma_invert_has(x: u64, sq: int)
    ensures
        has_square(spec_invert(x), sq) <==> has_square(x, 63 - sq),
{
    if 0 <= sq < 64 {
        let q: u64 = sq as u64;
        let p: u64 = (63 - sq) as u64;
        assert((spec_invert(x) >> q) & 1 == (x >> p) & 1) by (bit_vector)
            requires
                q < 64,
                p == 63 - q,
        ;
    }
}

/// Turning the board twice gives the board back.
pub proof fn lemma_invert_involution(x: u64)
    ensures
        spec_invert(spec_invert(x)) == x,
{
    assert(spec_invert(spec_invert(x)) == x) by (bit_vector);
}

/// The bitboard mirrored in the main diagonal.
pub open spec fn spec_transpose(x: u64) -> u64 {
    let t = (x ^ (x >> 7)) & 0x00aa_00aa_00aa_00aa;
    let x = x ^ t ^ (t << 7);
    let t = (x ^ (x >> 14)) & 0x0000_cccc_0000_cccc;
    let x = x ^ t ^ (t << 14);
    let t = (x ^ (x >> 28)) & 0x0000_0000_f0f0_f0f0;
    x ^ t ^ (t << 28)
}

/// Exchanges ranks and files: the content of `(rank, file)` goes to
/// `(file, rank)`.
#[verifier::when_used_as_spec(spec_transpose)]
pub fn transpose(x: u64) -> (flipped: u64)
    ensures
        flipped == spec_transpose(x),
        forall|sq: int|
            0 <= sq < 64 ==> (#[trigger] has_square(flipped, sq) <==> has_square(
                x,
                8 * (sq % 8) + sq / 8,
            )),
{
    let t: u64 = (x ^ (x >> 7)) & 0x00aa_00aa_00aa_00aa;
    let y: u64 = x ^ t ^ (t << 7);
    let t: u64 = (y ^ (y >> 14)) & 0x0000_cccc_0000_cccc;
    let y: u64 = y ^ t ^ (t << 14);
    let t: u64 = (y ^ (y >> 28)) & 0x0000_0000_f0f0_f0f0;
    let y: u64 = y ^ t ^ (t << 28);
    proof {
        assert forall|sq: int| 0 <= sq < 64 implies (#[trigger] has_square(y, sq) <==> has_square(
            x,
            8 * (sq % 8) + sq / 8,
        )) by {
            lemma_transpose_has(x, sq / 8, sq % 8);
        }
    }
    y
}

/// `transpose` moves the content of each square to its mirror image.
pub proof fn lemma_transpose_has(x: u64, rank: int, file: int)
    requires
        0 <= rank < 8,
        0 <= file < 8,
    ensures
        has_square(spec_transpose(x), 8 * rank + file) <==> has_square(x, 8 * file + rank),
{
    let r: u64 = rank as u64;
    let f: u64 = file as u64;
    let q: u64 = (8 * rank + file) as u64;
    let p: u64 = (8 * file + rank) as u64;
    assert((spec_transpose(x) >> q) & 1 == (x >> p) & 1) by (bit_vector)
        requires
            r < 8,
            f < 8,
            q == 8 * r + f,
            p == 8 * f + r,
    ;
}

/// Mirroring the board twice gives the board back.
pub proof fn lemma_transpose_involution(x: u64)
    ensures
        spec_transpose(spec_transpose(x)) == x,
{
    assert(spec_transpose(spec_transpose(x)) == x) by (bit_vector);
}

/// The character at place `at` of the picture of `x`: each of the eight
/// lines shows one rank, rank 0 first, as eight digits, file 0 first, `1`
/// for a square that is set, and ends in a line feed; one more line feed
/// ends the picture.
pub open spec fn picture_byte(x: u64, at: int) -> u8 {
    if at >= 72 || at % 9 == 8 {
        10
    } else if has_square(x, 8 * (at / 9) + at % 9) {
        49
    } else {
        48
    }
}

/// Draws the bitboard `x` as text, for a caller to print.
pub fn picture(x: u64) -> (text: Vec<u8>)
    ensures
        text@.len() == 73,
        forall|at: int| 0 <= at < 73 ==> #[trigger] text@[at] == picture_byte(x, at),
{
    let mut text: Vec<u8> = Vec::new();
    let mut i: u8 = 0;
    while i < 8
        invariant
            i <= 8,
            text@.len() == 9 * i,
            forall|at: int| 0 <= at < 9 * i ==> #[trigger] text@[at] == picture_byte(x, at),
        decreases 8 - i,
    {
        let mut j: u8 = 0;
        while j < 8
            invariant
                i < 8,
                j <= 8,
                text@.len() == 9 * i + j,
                forall|at: int|
                    0 <= at < 9 * i + j ==> #[trigger] text@[at] == picture_byte(x, at),
            decreases 8 - j,
        {
            let shift: u8 = i * 8 + j;
            let bit: u64 = (x >> shift) & 1;
            proof {
                let s: u64 = shift as u64;
                assert((x >> shift) & 1 == (x >> s) & 1 && (bit == 0 || bit == 1)) by (bit_vector)
                    requires
                        s == shift,
                        bit == (x >> shift) & 1,
                ;
            }
            text.push(if bit == 1 {
                49u8
            } else {
                48u8
            });
            j += 1;
        }
        text.push(10u8);
        i += 1;
    }
    text.push(10u8);
    text
}

} // verus!

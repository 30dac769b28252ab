use vstd::prelude::*;

use crate::sudoku_game::{in_sight, SudokuGame};

verus! {

broadcast use vstd::seq_lib::lemma_seq_contains_after_push;

/// Some other cell in sight of cell `i` holds the digit `d`. The cell
/// itself does not count: the sight set excludes it.
pub open spec fn digit_in_sight(s: Seq<u8>, i: int, d: u8) -> bool {
    exists|j: int| j != i && #[trigger] in_sight(i, j) && s[j] == d
}

#[verifier::external_type_specification]
#[verifier::external_body]
#[verifier::reject_recursive_types(B)]
pub struct ExBitVec<B = u32>(bit_vec::BitVec<B>);

/// The bits held by a bit vector, in index order.
pub uninterp spec fn bit_seq(bits: &bit_vec::BitVec) -> Seq<bool>;

/// Relies on bit-vec's `BitVec::from_elem`: a vector of `nbits` bits, each
/// set to `bit`.
#[verifier::external_body]
pub fn bits_from_elem(nbits: usize, bit: bool) -> (r: bit_vec::BitVec)
    ensures
        bit_seq(&r) =~= Seq::new(nbits as nat, |i: int| bit),
{
    bit_vec::BitVec::from_elem(nbits, bit)
}

/// Relies on bit-vec's `BitVec::set`, which changes the bit at `i` and no
/// other. Out-of-range indices panic there, so they are excluded here.
#[verifier::external_body]
pub fn bits_set(bits: &mut bit_vec::BitVec, i: usize, x: bool)
    requires
        i < bit_seq(old(bits)).len(),
    ensures
        bit_seq(final(bits)) =~= bit_seq(old(bits)).update(i as int, x),
{
    bits.set(i, x);
}

/// Relies on bit-vec's `BitVec::get`, which returns the bit at `i`, or
/// `None` past the end.
#[verifier::external_body]
pub fn bits_get(bits: &bit_vec::BitVec, i: usize) -> (r: bool)
    requires
        i < bit_seq(bits).len(),
    ensures
        r == bit_seq(bits)[i as int],
{
    bits.get(i).unwrap_or(false)
}

/// One bit per digit 1..=9: bit `d - 1` is set exactly when some cell in
/// sight of the given position already holds `d`. The position's own
/// digit does not count: a cell is not in its own sight set.
pub fn get_occupied_numbers_at_cell(game: &SudokuGame, cell_pos: (u32, u32)) -> (r:
    bit_vec::BitVec)
    requires
        game.wf(),
        cell_pos.0 < 9,
        cell_pos.1 < 9,
    ensures
        bit_seq(&r).len() == 9,
        forall|d: u8|
            1 <= d <= 9 ==> (bit_seq(&r)[d - 1] <==> #[trigger] digit_in_sight(
                game.board(),
                (cell_pos.1 * 9 + cell_pos.0) as int,
                d,
            )),
{
    let ghost base: int = (cell_pos.1 * 9 + cell_pos.0) as int;
    let sight = game.get_cells_in_sight(cell_pos);
    let mut vec = bits_from_elem(9, false);

    let mut t: usize = 0;
    while t < sight.len()
        invariant
            game.wf(),
            bit_seq(&vec).len() == 9,
            t <= sight@.len(),
            forall|j: u32| #[trigger]
                sight@.contains(j) <==> j as int != base && in_sight(base, j as int),
            forall|d: u8|
                1 <= d <= 9 ==> (#[trigger] bit_seq(&vec)[d - 1] <==> exists|k: int|
                    0 <= k < t && game.board()[#[trigger] sight@[k] as int] == d),
        decreases sight@.len() - t,
    {
        let idx = sight[t];
        proof {
            assert(sight@.contains(sight@[t as int]));
        }
        let cell_num = game.cells.get(idx as usize);
        if cell_num != 0 {
            bits_set(&mut vec, (cell_num - 1) as usize, true);
            proof {
                assert forall|d: u8| 1 <= d <= 9 implies (#[trigger] bit_seq(&vec)[d - 1]
                    <==> exists|k: int|
                    0 <= k < t + 1 && game.board()[#[trigger] sight@[k] as int] == d) by {
                    if d == cell_num {
                        assert(game.board()[sight@[t as int] as int] == d);
                    }
                }
            }
        }
        t = t + 1;
    }

    proof {
        assert forall|d: u8| 1 <= d <= 9 implies (bit_seq(&vec)[d - 1] <==> digit_in_sight(
            game.board(),
            base,
            d,
        )) by {
            if bit_seq(&vec)[d - 1] {
                let k = choose|k: int|
                    0 <= k < sight@.len() && game.board()[#[trigger] sight@[k] as int] == d;
                assert(sight@.contains(sight@[k]));
            }
            if digit_in_sight(game.board(), base, d) {
                let j = choose|j: int|
                    j != base && #[trigger] in_sight(base, j) && game.board()[j] == d;
                assert(sight@.contains(j as u32));
                let k = choose|k: int| 0 <= k < sight@.len() && sight@[k] == j as u32;
            }
        }
    }

    vec
}

/// The digits 1..=9 whose occupancy bit is clear: the legal digits for a
/// blank cell whose sight set produced `occupied`. Listed in increasing
/// order, without repeats.
pub fn free_digits(occupied: &bit_vec::BitVec) -> (r: Vec<u8>)
    requires
        bit_seq(occupied).len() == 9,
    ensures
        forall|d: u8| #[trigger] r@.contains(d) <==> 1 <= d <= 9 && !bit_seq(occupied)[d - 1],
        r@.no_duplicates(),
{
    let mut moves: Vec<u8> = Vec::new();
    let mut d: u8 = 1;
    while d <= 9
        invariant
            bit_seq(occupied).len() == 9,
            1 <= d <= 10,
            forall|x: u8| #[trigger] moves@.contains(x) <==> 1 <= x < d && !bit_seq(occupied)[x - 1],
            moves@.no_duplicates(),
        decreases 10 - d,
    {
        if !bits_get(occupied, (d - 1) as usize) {
            proof {
                assert(!moves@.contains(d));
            }
            moves.push(d);
        }
        d = d + 1;
    }
    moves
}

} // verus!

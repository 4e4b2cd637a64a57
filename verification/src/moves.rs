//! Move generation and legality: the per-piece movement rules as spec
//! predicates, the generators that produce exactly those moves, the
//! self-check legality filter, and turn application.

use vstd::prelude::*;

use crate::board::{sq, BoardMap, BoardView, Position};
use crate::piece::{
    delta_file, delta_rank, dir_of_index, direction_of_index, dir_deltas, in_board,
    knight_offset, knight_offset_at, spec_len_to_edge, Direction, Piece, PieceType,
};

verus! {

broadcast use
    vstd::seq_lib::lemma_seq_contains_after_push,
    vstd::seq_lib::lemma_seq_concat_contains_all_elements,
    crate::board::lemma_board_view_len,
;

/// A mover of color `c` may land on (r, f): the square holds no piece of
/// its own color.
pub open spec fn free_for(v: BoardView, r: int, f: int, c: bool) -> bool {
    !(v.at(r, f).spec_is_piece() && v.at(r, f).spec_color() == c)
}

/// Rank of the square `k` steps from rank `fr` along `d`.
pub open spec fn step_rank(fr: int, d: Direction, k: int) -> int {
    fr + k * delta_rank(d)
}

/// File of the square `k` steps from file `ff` along `d`.
pub open spec fn step_file(ff: int, d: Direction, k: int) -> int {
    ff + k * delta_file(d)
}

/// Square `n` steps from (fr, ff) along `d` is a sliding target for a
/// mover of color `c`: the ray stays within the edge distance, every
/// strictly earlier square of the ray is empty, and the target holds no
/// piece of the mover's color.
pub open spec fn ray_target(
    v: BoardView,
    fr: int,
    ff: int,
    c: bool,
    d: Direction,
    n: int,
) -> bool {
    &&& 1 <= n <= spec_len_to_edge(fr, ff, d)
    &&& forall|k: int|
        1 <= k < n ==> !v.at(#[trigger] step_rank(fr, d, k), step_file(ff, d, k)).spec_is_piece()
    &&& free_for(v, step_rank(fr, d, n), step_file(ff, d, n), c)
}

/// (tr, tf) is a sliding destination from (fr, ff) along one of the
/// directions with index in `lo..hi` (rook: 0..4, bishop: 4..8,
/// queen: 0..8).
pub open spec fn sliding_candidate(
    v: BoardView,
    fr: int,
    ff: int,
    c: bool,
    lo: int,
    hi: int,
    tr: int,
    tf: int,
) -> bool {
    exists|i: int, n: int|
        lo <= i < hi && #[trigger] ray_target(v, fr, ff, c, dir_of_index(i), n)
            && tr == step_rank(fr, dir_of_index(i), n) && tf == step_file(ff, dir_of_index(i), n)
}

/// (tr, tf) is a king destination from (fr, ff): one step in one of the
/// eight directions, on the board, not blocked by the mover's own color.
pub open spec fn king_candidate(v: BoardView, fr: int, ff: int, c: bool, tr: int, tf: int) -> bool {
    exists|i: int|
        0 <= i < 8 && tr == fr + delta_rank(#[trigger] dir_of_index(i))
            && tf == ff + delta_file(dir_of_index(i)) && in_board(tr, tf)
            && free_for(v, tr, tf, c)
}

/// (tr, tf) is a knight destination from (fr, ff).
pub open spec fn knight_candidate(
    v: BoardView,
    fr: int,
    ff: int,
    c: bool,
    tr: int,
    tf: int,
) -> bool {
    exists|i: int|
        0 <= i < 8 && tr == fr + (#[trigger] knight_offset(i)).0
            && tf == ff + knight_offset(i).1 && in_board(tr, tf) && free_for(v, tr, tf, c)
}

/// (tr, tf) is a pawn destination for a pawn of color `c` on (fr, ff):
/// one step forward onto an empty square; two steps forward from the
/// side's starting rank, gated only on the single-step square being
/// empty; or a diagonal capture of an opposite-color piece.
pub open spec fn pawn_candidate(v: BoardView, fr: int, ff: int, c: bool, tr: int, tf: int) -> bool {
    let dr = if c { -1int } else { 1int };
    ||| (tr == fr + dr && tf == ff && in_board(tr, tf) && !v.at(tr, tf).spec_is_piece())
    ||| (tr == fr + 2 * dr && tf == ff && (if c { fr == 6 } else { fr == 1 }) && in_board(fr + dr, ff)
        && !v.at(fr + dr, ff).spec_is_piece())
    ||| (tr == fr + dr && (tf == ff - 1 || tf == ff + 1) && in_board(tr, tf)
        && v.at(tr, tf).spec_is_piece() && v.at(tr, tf).spec_color() != c)
}

/// First direction index a sliding kind uses.
pub open spec fn slide_lo(kind: PieceType) -> int {
    if kind is Bishop {
        4
    } else {
        0
    }
}

/// One past the last direction index a sliding kind uses.
pub open spec fn slide_hi(kind: PieceType) -> int {
    if kind is Rook {
        4
    } else {
        8
    }
}

/// (tr, tf) is a raw (not legality-filtered) destination of the piece on
/// (fr, ff); false when that square is empty.
pub open spec fn move_candidate(v: BoardView, fr: int, ff: int, tr: int, tf: int) -> bool {
    match v.at(fr, ff) {
        Piece::Empty { .. } => false,
        Piece::Occupied { color, kind } => match kind {
            PieceType::Pawn => pawn_candidate(v, fr, ff, color, tr, tf),
            PieceType::Knight => knight_candidate(v, fr, ff, color, tr, tf),
            PieceType::King => king_candidate(v, fr, ff, color, tr, tf),
            _ => sliding_candidate(v, fr, ff, color, slide_lo(kind), slide_hi(kind), tr, tf),
        },
    }
}

/// Some piece of color `side` attacks (tr, tf) on board `v`: a raw move
/// of such a piece lands there.
pub open spec fn side_attacks(v: BoardView, side: bool, tr: int, tf: int) -> bool {
    exists|sr: int, sf: int|
        in_board(sr, sf) && v.at(sr, sf).spec_is_piece() && v.at(sr, sf).spec_color() == side
            && #[trigger] move_candidate(v, sr, sf, tr, tf)
}

/// As `side_attacks`, but only from squares with linear index below
/// `bound`; at bound 64 the two agree.
pub open spec fn side_attacks_before(v: BoardView, side: bool, bound: int, tr: int, tf: int) -> bool {
    exists|sr: int, sf: int|
        in_board(sr, sf) && sq(sr, sf) < bound && v.at(sr, sf).spec_is_piece() && v.at(
            sr,
            sf,
        ).spec_color() == side && #[trigger] move_candidate(v, sr, sf, tr, tf)
}

/// Some piece whose color differs from the active color attacks (tr, tf).
pub open spec fn opponent_attacks(v: BoardView, tr: int, tf: int) -> bool {
    side_attacks(v, !v.active_color, tr, tf)
}

/// The piece value is a king of color `c`.
pub open spec fn king_of(p: Piece, c: bool) -> bool {
    p.spec_is_piece() && p.spec_color() == c && p.spec_kind() == Some(PieceType::King)
}

/// On the board after relocating (fr, ff) to (tr, tf), some piece of the
/// color opposite to the origin piece's attacks (ar, af).
pub open spec fn attacked_after(
    v: BoardView,
    fr: int,
    ff: int,
    tr: int,
    tf: int,
    ar: int,
    af: int,
) -> bool {
    side_attacks(v.relocated(fr, ff, tr, tf), !v.at(fr, ff).spec_color(), ar, af)
}

/// Relocating the piece on (fr, ff) to (tr, tf) leaves some king of the
/// moving side (the color of the piece on the origin) attacked by a
/// piece of the other color.
pub open spec fn exposes_king(v: BoardView, fr: int, ff: int, tr: int, tf: int) -> bool {
    exists|ar: int, af: int|
        in_board(ar, af) && king_of(
            v.relocated(fr, ff, tr, tf).at(ar, af),
            v.at(fr, ff).spec_color(),
        ) && #[trigger] attacked_after(v, fr, ff, tr, tf, ar, af)
}

/// (tr, tf) is a legal destination of the piece on (fr, ff): a raw move
/// that does not leave the moving side's king attacked.
pub open spec fn legal_candidate(v: BoardView, fr: int, ff: int, tr: int, tf: int) -> bool {
    move_candidate(v, fr, ff, tr, tf) && !exposes_king(v, fr, ff, tr, tf)
}

/// The destination holds no piece of the active color, and the move is a
/// legal candidate.
pub open spec fn spec_is_valid_move(v: BoardView, fr: int, ff: int, tr: int, tf: int) -> bool {
    free_for(v, tr, tf, v.active_color) && legal_candidate(v, fr, ff, tr, tf)
}

/// The origin holds a piece of the active color and the move is valid:
/// exactly the condition under which `move_turn` succeeds.
pub open spec fn spec_move_ok(v: BoardView, fr: int, ff: int, tr: int, tf: int) -> bool {
    v.at(fr, ff).spec_is_piece() && v.at(fr, ff).spec_color() == v.active_color
        && spec_is_valid_move(v, fr, ff, tr, tf)
}

/// The position value for a pair of in-board coordinates.
pub open spec fn pos_of(r: int, f: int) -> Position {
    [r as usize, f as usize]
}

/// The exact output of one ray walk, from step `n` on: empty squares
/// are taken and the walk continues, an opposite-color piece's square
/// is taken last, a same-color piece or the edge ends the walk.
pub open spec fn ray_seq(
    v: BoardView,
    fr: int,
    ff: int,
    c: bool,
    d: Direction,
    n: int,
) -> Seq<Position>
    decreases spec_len_to_edge(fr, ff, d) + 1 - n,
{
    if n < 1 || n > spec_len_to_edge(fr, ff, d) {
        Seq::empty()
    } else {
        let tr = step_rank(fr, d, n);
        let tf = step_file(ff, d, n);
        let p = v.at(tr, tf);
        if p.spec_is_piece() && p.spec_color() == c {
            Seq::empty()
        } else if p.spec_is_piece() {
            seq![pos_of(tr, tf)]
        } else {
            seq![pos_of(tr, tf)] + ray_seq(v, fr, ff, c, d, n + 1)
        }
    }
}

/// The exact sliding output: the rays of direction indices `i..hi`,
/// concatenated in index order.
pub open spec fn sliding_seq(
    v: BoardView,
    fr: int,
    ff: int,
    c: bool,
    i: int,
    hi: int,
) -> Seq<Position>
    decreases hi - i,
{
    if i >= hi {
        Seq::empty()
    } else {
        ray_seq(v, fr, ff, c, dir_of_index(i), 1) + sliding_seq(v, fr, ff, c, i + 1, hi)
    }
}

/// The exact knight output from offset index `i` on: each on-board,
/// non-own-color target in table order.
pub open spec fn knight_seq(v: BoardView, fr: int, ff: int, c: bool, i: int) -> Seq<Position>
    decreases 8 - i,
{
    if i < 0 || i >= 8 {
        Seq::empty()
    } else {
        let tr = fr + knight_offset(i).0;
        let tf = ff + knight_offset(i).1;
        let rest = knight_seq(v, fr, ff, c, i + 1);
        if in_board(tr, tf) && free_for(v, tr, tf, c) {
            seq![pos_of(tr, tf)] + rest
        } else {
            rest
        }
    }
}

/// The exact king output from direction index `i` on: each on-board,
/// non-own-color one-step target in direction order.
pub open spec fn king_seq(v: BoardView, fr: int, ff: int, c: bool, i: int) -> Seq<Position>
    decreases 8 - i,
{
    if i < 0 || i >= 8 {
        Seq::empty()
    } else {
        let tr = fr + delta_rank(dir_of_index(i));
        let tf = ff + delta_file(dir_of_index(i));
        let rest = king_seq(v, fr, ff, c, i + 1);
        if in_board(tr, tf) && free_for(v, tr, tf, c) {
            seq![pos_of(tr, tf)] + rest
        } else {
            rest
        }
    }
}

/// The exact pawn output: single step, double step, left capture, right
/// capture, in that order, each present under its own condition.
pub open spec fn pawn_seq(v: BoardView, fr: int, ff: int, c: bool) -> Seq<Position> {
    let dr = if c { -1int } else { 1int };
    let single = if in_board(fr + dr, ff) && !v.at(fr + dr, ff).spec_is_piece() {
        seq![pos_of(fr + dr, ff)]
    } else {
        Seq::empty()
    };
    let double = if in_board(fr + dr, ff) && (if c { fr == 6 } else { fr == 1 }) && !v.at(
        fr + dr,
        ff,
    ).spec_is_piece() {
        seq![pos_of(fr + 2 * dr, ff)]
    } else {
        Seq::empty()
    };
    let left = if in_board(fr + dr, ff - 1) && v.at(fr + dr, ff - 1).spec_is_piece() && v.at(
        fr + dr,
        ff - 1,
    ).spec_color() != c {
        seq![pos_of(fr + dr, ff - 1)]
    } else {
        Seq::empty()
    };
    let right = if in_board(fr + dr, ff + 1) && v.at(fr + dr, ff + 1).spec_is_piece() && v.at(
        fr + dr,
        ff + 1,
    ).spec_color() != c {
        seq![pos_of(fr + dr, ff + 1)]
    } else {
        Seq::empty()
    };
    single + double + left + right
}

/// The exact output of `gen_moves`: the piece kind's generator sequence,
/// empty for an empty square.
pub open spec fn move_seq(v: BoardView, fr: int, ff: int) -> Seq<Position> {
    match v.at(fr, ff) {
        Piece::Empty { .. } => Seq::empty(),
        Piece::Occupied { color, kind } => match kind {
            PieceType::Pawn => pawn_seq(v, fr, ff, color),
            PieceType::Knight => knight_seq(v, fr, ff, color, 0),
            PieceType::King => king_seq(v, fr, ff, color, 0),
            _ => sliding_seq(v, fr, ff, color, slide_lo(kind), slide_hi(kind)),
        },
    }
}

/// The exact output of a whole-side enumeration from linear square
/// index `s` on: the raw moves of each piece of color `side`, squares
/// in row-major order.
pub open spec fn side_seq(v: BoardView, side: bool, s: int) -> Seq<Position>
    decreases 64 - s,
{
    if s < 0 || s >= 64 {
        Seq::empty()
    } else {
        let p = v.at(s / 8, s % 8);
        let rest = side_seq(v, side, s + 1);
        if p.spec_is_piece() && p.spec_color() == side {
            move_seq(v, s / 8, s % 8) + rest
        } else {
            rest
        }
    }
}

/// A product of integers is zero only when a factor is.
proof fn lemma_mul_zero(a: int, b: int)
    requires
        a * b == 0,
    ensures
        a == 0 || b == 0,
{
    assert(a == 0 || b == 0) by (nonlinear_arith)
        requires
            a * b == 0,
    ;
}

/// Distinct step counts along one direction reach distinct squares.
proof fn lemma_ray_steps_distinct(fr: int, ff: int, d: Direction, m: int, n: int)
    requires
        m != n,
    ensures
        step_rank(fr, d, m) != step_rank(fr, d, n) || step_file(ff, d, m) != step_file(ff, d, n),
{
    if step_rank(fr, d, m) == step_rank(fr, d, n) && step_file(ff, d, m) == step_file(
        ff,
        d,
        n,
    ) {
        assert((m - n) * delta_rank(d) == 0) by (nonlinear_arith)
            requires
                fr + m * delta_rank(d) == fr + n * delta_rank(d),
        ;
        assert((m - n) * delta_file(d) == 0) by (nonlinear_arith)
            requires
                ff + m * delta_file(d) == ff + n * delta_file(d),
        ;
        lemma_mul_zero(m - n, delta_rank(d));
        lemma_mul_zero(m - n, delta_file(d));
        assert(delta_rank(d) != 0 || delta_file(d) != 0);
    }
}

/// For positive step counts, the sign of a scaled unit delta is the
/// delta itself, so equal scaled steps force equal deltas.
proof fn lemma_scaled_sign(n1: int, a: int, n2: int, b: int)
    requires
        n1 >= 1,
        n2 >= 1,
        -1 <= a <= 1,
        -1 <= b <= 1,
        n1 * a == n2 * b,
    ensures
        a == b,
{
    assert(a == b) by (nonlinear_arith)
        requires
            n1 >= 1,
            n2 >= 1,
            -1 <= a <= 1,
            -1 <= b <= 1,
            n1 * a == n2 * b,
    ;
}

/// Rays in two distinct directions from one origin share no square.
proof fn lemma_rays_disjoint(fr: int, ff: int, d1: Direction, d2: Direction, n1: int, n2: int)
    requires
        d1 != d2,
        n1 >= 1,
        n2 >= 1,
    ensures
        step_rank(fr, d1, n1) != step_rank(fr, d2, n2) || step_file(ff, d1, n1) != step_file(
            ff,
            d2,
            n2,
        ),
{
    if step_rank(fr, d1, n1) == step_rank(fr, d2, n2) && step_file(ff, d1, n1) == step_file(
        ff,
        d2,
        n2,
    ) {
        assert(n1 * delta_rank(d1) == n2 * delta_rank(d2));
        assert(n1 * delta_file(d1) == n2 * delta_file(d2));
        lemma_scaled_sign(n1, delta_rank(d1), n2, delta_rank(d2));
        lemma_scaled_sign(n1, delta_file(d1), n2, delta_file(d2));
        assert(d1 == d2);
    }
}

/// A concatenation of two duplicate-free sequences with no common
/// element is duplicate-free.
proof fn lemma_disjoint_concat_no_dup(a: Seq<Position>, b: Seq<Position>)
    requires
        a.no_duplicates(),
        b.no_duplicates(),
        forall|p: Position| !(#[trigger] a.contains(p) && b.contains(p)),
    ensures
        (a + b).no_duplicates(),
{
    assert forall|i: int, j: int|
        0 <= i < (a + b).len() && 0 <= j < (a + b).len() && i != j implies (a + b)[i] != (a
        + b)[j] by {
        if i < a.len() && j >= a.len() {
            assert(a.contains(a[i]));
            assert(b.contains(b[j - a.len()]));
        } else if i >= a.len() && j < a.len() {
            assert(a.contains(a[j]));
            assert(b.contains(b[i - a.len()]));
        }
    }
}

/// The predicate a legality filter applies: the probed move must not
/// leave the moving side's king attacked.
pub open spec fn keeps_king_safe(v: BoardView, fr: int, ff: int) -> spec_fn(Position) -> bool {
    |p: Position| !exposes_king(v, fr, ff, p[0] as int, p[1] as int)
}

/// Pushing a fresh element keeps a sequence duplicate-free.
proof fn lemma_push_no_dup(s: Seq<Position>, x: Position)
    requires
        s.no_duplicates(),
        !s.contains(x),
    ensures
        s.push(x).no_duplicates(),
{
    assert forall|i: int, j: int|
        0 <= i < s.push(x).len() && 0 <= j < s.push(x).len() && i != j implies s.push(x)[i] != s.push(
        x,
    )[j] by {
        if i < s.len() && j < s.len() {
        } else if i < s.len() {
            assert(s.contains(s[i]));
        } else {
            assert(s.contains(s[j]));
        }
    }
}

/// The legality filter only removes candidates: every legal move is
/// among the raw moves of the same square.
pub proof fn lemma_legal_moves_subset(v: BoardView, fr: int, ff: int, tr: int, tf: int)
    requires
        legal_candidate(v, fr, ff, tr, tf),
    ensures
        move_candidate(v, fr, ff, tr, tf),
{
}

impl BoardMap {
    /// Knight moves from `from`, for the color of whatever occupies it.
    pub(crate) fn gen_knight(&self, from: Position) -> (r: Vec<Position>)
        requires
            from[0] < 8,
            from[1] < 8,
        ensures
            forall|p: Position|
                r@.contains(p) <==> (p[0] < 8 && p[1] < 8 && knight_candidate(
                    self@,
                    from[0] as int,
                    from[1] as int,
                    self@.at(from[0] as int, from[1] as int).spec_color(),
                    p[0] as int,
                    p[1] as int,
                )),
            r@ == knight_seq(
                self@,
                from[0] as int,
                from[1] as int,
                self@.at(from[0] as int, from[1] as int).spec_color(),
                0,
            ),
            r@.no_duplicates(),
    {
        let ghost fr = from[0] as int;
        let ghost ff = from[1] as int;
        let ghost v = self@;
        let piece_from = self.get_piece(from);
        let c = piece_from.get_color();
        let mut moves: Vec<Position> = Vec::new();
        let mut i: usize = 0;
        while i < 8
            invariant
                from[0] < 8,
                from[1] < 8,
                v == self@,
                c == v.at(fr, ff).spec_color(),
                fr == from[0] as int,
                ff == from[1] as int,
                i <= 8,
                knight_seq(v, fr, ff, c, 0) == moves@ + knight_seq(v, fr, ff, c, i as int),
                moves@.no_duplicates(),
                forall|p: Position|
                    moves@.contains(p) <==> (p[0] < 8 && p[1] < 8 && exists|j: int|
                        0 <= j < i && p[0] as int == fr + (#[trigger] knight_offset(j)).0
                            && p[1] as int == ff + knight_offset(j).1
                            && in_board(p[0] as int, p[1] as int)
                            && free_for(self@, p[0] as int, p[1] as int, c)),
            decreases 8 - i,
        {
            let ghost pre = moves@;
            let (dr, df) = knight_offset_at(i);
            let tr = from[0] as i64 + dr;
            let tf = from[1] as i64 + df;
            if 0 <= tr && tr < 8 && 0 <= tf && tf < 8 {
                let to: Position = [tr as usize, tf as usize];
                let target = self.get_piece(to);
                if !(target.is_piece() && target.get_color() == c) {
                    proof {
                        if pre.contains(to) {
                            let j = choose|j: int|
                                0 <= j < i && to[0] as int == fr + (#[trigger] knight_offset(
                                    j,
                                )).0 && to[1] as int == ff + knight_offset(j).1 && in_board(
                                    to[0] as int,
                                    to[1] as int,
                                ) && free_for(self@, to[0] as int, to[1] as int, c);
                            assert(knight_offset(j) == knight_offset(i as int));
                            assert(false);
                        }
                        lemma_push_no_dup(pre, to);
                    }
                    moves.push(to);
                    proof {
                        assert(to == pos_of(fr + knight_offset(i as int).0, ff + knight_offset(
                            i as int,
                        ).1)) by {
                            assert(to@ =~= pos_of(fr + knight_offset(i as int).0, ff
                                + knight_offset(i as int).1)@);
                        }
                        assert(moves@ =~= pre + seq![to]);
                        assert(knight_seq(v, fr, ff, c, i as int) == seq![to] + knight_seq(
                            v,
                            fr,
                            ff,
                            c,
                            i + 1,
                        ));
                        assert(pre + (seq![to] + knight_seq(v, fr, ff, c, i + 1)) =~= (pre + seq![
                            to,
                        ]) + knight_seq(v, fr, ff, c, i + 1));
                    }
                }
            }
            i = i + 1;
            assert forall|p: Position, j: int|
                #![trigger moves@.contains(p), knight_offset(j)]
                0 <= j < i && p[0] as int == fr + knight_offset(j).0
                    && p[1] as int == ff + knight_offset(j).1
                    && in_board(p[0] as int, p[1] as int)
                    && free_for(self@, p[0] as int, p[1] as int, c) implies moves@.contains(
                p,
            ) by {
                if j == i - 1 {
                    let t2: Position = [
                        (fr + knight_offset(j).0) as usize,
                        (ff + knight_offset(j).1) as usize,
                    ];
                    assert(p@ =~= t2@);
                    assert(p == t2);
                }
            }
        }
        moves
    }

    /// King moves from `from`: one step in each of the eight directions,
    /// for the color of whatever occupies `from`.
    pub(crate) fn gen_king(&self, from: Position) -> (r: Vec<Position>)
        requires
            from[0] < 8,
            from[1] < 8,
        ensures
            forall|p: Position|
                r@.contains(p) <==> (p[0] < 8 && p[1] < 8 && king_candidate(
                    self@,
                    from[0] as int,
                    from[1] as int,
                    self@.at(from[0] as int, from[1] as int).spec_color(),
                    p[0] as int,
                    p[1] as int,
                )),
            r@ == king_seq(
                self@,
                from[0] as int,
                from[1] as int,
                self@.at(from[0] as int, from[1] as int).spec_color(),
                0,
            ),
            r@.no_duplicates(),
    {
        let ghost fr = from[0] as int;
        let ghost ff = from[1] as int;
        let ghost v = self@;
        let piece_from = self.get_piece(from);
        let c = piece_from.get_color();
        let mut moves: Vec<Position> = Vec::new();
        let mut i: usize = 0;
        while i < 8
            invariant
                from[0] < 8,
                from[1] < 8,
                v == self@,
                c == v.at(fr, ff).spec_color(),
                fr == from[0] as int,
                ff == from[1] as int,
                i <= 8,
                king_seq(v, fr, ff, c, 0) == moves@ + king_seq(v, fr, ff, c, i as int),
                moves@.no_duplicates(),
                forall|p: Position|
                    moves@.contains(p) <==> (p[0] < 8 && p[1] < 8 && exists|j: int|
                        0 <= j < i && p[0] as int == fr + delta_rank(#[trigger] dir_of_index(j))
                            && p[1] as int == ff + delta_file(dir_of_index(j))
                            && in_board(p[0] as int, p[1] as int)
                            && free_for(self@, p[0] as int, p[1] as int, c)),
            decreases 8 - i,
        {
            let ghost pre = moves@;
            let d = direction_of_index(i);
            let (dr, df) = dir_deltas(d);
            let tr = from[0] as i64 + dr;
            let tf = from[1] as i64 + df;
            if 0 <= tr && tr < 8 && 0 <= tf && tf < 8 {
                let to: Position = [tr as usize, tf as usize];
                let target = self.get_piece(to);
                if !(target.is_piece() && target.get_color() == c) {
                    proof {
                        if pre.contains(to) {
                            let j = choose|j: int|
                                0 <= j < i && to[0] as int == fr + delta_rank(
                                    #[trigger] dir_of_index(j),
                                ) && to[1] as int == ff + delta_file(dir_of_index(j)) && in_board(
                                    to[0] as int,
                                    to[1] as int,
                                ) && free_for(self@, to[0] as int, to[1] as int, c);
                            assert(delta_rank(dir_of_index(j)) == delta_rank(dir_of_index(i as int))
                                && delta_file(dir_of_index(j)) == delta_file(
                                dir_of_index(i as int),
                            ));
                            assert(false);
                        }
                        lemma_push_no_dup(pre, to);
                    }
                    moves.push(to);
                    proof {
                        assert(to == pos_of(
                            fr + delta_rank(dir_of_index(i as int)),
                            ff + delta_file(dir_of_index(i as int)),
                        )) by {
                            assert(to@ =~= pos_of(
                                fr + delta_rank(dir_of_index(i as int)),
                                ff + delta_file(dir_of_index(i as int)),
                            )@);
                        }
                        assert(moves@ =~= pre + seq![to]);
                        assert(king_seq(v, fr, ff, c, i as int) == seq![to] + king_seq(
                            v,
                            fr,
                            ff,
                            c,
                            i + 1,
                        ));
                        assert(pre + (seq![to] + king_seq(v, fr, ff, c, i + 1)) =~= (pre + seq![
                            to,
                        ]) + king_seq(v, fr, ff, c, i + 1));
                    }
                }
            }
            i = i + 1;
            assert forall|p: Position, j: int|
                #![trigger moves@.contains(p), dir_of_index(j)]
                0 <= j < i && p[0] as int == fr + delta_rank(dir_of_index(j))
                    && p[1] as int == ff + delta_file(dir_of_index(j))
                    && in_board(p[0] as int, p[1] as int)
                    && free_for(self@, p[0] as int, p[1] as int, c) implies moves@.contains(
                p,
            ) by {
                if j == i - 1 {
                    let t2: Position = [
                        (fr + delta_rank(dir_of_index(j))) as usize,
                        (ff + delta_file(dir_of_index(j))) as usize,
                    ];
                    assert(p@ =~= t2@);
                    assert(p == t2);
                }
            }
        }
        moves
    }

    /// Squares between a position and the board edge along a direction.
    pub(crate) fn len_to_edge(&self, pos: Position, direction: Direction) -> (r: usize)
        requires
            pos[0] < 8,
            pos[1] < 8,
        ensures
            r as int == spec_len_to_edge(pos[0] as int, pos[1] as int, direction),
            r <= 7,
    {
        let rank = pos[0];
        let file = pos[1];
        let north = 7 - rank;
        let south = rank;
        let west = file;
        let east = 7 - file;
        match direction {
            Direction::North => north,
            Direction::South => south,
            Direction::West => west,
            Direction::East => east,
            Direction::NorthWest => if north < west { north } else { west },
            Direction::SouthEast => if south < east { south } else { east },
            Direction::NorthEast => if north < east { north } else { east },
            Direction::SouthWest => if south < west { south } else { west },
        }
    }

    /// Walk one ray outward from `from` along `d`: include empty squares,
    /// include an opposite-color piece's square and stop, stop before a
    /// same-color piece.
    fn gen_ray(&self, from: Position, d: Direction) -> (r: Vec<Position>)
        requires
            from[0] < 8,
            from[1] < 8,
        ensures
            forall|p: Position|
                r@.contains(p) <==> (p[0] < 8 && p[1] < 8 && exists|n: int|
                    #[trigger] ray_target(
                        self@,
                        from[0] as int,
                        from[1] as int,
                        self@.at(from[0] as int, from[1] as int).spec_color(),
                        d,
                        n,
                    ) && p[0] as int == step_rank(from[0] as int, d, n) && p[1] as int == step_file(
                        from[1] as int,
                        d,
                        n,
                    )),
            r@ == ray_seq(
                self@,
                from[0] as int,
                from[1] as int,
                self@.at(from[0] as int, from[1] as int).spec_color(),
                d,
                1,
            ),
            r@.no_duplicates(),
    {
        let ghost fr = from[0] as int;
        let ghost ff = from[1] as int;
        let ghost v = self@;
        let piece_from = self.get_piece(from);
        let c = piece_from.get_color();
        let len = self.len_to_edge(from, d);
        let (dr, df) = dir_deltas(d);
        let mut moves: Vec<Position> = Vec::new();
        let mut n: usize = 1;
        let mut stopped = false;
        while n <= len && !stopped
            invariant
                from[0] < 8,
                from[1] < 8,
                fr == from[0] as int,
                ff == from[1] as int,
                v == self@,
                c == v.at(fr, ff).spec_color(),
                len as int == spec_len_to_edge(fr, ff, d),
                len <= 7,
                dr as int == delta_rank(d),
                df as int == delta_file(d),
                1 <= n <= len + 1,
                ray_seq(v, fr, ff, c, d, 1) == moves@ + (if stopped {
                    Seq::<Position>::empty()
                } else {
                    ray_seq(v, fr, ff, c, d, n as int)
                }),
                moves@.no_duplicates(),
                !stopped ==> forall|k: int|
                    1 <= k < n ==> !v.at(
                        #[trigger] step_rank(fr, d, k),
                        step_file(ff, d, k),
                    ).spec_is_piece(),
                stopped ==> 2 <= n && v.at(
                    step_rank(fr, d, n - 1),
                    step_file(ff, d, n - 1),
                ).spec_is_piece(),
                forall|p: Position|
                    moves@.contains(p) <==> (p[0] < 8 && p[1] < 8 && exists|m: int|
                        1 <= m < n && #[trigger] ray_target(v, fr, ff, c, d, m)
                            && p[0] as int == step_rank(fr, d, m)
                            && p[1] as int == step_file(ff, d, m)),
            decreases len + 1 - n, (if stopped { 0int } else { 1int }),
        {
            proof {
                crate::piece::lemma_step_in_board(fr, ff, d, n as int);
            }
            let tr = from[0] as i64 + (n as i64) * dr;
            let tf = from[1] as i64 + (n as i64) * df;
            assert(tr as int == step_rank(fr, d, n as int));
            assert(tf as int == step_file(ff, d, n as int));
            let to: Position = [tr as usize, tf as usize];
            proof {
                assert(to == pos_of(step_rank(fr, d, n as int), step_file(ff, d, n as int))) by {
                    assert(to@ =~= pos_of(step_rank(fr, d, n as int), step_file(ff, d, n as int))@);
                }
            }
            let ghost pre = moves@;
            let target = self.get_piece(to);
            if target.is_piece() && target.get_color() == c {
                stopped = true;
            } else {
                proof {
                    if pre.contains(to) {
                        let m = choose|m: int|
                            1 <= m < n && #[trigger] ray_target(v, fr, ff, c, d, m) && to[0] as int
                                == step_rank(fr, d, m) && to[1] as int == step_file(ff, d, m);
                        lemma_ray_steps_distinct(fr, ff, d, m, n as int);
                        assert(false);
                    }
                    lemma_push_no_dup(pre, to);
                }
                moves.push(to);
                assert(ray_target(v, fr, ff, c, d, n as int));
                proof {
                    assert(moves@ =~= pre + seq![to]);
                    if target.spec_is_piece() {
                        assert(ray_seq(v, fr, ff, c, d, n as int) == seq![to]);
                    } else {
                        assert(ray_seq(v, fr, ff, c, d, n as int) == seq![to] + ray_seq(
                            v,
                            fr,
                            ff,
                            c,
                            d,
                            n + 1,
                        ));
                        assert(pre + (seq![to] + ray_seq(v, fr, ff, c, d, n + 1)) =~= (pre + seq![
                            to,
                        ]) + ray_seq(v, fr, ff, c, d, n + 1));
                    }
                }
                if target.is_piece() {
                    stopped = true;
                }
            }
            let ghost n_old = n as int;
            n = n + 1;
            assert forall|p: Position, m: int|
                #![trigger moves@.contains(p), ray_target(v, fr, ff, c, d, m)]
                1 <= m < n && ray_target(v, fr, ff, c, d, m) && p[0] as int == step_rank(fr, d, m)
                    && p[1] as int == step_file(ff, d, m) && p[0] < 8 && p[1] < 8
                    implies moves@.contains(p) by {
                if m == n_old {
                    assert(p@ =~= to@);
                    assert(p == to);
                }
            }
        }
        proof {
            if stopped {
                assert forall|m: int| n <= m implies !ray_target(v, fr, ff, c, d, m) by {
                    assert(v.at(step_rank(fr, d, n - 1), step_file(ff, d, n - 1)).spec_is_piece());
                }
            }
            assert(moves@ + Seq::<Position>::empty() =~= moves@);
            if !stopped {
                assert(ray_seq(v, fr, ff, c, d, n as int) == Seq::<Position>::empty());
            }
        }
        moves
    }

    /// Sliding moves (bishop, rook or queen) from `from`, for the color
    /// of whatever occupies it.
    pub(crate) fn gen_sliding(&self, from: Position, piece_type: PieceType) -> (r: Vec<Position>)
        requires
            from[0] < 8,
            from[1] < 8,
        ensures
            forall|p: Position|
                r@.contains(p) <==> (p[0] < 8 && p[1] < 8 && sliding_candidate(
                    self@,
                    from[0] as int,
                    from[1] as int,
                    self@.at(from[0] as int, from[1] as int).spec_color(),
                    slide_lo(piece_type),
                    slide_hi(piece_type),
                    p[0] as int,
                    p[1] as int,
                )),
            r@ == sliding_seq(
                self@,
                from[0] as int,
                from[1] as int,
                self@.at(from[0] as int, from[1] as int).spec_color(),
                slide_lo(piece_type),
                slide_hi(piece_type),
            ),
            r@.no_duplicates(),
    {
        let ghost fr = from[0] as int;
        let ghost ff = from[1] as int;
        let ghost v = self@;
        let ghost c = self@.at(fr, ff).spec_color();
        let start: usize = if matches!(piece_type, PieceType::Bishop) {
            4
        } else {
            0
        };
        let end: usize = if matches!(piece_type, PieceType::Rook) {
            4
        } else {
            8
        };
        let mut moves: Vec<Position> = Vec::new();
        let mut i: usize = start;
        while i < end
            invariant
                from[0] < 8,
                from[1] < 8,
                fr == from[0] as int,
                ff == from[1] as int,
                v == self@,
                c == v.at(fr, ff).spec_color(),
                start as int == slide_lo(piece_type),
                end as int == slide_hi(piece_type),
                start <= i <= end,
                sliding_seq(v, fr, ff, c, start as int, end as int) == moves@ + sliding_seq(
                    v,
                    fr,
                    ff,
                    c,
                    i as int,
                    end as int,
                ),
                moves@.no_duplicates(),
                forall|p: Position|
                    moves@.contains(p) <==> (p[0] < 8 && p[1] < 8 && sliding_candidate(
                        v,
                        fr,
                        ff,
                        c,
                        start as int,
                        i as int,
                        p[0] as int,
                        p[1] as int,
                    )),
            decreases end - i,
        {
            let d = direction_of_index(i);
            let mut ray = self.gen_ray(from, d);
            let ghost pre = moves@;
            let ghost rs = ray@;
            proof {
                assert forall|p: Position| !(#[trigger] pre.contains(p) && rs.contains(p)) by {
                    if pre.contains(p) && rs.contains(p) {
                        let (j, m): (int, int) = choose|j: int, m: int|
                            start <= j < i && #[trigger] ray_target(v, fr, ff, c, dir_of_index(j), m)
                                && p[0] as int == step_rank(fr, dir_of_index(j), m)
                                && p[1] as int == step_file(ff, dir_of_index(j), m);
                        let n = choose|n: int|
                            #[trigger] ray_target(v, fr, ff, c, d, n) && p[0] as int == step_rank(
                                fr,
                                d,
                                n,
                            ) && p[1] as int == step_file(ff, d, n);
                        assert(dir_of_index(j) != dir_of_index(i as int));
                        lemma_rays_disjoint(fr, ff, dir_of_index(j), dir_of_index(i as int), m, n);
                        assert(false);
                    }
                }
                lemma_disjoint_concat_no_dup(pre, rs);
            }
            moves.append(&mut ray);
            i = i + 1;
            proof {
                assert(sliding_seq(v, fr, ff, c, i - 1, end as int) == ray_seq(
                    v,
                    fr,
                    ff,
                    c,
                    dir_of_index(i - 1),
                    1,
                ) + sliding_seq(v, fr, ff, c, i as int, end as int));
                assert(pre + (rs + sliding_seq(v, fr, ff, c, i as int, end as int)) =~= (pre + rs)
                    + sliding_seq(v, fr, ff, c, i as int, end as int));
            }
            assert forall|p: Position|
                #![trigger moves@.contains(p)]
                p[0] < 8 && p[1] < 8 && sliding_candidate(
                    v,
                    fr,
                    ff,
                    c,
                    start as int,
                    i as int,
                    p[0] as int,
                    p[1] as int,
                ) implies moves@.contains(p) by {
                let (j, m): (int, int) = choose|j: int, m: int|
                    start <= j < i && #[trigger] ray_target(v, fr, ff, c, dir_of_index(j), m)
                        && p[0] as int == step_rank(fr, dir_of_index(j), m)
                        && p[1] as int == step_file(ff, dir_of_index(j), m);
                if j < i - 1 {
                    assert(sliding_candidate(
                        v,
                        fr,
                        ff,
                        c,
                        start as int,
                        i - 1,
                        p[0] as int,
                        p[1] as int,
                    ));
                }
            }
        }
        proof {
            assert(sliding_seq(v, fr, ff, c, end as int, end as int) == Seq::<Position>::empty());
            assert(moves@ + Seq::<Position>::empty() =~= moves@);
        }
        moves
    }

    /// Pawn moves from `from`, for the color of whatever occupies it:
    /// single step, double step from the starting rank, and diagonal
    /// captures.
    pub(crate) fn gen_pawn(&self, from: Position) -> (r: Vec<Position>)
        requires
            from[0] < 8,
            from[1] < 8,
        ensures
            forall|p: Position|
                r@.contains(p) <==> (p[0] < 8 && p[1] < 8 && pawn_candidate(
                    self@,
                    from[0] as int,
                    from[1] as int,
                    self@.at(from[0] as int, from[1] as int).spec_color(),
                    p[0] as int,
                    p[1] as int,
                )),
            r@ == pawn_seq(
                self@,
                from[0] as int,
                from[1] as int,
                self@.at(from[0] as int, from[1] as int).spec_color(),
            ),
            r@.no_duplicates(),
    {
        let ghost fr = from[0] as int;
        let ghost ff = from[1] as int;
        let ghost v = self@;
        let piece_from = self.get_piece(from);
        let c = piece_from.get_color();
        let dr: i64 = if c {
            -1
        } else {
            1
        };
        let ghost d: int = if c {
            -1int
        } else {
            1int
        };
        let mut moves: Vec<Position> = Vec::new();
        let fr1 = from[0] as i64 + dr;
        if 0 <= fr1 && fr1 < 8 {
            let ahead: Position = [fr1 as usize, from[1]];
            proof {
                assert(ahead == pos_of(fr + d, ff)) by {
                    assert(ahead@ =~= pos_of(fr + d, ff)@);
                }
            }
            let is_blocking = self.get_piece(ahead).is_piece();
            if !is_blocking {
                moves.push(ahead);
            }
            if ((c && from[0] == 6) || (!c && from[0] == 1)) && !is_blocking {
                let double: Position = [(from[0] as i64 + 2 * dr) as usize, from[1]];
                proof {
                    assert(double == pos_of(fr + 2 * d, ff)) by {
                        assert(double@ =~= pos_of(fr + 2 * d, ff)@);
                    }
                }
                moves.push(double);
            }
            if from[1] >= 1 {
                let left: Position = [fr1 as usize, from[1] - 1];
                proof {
                    assert(left == pos_of(fr + d, ff - 1)) by {
                        assert(left@ =~= pos_of(fr + d, ff - 1)@);
                    }
                }
                let lp = self.get_piece(left);
                if lp.is_piece() && lp.get_color() != c {
                    moves.push(left);
                }
            }
            if from[1] <= 6 {
                let right: Position = [fr1 as usize, from[1] + 1];
                proof {
                    assert(right == pos_of(fr + d, ff + 1)) by {
                        assert(right@ =~= pos_of(fr + d, ff + 1)@);
                    }
                }
                let rp = self.get_piece(right);
                if rp.is_piece() && rp.get_color() != c {
                    moves.push(right);
                }
            }
        }
        proof {
            assert(moves@ =~= pawn_seq(v, fr, ff, c));
            assert(pos_of(fr + d, ff)[1] as int == ff && pos_of(fr + 2 * d, ff)[1] as int == ff);
            assert(in_board(fr + d, ff - 1) ==> pos_of(fr + d, ff - 1)[1] as int == ff - 1);
            assert(in_board(fr + d, ff + 1) ==> pos_of(fr + d, ff + 1)[1] as int == ff + 1);
            assert(in_board(fr + d, ff) && (if c { fr == 6int } else { fr == 1int }) ==> (pos_of(
                fr + d,
                ff,
            )[0] as int == fr + d && pos_of(fr + 2 * d, ff)[0] as int == fr + 2 * d));
            assert(moves@.no_duplicates());
        }
        assert forall|p: Position|
            #![trigger moves@.contains(p)]
            p[0] < 8 && p[1] < 8 && pawn_candidate(v, fr, ff, c, p[0] as int, p[1] as int)
            implies moves@.contains(p) by {
            let d: int = if c {
                -1
            } else {
                1
            };
            if p[0] as int == fr + d && p[1] as int == ff {
                let t: Position = [(fr + d) as usize, ff as usize];
                assert(p@ =~= t@);
                assert(p == t);
            } else if p[0] as int == fr + 2 * d && p[1] as int == ff {
                let t: Position = [(fr + 2 * d) as usize, ff as usize];
                assert(p@ =~= t@);
                assert(p == t);
            } else if p[0] as int == fr + d && p[1] as int == ff - 1 {
                let t: Position = [(fr + d) as usize, (ff - 1) as usize];
                assert(p@ =~= t@);
                assert(p == t);
            } else {
                let t: Position = [(fr + d) as usize, (ff + 1) as usize];
                assert(p@ =~= t@);
                assert(p == t);
            }
        }
        moves
    }

    /// All raw destinations of the piece on `from`: dispatches on the
    /// piece kind, empty for an empty square. No legality filtering.
    pub fn gen_moves(&self, from: Position) -> (r: Vec<Position>)
        requires
            from[0] < 8,
            from[1] < 8,
        ensures
            forall|p: Position|
                r@.contains(p) <==> (p[0] < 8 && p[1] < 8 && move_candidate(
                    self@,
                    from[0] as int,
                    from[1] as int,
                    p[0] as int,
                    p[1] as int,
                )),
            r@ == move_seq(self@, from[0] as int, from[1] as int),
            r@.no_duplicates(),
    {
        let piece_from = self.get_piece(from);
        match piece_from.get_type() {
            Some(piece_type) => match piece_type {
                PieceType::Bishop | PieceType::Rook | PieceType::Queen => self.gen_sliding(
                    from,
                    piece_type,
                ),
                PieceType::Pawn => self.gen_pawn(from),
                PieceType::King => self.gen_king(from),
                PieceType::Knight => self.gen_knight(from),
            },
            None => Vec::new(),
        }
    }

    /// Every raw destination reachable by any piece of color `side`,
    /// square by square in row-major order.
    pub(crate) fn gen_side_moves(&self, side: bool) -> (r: Vec<Position>)
        ensures
            forall|p: Position|
                r@.contains(p) <==> (p[0] < 8 && p[1] < 8 && side_attacks(
                    self@,
                    side,
                    p[0] as int,
                    p[1] as int,
                )),
            r@ == side_seq(self@, side, 0),
    {
        let ghost v = self@;
        let mut moves: Vec<Position> = Vec::new();
        let mut s: usize = 0;
        while s < 64
            invariant
                v == self@,
                s <= 64,
                side_seq(v, side, 0) == moves@ + side_seq(v, side, s as int),
                forall|p: Position|
                    moves@.contains(p) <==> (p[0] < 8 && p[1] < 8 && side_attacks_before(
                        v,
                        side,
                        s as int,
                        p[0] as int,
                        p[1] as int,
                    )),
            decreases 64 - s,
        {
            let on: Position = [s / 8, s % 8];
            let ghost sr = (s / 8) as int;
            let ghost sf = (s % 8) as int;
            let piece = self.get_piece(on);
            let ghost pre = moves@;
            if piece.is_piece() && piece.get_color() == side {
                let mut mv = self.gen_moves(on);
                let ghost ms = mv@;
                moves.append(&mut mv);
                proof {
                    assert(side_seq(v, side, s as int) == move_seq(v, sr, sf) + side_seq(
                        v,
                        side,
                        s + 1,
                    ));
                    assert(pre + (ms + side_seq(v, side, s + 1)) =~= (pre + ms) + side_seq(
                        v,
                        side,
                        s + 1,
                    ));
                }
            }
            s = s + 1;
            assert forall|p: Position|
                #![trigger moves@.contains(p)]
                p[0] < 8 && p[1] < 8 && side_attacks_before(
                    v,
                    side,
                    s as int,
                    p[0] as int,
                    p[1] as int,
                ) implies moves@.contains(p) by {
                let (ar, af): (int, int) = choose|ar: int, af: int|
                    in_board(ar, af) && sq(ar, af) < s && v.at(ar, af).spec_is_piece() && v.at(
                        ar,
                        af,
                    ).spec_color() == side && #[trigger] move_candidate(
                        v,
                        ar,
                        af,
                        p[0] as int,
                        p[1] as int,
                    );
                if sq(ar, af) < s - 1 {
                    assert(side_attacks_before(v, side, s - 1, p[0] as int, p[1] as int));
                } else {
                    assert(ar == sr && af == sf);
                }
            }
        }
        proof {
            assert forall|tr: int, tf: int|
                #![trigger side_attacks(v, side, tr, tf)]
                true implies (side_attacks(v, side, tr, tf) <==> side_attacks_before(
                v,
                side,
                64,
                tr,
                tf,
            )) by {
                if side_attacks(v, side, tr, tf) {
                    let (ar, af): (int, int) = choose|ar: int, af: int|
                        in_board(ar, af) && v.at(ar, af).spec_is_piece() && v.at(ar, af).spec_color()
                            == side && #[trigger] move_candidate(v, ar, af, tr, tf);
                    assert(sq(ar, af) < 64);
                }
            }
            assert(side_seq(v, side, 64) == Seq::<Position>::empty());
            assert(moves@ + Seq::<Position>::empty() =~= moves@);
        }
        moves
    }

    /// Every raw destination reachable by any piece whose color differs
    /// from the active color.
    pub fn gen_opponent_moves(&self) -> (r: Vec<Position>)
        ensures
            forall|p: Position|
                r@.contains(p) <==> (p[0] < 8 && p[1] < 8 && opponent_attacks(
                    self@,
                    p[0] as int,
                    p[1] as int,
                )),
            r@ == side_seq(self@, !self@.active_color, 0),
    {
        let active = self.get_active_color();
        self.gen_side_moves(!active)
    }

    /// Whether `v` holds a position equal to `p`.
    fn contains_pos(v: &Vec<Position>, p: Position) -> (r: bool)
        ensures
            r == v@.contains(p),
    {
        let mut i: usize = 0;
        let mut found = false;
        while i < v.len()
            invariant
                i <= v@.len(),
                found == exists|j: int| 0 <= j < i && v@[j] == p,
            decreases v@.len() - i,
        {
            let e = v[i];
            if e[0] == p[0] && e[1] == p[1] {
                proof {
                    assert(e@ =~= p@);
                }
                found = true;
                assert(v@[i as int] == p);
            }
            i = i + 1;
        }
        found
    }

    /// Legal moves of the piece on `from`: each raw move is probed on a
    /// scratch copy of the board, and kept only when no piece of the
    /// other color could then land on a king of the moving side. The
    /// board itself is never touched.
    pub fn gen_legal_moves(&self, from: Position) -> (r: Vec<Position>)
        requires
            from[0] < 8,
            from[1] < 8,
        ensures
            forall|p: Position|
                r@.contains(p) <==> (p[0] < 8 && p[1] < 8 && legal_candidate(
                    self@,
                    from[0] as int,
                    from[1] as int,
                    p[0] as int,
                    p[1] as int,
                )),
            r@ == move_seq(self@, from[0] as int, from[1] as int).filter(keeps_king_safe(
                self@,
                from[0] as int,
                from[1] as int,
            )),
            r@.no_duplicates(),
    {
        let ghost fr = from[0] as int;
        let ghost ff = from[1] as int;
        let ghost v = self@;
        let ghost pred = keeps_king_safe(v, fr, ff);
        let mover = self.get_piece(from).get_color();
        let moves = self.gen_moves(from);
        let mut legal: Vec<Position> = Vec::new();
        let mut idx: usize = 0;
        while idx < moves.len()
            invariant
                from[0] < 8,
                from[1] < 8,
                fr == from[0] as int,
                ff == from[1] as int,
                v == self@,
                mover == v.at(fr, ff).spec_color(),
                idx <= moves@.len(),
                forall|p: Position|
                    moves@.contains(p) <==> (p[0] < 8 && p[1] < 8 && move_candidate(
                        v,
                        fr,
                        ff,
                        p[0] as int,
                        p[1] as int,
                    )),
                legal@ == moves@.subrange(0, idx as int).filter(pred),
                legal@.no_duplicates(),
                pred == keeps_king_safe(v, fr, ff),
                moves@.no_duplicates(),
                forall|p: Position|
                    legal@.contains(p) <==> (moves@.subrange(0, idx as int).contains(p)
                        && !exposes_king(v, fr, ff, p[0] as int, p[1] as int)),
            decreases moves@.len() - idx,
        {
            let to = moves[idx];
            assert(moves@.contains(to));
            let ghost tr = to[0] as int;
            let ghost tf = to[1] as int;
            let ghost v2 = v.relocated(fr, ff, tr, tf);
            let mut scratch = *self;
            scratch.make_move(from, to);
            let threats = scratch.gen_side_moves(!mover);
            let mut hit = false;
            let mut j: usize = 0;
            while j < threats.len()
                invariant
                    j <= threats@.len(),
                    scratch@ == v2,
                    v2 == v.relocated(fr, ff, tr, tf),
                    mover == v.at(fr, ff).spec_color(),
                    forall|p: Position|
                        threats@.contains(p) <==> (p[0] < 8 && p[1] < 8 && side_attacks(
                            v2,
                            !mover,
                            p[0] as int,
                            p[1] as int,
                        )),
                    hit == exists|k: int|
                        0 <= k < j && king_of(
                            v2.at(threats@[k][0] as int, threats@[k][1] as int),
                            mover,
                        ),
                decreases threats@.len() - j,
            {
                let t = threats[j];
                assert(threats@.contains(t));
                let tp = scratch.get_piece(t);
                if tp.is_piece() && tp.get_color() == mover {
                    match tp.get_type() {
                        Some(k) => {
                            if matches!(k, PieceType::King) {
                                hit = true;
                                assert(king_of(v2.at(t[0] as int, t[1] as int), mover));
                            }
                        },
                        None => {},
                    }
                }
                j = j + 1;
            }
            proof {
                if hit {
                    let k = choose|k: int|
                        0 <= k < threats@.len() && king_of(
                            v2.at(threats@[k][0] as int, threats@[k][1] as int),
                            mover,
                        );
                    assert(threats@.contains(threats@[k]));
                    let ar = threats@[k][0] as int;
                    let af = threats@[k][1] as int;
                    assert(in_board(ar, af) && king_of(v2.at(ar, af), mover));
                    assert(attacked_after(v, fr, ff, tr, tf, ar, af));
                    assert(exposes_king(v, fr, ff, tr, tf));
                } else {
                    if exposes_king(v, fr, ff, tr, tf) {
                        let (ar, af): (int, int) = choose|ar: int, af: int|
                            in_board(ar, af) && king_of(
                                v.relocated(fr, ff, tr, tf).at(ar, af),
                                v.at(fr, ff).spec_color(),
                            ) && #[trigger] attacked_after(v, fr, ff, tr, tf, ar, af);
                        assert(side_attacks(v2, !mover, ar, af));
                        let w: Position = [ar as usize, af as usize];
                        assert(threats@.contains(w));
                        let k = choose|k: int| 0 <= k < threats@.len() && threats@[k] == w;
                        assert(king_of(v2.at(threats@[k][0] as int, threats@[k][1] as int), mover));
                        assert(false);
                    }
                }
            }
            if !hit {
                proof {
                    let ghost pre = legal@;
                    if pre.contains(to) {
                        let k = choose|k: int|
                            0 <= k < moves@.subrange(0, idx as int).len() && moves@.subrange(
                                0,
                                idx as int,
                            )[k] == to;
                        assert(moves@[k] == moves@[idx as int]);
                        assert(false);
                    }
                    lemma_push_no_dup(legal@, to);
                }
                legal.push(to);
            }
            idx = idx + 1;
            proof {
                assert(moves@.subrange(0, idx as int) =~= moves@.subrange(0, idx - 1).push(
                    moves@[idx - 1],
                ));
                moves@.subrange(0, idx - 1).lemma_filter_push(moves@[idx - 1], pred);
                assert(pred(to) == !hit);
            }
        }
        proof {
            assert(moves@.subrange(0, moves@.len() as int) =~= moves@);
        }
        legal
    }

    /// A move is valid when the destination is empty or holds an
    /// opposite-color piece, and it is among the legal moves of the
    /// origin square.
    pub fn is_valid_move(&self, from: Position, to: Position) -> (r: bool)
        requires
            from[0] < 8,
            from[1] < 8,
            to[0] < 8,
            to[1] < 8,
        ensures
            r == spec_is_valid_move(
                self@,
                from[0] as int,
                from[1] as int,
                to[0] as int,
                to[1] as int,
            ),
    {
        let piece_to = self.get_piece(to);
        if !piece_to.is_piece() || piece_to.get_color() != self.get_active_color() {
            let moves = self.gen_legal_moves(from);
            Self::contains_pos(&moves, to)
        } else {
            false
        }
    }

    /// Attempt a move as the side to move. Fails (returning `false` and
    /// leaving the board untouched) when the origin is empty, the origin
    /// piece is not the active color, or the destination is not a valid
    /// move. On success the piece is relocated, the origin is cleared to
    /// its checkerboard marker, and the active color flips.
    pub fn move_turn(&mut self, on: Position, to: Position) -> (r: bool)
        requires
            on[0] < 8,
            on[1] < 8,
            to[0] < 8,
            to[1] < 8,
        ensures
            r == spec_move_ok(old(self)@, on[0] as int, on[1] as int, to[0] as int, to[1] as int),
            r ==> final(self)@.squares == old(self)@.relocated(
                on[0] as int,
                on[1] as int,
                to[0] as int,
                to[1] as int,
            ).squares,
            r ==> final(self)@.active_color == !old(self)@.active_color,
            !r ==> final(self)@ == old(self)@,
    {
        let piece = self.get_piece(on);
        if !piece.is_piece() {
            return false;
        }
        if (piece.is_white() && !self.get_active_color()) || (piece.is_black()
            && self.get_active_color()) {
            if self.is_valid_move(on, to) {
                self.make_move(on, to);
                self.toggle_active_color();
                return true;
            }
        }
        false
    }
}

} // verus!


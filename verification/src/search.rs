//! Negamax search to a fixed depth.
//!
//! The value of a position at depth 0 is its static score. At a greater
//! depth it is the best, over the legal moves, of the negated value of the
//! position after the move at one depth less; a move is legal when it is
//! pseudo-legal and does not leave the king of the mover attacked. With no
//! legal move the value is [`CHECKMATE`] for a side in check and
//! [`STALEMATE`] otherwise. Of several best moves the first generated wins.
use crate::board::BoardState;
use crate::board::EncodedMove;
use crate::board::NULL_MOVE;
use crate::board::Position;
use crate::eval::evaluate;
use crate::eval::evaluate_spec;
use crate::eval::CHECKMATE;
use crate::eval::STALEMATE;
use crate::invariants::lemma_make_keeps_wf;
use crate::invariants::lemma_make_undo_board;
use crate::invariants::lemma_undo_keeps_wf;
use crate::legality::lemma_en_passant_free_after;
use crate::legality::lemma_generated_fields;
use crate::legality::lemma_generated_fits;
use crate::legality::lemma_generated_member;
use crate::legality::lemma_generated_spares_king;
use crate::magic::AttackTables;
use crate::utils::Color;
use crate::utils::Piece;
use vstd::prelude::*;

verus! {

/// The best move found so far at a node.
pub struct Best {
    /// Whether any legal move was found.
    pub found: bool,
    /// The score of the best move, if one was found.
    pub score: int,
    /// The best move, if one was found.
    pub best_move: u32,
}

/// The move `m` of the side to move in `p` is legal: it does not leave the
/// king of the mover attacked.
#[verifier::opaque]
pub open spec fn keeps_king_safe(p: Position, m: u32) -> bool {
    !p.make_spec(m).in_check(p.to_move)
}

/// The negamax value of `p` at `depth`, with a move that attains it (the
/// null move at depth 0 and when there is no legal move).
pub open spec fn search_spec(p: Position, depth: nat) -> (int, u32)
    decreases depth, 0nat,
{
    if depth == 0 {
        (evaluate_spec(p), NULL_MOVE)
    } else {
        let moves = p.generated_moves(p.to_move);
        let best = best_of(p, moves, moves.len(), (depth - 1) as nat);
        if best.found {
            (best.score, best.best_move)
        } else if p.in_check(p.to_move) {
            (CHECKMATE as int, NULL_MOVE)
        } else {
            (STALEMATE as int, NULL_MOVE)
        }
    }
}

/// The best of the first `n` moves of `moves` in `p`, each legal move
/// valued at the negated value of the position after it at `child_depth`.
/// A later move replaces an earlier one only when it scores more.
pub open spec fn best_of(p: Position, moves: Seq<u32>, n: nat, child_depth: nat) -> Best
    decreases child_depth, n + 1,
{
    if n == 0 {
        Best { found: false, score: 0, best_move: NULL_MOVE }
    } else {
        let before = best_of(p, moves, (n - 1) as nat, child_depth);
        let m = moves[n - 1];
        if !keeps_king_safe(p, m) {
            before
        } else {
            let score = -search_spec(p.make_spec(m), child_depth).0;
            if !before.found || score > before.score {
                Best { found: true, score, best_move: m }
            } else {
                before
            }
        }
    }
}

/// The position that the search leaves after it has tried the first `n`
/// moves of `moves` from `start`: each move is made, the position after it
/// is searched to `child_depth` unless the mover is in check there, and the
/// move is taken back.
pub open spec fn after_tries(start: Position, moves: Seq<u32>, n: nat, child_depth: nat) -> Position
    decreases child_depth, n + 1,
{
    if n == 0 {
        start
    } else {
        let child = after_tries(start, moves, (n - 1) as nat, child_depth).make_spec(moves[n - 1]);
        if child.in_check(start.to_move) {
            child.undo_spec()
        } else {
            after_search(child, child_depth).undo_spec()
        }
    }
}

/// The position that a search of `p` to `depth` leaves: `p` itself at depth
/// 0, and else what is left after every generated move has been tried.
pub open spec fn after_search(p: Position, depth: nat) -> Position
    decreases depth, 0nat,
{
    if depth == 0 {
        p
    } else {
        after_tries(p, p.generated_moves(p.to_move), p.generated_moves(p.to_move).len(), (depth - 1) as nat)
    }
}

/// Two positions that the search cannot tell apart: the same pieces,
/// counters, stack and en-passant square. Their castling rights may differ.
pub open spec fn same_play(a: Position, b: Position) -> bool {
    a.same_board(b) && a.en_passant == b.en_passant
}

proof fn lemma_same_play_moves_of_pieces(
    a: Position,
    b: Position,
    side: Color,
    kind: Piece,
    sources: Seq<u8>,
    n: nat,
)
    requires
        same_play(a, b),
    ensures
        a.moves_of_pieces(side, kind, sources, n) == b.moves_of_pieces(side, kind, sources, n),
        a.reach_of_pieces(side, kind, sources, n) == b.reach_of_pieces(side, kind, sources, n),
    decreases n,
{
    if n > 0 {
        lemma_same_play_moves_of_pieces(a, b, side, kind, sources, (n - 1) as nat);
        let from = sources[n - 1] as int;
        let targets = crate::bits::squares_of(a.destinations(side, kind, from));
        assert(a.moves_to(side, kind, from, targets) =~= b.moves_to(side, kind, from, targets));
    }
}

/// Positions that the search cannot tell apart have the same moves, the
/// same checks and the same static score.
pub proof fn lemma_same_play_reads(a: Position, b: Position, side: Color)
    requires
        same_play(a, b),
    ensures
        a.generated_moves(side) == b.generated_moves(side),
        a.reach(side) == b.reach(side),
        a.in_check(side) == b.in_check(side),
        evaluate_spec(a) == evaluate_spec(b),
{
    reveal(Position::generated_moves);
    reveal(Position::in_check);
    reveal(evaluate_spec);
    lemma_same_play_kind(a, b, side, Piece::Pawn);
    lemma_same_play_kind(a, b, side, Piece::King);
    lemma_same_play_kind(a, b, side, Piece::Knight);
    lemma_same_play_kind(a, b, side, Piece::Bishop);
    lemma_same_play_kind(a, b, side, Piece::Rook);
    lemma_same_play_kind(a, b, side, Piece::Queen);
    lemma_same_play_kind(a, b, side.other(), Piece::Pawn);
    lemma_same_play_kind(a, b, side.other(), Piece::King);
    lemma_same_play_kind(a, b, side.other(), Piece::Knight);
    lemma_same_play_kind(a, b, side.other(), Piece::Bishop);
    lemma_same_play_kind(a, b, side.other(), Piece::Rook);
    lemma_same_play_kind(a, b, side.other(), Piece::Queen);
}

proof fn lemma_same_play_kind(a: Position, b: Position, side: Color, kind: Piece)
    requires
        same_play(a, b),
    ensures
        a.moves_of_kind(side, kind) == b.moves_of_kind(side, kind),
        a.reach_of_kind(side, kind) == b.reach_of_kind(side, kind),
{
    let sources = crate::bits::squares_of(a.piece_set(side, kind));
    lemma_same_play_moves_of_pieces(a, b, side, kind, sources, sources.len());
}

/// Positions that the search cannot tell apart have the same value and the
/// same best move.
pub proof fn lemma_same_play_search(a: Position, b: Position, depth: nat)
    requires
        same_play(a, b),
    ensures
        search_spec(a, depth) == search_spec(b, depth),
    decreases depth, 0nat,
{
    lemma_same_play_reads(a, b, a.to_move);
    if depth > 0 {
        let moves = a.generated_moves(a.to_move);
        lemma_same_play_best_of(a, b, moves, moves.len(), (depth - 1) as nat);
    }
}

proof fn lemma_same_play_best_of(a: Position, b: Position, moves: Seq<u32>, n: nat, child_depth: nat)
    requires
        a.same_board(b),
    ensures
        best_of(a, moves, n, child_depth) == best_of(b, moves, n, child_depth),
    decreases child_depth, n + 1,
{
    if n > 0 {
        reveal(keeps_king_safe);
        lemma_same_play_best_of(a, b, moves, (n - 1) as nat, child_depth);
        let m = moves[n - 1];
        lemma_same_play_reads(a.make_spec(m), b.make_spec(m), a.to_move);
        lemma_same_play_search(a.make_spec(m), b.make_spec(m), child_depth);
    }
}

/// The best of the first `n` moves is found exactly when one of them is
/// legal; it is then one of them, legal, and scores the negated value of
/// the position after it, and no legal move among them scores more.
#[verifier::rlimit(50)]
pub proof fn lemma_best_of_is_best(p: Position, moves: Seq<u32>, n: nat, child_depth: nat)
    requires
        n <= moves.len(),
    ensures
        best_of(p, moves, n, child_depth).found <==> exists|i: int|
            0 <= i < n && keeps_king_safe(p, #[trigger] moves[i]),
        best_of(p, moves, n, child_depth).found ==> {
            let best = best_of(p, moves, n, child_depth);
            &&& keeps_king_safe(p, best.best_move)
            &&& exists|i: int| 0 <= i < n && #[trigger] moves[i] == best.best_move
            &&& best.score == -search_spec(p.make_spec(best.best_move), child_depth).0
            &&& forall|i: int|
                0 <= i < n && keeps_king_safe(p, #[trigger] moves[i]) ==> -search_spec(
                    p.make_spec(moves[i]),
                    child_depth,
                ).0 <= best.score
        },
    decreases n,
{
    if n > 0 {
        lemma_best_of_is_best(p, moves, (n - 1) as nat, child_depth);
        let before = best_of(p, moves, (n - 1) as nat, child_depth);
        let best = best_of(p, moves, n, child_depth);
        let m = moves[n - 1];
        if keeps_king_safe(p, m) {
            assert(0 <= n - 1 < n && keeps_king_safe(p, moves[n - 1]));
        }
        if best.found {
            if best.best_move == m && keeps_king_safe(p, m) && (!before.found || -search_spec(
                p.make_spec(m),
                child_depth,
            ).0 > before.score) {
                assert(moves[n - 1] == best.best_move);
            } else {
                let j = choose|j: int| 0 <= j < n - 1 && #[trigger] moves[j] == before.best_move;
                assert(0 <= j < n && moves[j] == best.best_move);
            }
        }
    }
}

/// Negamax: at depth 1 or more, in a position with a legal move, the value
/// of the position is the negated value, at one depth less, of the
/// position after the best move; the best move is a legal generated move,
/// and no legal move does better.
pub proof fn lemma_negamax_symmetry(p: Position, depth: nat)
    requires
        depth >= 1,
        exists|i: int|
            0 <= i < p.generated_moves(p.to_move).len() && keeps_king_safe(
                p,
                #[trigger] p.generated_moves(p.to_move)[i],
            ),
    ensures
        search_spec(p, depth).0 == -search_spec(
            p.make_spec(search_spec(p, depth).1),
            (depth - 1) as nat,
        ).0,
        keeps_king_safe(p, search_spec(p, depth).1),
        p.generated_moves(p.to_move).contains(search_spec(p, depth).1),
        forall|i: int|
            0 <= i < p.generated_moves(p.to_move).len() && keeps_king_safe(
                p,
                #[trigger] p.generated_moves(p.to_move)[i],
            ) ==> -search_spec(
                p.make_spec(p.generated_moves(p.to_move)[i]),
                (depth - 1) as nat,
            ).0 <= search_spec(p, depth).0,
{
    let moves = p.generated_moves(p.to_move);
    lemma_best_of_is_best(p, moves, moves.len(), (depth - 1) as nat);
}

/// With no legal move the value is the mate score for a side in check and
/// the stalemate score otherwise, and the move is the null move.
pub proof fn lemma_no_legal_move(p: Position, depth: nat)
    requires
        depth >= 1,
        forall|i: int|
            0 <= i < p.generated_moves(p.to_move).len() ==> !keeps_king_safe(
                p,
                #[trigger] p.generated_moves(p.to_move)[i],
            ),
    ensures
        search_spec(p, depth) == if p.in_check(p.to_move) {
            (CHECKMATE as int, NULL_MOVE)
        } else {
            (STALEMATE as int, NULL_MOVE)
        },
{
    let moves = p.generated_moves(p.to_move);
    lemma_best_of_is_best(p, moves, moves.len(), (depth - 1) as nat);
}

/// Taking back the last move of two positions with the same pieces,
/// counters and stack gives two such positions.
proof fn lemma_undo_same_board(a: Position, b: Position)
    requires
        a.same_board(b),
        a.history.len() > 0,
    ensures
        a.undo_spec().same_board(b.undo_spec()),
{
}

/// What the search relies on when it tries move `i` of the side to move:
/// the board admits the move, the position after it has the invariant and
/// is one to search from as soon as the mover is not in check, and it reads
/// the same as the position that the value of the node is defined by.
#[verifier::rlimit(50)]
proof fn lemma_node_step(start: Position, before: Position, i: int)
    requires
        start.playable(),
        before.same_board(start),
        before.wf(),
        0 <= i < start.generated_moves(start.to_move).len(),
    ensures
        ({
            let m = start.generated_moves(start.to_move)[i];
            let child = before.make_spec(m);
            &&& crate::board::movable(m)
            &&& child.wf()
            &&& child.turn_ok()
            &&& child.to_move == start.to_move.other()
            &&& child.en_passant & child.side_set(child.to_move) == 0
            &&& child.history.len() > 0
            &&& child.fullmove <= start.fullmove + 1
            &&& same_play(child, start.make_spec(m))
            &&& child.undo_spec().same_board(start)
        }),
{
    let mover = start.to_move;
    let m = start.generated_moves(mover)[i];
    assert(start.coherent() && before.coherent() && before.counters_ok()) by {
        reveal(Position::wf);
    }
    lemma_generated_member(start, mover, i);
    let (kind, from, to) = choose|kind: Piece, from: int, to: int| #[trigger]
        start.generates(mover, kind, from, to) && start.generated_moves(mover)[i] == start.move_to(
            mover,
            kind,
            from,
            to,
        );
    lemma_generated_fields(start, mover, kind, from, to);
    lemma_generated_fits(start, mover, kind, from, to);
    lemma_generated_spares_king(start, mover, kind, from, to);
    lemma_en_passant_free_after(start, mover, kind, from, to);
    assert(start.admits(m));
    assert(before.admits(m));
    lemma_make_keeps_wf(before, m);
    lemma_make_undo_board(before, m);
    let child = before.make_spec(m);
    let away = start.make_spec(m);
    assert(child.coherent()) by {
        reveal(Position::wf);
    }
    assert(same_play(child, away));
    assert(away.en_passant & away.occupied == 0);
    lemma_en_passant_off_side(child.en_passant, child.by_side[0], child.by_side[1]);
}

/// Makes one generated move, values the position after it unless the move
/// leaves the king of the mover attacked, and takes the move back.
fn try_move(
    board: &mut BoardState,
    tables: &AttackTables,
    piece_move: EncodedMove,
    child_depth: u8,
    Ghost(start): Ghost<Position>,
    Ghost(i): Ghost<int>,
) -> (r: Option<i32>)
    requires
        tables.wf(),
        start.playable(),
        old(board)@.same_board(start),
        old(board)@.wf(),
        0 <= i < start.generated_moves(start.to_move).len(),
        piece_move == start.generated_moves(start.to_move)[i],
        start.fullmove + child_depth + 1 <= u32::MAX,
    ensures
        final(board)@.same_board(start),
        final(board)@.wf(),
        final(board)@ == if old(board)@.make_spec(piece_move).in_check(start.to_move) {
            old(board)@.make_spec(piece_move).undo_spec()
        } else {
            after_search(old(board)@.make_spec(piece_move), child_depth as nat).undo_spec()
        },
        r.is_some() == keeps_king_safe(start, piece_move),
        r matches Some(v) ==> v == -search_spec(start.make_spec(piece_move), child_depth as nat).0
            && -8_000_000 <= v <= 8_000_000,
    decreases child_depth, 1nat,
{
    let mover = board.to_move;
    proof {
        reveal(keeps_king_safe);
        lemma_node_step(start, board@, i);
        lemma_same_play_reads(board@.make_spec(piece_move), start.make_spec(piece_move), mover);
        lemma_same_play_search(
            board@.make_spec(piece_move),
            start.make_spec(piece_move),
            child_depth as nat,
        );
    }
    let made = board.make_move(piece_move);
    let ghost child = board@;
    let mut outcome: Option<i32> = None;
    if !board.is_in_check(tables, &mover) {
        let (score, _) = negamax(board, tables, child_depth);
        outcome = Some(-score);
    }
    proof {
        lemma_undo_keeps_wf(board@);
        lemma_undo_same_board(board@, child);
    }
    let undone = board.undo_move();
    outcome
}

/// Searches `depth` plies deep and answers the negamax value of the
/// position with a move that attains it.
///
/// The moves tried are made on `board` and taken back; afterwards the
/// pieces, the counters and the stack are as before, while the en-passant
/// square and the castling rights are what the taking back left, as
/// [`after_search`] says.
pub fn negamax(board: &mut BoardState, tables: &AttackTables, depth: u8) -> (r: (i32, EncodedMove))
    requires
        tables.wf(),
        old(board)@.playable(),
        old(board).fullmove + depth <= u32::MAX,
    ensures
        r.0 == search_spec(old(board)@, depth as nat).0,
        r.1 == search_spec(old(board)@, depth as nat).1,
        -8_000_000 <= r.0 <= 8_000_000,
        final(board)@ == after_search(old(board)@, depth as nat),
        final(board)@.same_board(old(board)@),
        final(board)@.wf(),
    decreases depth, 0nat,
{
    if depth == 0 {
        return (evaluate(board, tables), NULL_MOVE);
    }
    let ghost start = board@;
    let mover = board.to_move;
    let checked = board.is_in_check(tables, &mover);
    let moves = board.generate_moves_by_color(tables, &mover);
    let mut found = false;
    let mut max: i32 = 0;
    let mut best: EncodedMove = NULL_MOVE;
    let mut index: usize = 0;
    while index < moves.len()
        invariant
            tables.wf(),
            depth >= 1,
            start.playable(),
            start.fullmove + depth <= u32::MAX,
            moves@ == start.generated_moves(start.to_move),
            index <= moves.len(),
            board@.same_board(start),
            board@.wf(),
            board@ == after_tries(start, moves@, index as nat, (depth - 1) as nat),
            (Best { found, score: max as int, best_move: best }) == best_of(
                start,
                moves@,
                index as nat,
                (depth - 1) as nat,
            ),
            -8_000_000 <= max <= 8_000_000,
        decreases moves.len() - index,
    {
        let piece_move = moves[index];
        match try_move(board, tables, piece_move, depth - 1, Ghost(start), Ghost(index as int)) {
            Some(value) => {
                if !found || value > max {
                    found = true;
                    max = value;
                    best = piece_move;
                }
            },
            None => {},
        }
        index += 1;
    }
    if found {
        (max, best)
    } else if checked {
        (CHECKMATE, NULL_MOVE)
    } else {
        (STALEMATE, NULL_MOVE)
    }
}

/// A set that meets neither side meets no part of the board.
proof fn lemma_en_passant_off_side(en_passant: u64, white: u64, black: u64)
    by (bit_vector)
    requires
        en_passant & (white | black) == 0,
    ensures
        en_passant & white == 0,
        en_passant & black == 0,
{
}

} // verus!

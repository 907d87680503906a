//! Coordinate checks and the two move-generation primitives that the pieces
//! share: walking along rays, and stepping by fixed offsets.
use crate::board::Board;
use crate::piece::{Color, Position, Squares};
use vstd::prelude::*;

verus! {

/// The 64 squares in row-major order.
pub open spec fn board_squares() -> Seq<Position> {
    Seq::new(64, |i: int| Position { row: (i / 8) as usize, col: (i % 8) as usize })
}

/// Whether a piece of `color` may land on `to`: the square is empty or holds an enemy.
pub open spec fn open_to(sq: Squares, to: Position, color: Color) -> bool {
    !sq.contains_key(to) || sq[to].color != color
}

/// The squares reached from `from` by the offsets `deltas`, in their order:
/// each offset that stays on the board and lands on an empty or enemy square.
pub open spec fn step_targets(
    sq: Squares,
    from: Position,
    deltas: Seq<(i8, i8)>,
    color: Color,
) -> Seq<Position>
    decreases deltas.len(),
{
    if deltas.len() == 0 {
        Seq::empty()
    } else {
        let before = step_targets(sq, from, deltas.drop_last(), color);
        match from.shift(deltas.last().0 as int, deltas.last().1 as int) {
            Some(to) => if open_to(sq, to, color) {
                before.push(to)
            } else {
                before
            },
            None => before,
        }
    }
}

/// How many more steps in direction (`dx`, `dy`) the board has room for, at most.
pub open spec fn ray_room(from: Position, dx: int, dy: int) -> int {
    if dx > 0 {
        8 - from.col
    } else if dx < 0 {
        from.col + 1
    } else if dy > 0 {
        8 - from.row
    } else if dy < 0 {
        from.row + 1
    } else {
        0
    }
}

/// The squares visited when walking from `from` in direction (`dx`, `dy`):
/// every empty square up to the first occupied one or the edge. The occupied
/// square ends the walk; it is visited too if it holds an enemy of `color`,
/// or whatever it holds when no colour is given.
pub open spec fn ray(sq: Squares, from: Position, dx: int, dy: int, color: Option<Color>) -> Seq<
    Position,
>
    decreases ray_room(from, dx, dy),
{
    if dx == 0 && dy == 0 {
        Seq::empty()
    } else {
        match from.shift(dx, dy) {
            None => Seq::empty(),
            Some(next) => if !sq.contains_key(next) {
                seq![next] + ray(sq, next, dx, dy, color)
            } else if color is None || sq[next].color != color->0 {
                seq![next]
            } else {
                Seq::empty()
            },
        }
    }
}

/// The rays from `from` along each of `dirs`, one after the other.
pub open spec fn sliding_targets(
    sq: Squares,
    from: Position,
    dirs: Seq<(i8, i8)>,
    color: Option<Color>,
) -> Seq<Position>
    decreases dirs.len(),
{
    if dirs.len() == 0 {
        Seq::empty()
    } else {
        sliding_targets(sq, from, dirs.drop_last(), color) + ray(
            sq,
            from,
            dirs.last().0 as int,
            dirs.last().1 as int,
            color,
        )
    }
}

/// Whether (`row`, `col`) is a square of the board.
pub fn validate_pos(row: i8, col: i8) -> (r: bool)
    ensures
        r == (0 <= row < 8 && 0 <= col < 8),
{
    0 <= row && row < 8 && 0 <= col && col < 8
}

/// The 64 squares of the board, row by row.
pub fn all_positions() -> (r: Vec<Position>)
    ensures
        r@ == board_squares(),
{
    let mut squares: Vec<Position> = Vec::new();
    let mut row: usize = 0;
    while row < 8
        invariant
            row <= 8,
            squares@ == board_squares().take(8 * row as int),
        decreases 8 - row,
    {
        let mut col: usize = 0;
        while col < 8
            invariant
                row < 8,
                col <= 8,
                squares@ == board_squares().take(8 * row + col),
            decreases 8 - col,
        {
            squares.push(Position { row, col });
            assert(squares@ == board_squares().take(8 * row + col + 1));
            col += 1;
        }
        row += 1;
    }
    assert(board_squares().take(64) == board_squares());
    squares
}

/// The pseudo-legal destinations of a piece that moves along rays: from `from`
/// along each of `dirs` in turn, over empty squares, up to and including the
/// first enemy of `color`. Without a colour, the first occupied square of each
/// ray is included whatever stands on it. A direction of (0, 0) leads nowhere.
pub fn sliding_moves(board: &Board, from: Position, dirs: &[(i8, i8)], color: Option<Color>) -> (moves:
    Vec<Position>)
    ensures
        moves@ == sliding_targets(board@, from, dirs@, color),
        forall|k: int| 0 <= k < moves@.len() ==> moves@[k].on_board(),
{
    let mut moves: Vec<Position> = Vec::new();
    let mut i: usize = 0;
    while i < dirs.len()
        invariant
            i <= dirs.len(),
            moves@ == sliding_targets(board@, from, dirs@.take(i as int), color),
            forall|k: int| 0 <= k < moves@.len() ==> moves@[k].on_board(),
        decreases dirs.len() - i,
    {
        let (dx, dy) = dirs[i];
        let ghost walked = moves@;
        let mut current = from;
        while dx != 0 || dy != 0
            invariant_except_break
                walked + ray(board@, from, dx as int, dy as int, color) == moves@ + ray(
                    board@,
                    current,
                    dx as int,
                    dy as int,
                    color,
                ),
            invariant
                forall|k: int| 0 <= k < moves@.len() ==> moves@[k].on_board(),
            ensures
                moves@ == walked + ray(board@, from, dx as int, dy as int, color),
            decreases ray_room(current, dx as int, dy as int),
        {
            if let Some(next_pos) = current.shifted(dx, dy) {
                if board.is_empty_cell(next_pos) {
                    proof {
                        assert(moves@.push(next_pos) + ray(board@, next_pos, dx as int, dy as int, color)
                            == moves@ + ray(board@, current, dx as int, dy as int, color));
                    }
                    moves.push(next_pos);
                    current = next_pos;
                    continue ;
                }
                if let Some(p_color) = color {
                    if board.is_enemy_cell(next_pos, p_color) {
                        moves.push(next_pos);
                    }
                } else {
                    if board.piece_at(next_pos).is_some() {
                        moves.push(next_pos);
                    }
                }
                break ;
            } else {
                break ;
            }
        }
        proof {
            assert(dirs@.take(i + 1).drop_last() == dirs@.take(i as int));
        }
        i += 1;
    }
    proof {
        assert(dirs@.take(dirs.len() as int) == dirs@);
    }
    moves
}

/// The pseudo-legal destinations of a piece that moves by fixed offsets: each
/// of `deltas`, in turn, that stays on the board and lands on an empty square
/// or on an enemy of `color`.
pub fn step_moves(board: &Board, from: Position, deltas: &[(i8, i8)], color: Color) -> (moves: Vec<
    Position,
>)
    ensures
        moves@ == step_targets(board@, from, deltas@, color),
        forall|k: int| 0 <= k < moves@.len() ==> moves@[k].on_board(),
{
    let mut moves: Vec<Position> = Vec::new();
    let mut i: usize = 0;
    while i < deltas.len()
        invariant
            i <= deltas.len(),
            moves@ == step_targets(board@, from, deltas@.take(i as int), color),
            forall|k: int| 0 <= k < moves@.len() ==> moves@[k].on_board(),
        decreases deltas.len() - i,
    {
        let (dx, dy) = deltas[i];
        if let Some(to) = from.shifted(dx, dy) {
            if board.is_empty_cell(to) || board.is_enemy_cell(to, color) {
                moves.push(to);
            }
        }
        proof {
            assert(deltas@.take(i + 1).drop_last() == deltas@.take(i as int));
        }
        i += 1;
    }
    proof {
        assert(deltas@.take(deltas.len() as int) == deltas@);
    }
    moves
}

/// Whether `target` is among `moves`.
pub fn contains(moves: &Vec<Position>, target: Position) -> (r: bool)
    ensures
        r == moves@.contains(target),
{
    let mut i: usize = 0;
    while i < moves.len()
        invariant
            i <= moves.len(),
            forall|k: int| 0 <= k < i ==> moves@[k] != target,
        decreases moves.len() - i,
    {
        if moves[i] == target {
            return true;
        }
        i += 1;
    }
    false
}

/// Every square of the board has its place in the row-major order.
pub proof fn lemma_board_squares_cover(p: Position)
    requires
        p.on_board(),
    ensures
        0 <= p.row * 8 + p.col < 64,
        board_squares()[p.row * 8 + p.col] == p,
{
}

/// Stepping lands on squares of the board that are empty or hold an enemy.
pub proof fn lemma_step_targets_open(sq: Squares, from: Position, deltas: Seq<(i8, i8)>, color: Color)
    ensures
        forall|k: int|
            0 <= k < step_targets(sq, from, deltas, color).len() ==> (#[trigger] step_targets(
                sq,
                from,
                deltas,
                color,
            )[k]).on_board() && open_to(sq, step_targets(sq, from, deltas, color)[k], color),
    decreases deltas.len(),
{
    if deltas.len() > 0 {
        lemma_step_targets_open(sq, from, deltas.drop_last(), color);
        let targets = step_targets(sq, from, deltas, color);
        let earlier = step_targets(sq, from, deltas.drop_last(), color);
        assert forall|k: int| 0 <= k < targets.len() implies (#[trigger] targets[k]).on_board() && open_to(
            sq,
            targets[k],
            color,
        ) by {
            if k < earlier.len() {
                assert(targets[k] == earlier[k]);
            }
        }
    }
}

/// A square is stepped onto exactly when one of the offsets leads to it and it
/// is empty or holds an enemy.
pub proof fn lemma_step_targets_contain(
    sq: Squares,
    from: Position,
    deltas: Seq<(i8, i8)>,
    color: Color,
    to: Position,
)
    ensures
        step_targets(sq, from, deltas, color).contains(to) <==> open_to(sq, to, color) && exists|i: int|
            0 <= i < deltas.len() && from.shift(
                (#[trigger] deltas[i]).0 as int,
                deltas[i].1 as int,
            ) == Some(to),
    decreases deltas.len(),
{
    if deltas.len() > 0 {
        let before = deltas.drop_last();
        lemma_step_targets_contain(sq, from, before, color, to);
        let i = deltas.len() - 1;
        let targets = step_targets(sq, from, deltas, color);
        let earlier = step_targets(sq, from, before, color);
        if targets.contains(to) {
            if earlier.contains(to) {
                let j = choose|j: int|
                    0 <= j < before.len() && from.shift((#[trigger] before[j]).0 as int, before[j].1 as int)
                        == Some(to);
                assert(deltas[j] == before[j]);
            } else {
                assert(targets == earlier.push(to));
                assert(from.shift(deltas[i].0 as int, deltas[i].1 as int) == Some(to));
            }
        }
        if open_to(sq, to, color) && exists|i: int|
            0 <= i < deltas.len() && from.shift((#[trigger] deltas[i]).0 as int, deltas[i].1 as int)
                == Some(to) {
            let j = choose|j: int|
                0 <= j < deltas.len() && from.shift((#[trigger] deltas[j]).0 as int, deltas[j].1 as int)
                    == Some(to);
            if j < i {
                assert(before[j] == deltas[j]);
                assert(earlier.contains(to));
                let at = choose|at: int| 0 <= at < earlier.len() && earlier[at] == to;
                assert(targets[at] == to);
            } else {
                assert(targets == earlier.push(to));
                assert(targets[earlier.len() as int] == to);
            }
        }
    }
}

/// A ray stays on the board, passes over empty squares only, and can end on
/// an occupied square: one that holds an enemy when the walk has a colour.
pub proof fn lemma_ray_open(sq: Squares, from: Position, dx: int, dy: int, color: Option<Color>)
    ensures
        forall|k: int|
            0 <= k < ray(sq, from, dx, dy, color).len() ==> {
                &&& (#[trigger] ray(sq, from, dx, dy, color)[k]).on_board()
                &&& k < ray(sq, from, dx, dy, color).len() - 1 ==> !sq.contains_key(
                    ray(sq, from, dx, dy, color)[k],
                )
                &&& color matches Some(c) ==> open_to(sq, ray(sq, from, dx, dy, color)[k], c)
            },
    decreases ray_room(from, dx, dy),
{
    if dx != 0 || dy != 0 {
        match from.shift(dx, dy) {
            Some(next) => {
                if !sq.contains_key(next) {
                    lemma_ray_open(sq, next, dx, dy, color);
                    let rest = ray(sq, next, dx, dy, color);
                    let whole = ray(sq, from, dx, dy, color);
                    assert forall|k: int| 0 <= k < whole.len() implies {
                        &&& (#[trigger] whole[k]).on_board()
                        &&& k < whole.len() - 1 ==> !sq.contains_key(whole[k])
                        &&& color matches Some(c) ==> open_to(sq, whole[k], c)
                    } by {
                        if k > 0 {
                            assert(whole[k] == rest[k - 1]);
                        }
                    }
                }
            },
            None => {},
        }
    }
}

/// A ray depends only on what lies ahead in its direction: two boards that
/// agree there have the same ray.
pub proof fn lemma_ray_looks_ahead(
    a: Squares,
    b: Squares,
    from: Position,
    dx: int,
    dy: int,
    color: Option<Color>,
)
    requires
        forall|p: Position|
            #![trigger ray_room(p, dx, dy)]
            ray_room(p, dx, dy) < ray_room(from, dx, dy) ==> a.contains_key(p) == b.contains_key(p) && (
            a.contains_key(p) ==> a[p] == b[p]),
    ensures
        ray(a, from, dx, dy, color) == ray(b, from, dx, dy, color),
    decreases ray_room(from, dx, dy),
{
    if dx != 0 || dy != 0 {
        if let Some(next) = from.shift(dx, dy) {
            assert(ray_room(next, dx, dy) < ray_room(from, dx, dy));
            if !a.contains_key(next) {
                lemma_ray_looks_ahead(a, b, next, dx, dy, color);
            }
        }
    }
}

/// Sliding lands on squares of the board that are empty or hold an enemy.
pub proof fn lemma_sliding_targets_open(sq: Squares, from: Position, dirs: Seq<(i8, i8)>, color: Color)
    ensures
        forall|k: int|
            0 <= k < sliding_targets(sq, from, dirs, Some(color)).len() ==> (#[trigger] sliding_targets(
                sq,
                from,
                dirs,
                Some(color),
            )[k]).on_board() && open_to(sq, sliding_targets(sq, from, dirs, Some(color))[k], color),
    decreases dirs.len(),
{
    if dirs.len() > 0 {
        lemma_sliding_targets_open(sq, from, dirs.drop_last(), color);
        lemma_ray_open(sq, from, dirs.last().0 as int, dirs.last().1 as int, Some(color));
        let targets = sliding_targets(sq, from, dirs, Some(color));
        let earlier = sliding_targets(sq, from, dirs.drop_last(), Some(color));
        let last = ray(sq, from, dirs.last().0 as int, dirs.last().1 as int, Some(color));
        assert forall|k: int| 0 <= k < targets.len() implies (#[trigger] targets[k]).on_board() && open_to(
            sq,
            targets[k],
            color,
        ) by {
            if k < earlier.len() {
                assert(targets[k] == earlier[k]);
            } else {
                assert(targets[k] == last[k - earlier.len()]);
            }
        }
    }
}

/// What a ray reaches, sliding along a set of directions that holds the ray's
/// direction reaches too.
pub proof fn lemma_sliding_targets_hold_ray(
    sq: Squares,
    from: Position,
    dirs: Seq<(i8, i8)>,
    color: Option<Color>,
    i: int,
    to: Position,
)
    requires
        0 <= i < dirs.len(),
        ray(sq, from, dirs[i].0 as int, dirs[i].1 as int, color).contains(to),
    ensures
        sliding_targets(sq, from, dirs, color).contains(to),
    decreases dirs.len(),
{
    let before = sliding_targets(sq, from, dirs.drop_last(), color);
    let last = ray(sq, from, dirs.last().0 as int, dirs.last().1 as int, color);
    if i < dirs.len() - 1 {
        lemma_sliding_targets_hold_ray(sq, from, dirs.drop_last(), color, i, to);
        let at = choose|at: int| 0 <= at < before.len() && before[at] == to;
        assert((before + last)[at] == to);
    } else {
        let at = choose|at: int| 0 <= at < last.len() && last[at] == to;
        assert((before + last)[before.len() + at] == to);
    }
}

} // verus!

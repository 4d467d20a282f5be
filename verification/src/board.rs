//! The 8x8 board and the geometric rules of Reversi: direction vectors,
//! flip-run detection, legal-move computation and move application.
//!
//! The board is modelled as a flat sequence of 64 cells; the cell at
//! coordinates `(x, y)` (both in `[0, 8)`) sits at index `y * 8 + x`.
use vstd::prelude::*;

use crate::stone::{opposite, Stone};

verus! {

/// The mathematical model of a board: 64 cells, row by row.
pub type Grid = Seq<Option<Stone>>;

/// A coordinate pair on the board. `x` is the column, `y` the row.
#[derive(Clone, Copy, Debug, PartialEq, Eq, Structural)]
pub struct Point {
    pub x: usize,
    pub y: usize,
}

impl Point {
    /// Builds the point `(x, y)`.
    pub fn new(x: usize, y: usize) -> (r: Point)
        ensures
            r.x == x,
            r.y == y,
    {
        Point { x, y }
    }
}

/// One coordinate lies on the board.
pub open spec fn in_range(v: int) -> bool {
    0 <= v < 8
}

/// Both coordinates lie on the board.
pub open spec fn in_bounds(x: int, y: int) -> bool {
    in_range(x) && in_range(y)
}

/// A grid holds exactly the 64 cells of an 8x8 board.
pub open spec fn grid_wf(g: Grid) -> bool {
    g.len() == 64
}

/// The cell of `g` at coordinates `(x, y)`.
pub open spec fn cell(g: Grid, x: int, y: int) -> Option<Stone>
    recommends
        grid_wf(g),
        in_bounds(x, y),
{
    g[y * 8 + x]
}

/// Distinct coordinate pairs map to distinct flat indices.
pub proof fn lemma_idx_inj(x1: int, y1: int, x2: int, y2: int)
    requires
        in_bounds(x1, y1),
        in_bounds(x2, y2),
        y1 * 8 + x1 == y2 * 8 + x2,
    ensures
        x1 == x2,
        y1 == y2,
{
}

/// The column step of direction `d`; the 8 directions are numbered 0..8.
pub open spec fn dir_dx(d: int) -> int {
    if d == 0 || d == 3 || d == 5 {
        -1
    } else if d == 1 || d == 6 {
        0
    } else {
        1
    }
}

/// The row step of direction `d`.
pub open spec fn dir_dy(d: int) -> int {
    if d == 0 || d == 1 || d == 2 {
        -1
    } else if d == 3 || d == 4 {
        0
    } else {
        1
    }
}

/// The column of the `i`-th cell on the ray that starts at `x` and walks
/// in direction `d` (the ray's cell 0 is the origin itself).
pub open spec fn ray_x(x: int, d: int, i: int) -> int {
    x + i * dir_dx(d)
}

/// The row of the `i`-th cell on the ray that starts at `y`.
pub open spec fn ray_y(y: int, d: int, i: int) -> int {
    y + i * dir_dy(d)
}

/// Walking one more step along a ray adds the direction vector once.
pub proof fn lemma_ray_step(x: int, y: int, d: int, i: int)
    ensures
        ray_x(x, d, i + 1) == ray_x(x, d, i) + dir_dx(d),
        ray_y(y, d, i + 1) == ray_y(y, d, i) + dir_dy(d),
{
    assert((i + 1) * dir_dx(d) == i * dir_dx(d) + dir_dx(d)) by (nonlinear_arith);
    assert((i + 1) * dir_dy(d) == i * dir_dy(d) + dir_dy(d)) by (nonlinear_arith);
}

/// Cells 1 through `n` of the ray from `(x, y)` in direction `d` all lie on
/// the board and hold the opponent of `c`.
pub open spec fn opp_prefix(g: Grid, c: Stone, x: int, y: int, d: int, n: int) -> bool {
    forall|i: int|
        1 <= i <= n ==> in_bounds(#[trigger] ray_x(x, d, i), #[trigger] ray_y(y, d, i))
            && cell(g, ray_x(x, d, i), ray_y(y, d, i)) == Some(opposite(c))
}

/// Placing a stone of color `c` on `(x, y)` flips exactly the first `n`
/// cells of the ray in direction `d`: they hold a run of `n >= 1` opponent
/// stones closed off by a stone of color `c`.
pub open spec fn dir_flips_to(g: Grid, c: Stone, x: int, y: int, d: int, n: int) -> bool {
    &&& n >= 1
    &&& opp_prefix(g, c, x, y, d, n)
    &&& in_bounds(ray_x(x, d, n + 1), ray_y(y, d, n + 1))
    &&& cell(g, ray_x(x, d, n + 1), ray_y(y, d, n + 1)) == Some(c)
}

/// Direction `d` contributes at least one flip for a stone of color `c`
/// placed on `(x, y)`.
pub open spec fn dir_has_flips(g: Grid, c: Stone, x: int, y: int, d: int) -> bool {
    exists|n: int| dir_flips_to(g, c, x, y, d, n)
}

/// How many stones direction `d` flips (0 when it flips none).
pub open spec fn dir_flip_count(g: Grid, c: Stone, x: int, y: int, d: int) -> int {
    if dir_has_flips(g, c, x, y, d) {
        choose|n: int| dir_flips_to(g, c, x, y, d, n)
    } else {
        0
    }
}

/// A direction's flip run has exactly one possible length.
pub proof fn lemma_dir_flips_unique(
    g: Grid,
    c: Stone,
    x: int,
    y: int,
    d: int,
    n1: int,
    n2: int,
)
    requires
        dir_flips_to(g, c, x, y, d, n1),
        dir_flips_to(g, c, x, y, d, n2),
    ensures
        n1 == n2,
{
    crate::stone::lemma_opposite_ne(c);
    if n1 < n2 {
        assert(cell(g, ray_x(x, d, n1 + 1), ray_y(y, d, n1 + 1)) == Some(opposite(c)));
        assert(false);
    }
    if n2 < n1 {
        assert(cell(g, ray_x(x, d, n2 + 1), ray_y(y, d, n2 + 1)) == Some(opposite(c)));
        assert(false);
    }
}

/// A witnessed flip run pins down `dir_flip_count`.
pub proof fn lemma_dir_flip_count_is(g: Grid, c: Stone, x: int, y: int, d: int, n: int)
    requires
        dir_flips_to(g, c, x, y, d, n),
    ensures
        dir_has_flips(g, c, x, y, d),
        dir_flip_count(g, c, x, y, d) == n,
{
    assert(dir_has_flips(g, c, x, y, d));
    let m = choose|m: int| dir_flips_to(g, c, x, y, d, m);
    lemma_dir_flips_unique(g, c, x, y, d, m, n);
}

/// The cell `(xx, yy)` lies within the flip run of one of the directions
/// `0 .. dmax` for a stone of color `c` landing on `(x, y)`.
pub open spec fn point_flipped_upto(
    g: Grid,
    c: Stone,
    x: int,
    y: int,
    dmax: int,
    xx: int,
    yy: int,
) -> bool {
    exists|d: int, i: int|
        #![trigger ray_x(x, d, i), ray_y(y, d, i)]
        0 <= d < dmax && 1 <= i <= dir_flip_count(g, c, x, y, d) && xx == ray_x(x, d, i) && yy
            == ray_y(y, d, i)
}

/// The cell `(xx, yy)` is flipped when a stone of color `c` lands on
/// `(x, y)`: it lies within some direction's flip run.
pub open spec fn point_flipped(g: Grid, c: Stone, x: int, y: int, xx: int, yy: int) -> bool {
    point_flipped_upto(g, c, x, y, 8, xx, yy)
}

/// Placing a stone of color `c` on `(x, y)` is a legal move: the cell is
/// on the board and empty, and some direction flips at least one stone.
pub open spec fn is_legal(g: Grid, c: Stone, x: int, y: int) -> bool {
    &&& in_bounds(x, y)
    &&& cell(g, x, y) is None
    &&& exists|d: int| 0 <= d < 8 && #[trigger] dir_has_flips(g, c, x, y, d)
}

/// What the cell `(xx, yy)` holds after color `c` moves on `(x, y)`: the
/// placed cell and every flipped cell hold `c`, all others are unchanged.
pub open spec fn cell_after(g: Grid, c: Stone, x: int, y: int, xx: int, yy: int) -> Option<
    Stone,
> {
    if (xx == x && yy == y) || point_flipped(g, c, x, y, xx, yy) {
        Some(c)
    } else {
        cell(g, xx, yy)
    }
}

/// `g2` is exactly the board that results from color `c` moving on `(x, y)`
/// of `g`.
pub open spec fn is_grid_after(g: Grid, c: Stone, x: int, y: int, g2: Grid) -> bool {
    &&& grid_wf(g2)
    &&& forall|xx: int, yy: int|
        in_bounds(xx, yy) ==> #[trigger] cell(g2, xx, yy) == cell_after(g, c, x, y, xx, yy)
}

/// Color `c` has at least one legal move on `g`.
pub open spec fn has_legal_move(g: Grid, c: Stone) -> bool {
    exists|x: int, y: int| #[trigger] is_legal(g, c, x, y)
}

/// Neither color can move: the game is over.
pub open spec fn game_over(g: Grid) -> bool {
    !has_legal_move(g, Stone::Black) && !has_legal_move(g, Stone::White)
}

/// A full board is a special case of game over: every legal move needs an
/// empty cell.
pub proof fn lemma_full_board_over(g: Grid)
    requires
        grid_wf(g),
        forall|x: int, y: int| in_bounds(x, y) ==> (#[trigger] cell(g, x, y)) is Some,
    ensures
        game_over(g),
{
    if has_legal_move(g, Stone::Black) {
        let (x, y) = choose|x: int, y: int| #[trigger] is_legal(g, Stone::Black, x, y);
        assert(cell(g, x, y) is Some);
        assert(false);
    }
    if has_legal_move(g, Stone::White) {
        let (x, y) = choose|x: int, y: int| #[trigger] is_legal(g, Stone::White, x, y);
        assert(cell(g, x, y) is Some);
        assert(false);
    }
}

/// How many cells of `g` hold a stone of color `c`.
pub open spec fn count_stones(g: Grid, c: Stone) -> int
    decreases g.len(),
{
    if g.len() == 0 {
        0
    } else {
        count_stones(g.drop_last(), c) + if g.last() == Some(c) {
            1int
        } else {
            0int
        }
    }
}

/// How many cells of `g` hold a stone of either color.
pub open spec fn count_occupied(g: Grid) -> int
    decreases g.len(),
{
    if g.len() == 0 {
        0
    } else {
        count_occupied(g.drop_last()) + if g.last() is Some {
            1int
        } else {
            0int
        }
    }
}

/// Multiplying by a factor that is `-1`, `0` or `1` only negates, zeroes
/// or keeps the other factor.
pub proof fn lemma_unit_mul(i: int, s: int)
    ensures
        s == 1 ==> i * s == i,
        s == -1 ==> i * s == -i,
        s == 0 ==> i * s == 0,
{
    assert(s == 1 ==> i * s == i) by (nonlinear_arith);
    assert(s == -1 ==> i * s == -i) by (nonlinear_arith);
    assert(s == 0 ==> i * s == 0) by (nonlinear_arith);
}

/// A ray cell that is still on the board lies at most 7 steps out.
pub proof fn lemma_ray_in_bounds_limit(x: int, y: int, d: int, i: int)
    requires
        in_bounds(x, y),
        0 <= d < 8,
        i >= 0,
        in_bounds(ray_x(x, d, i), ray_y(y, d, i)),
    ensures
        i <= 7,
{
    lemma_unit_mul(i, dir_dx(d));
    lemma_unit_mul(i, dir_dy(d));
}

/// When the run of opponent stones from `(x, y)` in direction `d` stops at
/// ray cell `i` on anything other than a stone of color `c` behind at least
/// one opponent stone, the direction flips nothing.
proof fn lemma_dir_blocked(g: Grid, c: Stone, x: int, y: int, d: int, i: int)
    requires
        i >= 1,
        opp_prefix(g, c, x, y, d, i - 1),
        !(in_bounds(ray_x(x, d, i), ray_y(y, d, i)) && cell(g, ray_x(x, d, i), ray_y(y, d, i))
            == Some(opposite(c))),
        !(in_bounds(ray_x(x, d, i), ray_y(y, d, i)) && cell(g, ray_x(x, d, i), ray_y(y, d, i))
            == Some(c)) || i == 1,
    ensures
        !dir_has_flips(g, c, x, y, d),
{
    crate::stone::lemma_opposite_ne(c);
    if dir_has_flips(g, c, x, y, d) {
        let n = choose|n: int| dir_flips_to(g, c, x, y, d, n);
        if n >= i {
            assert(in_bounds(ray_x(x, d, i), ray_y(y, d, i)) && cell(
                g,
                ray_x(x, d, i),
                ray_y(y, d, i),
            ) == Some(opposite(c)));
        } else if n + 1 < i {
            assert(cell(g, ray_x(x, d, n + 1), ray_y(y, d, n + 1)) == Some(opposite(c)));
        } else {
            assert(n + 1 == i && i >= 2);
        }
        assert(false);
    }
}

/// A direction that flips nothing has flip count zero, and conversely.
pub proof fn lemma_count_zero_no_flips(g: Grid, c: Stone, x: int, y: int, d: int)
    requires
        dir_flip_count(g, c, x, y, d) == 0,
    ensures
        !dir_has_flips(g, c, x, y, d),
{
    if dir_has_flips(g, c, x, y, d) {
        let n = choose|n: int| dir_flips_to(g, c, x, y, d, n);
        lemma_dir_flip_count_is(g, c, x, y, d, n);
    }
}

/// A flipped cell lies on the board and holds an opponent stone.
pub proof fn lemma_flipped_cell(g: Grid, c: Stone, x: int, y: int, xx: int, yy: int)
    requires
        point_flipped(g, c, x, y, xx, yy),
    ensures
        in_bounds(xx, yy),
        cell(g, xx, yy) == Some(opposite(c)),
{
    let (d, i) = choose|d: int, i: int|
        #![trigger ray_x(x, d, i), ray_y(y, d, i)]
        0 <= d < 8 && 1 <= i <= dir_flip_count(g, c, x, y, d) && xx == ray_x(x, d, i) && yy
            == ray_y(y, d, i);
    if !dir_has_flips(g, c, x, y, d) {
        assert(dir_flip_count(g, c, x, y, d) == 0);
        assert(false);
    }
    let n = choose|n: int| dir_flips_to(g, c, x, y, d, n);
    lemma_dir_flip_count_is(g, c, x, y, d, n);
    assert(dir_flips_to(g, c, x, y, d, n));
    assert(1 <= i <= n);
}

/// The flips of directions `0 .. d` added up.
pub open spec fn flip_count_upto(g: Grid, c: Stone, x: int, y: int, d: int) -> int
    decreases d,
{
    if d <= 0 {
        0
    } else {
        flip_count_upto(g, c, x, y, d - 1) + dir_flip_count(g, c, x, y, d - 1)
    }
}

/// How many stones a stone of color `c` placed on `(x, y)` would flip.
pub open spec fn flip_count(g: Grid, c: Stone, x: int, y: int) -> int {
    flip_count_upto(g, c, x, y, 8)
}

/// Every direction flips a non-negative number of stones.
pub proof fn lemma_dir_count_nonneg(g: Grid, c: Stone, x: int, y: int, d: int)
    ensures
        dir_flip_count(g, c, x, y, d) >= 0,
{
    if dir_has_flips(g, c, x, y, d) {
        let n = choose|n: int| dir_flips_to(g, c, x, y, d, n);
        lemma_dir_flip_count_is(g, c, x, y, d, n);
    }
}

/// Partial flip sums are non-negative.
pub proof fn lemma_flip_count_upto_nonneg(g: Grid, c: Stone, x: int, y: int, d: int)
    ensures
        flip_count_upto(g, c, x, y, d) >= 0,
    decreases d,
{
    if d > 0 {
        lemma_flip_count_upto_nonneg(g, c, x, y, d - 1);
        lemma_dir_count_nonneg(g, c, x, y, d - 1);
    }
}

/// Summed flips dominate each single direction's flips.
pub proof fn lemma_flip_count_at_least_dir(g: Grid, c: Stone, x: int, y: int, d: int, dd: int)
    requires
        0 <= dd < d <= 8,
    ensures
        flip_count_upto(g, c, x, y, d) >= dir_flip_count(g, c, x, y, dd),
    decreases d,
{
    lemma_dir_count_nonneg(g, c, x, y, d - 1);
    if dd == d - 1 {
        lemma_flip_count_upto_nonneg(g, c, x, y, d - 1);
    } else {
        lemma_flip_count_at_least_dir(g, c, x, y, d - 1, dd);
    }
}

/// When no direction flips anything the total flip count is zero.
pub proof fn lemma_no_flips_sum_zero(g: Grid, c: Stone, x: int, y: int, d: int)
    requires
        0 <= d <= 8,
        forall|dd: int| 0 <= dd < d ==> !(#[trigger] dir_has_flips(g, c, x, y, dd)),
    ensures
        flip_count_upto(g, c, x, y, d) == 0,
    decreases d,
{
    if d > 0 {
        lemma_no_flips_sum_zero(g, c, x, y, d - 1);
    }
}

/// A placement is legal exactly when its cell is on the board and free
/// and the dry-run scan predicts at least one flip; `apply_move` then
/// flips exactly that predicted set, so the legality check and the
/// mutation can never disagree.
pub proof fn lemma_legal_iff_flips(g: Grid, c: Stone, x: int, y: int)
    requires
        grid_wf(g),
    ensures
        is_legal(g, c, x, y) <==> (in_bounds(x, y) && cell(g, x, y) is None && flip_count(
            g,
            c,
            x,
            y,
        ) > 0),
{
    if is_legal(g, c, x, y) {
        let d = choose|d: int| 0 <= d < 8 && #[trigger] dir_has_flips(g, c, x, y, d);
        let n = choose|n: int| dir_flips_to(g, c, x, y, d, n);
        lemma_dir_flip_count_is(g, c, x, y, d, n);
        lemma_flip_count_at_least_dir(g, c, x, y, 8, d);
    }
    if in_bounds(x, y) && cell(g, x, y) is None && flip_count(g, c, x, y) > 0 {
        if forall|dd: int| 0 <= dd < 8 ==> !(#[trigger] dir_has_flips(g, c, x, y, dd)) {
            lemma_no_flips_sum_zero(g, c, x, y, 8);
            assert(false);
        }
    }
}

/// The successful outcome of a move of color `c` on `(x, y)` over the
/// grid `g`: `flips` lists exactly the flipped cells and `g2` is the board
/// afterwards.
pub open spec fn move_ok(g: Grid, c: Stone, x: int, y: int, flips: Seq<Point>, g2: Grid) -> bool {
    &&& flips.len() == flip_count(g, c, x, y)
    &&& forall|j: int|
        0 <= j < flips.len() ==> point_flipped(
            g,
            c,
            x,
            y,
            (#[trigger] flips[j]).x as int,
            flips[j].y as int,
        )
    &&& forall|xx: int, yy: int|
        #[trigger] point_flipped(g, c, x, y, xx, yy) ==> exists|j: int|
            0 <= j < flips.len() && (#[trigger] flips[j]).x as int == xx && flips[j].y as int == yy
    &&& is_grid_after(g, c, x, y, g2)
}

/// Replacing exactly one empty cell by a stone, while every other cell
/// keeps its occupancy, raises the occupied count of any prefix holding
/// that cell by one.
proof fn lemma_count_occupied_update(g: Grid, g2: Grid, k: int, upto: int)
    requires
        g.len() == g2.len(),
        0 <= k < g.len(),
        g[k] is None,
        g2[k] is Some,
        forall|i: int|
            0 <= i < g.len() && i != k ==> ((g[i] is Some) <==> (#[trigger] g2[i]) is Some),
        0 <= upto <= g.len(),
    ensures
        count_occupied(g2.take(upto)) == count_occupied(g.take(upto)) + if k < upto {
            1int
        } else {
            0int
        },
    decreases upto,
{
    if upto > 0 {
        lemma_count_occupied_update(g, g2, k, upto - 1);
        let t = g.take(upto);
        let t2 = g2.take(upto);
        assert(t.drop_last() =~= g.take(upto - 1));
        assert(t2.drop_last() =~= g2.take(upto - 1));
        assert(t.last() == g[upto - 1]);
        assert(t2.last() == g2[upto - 1]);
    }
}

/// Every flat index below 64 is the index of a board coordinate pair.
proof fn lemma_flat_decomp(i: int)
    requires
        0 <= i < 64,
    ensures
        in_bounds(i % 8, i / 8),
        (i / 8) * 8 + (i % 8) == i,
{
    assert(0 <= i % 8 < 8 && 0 <= i / 8 < 8 && (i / 8) * 8 + (i % 8) == i) by (nonlinear_arith)
        requires
            0 <= i < 64,
    ;
}

/// A successful move never removes a stone: it turns exactly one empty
/// cell into a stone and only recolors others, so the number of occupied
/// cells grows by exactly one.
pub proof fn lemma_move_adds_one_stone(g: Grid, c: Stone, x: int, y: int, g2: Grid)
    requires
        grid_wf(g),
        is_legal(g, c, x, y),
        is_grid_after(g, c, x, y, g2),
    ensures
        count_occupied(g2) == count_occupied(g) + 1,
{
    let k = y * 8 + x;
    assert(g[k] is None);
    assert(cell(g2, x, y) == cell_after(g, c, x, y, x, y));
    assert(g2[k] is Some);
    assert forall|i: int| 0 <= i < g.len() && i != k implies ((g[i] is Some) <==> (
    #[trigger] g2[i]) is Some) by {
        lemma_flat_decomp(i);
        let xx = i % 8;
        let yy = i / 8;
        assert(cell(g2, xx, yy) == cell_after(g, c, x, y, xx, yy));
        if xx == x && yy == y {
            assert(false);
        }
        if point_flipped(g, c, x, y, xx, yy) {
            lemma_flipped_cell(g, c, x, y, xx, yy);
        }
    }
    lemma_count_occupied_update(g, g2, k, 64);
    assert(g.take(64) =~= g);
    assert(g2.take(64) =~= g2);
}

/// Two well-formed grids that agree on every coordinate are the same
/// grid, and so share legal moves, flip runs and counts.
pub proof fn lemma_pointwise_equal_grids(g1: Grid, g2: Grid)
    requires
        grid_wf(g1),
        grid_wf(g2),
        forall|x: int, y: int| in_bounds(x, y) ==> #[trigger] cell(g1, x, y) == cell(g2, x, y),
    ensures
        g1 == g2,
{
    assert forall|i: int| 0 <= i < 64 implies g1[i] == g2[i] by {
        lemma_flat_decomp(i);
        let xx = i % 8;
        let yy = i / 8;
        assert(cell(g1, xx, yy) == cell(g2, xx, yy));
    }
    assert(g1 =~= g2);
}

/// A single direction flips at most 6 stones.
pub proof fn lemma_dir_count_le(g: Grid, c: Stone, x: int, y: int, d: int)
    requires
        in_bounds(x, y),
        0 <= d < 8,
    ensures
        dir_flip_count(g, c, x, y, d) <= 6,
{
    if dir_has_flips(g, c, x, y, d) {
        let n = choose|n: int| dir_flips_to(g, c, x, y, d, n);
        lemma_dir_flip_count_is(g, c, x, y, d, n);
        lemma_ray_in_bounds_limit(x, y, d, n + 1);
    }
}

/// A move flips at most 48 stones in total.
pub proof fn lemma_flip_count_le(g: Grid, c: Stone, x: int, y: int, d: int)
    requires
        in_bounds(x, y),
        0 <= d <= 8,
    ensures
        flip_count_upto(g, c, x, y, d) <= 6 * d,
    decreases d,
{
    if d > 0 {
        lemma_flip_count_le(g, c, x, y, d - 1);
        lemma_dir_count_le(g, c, x, y, d - 1);
    }
}

/// Row-major order on coordinates: `(ax, ay)` comes strictly before
/// `(bx, by)`.
pub open spec fn lex_lt(ax: int, ay: int, bx: int, by: int) -> bool {
    ax < bx || (ax == bx && ay < by)
}

/// The 8x8 Reversi board.
pub struct Board {
    cells: Vec<Option<Stone>>,
}

impl View for Board {
    type V = Grid;

    closed spec fn view(&self) -> Grid {
        self.cells@
    }
}

impl Board {
    /// The board's internal invariant: exactly 64 cells.
    pub open spec fn wf(&self) -> bool {
        grid_wf(self@)
    }

    /// Builds the opening position: the four center cells occupied, white
    /// on the main diagonal, black on the other, everything else empty.
    pub fn new() -> (r: Board)
        ensures
            r.wf(),
            cell(r@, 3, 3) == Some(Stone::White),
            cell(r@, 4, 4) == Some(Stone::White),
            cell(r@, 3, 4) == Some(Stone::Black),
            cell(r@, 4, 3) == Some(Stone::Black),
            forall|x: int, y: int|
                in_bounds(x, y) && !((x == 3 || x == 4) && (y == 3 || y == 4))
                    ==> #[trigger] cell(r@, x, y) is None,
    {
        let mut cells: Vec<Option<Stone>> = Vec::new();
        let mut i: usize = 0;
        while i < 64
            invariant
                i <= 64,
                cells@.len() == i,
                forall|j: int| 0 <= j < i ==> cells@[j] is None,
            decreases 64 - i,
        {
            cells.push(None);
            i += 1;
        }
        cells[3 * 8 + 3] = Some(Stone::White);
        cells[4 * 8 + 4] = Some(Stone::White);
        cells[4 * 8 + 3] = Some(Stone::Black);
        cells[3 * 8 + 4] = Some(Stone::Black);
        let r = Board { cells };
        proof {
            assert forall|x: int, y: int|
                in_bounds(x, y) && !((x == 3 || x == 4) && (y == 3 || y == 4)) implies #[trigger] cell(
                r@,
                x,
                y,
            ) is None by {
                let k = y * 8 + x;
                assert(0 <= k < 64);
                if k == 27 {
                    lemma_idx_inj(x, y, 3, 3);
                }
                if k == 36 {
                    lemma_idx_inj(x, y, 4, 4);
                }
                if k == 28 {
                    lemma_idx_inj(x, y, 4, 3);
                }
                if k == 35 {
                    lemma_idx_inj(x, y, 3, 4);
                }
            }
        }
        r
    }

    /// Reads the cell at `(x, y)`; rejects coordinates off the board.
    pub fn get(&self, x: usize, y: usize) -> (r: Result<Option<Stone>, crate::engine::ReversiError>)
        requires
            self.wf(),
        ensures
            in_bounds(x as int, y as int) ==> r == Ok::<Option<Stone>, crate::engine::ReversiError>(
                cell(self@, x as int, y as int),
            ),
            !in_bounds(x as int, y as int) ==> r == Err::<Option<Stone>, crate::engine::ReversiError>(
                crate::engine::ReversiError::IndexOutOfBound,
            ),
    {
        if x < 8 && y < 8 {
            Ok(self.cells[y * 8 + x])
        } else {
            Err(crate::engine::ReversiError::IndexOutOfBound)
        }
    }

    /// Walks the ray from `(x, y)` in direction `d` and returns the cells
    /// this direction would flip for a stone of color `c`, nearest first;
    /// the empty vector when the direction flips nothing.
    fn scan_dir(&self, c: Stone, x: usize, y: usize, d: usize) -> (r: Vec<Point>)
        requires
            self.wf(),
            x < 8,
            y < 8,
            d < 8,
        ensures
            r@.len() == dir_flip_count(self@, c, x as int, y as int, d as int),
            r@.len() > 0 ==> dir_flips_to(self@, c, x as int, y as int, d as int, r@.len() as int),
            forall|j: int|
                0 <= j < r@.len() ==> (#[trigger] r@[j]).x as int == ray_x(x as int, d as int, j + 1)
                    && r@[j].y as int == ray_y(y as int, d as int, j + 1),
    {
        let ghost g = self@;
        let ghost gx = x as int;
        let ghost gy = y as int;
        let ghost gd = d as int;
        let (dx, dy) = Self::dir_vec(d);
        let opp = c.flip();
        let mut r: Vec<Point> = Vec::new();
        let mut cx: i32 = x as i32 + dx;
        let mut cy: i32 = y as i32 + dy;
        let mut i: usize = 1;
        proof {
            lemma_unit_mul(1, dir_dx(gd));
            lemma_unit_mul(1, dir_dy(gd));
        }
        loop
            invariant_except_break
                r@.len() == i - 1,
                forall|j: int|
                    0 <= j < i - 1 ==> (#[trigger] r@[j]).x as int == ray_x(gx, gd, j + 1)
                        && r@[j].y as int == ray_y(gy, gd, j + 1),
            invariant
                self.wf(),
                g == self@,
                x < 8,
                y < 8,
                d < 8,
                gx == x as int,
                gy == y as int,
                gd == d as int,
                dx as int == dir_dx(gd),
                dy as int == dir_dy(gd),
                opp == opposite(c),
                1 <= i <= 8,
                cx as int == ray_x(gx, gd, i as int),
                cy as int == ray_y(gy, gd, i as int),
                -1 <= cx <= 8,
                -1 <= cy <= 8,
                opp_prefix(g, c, gx, gy, gd, i - 1),
            ensures
                r@.len() == dir_flip_count(g, c, gx, gy, gd),
                r@.len() > 0 ==> dir_flips_to(g, c, gx, gy, gd, r@.len() as int),
                forall|j: int|
                    0 <= j < r@.len() ==> (#[trigger] r@[j]).x as int == ray_x(gx, gd, j + 1)
                        && r@[j].y as int == ray_y(gy, gd, j + 1),
            decreases 9 - i,
        {
            if cx < 0 || cx >= 8 || cy < 0 || cy >= 8 {
                proof {
                    lemma_dir_blocked(g, c, gx, gy, gd, i as int);
                    assert(dir_flip_count(g, c, gx, gy, gd) == 0);
                }
                r = Vec::new();
                break ;
            }
            let ux = cx as usize;
            let uy = cy as usize;
            match self.cells[uy * 8 + ux] {
                Some(s) if s == opp => {
                    r.push(Point { x: ux, y: uy });
                    proof {
                        lemma_ray_in_bounds_limit(gx, gy, gd, i as int);
                        lemma_ray_step(gx, gy, gd, i as int);
                        assert(cell(g, ray_x(gx, gd, i as int), ray_y(gy, gd, i as int)) == Some(
                            opposite(c),
                        ));
                        assert(opp_prefix(g, c, gx, gy, gd, i as int));
                    }
                    cx = cx + dx;
                    cy = cy + dy;
                    i = i + 1;
                },
                Some(_) => {
                    // A stone of our own color closes the run.
                    if r.len() > 0 {
                        proof {
                            crate::stone::lemma_opposite_ne(c);
                            assert(cell(g, ray_x(gx, gd, i as int), ray_y(gy, gd, i as int))
                                == Some(c));
                            assert(dir_flips_to(g, c, gx, gy, gd, (i - 1) as int));
                            lemma_dir_flip_count_is(g, c, gx, gy, gd, (i - 1) as int);
                        }
                    } else {
                        proof {
                            crate::stone::lemma_opposite_ne(c);
                            lemma_dir_blocked(g, c, gx, gy, gd, i as int);
                            assert(dir_flip_count(g, c, gx, gy, gd) == 0);
                        }
                    }
                    break ;
                },
                None => {
                    proof {
                        lemma_dir_blocked(g, c, gx, gy, gd, i as int);
                        lemma_count_zero_no_flips(g, c, gx, gy, gd);
                        assert(dir_flip_count(g, c, gx, gy, gd) == 0) by {
                            if dir_has_flips(g, c, gx, gy, gd) {
                                assert(false);
                            }
                        }
                    }
                    r = Vec::new();
                    break ;
                },
            }
        }
        r
    }

    /// The cells a stone of color `c` placed on `(x, y)` would flip, found
    /// by the same run scan in all 8 directions; a dry run that never
    /// mutates the board.
    pub fn compute_flips(&self, c: Stone, x: usize, y: usize) -> (r: Vec<Point>)
        requires
            self.wf(),
            x < 8,
            y < 8,
        ensures
            r@.len() == flip_count(self@, c, x as int, y as int),
            forall|j: int|
                0 <= j < r@.len() ==> in_bounds((#[trigger] r@[j]).x as int, r@[j].y as int)
                    && point_flipped(self@, c, x as int, y as int, r@[j].x as int, r@[j].y as int),
            forall|xx: int, yy: int|
                #[trigger] point_flipped(self@, c, x as int, y as int, xx, yy) ==> exists|j: int|
                    0 <= j < r@.len() && (#[trigger] r@[j]).x as int == xx && r@[j].y as int == yy,
            r@.len() > 0 <==> exists|d: int|
                0 <= d < 8 && #[trigger] dir_has_flips(self@, c, x as int, y as int, d),
    {
        let ghost g = self@;
        let ghost gx = x as int;
        let ghost gy = y as int;
        let mut r: Vec<Point> = Vec::new();
        let mut d: usize = 0;
        while d < 8
            invariant
                self.wf(),
                g == self@,
                x < 8,
                y < 8,
                gx == x as int,
                gy == y as int,
                d <= 8,
                r@.len() == flip_count_upto(g, c, gx, gy, d as int),
                forall|j: int|
                    0 <= j < r@.len() ==> #[trigger] point_flipped_upto(
                        g,
                        c,
                        gx,
                        gy,
                        d as int,
                        r@[j].x as int,
                        r@[j].y as int,
                    ),
                forall|xx: int, yy: int|
                    #[trigger] point_flipped_upto(g, c, gx, gy, d as int, xx, yy) ==> exists|j: int|
                        0 <= j < r@.len() && (#[trigger] r@[j]).x as int == xx && r@[j].y as int
                            == yy,
            decreases 8 - d,
        {
            let ghost r0 = r@;
            let mut seg = self.scan_dir(c, x, y, d);
            let ghost s0 = seg@;
            let ghost gd = d as int;
            r.append(&mut seg);
            proof {
                lemma_dir_count_nonneg(g, c, gx, gy, gd);
                // every new entry lies in direction gd's run
                assert forall|j: int| 0 <= j < r@.len() implies #[trigger] point_flipped_upto(
                    g,
                    c,
                    gx,
                    gy,
                    gd + 1,
                    r@[j].x as int,
                    r@[j].y as int,
                ) by {
                    if j < r0.len() {
                        assert(point_flipped_upto(g, c, gx, gy, gd, r0[j].x as int, r0[j].y as int));
                        let (dd, i) = choose|dd: int, i: int|
                            #![trigger ray_x(gx, dd, i), ray_y(gy, dd, i)]
                            0 <= dd < gd && 1 <= i <= dir_flip_count(g, c, gx, gy, dd)
                                && r0[j].x as int == ray_x(gx, dd, i)
                                && r0[j].y as int == ray_y(gy, dd, i);
                        assert(r@[j] == r0[j]);
                        assert(0 <= dd < gd + 1 && 1 <= i <= dir_flip_count(g, c, gx, gy, dd)
                            && r@[j].x as int == ray_x(gx, dd, i) && r@[j].y as int == ray_y(
                            gy,
                            dd,
                            i,
                        ));
                    } else {
                        let i = j - r0.len() + 1;
                        assert(r@[j] == s0[j - r0.len()]);
                        assert(s0[j - r0.len()].x as int == ray_x(gx, gd, i) && s0[j
                            - r0.len()].y as int == ray_y(gy, gd, i));
                        assert(1 <= i <= dir_flip_count(g, c, gx, gy, gd));
                    }
                }
                // every cell flipped through direction gd is a new entry
                assert forall|xx: int, yy: int| #[trigger] point_flipped_upto(
                    g,
                    c,
                    gx,
                    gy,
                    gd + 1,
                    xx,
                    yy,
                ) implies exists|j: int|
                    0 <= j < r@.len() && (#[trigger] r@[j]).x as int == xx && r@[j].y as int
                        == yy by {
                    let (dd, i) = choose|dd: int, i: int|
                        #![trigger ray_x(gx, dd, i), ray_y(gy, dd, i)]
                        0 <= dd < gd + 1 && 1 <= i <= dir_flip_count(g, c, gx, gy, dd) && xx
                            == ray_x(gx, dd, i) && yy == ray_y(gy, dd, i);
                    if dd < gd {
                        assert(point_flipped_upto(g, c, gx, gy, gd, xx, yy));
                        let j = choose|j: int|
                            0 <= j < r0.len() && (#[trigger] r0[j]).x as int == xx && r0[j].y as int
                                == yy;
                        assert(r@[j] == r0[j]);
                    } else {
                        let j = r0.len() + i - 1;
                        assert(r@[j] == s0[i - 1]);
                        assert(s0[i - 1].x as int == ray_x(gx, gd, i) && s0[i - 1].y as int
                            == ray_y(gy, gd, i));
                    }
                }
            }
            d += 1;
        }
        proof {
            assert forall|j: int| 0 <= j < r@.len() implies in_bounds(
                (#[trigger] r@[j]).x as int,
                r@[j].y as int,
            ) && point_flipped(g, c, gx, gy, r@[j].x as int, r@[j].y as int) by {
                assert(point_flipped_upto(g, c, gx, gy, 8, r@[j].x as int, r@[j].y as int));
                lemma_flipped_cell(g, c, gx, gy, r@[j].x as int, r@[j].y as int);
            }
            if r@.len() > 0 {
                if forall|dd: int| 0 <= dd < 8 ==> !(#[trigger] dir_has_flips(g, c, gx, gy, dd)) {
                    lemma_no_flips_sum_zero(g, c, gx, gy, 8);
                    assert(false);
                }
            }
            if exists|dd: int| 0 <= dd < 8 && #[trigger] dir_has_flips(g, c, gx, gy, dd) {
                let dd = choose|dd: int| 0 <= dd < 8 && #[trigger] dir_has_flips(g, c, gx, gy, dd);
                let n = choose|n: int| dir_flips_to(g, c, gx, gy, dd, n);
                lemma_dir_flip_count_is(g, c, gx, gy, dd, n);
                lemma_flip_count_at_least_dir(g, c, gx, gy, 8, dd);
            }
        }
        r
    }

    /// Whether placing a stone of color `c` on `(x, y)` is legal; a pure
    /// query that never mutates the board. Any coordinates are accepted;
    /// cells off the board are simply not legal moves.
    pub fn check_move(&self, c: Stone, x: usize, y: usize) -> (r: bool)
        requires
            self.wf(),
        ensures
            r == is_legal(self@, c, x as int, y as int),
    {
        if x >= 8 || y >= 8 {
            return false;
        }
        match self.cells[y * 8 + x] {
            Some(_) => false,
            None => {
                let flips = self.compute_flips(c, x, y);
                flips.len() > 0
            },
        }
    }

    /// All legal moves of color `c`, in strictly increasing row-major
    /// order on `(x, y)`.
    pub fn legal_moves_for(&self, c: Stone) -> (r: Vec<Point>)
        requires
            self.wf(),
        ensures
            forall|j: int|
                0 <= j < r@.len() ==> is_legal(
                    self@,
                    c,
                    (#[trigger] r@[j]).x as int,
                    r@[j].y as int,
                ),
            forall|xx: int, yy: int|
                #[trigger] is_legal(self@, c, xx, yy) ==> exists|j: int|
                    0 <= j < r@.len() && (#[trigger] r@[j]).x as int == xx && r@[j].y as int == yy,
            forall|j1: int, j2: int|
                0 <= j1 < j2 < r@.len() ==> lex_lt(
                    (#[trigger] r@[j1]).x as int,
                    r@[j1].y as int,
                    (#[trigger] r@[j2]).x as int,
                    r@[j2].y as int,
                ),
            r@.len() == 0 <==> !has_legal_move(self@, c),
    {
        let ghost g = self@;
        let mut r: Vec<Point> = Vec::new();
        let mut x: usize = 0;
        while x < 8
            invariant
                self.wf(),
                g == self@,
                x <= 8,
                forall|j: int|
                    0 <= j < r@.len() ==> is_legal(
                        g,
                        c,
                        (#[trigger] r@[j]).x as int,
                        r@[j].y as int,
                    ),
                forall|xx: int, yy: int|
                    #[trigger] is_legal(g, c, xx, yy) && xx < x ==> exists|j: int|
                        0 <= j < r@.len() && (#[trigger] r@[j]).x as int == xx && r@[j].y as int
                            == yy,
                forall|j: int| 0 <= j < r@.len() ==> (#[trigger] r@[j]).x < x,
                forall|j1: int, j2: int|
                    0 <= j1 < j2 < r@.len() ==> lex_lt(
                        (#[trigger] r@[j1]).x as int,
                        r@[j1].y as int,
                        (#[trigger] r@[j2]).x as int,
                        r@[j2].y as int,
                    ),
            decreases 8 - x,
        {
            let mut y: usize = 0;
            while y < 8
                invariant
                    self.wf(),
                    g == self@,
                    x < 8,
                    y <= 8,
                    forall|j: int|
                        0 <= j < r@.len() ==> is_legal(
                            g,
                            c,
                            (#[trigger] r@[j]).x as int,
                            r@[j].y as int,
                        ),
                    forall|xx: int, yy: int|
                        #[trigger] is_legal(g, c, xx, yy) && (xx < x || (xx == x && yy < y))
                            ==> exists|j: int|
                            0 <= j < r@.len() && (#[trigger] r@[j]).x as int == xx && r@[j].y as int
                                == yy,
                    forall|j: int|
                        0 <= j < r@.len() ==> (#[trigger] r@[j]).x < x || (r@[j].x == x && r@[j].y
                            < y),
                    forall|j1: int, j2: int|
                        0 <= j1 < j2 < r@.len() ==> lex_lt(
                            (#[trigger] r@[j1]).x as int,
                            r@[j1].y as int,
                            (#[trigger] r@[j2]).x as int,
                            r@[j2].y as int,
                        ),
                decreases 8 - y,
            {
                let ghost r0 = r@;
                if self.check_move(c, x, y) {
                    r.push(Point { x, y });
                }
                proof {
                    assert forall|xx: int, yy: int|
                        #[trigger] is_legal(g, c, xx, yy) && (xx < x || (xx == x && yy < y
                            + 1)) implies exists|j: int|
                        0 <= j < r@.len() && (#[trigger] r@[j]).x as int == xx && r@[j].y as int
                            == yy by {
                        if xx == x as int && yy == y as int {
                            assert(r@[r0.len() as int].x as int == xx && r@[r0.len() as int].y as int
                                == yy);
                        } else {
                            let j = choose|j: int|
                                0 <= j < r0.len() && (#[trigger] r0[j]).x as int == xx
                                    && r0[j].y as int == yy;
                            assert(r@[j] == r0[j]);
                        }
                    }
                }
                y += 1;
            }
            x += 1;
        }
        proof {
            if r@.len() > 0 {
                assert(is_legal(g, c, r@[0].x as int, r@[0].y as int));
                assert(has_legal_move(g, c));
            } else {
                if has_legal_move(g, c) {
                    let (xx, yy) = choose|xx: int, yy: int| #[trigger] is_legal(g, c, xx, yy);
                    assert(false);
                }
            }
        }
        r
    }

    /// Whether color `c` has any legal move at all.
    pub fn has_any_move(&self, c: Stone) -> (r: bool)
        requires
            self.wf(),
        ensures
            r == has_legal_move(self@, c),
    {
        let moves = self.legal_moves_for(c);
        moves.len() > 0
    }

    /// Whether the game is over: neither color has a legal move (a full
    /// board is a special case of that).
    pub fn is_game_over(&self) -> (r: bool)
        requires
            self.wf(),
        ensures
            r == game_over(self@),
    {
        !self.has_any_move(Stone::Black) && !self.has_any_move(Stone::White)
    }

    /// How many stones of color `c` stand on the board.
    pub fn count(&self, c: Stone) -> (r: usize)
        requires
            self.wf(),
        ensures
            r as int == count_stones(self@, c),
            r <= 64,
    {
        let ghost g = self@;
        let mut n: usize = 0;
        let mut i: usize = 0;
        while i < 64
            invariant
                self.wf(),
                g == self@,
                i <= 64,
                n <= i,
                n as int == count_stones(g.take(i as int), c),
            decreases 64 - i,
        {
            proof {
                let t = g.take(i as int + 1);
                assert(t.drop_last() =~= g.take(i as int));
                assert(t.last() == g[i as int]);
            }
            match self.cells[i] {
                Some(s) if s == c => {
                    n += 1;
                },
                _ => {
                },
            }
            i += 1;
        }
        proof {
            assert(g.take(64) =~= g);
        }
        n
    }

    /// Places a stone of color `c` on the empty cell `(x, y)` without any
    /// flipping; rejects coordinates off the board and occupied cells.
    pub fn set_stone(&mut self, x: usize, y: usize, c: Stone) -> (r: Result<
        (),
        crate::engine::ReversiError,
    >)
        requires
            old(self).wf(),
        ensures
            final(self).wf(),
            !in_bounds(x as int, y as int) ==> r == Err::<(), crate::engine::ReversiError>(
                crate::engine::ReversiError::IndexOutOfBound,
            ) && final(self)@ == old(self)@,
            in_bounds(x as int, y as int) && cell(old(self)@, x as int, y as int) is Some ==> r
                == Err::<(), crate::engine::ReversiError>(
                crate::engine::ReversiError::StoneAlreadyPlaced,
            ) && final(self)@ == old(self)@,
            in_bounds(x as int, y as int) && cell(old(self)@, x as int, y as int) is None ==> r
                == Ok::<(), crate::engine::ReversiError>(()) && (forall|xx: int, yy: int|
                in_bounds(xx, yy) ==> #[trigger] cell(final(self)@, xx, yy) == (if xx == x as int
                    && yy == y as int {
                    Some(c)
                } else {
                    cell(old(self)@, xx, yy)
                })),
    {
        if x >= 8 || y >= 8 {
            return Err(crate::engine::ReversiError::IndexOutOfBound);
        }
        let occupied = match self.cells[y * 8 + x] {
            Some(_) => true,
            None => false,
        };
        if occupied {
            return Err(crate::engine::ReversiError::StoneAlreadyPlaced);
        }
        let ghost g0 = self@;
        self.cells[y * 8 + x] = Some(c);
        proof {
            assert forall|xx: int, yy: int| in_bounds(xx, yy) implies #[trigger] cell(self@, xx, yy)
                == (if xx == x as int && yy == y as int {
                Some(c)
            } else {
                cell(g0, xx, yy)
            }) by {
                if yy * 8 + xx == y as int * 8 + x as int {
                    lemma_idx_inj(xx, yy, x as int, y as int);
                }
            }
        }
        Ok(())
    }

    /// Applies the move of color `c` on `(x, y)`: checks it is legal, puts
    /// the stone down and flips every cell the 8-direction run scan finds,
    /// returning those cells. On any failure the board is untouched.
    pub fn apply_move(&mut self, x: usize, y: usize, c: Stone) -> (r: Result<
        Vec<Point>,
        crate::engine::ReversiError,
    >)
        requires
            old(self).wf(),
        ensures
            final(self).wf(),
            !in_bounds(x as int, y as int) ==> r == Err::<Vec<Point>, crate::engine::ReversiError>(
                crate::engine::ReversiError::IndexOutOfBound,
            ) && final(self)@ == old(self)@,
            in_bounds(x as int, y as int) && cell(old(self)@, x as int, y as int) is Some ==> r
                == Err::<Vec<Point>, crate::engine::ReversiError>(
                crate::engine::ReversiError::StoneAlreadyPlaced,
            ) && final(self)@ == old(self)@,
            in_bounds(x as int, y as int) && cell(old(self)@, x as int, y as int) is None
                && !is_legal(old(self)@, c, x as int, y as int) ==> r == Err::<
                Vec<Point>,
                crate::engine::ReversiError,
            >(crate::engine::ReversiError::NoStoneToFlip) && final(self)@ == old(self)@,
            is_legal(old(self)@, c, x as int, y as int) ==> (r matches Ok(flips) && move_ok(
                old(self)@,
                c,
                x as int,
                y as int,
                flips@,
                final(self)@,
            )),
    {
        if x >= 8 || y >= 8 {
            return Err(crate::engine::ReversiError::IndexOutOfBound);
        }
        let occupied = match self.cells[y * 8 + x] {
            Some(_) => true,
            None => false,
        };
        if occupied {
            return Err(crate::engine::ReversiError::StoneAlreadyPlaced);
        }
        let flips = self.compute_flips(c, x, y);
        if flips.len() == 0 {
            return Err(crate::engine::ReversiError::NoStoneToFlip);
        }
        let ghost g0 = self@;
        let ghost gx = x as int;
        let ghost gy = y as int;
        self.cells[y * 8 + x] = Some(c);
        proof {
            assert forall|xx: int, yy: int|
                in_bounds(xx, yy) && !(xx == gx && yy == gy) implies #[trigger] cell(self@, xx, yy)
                == cell(g0, xx, yy) by {
                if yy * 8 + xx == gy * 8 + gx {
                    lemma_idx_inj(xx, yy, gx, gy);
                }
            }
        }
        let mut k: usize = 0;
        while k < flips.len()
            invariant
                self.wf(),
                x < 8,
                y < 8,
                gx == x as int,
                gy == y as int,
                k <= flips.len(),
                grid_wf(g0),
                forall|j: int|
                    0 <= j < flips@.len() ==> in_bounds(
                        (#[trigger] flips@[j]).x as int,
                        flips@[j].y as int,
                    ) && point_flipped(g0, c, gx, gy, flips@[j].x as int, flips@[j].y as int),
                cell(self@, gx, gy) == Some(c),
                forall|j: int|
                    0 <= j < k ==> cell(
                        self@,
                        (#[trigger] flips@[j]).x as int,
                        flips@[j].y as int,
                    ) == Some(c),
                forall|xx: int, yy: int|
                    in_bounds(xx, yy) && !(xx == gx && yy == gy) && (forall|j: int|
                        0 <= j < k ==> !((#[trigger] flips@[j]).x as int == xx && flips@[j].y as int
                            == yy)) ==> #[trigger] cell(self@, xx, yy) == cell(g0, xx, yy),
            decreases flips.len() - k,
        {
            let p = flips[k];
            let ghost gprev = self@;
            self.cells[p.y * 8 + p.x] = Some(c);
            proof {
                assert forall|xx: int, yy: int|
                    in_bounds(xx, yy) && !(xx == p.x as int && yy == p.y as int) implies #[trigger] cell(
                    self@,
                    xx,
                    yy,
                ) == cell(gprev, xx, yy) by {
                    if yy * 8 + xx == p.y as int * 8 + p.x as int {
                        lemma_idx_inj(xx, yy, p.x as int, p.y as int);
                    }
                }
                assert(cell(self@, p.x as int, p.y as int) == Some(c));
            }
            k += 1;
        }
        proof {
            assert forall|xx: int, yy: int| in_bounds(xx, yy) implies #[trigger] cell(self@, xx, yy)
                == cell_after(g0, c, gx, gy, xx, yy) by {
                if xx == gx && yy == gy {
                } else if point_flipped(g0, c, gx, gy, xx, yy) {
                    let j = choose|j: int|
                        0 <= j < flips@.len() && (#[trigger] flips@[j]).x as int == xx
                            && flips@[j].y as int == yy;
                    assert(cell(self@, xx, yy) == Some(c));
                } else {
                    assert forall|j: int|
                        0 <= j < flips@.len() implies !((#[trigger] flips@[j]).x as int == xx
                            && flips@[j].y as int == yy) by {
                        if flips@[j].x as int == xx && flips@[j].y as int == yy {
                            assert(point_flipped(g0, c, gx, gy, xx, yy));
                        }
                    }
                }
            }
        }
        Ok(flips)
    }

    /// Rebuilds a board from an 8x8 matrix of cells, row by row; rejects a
    /// matrix of any other shape.
    pub fn from_cells(rows: &Vec<Vec<Option<Stone>>>) -> (r: Result<
        Board,
        crate::engine::ReversiError,
    >)
        ensures
            r is Ok <==> (rows@.len() == 8 && forall|yy: int|
                0 <= yy < 8 ==> (#[trigger] rows@[yy])@.len() == 8),
            r matches Ok(b) ==> b.wf() && forall|xx: int, yy: int|
                in_bounds(xx, yy) ==> #[trigger] cell(b@, xx, yy) == rows@[yy]@[xx],
    {
        if rows.len() != 8 {
            return Err(crate::engine::ReversiError::IndexOutOfBound);
        }
        let mut y: usize = 0;
        while y < 8
            invariant
                rows@.len() == 8,
                y <= 8,
                forall|yy: int| 0 <= yy < y ==> (#[trigger] rows@[yy])@.len() == 8,
            decreases 8 - y,
        {
            if rows[y].len() != 8 {
                return Err(crate::engine::ReversiError::IndexOutOfBound);
            }
            y += 1;
        }
        let mut cells: Vec<Option<Stone>> = Vec::new();
        let mut y: usize = 0;
        while y < 8
            invariant
                rows@.len() == 8,
                forall|yy: int| 0 <= yy < 8 ==> (#[trigger] rows@[yy])@.len() == 8,
                y <= 8,
                cells@.len() == y * 8,
                forall|xx: int, yy: int|
                    0 <= yy < y && 0 <= xx < 8 ==> #[trigger] cells@[yy * 8 + xx] == rows@[yy]@[xx],
            decreases 8 - y,
        {
            let mut x: usize = 0;
            while x < 8
                invariant
                    rows@.len() == 8,
                    forall|yy: int| 0 <= yy < 8 ==> (#[trigger] rows@[yy])@.len() == 8,
                    y < 8,
                    x <= 8,
                    cells@.len() == y * 8 + x,
                    forall|xx: int, yy: int|
                        0 <= yy < y && 0 <= xx < 8 ==> #[trigger] cells@[yy * 8 + xx]
                            == rows@[yy]@[xx],
                    forall|xx: int|
                        0 <= xx < x ==> #[trigger] cells@[y * 8 + xx] == rows@[y as int]@[xx],
                decreases 8 - x,
            {
                cells.push(rows[y][x]);
                proof {
                    assert forall|xx: int, yy: int|
                        0 <= yy < y && 0 <= xx < 8 implies #[trigger] cells@[yy * 8 + xx]
                        == rows@[yy]@[xx] by {
                        assert(yy * 8 + xx < y * 8 + x + 1) by {
                            assert(yy * 8 <= (y - 1) * 8) by (nonlinear_arith)
                                requires
                                    yy <= y - 1,
                            ;
                        }
                    }
                }
                x += 1;
            }
            y += 1;
        }
        let b = Board { cells };
        proof {
            assert forall|xx: int, yy: int| in_bounds(xx, yy) implies #[trigger] cell(b@, xx, yy)
                == rows@[yy]@[xx] by {
            }
        }
        Ok(b)
    }

    /// The direction vector of direction `d`.
    fn dir_vec(d: usize) -> (r: (i32, i32))
        requires
            d < 8,
        ensures
            r.0 as int == dir_dx(d as int),
            r.1 as int == dir_dy(d as int),
    {
        match d {
            0 => (-1, -1),
            1 => (0, -1),
            2 => (1, -1),
            3 => (-1, 0),
            4 => (1, 0),
            5 => (-1, 1),
            6 => (0, 1),
            _ => (1, 1),
        }
    }
}

} // verus!

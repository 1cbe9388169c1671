//! The recursive-backtracking carve algorithm.
//!
//! The algorithm keeps an explicit stack instead of recursing: while the
//! stack is non-empty it looks at the top cell, picks an unvisited step-2
//! neighbor at random, floors the wall between them and the neighbor, and
//! pushes the neighbor; a cell with no unvisited neighbor is popped. The
//! whole run is captured by the spec-level step function `carve_step` and
//! the fuelled runner `carve_run`, so a finished run's layout is a function
//! of the starting state alone — that is what makes carving deterministic
//! under a fixed random source (`lemma_generate_deterministic`). The laws
//! `lemma_carve_tree_counts` and `lemma_generate_tree_counts` give the
//! finished layout its perfect-maze shape: floored cells alternate between
//! the even lattice and the walls carved between lattice cells, every
//! floored lattice cell is connected to the seed, and the carved walls
//! number exactly one fewer than the floored lattice cells, as the edges of
//! a spanning tree do.

use vstd::prelude::*;

use crate::error::MazeError;
use crate::grid::{
    CellCoord, CellState, GridSize, GridStore, all_cells, cell_index, coord_at, in_bounds,
    lemma_cell_index_bounds, lemma_cell_index_injective, lemma_coord_at_bounds,
    lemma_coord_at_inverse,
};
use crate::neighbor::{lemma_neighbors_in_bounds, neighbors, neighbors_spec};
use crate::rng::{CarveRng, lemma_rng_value_bound, rng_step, rng_value};
use crate::wall::{find_wall, lemma_wall_exists, lemma_wall_midpoint, two_apart, wall_spec};

verus! {

/// The whole state of a carve in flight, as the proofs see it.
#[verifier::ext_equal]
pub ghost struct CarveModel {
    pub size: GridSize,
    pub cells: Seq<CellState>,
    pub stack: Seq<CellCoord>,
    pub visited: Seq<CellCoord>,
    pub rng: CarveRng,
}

/// The members of `ns` not yet in `visited`, keeping their order.
pub open spec fn unvisited_in(ns: Seq<CellCoord>, visited: Seq<CellCoord>) -> Seq<CellCoord>
    decreases ns.len(),
{
    if ns.len() == 0 {
        Seq::<CellCoord>::empty()
    } else {
        let pre = unvisited_in(ns.drop_last(), visited);
        if visited.contains(ns.last()) {
            pre
        } else {
            pre.push(ns.last())
        }
    }
}

/// One iteration of the carve loop, looking at the top of the stack.
pub open spec fn carve_step(m: CarveModel) -> CarveModel {
    let current = m.stack.last();
    let unv = unvisited_in(neighbors_spec(current, m.size), m.visited);
    if unv.len() > 0 {
        let next = unv[rng_value(m.rng, unv.len() as u32) as int];
        let stepped = rng_step(m.rng);
        match wall_spec(current, next, m.size) {
            Some(w) => CarveModel {
                cells: m.cells.update(cell_index(w, m.size), CellState::Floor).update(
                    cell_index(next, m.size),
                    CellState::Floor,
                ),
                stack: m.stack.push(next),
                visited: m.visited.push(next),
                rng: stepped,
                ..m
            },
            None => CarveModel { visited: m.visited.push(next), rng: stepped, ..m },
        }
    } else {
        CarveModel { stack: m.stack.drop_last(), ..m }
    }
}

/// The layout a carve run from `m` settles on within `fuel` iterations, if
/// it finishes that soon.
pub open spec fn carve_run(m: CarveModel, fuel: nat) -> Option<Seq<CellState>>
    decreases fuel,
{
    if m.stack.len() == 0 {
        Some(m.cells)
    } else if fuel == 0 {
        None::<Seq<CellState>>
    } else {
        carve_run(carve_step(m), (fuel - 1) as nat)
    }
}

/// The carve loop started at `m` can finish with layout `g`.
pub open spec fn carve_reaches(m: CarveModel, g: Seq<CellState>) -> bool {
    exists|fuel: nat| carve_run(m, fuel) == Some(g)
}

/// Two finished runs from one starting state settle on the same layout,
/// whatever their fuel.
proof fn lemma_carve_run_agrees(m: CarveModel, f1: nat, f2: nat)
    requires
        carve_run(m, f1) is Some,
        carve_run(m, f2) is Some,
    ensures
        carve_run(m, f1) == carve_run(m, f2),
    decreases f1,
{
    if m.stack.len() == 0 {
    } else {
        lemma_carve_run_agrees(carve_step(m), (f1 - 1) as nat, (f2 - 1) as nat);
    }
}

/// Determinism: a carve's starting state — grid contents, seed bookkeeping
/// and random source — fixes the final layout completely.
pub proof fn lemma_carve_deterministic(m: CarveModel, g1: Seq<CellState>, g2: Seq<CellState>)
    requires
        carve_reaches(m, g1),
        carve_reaches(m, g2),
    ensures
        g1 == g2,
{
    let f1 = choose|f: nat| carve_run(m, f) == Some(g1);
    let f2 = choose|f: nat| carve_run(m, f) == Some(g2);
    lemma_carve_run_agrees(m, f1, f2);
}

/// Determinism under a fixed seed: two carve runs over the same grid size
/// with the same injected random source settle on identical layouts.
pub proof fn lemma_generate_deterministic(
    size: GridSize,
    rng: CarveRng,
    g1: Seq<CellState>,
    g2: Seq<CellState>,
)
    requires
        carve_reaches(generate_model(size, rng), g1),
        carve_reaches(generate_model(size, rng), g2),
    ensures
        g1 == g2,
{
    lemma_carve_deterministic(generate_model(size, rng), g1, g2);
}

/// A carve state whose grid and stack make sense together.
pub open spec fn model_wf(m: CarveModel) -> bool {
    m.size.wf() && m.cells.len() == m.size.area() && forall|i: int|
        0 <= i < m.stack.len() ==> in_bounds(#[trigger] m.stack[i], m.size)
}

/// One step keeps the state sensible and only ever floors cells.
proof fn lemma_step_preserves_wf(m: CarveModel)
    requires
        model_wf(m),
        m.stack.len() > 0,
    ensures
        model_wf(carve_step(m)),
        carve_step(m).cells.len() == m.cells.len(),
        forall|i: int|
            0 <= i < m.cells.len() && m.cells[i] == CellState::Floor ==> carve_step(
                m,
            ).cells[i] == CellState::Floor,
{
    let current = m.stack.last();
    let ns = neighbors_spec(current, m.size);
    let unv = unvisited_in(ns, m.visited);
    lemma_neighbors_in_bounds(current, m.size);
    lemma_unvisited_props(ns, m.visited);
    if unv.len() > 0 {
        let next = unv[rng_value(m.rng, unv.len() as u32) as int];
        assert(ns.contains(next));
        let k = choose|k: int| 0 <= k < ns.len() && ns[k] == next;
        assert(in_bounds(next, m.size));
        lemma_cell_index_bounds(next, m.size);
        match wall_spec(current, next, m.size) {
            Some(w) => {
                assert(in_bounds(w, m.size));
                lemma_cell_index_bounds(w, m.size);
            },
            None => {
            },
        }
    }
}

proof fn lemma_carve_run_monotone(m: CarveModel, f: nat, g: Seq<CellState>, i: int)
    requires
        model_wf(m),
        carve_run(m, f) == Some(g),
        0 <= i < m.cells.len(),
        m.cells[i] == CellState::Floor,
    ensures
        g.len() == m.cells.len(),
        g[i] == CellState::Floor,
    decreases f,
{
    if m.stack.len() == 0 {
    } else {
        lemma_step_preserves_wf(m);
        lemma_carve_run_monotone(carve_step(m), (f - 1) as nat, g, i);
    }
}

/// Carving only ever turns cells to `Floor`: every cell already `Floor` in
/// the starting state — the seed cell included — is `Floor` in any layout
/// the run settles on, and the layout keeps the grid's extent.
pub proof fn lemma_carve_monotone(m: CarveModel, g: Seq<CellState>, i: int)
    requires
        model_wf(m),
        carve_reaches(m, g),
        0 <= i < m.cells.len(),
        m.cells[i] == CellState::Floor,
    ensures
        g.len() == m.cells.len(),
        g[i] == CellState::Floor,
{
    let f = choose|f: nat| carve_run(m, f) == Some(g);
    lemma_carve_run_monotone(m, f, g, i);
}

/// The carve state right after seeding: the given layout with the seed cell
/// floored, stack and visited set holding just the seed.
pub open spec fn carve_init(
    size: GridSize,
    cells: Seq<CellState>,
    seed: CellCoord,
    rng: CarveRng,
) -> CarveModel {
    CarveModel {
        size,
        cells: cells.update(cell_index(seed, size), CellState::Floor),
        stack: seq![seed],
        visited: seq![seed],
        rng,
    }
}

/// What filtering keeps: order-preserving members of `ns` outside `visited`.
proof fn lemma_unvisited_props(ns: Seq<CellCoord>, visited: Seq<CellCoord>)
    ensures
        unvisited_in(ns, visited).len() <= ns.len(),
        forall|i: int|
            0 <= i < unvisited_in(ns, visited).len() ==> ns.contains(
                #[trigger] unvisited_in(ns, visited)[i],
            ) && !visited.contains(unvisited_in(ns, visited)[i]),
    decreases ns.len(),
{
    if ns.len() == 0 {
    } else {
        lemma_unvisited_props(ns.drop_last(), visited);
        assert forall|e: CellCoord| ns.drop_last().contains(e) implies ns.contains(e) by {
            let k = choose|k: int| 0 <= k < ns.drop_last().len() && ns.drop_last()[k] == e;
            assert(ns[k] == e);
        }
        assert(ns.contains(ns.last()));
    }
}

/// Whether `v` holds the coordinate `c`.
fn contains_coord(v: &Vec<CellCoord>, c: CellCoord) -> (r: bool)
    ensures
        r == v@.contains(c),
{
    let mut i: usize = 0;
    while i < v.len()
        invariant
            i <= v@.len(),
            forall|j: int| 0 <= j < i ==> v@[j] != c,
        decreases v@.len() - i,
    {
        if v[i] == c {
            assert(v@[i as int] == c);
            return true;
        }
        i = i + 1;
    }
    false
}

/// The unvisited step-2 neighbors among `ns`, keeping direction order.
fn filter_unvisited(ns: &Vec<CellCoord>, visited: &Vec<CellCoord>) -> (r: Vec<CellCoord>)
    ensures
        r@ == unvisited_in(ns@, visited@),
{
    let mut r: Vec<CellCoord> = Vec::new();
    let mut i: usize = 0;
    while i < ns.len()
        invariant
            i <= ns@.len(),
            r@ == unvisited_in(ns@.take(i as int), visited@),
        decreases ns@.len() - i,
    {
        proof {
            let pre = ns@.take(i as int + 1);
            assert(pre.drop_last() =~= ns@.take(i as int));
            assert(pre.last() == ns@[i as int]);
            assert(unvisited_in(pre, visited@) == if visited@.contains(ns@[i as int]) {
                unvisited_in(ns@.take(i as int), visited@)
            } else {
                unvisited_in(ns@.take(i as int), visited@).push(ns@[i as int])
            });
        }
        let e = ns[i];
        if !contains_coord(visited, e) {
            r.push(e);
        }
        i = i + 1;
    }
    proof {
        assert(ns@.take(ns@.len() as int) =~= ns@);
    }
    r
}

/// No more distinct in-bounds coordinates exist than the grid has cells.
proof fn lemma_visited_bound(s: Seq<CellCoord>, g: GridSize)
    requires
        g.wf(),
        s.no_duplicates(),
        forall|i: int| 0 <= i < s.len() ==> in_bounds(#[trigger] s[i], g),
    ensures
        s.len() <= g.area(),
{
    let f = |c: CellCoord| cell_index(c, g);
    let t = s.map_values(f);
    assert forall|i: int, j: int|
        0 <= i < t.len() && 0 <= j < t.len() && i != j implies t[i] != t[j] by {
        if t[i] == t[j] {
            lemma_cell_index_injective(s[i], s[j], g);
        }
    }
    t.unique_seq_to_set();
    assert forall|x: int| t.to_set().contains(x) implies vstd::set_lib::set_int_range(
        0,
        g.area(),
    ).contains(x) by {
        let k = choose|k: int| 0 <= k < t.len() && t[k] == x;
        lemma_cell_index_bounds(s[k], g);
    }
    vstd::set_lib::lemma_int_range(0, g.area());
    vstd::set_lib::lemma_len_subset(t.to_set(), vstd::set_lib::set_int_range(0, g.area()));
}

/// Whether position `i` has an odd column. Cells sit on even columns and
/// rows; vertical walls sit on odd columns.
pub open spec fn x_odd(i: int, g: GridSize) -> bool {
    coord_at(i, g).x % 2 == 1
}

/// Whether position `i` has an odd row.
pub open spec fn y_odd(i: int, g: GridSize) -> bool {
    coord_at(i, g).y % 2 == 1
}

/// The number of `Floor` cells among the first `upto` positions whose
/// column and row oddness are `xo` and `yo`.
pub open spec fn floor_count_in(
    g: Seq<CellState>,
    size: GridSize,
    upto: int,
    xo: bool,
    yo: bool,
) -> int
    decreases upto,
{
    if upto <= 0 {
        0
    } else {
        floor_count_in(g, size, upto - 1, xo, yo) + if x_odd(upto - 1, size) == xo && y_odd(
            upto - 1,
            size,
        ) == yo && g[upto - 1] == CellState::Floor {
            1int
        } else {
            0int
        }
    }
}

proof fn lemma_floor_count_all_wall(size: GridSize, upto: int, xo: bool, yo: bool)
    requires
        upto <= size.area(),
    ensures
        floor_count_in(all_cells(size, CellState::Wall), size, upto, xo, yo) == 0,
    decreases upto,
{
    if upto > 0 {
        lemma_floor_count_all_wall(size, upto - 1, xo, yo);
    }
}

proof fn lemma_floor_count_update(
    g: Seq<CellState>,
    size: GridSize,
    upto: int,
    xo: bool,
    yo: bool,
    j: int,
)
    requires
        0 <= j < g.len(),
        upto <= g.len(),
        g[j] != CellState::Floor,
    ensures
        floor_count_in(g.update(j, CellState::Floor), size, upto, xo, yo) == floor_count_in(
            g,
            size,
            upto,
            xo,
            yo,
        ) + if j < upto && x_odd(j, size) == xo && y_odd(j, size) == yo {
            1int
        } else {
            0int
        },
    decreases upto,
{
    if upto > 0 {
        lemma_floor_count_update(g, size, upto - 1, xo, yo, j);
    }
}

proof fn lemma_contains_push(v: Seq<CellCoord>, x: CellCoord, y: CellCoord)
    ensures
        v.push(x).contains(y) <==> (v.contains(y) || y == x),
{
    if v.contains(y) {
        let k = choose|k: int| 0 <= k < v.len() && v[k] == y;
        assert(v.push(x)[k] == y);
    }
    assert(v.push(x)[v.len() as int] == x);
    if v.push(x).contains(y) && y != x {
        let k = choose|k: int| 0 <= k < v.push(x).len() && v.push(x)[k] == y;
        assert(v[k] == y);
    }
}

/// An in-bounds cell that the layout `g` has floored.
pub open spec fn floor_cell(g: Seq<CellState>, size: GridSize, c: CellCoord) -> bool {
    in_bounds(c, size) && g[cell_index(c, size)] == CellState::Floor
}

/// One carved passage: two cells two apart whose joining wall cell is
/// floored.
pub open spec fn carve_edge(g: Seq<CellState>, size: GridSize, a: CellCoord, b: CellCoord) -> bool {
    two_apart(a, b) && wall_spec(a, b, size) is Some && g[cell_index(
        wall_spec(a, b, size)->Some_0,
        size,
    )] == CellState::Floor
}

/// A walk over floored cells: each step moves two cells along one axis
/// through a floored wall cell.
pub open spec fn is_floor_path(g: Seq<CellState>, size: GridSize, p: Seq<CellCoord>) -> bool
    decreases p.len(),
{
    if p.len() == 0 {
        false
    } else if p.len() == 1 {
        floor_cell(g, size, p[0])
    } else {
        is_floor_path(g, size, p.drop_last()) && floor_cell(g, size, p.last()) && carve_edge(
            g,
            size,
            p[p.len() - 2],
            p.last(),
        )
    }
}

/// `b` can be reached from `a` by walking floored cells and walls.
pub open spec fn floor_connected(g: Seq<CellState>, size: GridSize, a: CellCoord, b: CellCoord) -> bool {
    exists|p: Seq<CellCoord>| is_floor_path(g, size, p) && p.first() == a && p.last() == b
}

/// Flooring one more cell never breaks an existing walk.
proof fn lemma_path_floor_update(g: Seq<CellState>, size: GridSize, p: Seq<CellCoord>, j: int)
    requires
        size.wf(),
        g.len() == size.area(),
        is_floor_path(g, size, p),
        0 <= j < g.len(),
    ensures
        is_floor_path(g.update(j, CellState::Floor), size, p),
    decreases p.len(),
{
    let g2 = g.update(j, CellState::Floor);
    if p.len() == 1 {
        lemma_cell_index_bounds(p[0], size);
    } else {
        lemma_path_floor_update(g, size, p.drop_last(), j);
        lemma_cell_index_bounds(p.last(), size);
        let w = wall_spec(p[p.len() - 2], p.last(), size)->Some_0;
        assert(in_bounds(w, size));
        lemma_cell_index_bounds(w, size);
    }
}

/// The shape a carve keeps at every step: visited cells sit on the even
/// lattice and are exactly the floored lattice cells; every floored wall
/// cell — odd on exactly one axis — joins two visited cells; cells odd on
/// both axes stay walls; and the floored wall cells number exactly one
/// fewer than the visited cells.
spec fn tree_inv(m: CarveModel) -> bool {
    &&& model_wf(m)
    &&& m.visited.len() >= 1
    &&& forall|i: int|
        0 <= i < m.visited.len() ==> in_bounds(#[trigger] m.visited[i], m.size)
            && m.visited[i].x % 2 == 0 && m.visited[i].y % 2 == 0
    &&& forall|i: int| 0 <= i < m.stack.len() ==> m.visited.contains(#[trigger] m.stack[i])
    &&& forall|i: int|
        0 <= i < m.size.area() && !x_odd(i, m.size) && !y_odd(i, m.size) ==> ((
        #[trigger] m.cells[i]) == CellState::Floor <==> m.visited.contains(coord_at(i, m.size)))
    &&& forall|i: int|
        0 <= i < m.size.area() && x_odd(i, m.size) && y_odd(i, m.size) ==> (
        #[trigger] m.cells[i]) == CellState::Wall
    &&& forall|i: int|
        0 <= i < m.size.area() && x_odd(i, m.size) && !y_odd(i, m.size) && (
        #[trigger] m.cells[i]) == CellState::Floor ==> coord_at(i, m.size).x + 1 < m.size.width
            && m.visited.contains(
            CellCoord { x: (coord_at(i, m.size).x - 1) as u32, y: coord_at(i, m.size).y },
        ) && m.visited.contains(
            CellCoord { x: (coord_at(i, m.size).x + 1) as u32, y: coord_at(i, m.size).y },
        )
    &&& forall|i: int|
        0 <= i < m.size.area() && !x_odd(i, m.size) && y_odd(i, m.size) && (
        #[trigger] m.cells[i]) == CellState::Floor ==> coord_at(i, m.size).y + 1 < m.size.height
            && m.visited.contains(
            CellCoord { x: coord_at(i, m.size).x, y: (coord_at(i, m.size).y - 1) as u32 },
        ) && m.visited.contains(
            CellCoord { x: coord_at(i, m.size).x, y: (coord_at(i, m.size).y + 1) as u32 },
        )
    &&& floor_count_in(m.cells, m.size, m.size.area(), false, false) == m.visited.len()
    &&& floor_count_in(m.cells, m.size, m.size.area(), true, false) + floor_count_in(
        m.cells,
        m.size,
        m.size.area(),
        false,
        true,
    ) == m.visited.len() - 1
}

/// The carve's reach: every visited cell is connected to the seed — the
/// first visited cell — by a walk over floored cells.
spec fn conn_inv(m: CarveModel) -> bool {
    forall|k: int|
        0 <= k < m.visited.len() ==> floor_connected(
            m.cells,
            m.size,
            m.visited[0],
            #[trigger] m.visited[k],
        )
}

proof fn lemma_step_keeps_tree_inv(m: CarveModel)
    requires
        tree_inv(m),
        m.stack.len() > 0,
    ensures
        tree_inv(carve_step(m)),
        carve_step(m).size == m.size,
{
    lemma_step_preserves_wf(m);
    let current = m.stack.last();
    assert(m.visited.contains(current));
    let ck = choose|k: int| 0 <= k < m.visited.len() && m.visited[k] == current;
    assert(current.x % 2 == 0 && current.y % 2 == 0 && in_bounds(current, m.size));
    let ns = neighbors_spec(current, m.size);
    let unv = unvisited_in(ns, m.visited);
    lemma_neighbors_in_bounds(current, m.size);
    lemma_unvisited_props(ns, m.visited);
    let m2 = carve_step(m);
    if unv.len() > 0 {
        lemma_rng_value_bound(m.rng, unv.len() as u32);
        let next = unv[rng_value(m.rng, unv.len() as u32) as int];
        assert(ns.contains(next) && !m.visited.contains(next));
        let nk = choose|k: int| 0 <= k < ns.len() && ns[k] == next;
        assert(in_bounds(next, m.size) && two_apart(current, next));
        assert(next.x % 2 == 0 && next.y % 2 == 0);
        lemma_cell_index_bounds(next, m.size);
        lemma_coord_at_inverse(next, m.size);
        let jn = cell_index(next, m.size);
        assert(!x_odd(jn, m.size) && !y_odd(jn, m.size));
        assert(m.cells[jn] != CellState::Floor);
        lemma_wall_midpoint(current, next, m.size);
        lemma_wall_exists(current, next, m.size);
        let w = wall_spec(current, next, m.size)->Some_0;
        assert(2 * w.x == current.x + next.x && 2 * w.y == current.y + next.y);
        assert(in_bounds(w, m.size));
        lemma_cell_index_bounds(w, m.size);
        lemma_coord_at_inverse(w, m.size);
        let jw = cell_index(w, m.size);
        if current.x == next.x {
            assert(w.x == current.x && w.x % 2 == 0);
            assert(w.y % 2 == 1);
        } else {
            assert(w.y == current.y && w.y % 2 == 0);
            assert(w.x % 2 == 1);
        }
        assert(x_odd(jw, m.size) != y_odd(jw, m.size));
        assert(jn != jw);
        // The wall cannot already be floored: its two endpoints on the odd
        // axis are exactly `current` and `next`, and `next` is unvisited.
        assert(m.cells[jw] != CellState::Floor) by {
            if m.cells[jw] == CellState::Floor {
                if x_odd(jw, m.size) {
                    assert(m.visited.contains(
                        CellCoord { x: (w.x - 1) as u32, y: w.y },
                    ) && m.visited.contains(CellCoord { x: (w.x + 1) as u32, y: w.y }));
                    assert(next == CellCoord { x: (w.x - 1) as u32, y: w.y } || next
                        == CellCoord { x: (w.x + 1) as u32, y: w.y });
                } else {
                    assert(m.visited.contains(
                        CellCoord { x: w.x, y: (w.y - 1) as u32 },
                    ) && m.visited.contains(CellCoord { x: w.x, y: (w.y + 1) as u32 }));
                    assert(next == CellCoord { x: w.x, y: (w.y - 1) as u32 } || next
                        == CellCoord { x: w.x, y: (w.y + 1) as u32 });
                }
            }
        }
        let g1 = m.cells.update(jw, CellState::Floor);
        assert(m2.cells == g1.update(jn, CellState::Floor));
        assert(m2.visited == m.visited.push(next));
        let area = m.size.area();
        lemma_floor_count_update(m.cells, m.size, area, false, false, jw);
        lemma_floor_count_update(m.cells, m.size, area, true, false, jw);
        lemma_floor_count_update(m.cells, m.size, area, false, true, jw);
        assert(g1[jn] == m.cells[jn]);
        lemma_floor_count_update(g1, m.size, area, false, false, jn);
        lemma_floor_count_update(g1, m.size, area, true, false, jn);
        lemma_floor_count_update(g1, m.size, area, false, true, jn);
        assert(floor_count_in(m2.cells, m.size, area, false, false) == m2.visited.len());
        assert(floor_count_in(m2.cells, m.size, area, true, false) + floor_count_in(
            m2.cells,
            m.size,
            area,
            false,
            true,
        ) == m2.visited.len() - 1);
        // Visited cells keep their lattice shape.
        assert forall|i: int| 0 <= i < m2.visited.len() implies in_bounds(
            #[trigger] m2.visited[i],
            m2.size,
        ) && m2.visited[i].x % 2 == 0 && m2.visited[i].y % 2 == 0 by {
            if i < m.visited.len() {
                assert(m2.visited[i] == m.visited[i]);
            } else {
                assert(m2.visited[i] == next);
            }
        }
        // The stack still holds visited cells only.
        assert forall|i: int| 0 <= i < m2.stack.len() implies m2.visited.contains(
            #[trigger] m2.stack[i],
        ) by {
            if i < m.stack.len() {
                assert(m2.stack[i] == m.stack[i]);
                lemma_contains_push(m.visited, next, m.stack[i]);
            } else {
                assert(m2.stack[i] == next);
                lemma_contains_push(m.visited, next, next);
            }
        }
        // Floored lattice cells are exactly the visited cells.
        assert forall|i: int|
            0 <= i < m2.size.area() && !x_odd(i, m2.size) && !y_odd(i, m2.size) implies ((
        #[trigger] m2.cells[i]) == CellState::Floor <==> m2.visited.contains(
            coord_at(i, m2.size),
        )) by {
            lemma_coord_at_bounds(i, m.size);
            let c = coord_at(i, m.size);
            lemma_contains_push(m.visited, next, c);
            if i == jn {
                assert(c == next);
                assert(m2.cells[i] == CellState::Floor);
            } else {
                assert(i != jw);
                assert(m2.cells[i] == m.cells[i]);
                assert(c != next);
                assert(m.cells[i] == CellState::Floor <==> m.visited.contains(c));
            }
        }
        // Doubly-odd cells stay walls.
        assert forall|i: int|
            0 <= i < m2.size.area() && x_odd(i, m2.size) && y_odd(i, m2.size) implies (
        #[trigger] m2.cells[i]) == CellState::Wall by {
            assert(i != jn && i != jw);
            assert(m2.cells[i] == m.cells[i]);
        }
        // Every floored vertical wall joins two visited cells.
        assert forall|i: int|
            0 <= i < m2.size.area() && x_odd(i, m2.size) && !y_odd(i, m2.size) && (
        #[trigger] m2.cells[i]) == CellState::Floor implies coord_at(i, m2.size).x + 1
            < m2.size.width && m2.visited.contains(
            CellCoord { x: (coord_at(i, m2.size).x - 1) as u32, y: coord_at(i, m2.size).y },
        ) && m2.visited.contains(
            CellCoord { x: (coord_at(i, m2.size).x + 1) as u32, y: coord_at(i, m2.size).y },
        ) by {
            lemma_coord_at_bounds(i, m.size);
            let c = coord_at(i, m.size);
            lemma_contains_push(
                m.visited,
                next,
                CellCoord { x: (c.x - 1) as u32, y: c.y },
            );
            lemma_contains_push(
                m.visited,
                next,
                CellCoord { x: (c.x + 1) as u32, y: c.y },
            );
            if i == jw {
                assert(c == w);
                assert(current.x != next.x);
                assert(current == CellCoord { x: (w.x - 1) as u32, y: w.y } || current
                    == CellCoord { x: (w.x + 1) as u32, y: w.y });
                assert(next == CellCoord { x: (w.x - 1) as u32, y: w.y } || next
                    == CellCoord { x: (w.x + 1) as u32, y: w.y });
            } else {
                assert(i != jn);
                assert(m2.cells[i] == m.cells[i]);
            }
        }
        // Every floored horizontal wall joins two visited cells.
        assert forall|i: int|
            0 <= i < m2.size.area() && !x_odd(i, m2.size) && y_odd(i, m2.size) && (
        #[trigger] m2.cells[i]) == CellState::Floor implies coord_at(i, m2.size).y + 1
            < m2.size.height && m2.visited.contains(
            CellCoord { x: coord_at(i, m2.size).x, y: (coord_at(i, m2.size).y - 1) as u32 },
        ) && m2.visited.contains(
            CellCoord { x: coord_at(i, m2.size).x, y: (coord_at(i, m2.size).y + 1) as u32 },
        ) by {
            lemma_coord_at_bounds(i, m.size);
            let c = coord_at(i, m.size);
            lemma_contains_push(
                m.visited,
                next,
                CellCoord { x: c.x, y: (c.y - 1) as u32 },
            );
            lemma_contains_push(
                m.visited,
                next,
                CellCoord { x: c.x, y: (c.y + 1) as u32 },
            );
            if i == jw {
                assert(c == w);
                assert(current.y != next.y);
                assert(current == CellCoord { x: w.x, y: (w.y - 1) as u32 } || current
                    == CellCoord { x: w.x, y: (w.y + 1) as u32 });
                assert(next == CellCoord { x: w.x, y: (w.y - 1) as u32 } || next
                    == CellCoord { x: w.x, y: (w.y + 1) as u32 });
            } else {
                assert(i != jn);
                assert(m2.cells[i] == m.cells[i]);
            }
        }
    } else {
        assert(m2.cells == m.cells && m2.visited == m.visited);
        assert forall|i: int| 0 <= i < m2.stack.len() implies m2.visited.contains(
            #[trigger] m2.stack[i],
        ) by {
            assert(m2.stack[i] == m.stack[i]);
        }
    }
}

/// One step keeps every visited cell connected to the seed: the fresh cell
/// connects through the wall just floored, and flooring never breaks an
/// existing walk.
proof fn lemma_step_keeps_conn_inv(m: CarveModel)
    requires
        tree_inv(m),
        conn_inv(m),
        m.stack.len() > 0,
    ensures
        conn_inv(carve_step(m)),
{
    let current = m.stack.last();
    assert(m.visited.contains(current));
    let ck = choose|k: int| 0 <= k < m.visited.len() && m.visited[k] == current;
    let ns = neighbors_spec(current, m.size);
    let unv = unvisited_in(ns, m.visited);
    lemma_neighbors_in_bounds(current, m.size);
    lemma_unvisited_props(ns, m.visited);
    let m2 = carve_step(m);
    if unv.len() > 0 {
        lemma_rng_value_bound(m.rng, unv.len() as u32);
        let next = unv[rng_value(m.rng, unv.len() as u32) as int];
        assert(ns.contains(next) && !m.visited.contains(next));
        let nk = choose|k: int| 0 <= k < ns.len() && ns[k] == next;
        assert(in_bounds(next, m.size) && two_apart(current, next));
        lemma_cell_index_bounds(next, m.size);
        let jn = cell_index(next, m.size);
        lemma_wall_midpoint(current, next, m.size);
        lemma_wall_exists(current, next, m.size);
        let w = wall_spec(current, next, m.size)->Some_0;
        assert(in_bounds(w, m.size));
        lemma_cell_index_bounds(w, m.size);
        let jw = cell_index(w, m.size);
        assert(w != next);
        assert(jn != jw) by {
            if jn == jw {
                lemma_cell_index_injective(w, next, m.size);
            }
        }
        let g1 = m.cells.update(jw, CellState::Floor);
        assert(m2.cells == g1.update(jn, CellState::Floor));
        assert(m2.visited == m.visited.push(next));
        assert(m2.cells[jn] == CellState::Floor);
        assert(m2.cells[jw] == CellState::Floor) by {
            assert(g1[jw] == CellState::Floor);
        }
        assert forall|k: int| 0 <= k < m2.visited.len() implies floor_connected(
            m2.cells,
            m2.size,
            m2.visited[0],
            #[trigger] m2.visited[k],
        ) by {
            assert(m2.visited[0] == m.visited[0]);
            if k < m.visited.len() {
                assert(m2.visited[k] == m.visited[k]);
                assert(floor_connected(m.cells, m.size, m.visited[0], m.visited[k]));
                let p = choose|p: Seq<CellCoord>|
                    is_floor_path(m.cells, m.size, p) && p.first() == m.visited[0] && p.last()
                        == m.visited[k];
                lemma_path_floor_update(m.cells, m.size, p, jw);
                lemma_path_floor_update(g1, m.size, p, jn);
                assert(is_floor_path(m2.cells, m.size, p));
            } else {
                assert(m2.visited[k] == next);
                assert(floor_connected(m.cells, m.size, m.visited[0], m.visited[ck]));
                let p = choose|p: Seq<CellCoord>|
                    is_floor_path(m.cells, m.size, p) && p.first() == m.visited[0] && p.last()
                        == current;
                lemma_path_floor_update(m.cells, m.size, p, jw);
                lemma_path_floor_update(g1, m.size, p, jn);
                let p2 = p.push(next);
                assert(p2.drop_last() =~= p);
                assert(p2[p2.len() - 2] == current);
                assert(floor_cell(m2.cells, m.size, next));
                assert(carve_edge(m2.cells, m.size, current, next));
                assert(is_floor_path(m2.cells, m.size, p2));
                assert(p2.first() == m.visited[0] && p2.last() == next);
            }
        }
    } else {
        assert(m2.cells == m.cells && m2.visited == m.visited);
        assert forall|k: int| 0 <= k < m2.visited.len() implies floor_connected(
            m2.cells,
            m2.size,
            m2.visited[0],
            #[trigger] m2.visited[k],
        ) by {
            assert(floor_connected(m.cells, m.size, m.visited[0], m.visited[k]));
        }
    }
}

proof fn lemma_run_keeps_tree_counts(m: CarveModel, f: nat, g: Seq<CellState>)
    requires
        tree_inv(m),
        conn_inv(m),
        carve_run(m, f) == Some(g),
    ensures
        g.len() == m.size.area(),
        forall|i: int|
            0 <= i < m.size.area() && x_odd(i, m.size) && y_odd(i, m.size) ==> (#[trigger] g[i])
                == CellState::Wall,
        floor_count_in(g, m.size, m.size.area(), false, false) >= 1,
        floor_count_in(g, m.size, m.size.area(), true, false) + floor_count_in(
            g,
            m.size,
            m.size.area(),
            false,
            true,
        ) == floor_count_in(g, m.size, m.size.area(), false, false) - 1,
        forall|i: int|
            0 <= i < m.size.area() && !x_odd(i, m.size) && !y_odd(i, m.size) && (#[trigger] g[i])
                == CellState::Floor ==> floor_connected(g, m.size, m.visited[0], coord_at(i, m.size)),
    decreases f,
{
    if m.stack.len() == 0 {
        assert forall|i: int|
            0 <= i < m.size.area() && !x_odd(i, m.size) && !y_odd(i, m.size) && (#[trigger] g[i])
                == CellState::Floor implies floor_connected(
            g,
            m.size,
            m.visited[0],
            coord_at(i, m.size),
        ) by {
            lemma_coord_at_bounds(i, m.size);
            let c = coord_at(i, m.size);
            assert(m.cells[i] == CellState::Floor);
            assert(m.visited.contains(c));
            let k = choose|k: int| 0 <= k < m.visited.len() && m.visited[k] == c;
            assert(floor_connected(m.cells, m.size, m.visited[0], m.visited[k]));
        }
    } else {
        lemma_step_keeps_tree_inv(m);
        lemma_step_keeps_conn_inv(m);
        lemma_run_keeps_tree_counts(carve_step(m), (f - 1) as nat, g);
        assert(carve_step(m).visited[0] == m.visited[0]);
    }
}

/// The perfect-maze shape of a finished carve, seeded on an even-lattice
/// cell of an all-Wall grid: in the final layout no cell odd on both axes
/// is floored; at least one lattice cell is floored; the floored wall cells
/// number exactly one fewer than the floored lattice cells — as the edges
/// of a spanning tree number one fewer than its vertices; and every floored
/// lattice cell is connected to the seed by a walk over floored cells.
pub proof fn lemma_carve_tree_counts(
    size: GridSize,
    seed: CellCoord,
    rng: CarveRng,
    g: Seq<CellState>,
)
    requires
        size.wf(),
        in_bounds(seed, size),
        seed.x % 2 == 0,
        seed.y % 2 == 0,
        carve_reaches(carve_init(size, all_cells(size, CellState::Wall), seed, rng), g),
    ensures
        g.len() == size.area(),
        forall|i: int|
            0 <= i < size.area() && x_odd(i, size) && y_odd(i, size) ==> (#[trigger] g[i])
                == CellState::Wall,
        floor_count_in(g, size, size.area(), false, false) >= 1,
        floor_count_in(g, size, size.area(), true, false) + floor_count_in(
            g,
            size,
            size.area(),
            false,
            true,
        ) == floor_count_in(g, size, size.area(), false, false) - 1,
        forall|i: int|
            0 <= i < size.area() && !x_odd(i, size) && !y_odd(i, size) && (#[trigger] g[i])
                == CellState::Floor ==> floor_connected(g, size, seed, coord_at(i, size)),
{
    let m = carve_init(size, all_cells(size, CellState::Wall), seed, rng);
    lemma_cell_index_bounds(seed, size);
    lemma_coord_at_inverse(seed, size);
    let js = cell_index(seed, size);
    let area = size.area();
    lemma_floor_count_all_wall(size, area, false, false);
    lemma_floor_count_all_wall(size, area, true, false);
    lemma_floor_count_all_wall(size, area, false, true);
    lemma_floor_count_update(all_cells(size, CellState::Wall), size, area, false, false, js);
    lemma_floor_count_update(all_cells(size, CellState::Wall), size, area, true, false, js);
    lemma_floor_count_update(all_cells(size, CellState::Wall), size, area, false, true, js);
    assert(m.visited =~= seq![seed]);
    assert(m.visited[0] == seed && m.stack[0] == seed);
    assert forall|i: int|
        0 <= i < area && !x_odd(i, size) && !y_odd(i, size) implies ((#[trigger] m.cells[i])
        == CellState::Floor <==> m.visited.contains(coord_at(i, size))) by {
        lemma_coord_at_bounds(i, size);
        let c = coord_at(i, size);
        if i == js {
            assert(m.cells[i] == CellState::Floor);
            assert(m.visited.contains(seed));
        } else {
            assert(m.cells[i] == CellState::Wall);
            if m.visited.contains(c) {
                let k = choose|k: int| 0 <= k < m.visited.len() && m.visited[k] == c;
                assert(c == seed);
            }
        }
    }
    assert forall|i: int|
        0 <= i < area && (x_odd(i, size) || y_odd(i, size)) implies (#[trigger] m.cells[i])
        == CellState::Wall by {
        assert(i != js);
    }
    assert forall|k: int| 0 <= k < m.visited.len() implies floor_connected(
        m.cells,
        m.size,
        m.visited[0],
        #[trigger] m.visited[k],
    ) by {
        let p = seq![seed];
        assert(p[0] == seed);
        assert(m.cells[js] == CellState::Floor);
        assert(is_floor_path(m.cells, size, p));
        assert(p.first() == seed && p.last() == seed);
        assert(m.visited[k] == seed && m.visited[0] == seed);
    }
    assert(tree_inv(m));
    assert(conn_inv(m));
    let f = choose|f: nat| carve_run(m, f) == Some(g);
    lemma_run_keeps_tree_counts(m, f, g);
    assert(m.visited[0] == seed);
}

/// The same count law for a full `generate_maze` run, whose seed is always
/// an interior even-lattice cell.
pub proof fn lemma_generate_tree_counts(size: GridSize, rng: CarveRng, g: Seq<CellState>)
    requires
        size.wf(),
        size.width >= 4,
        size.height >= 4,
        carve_reaches(generate_model(size, rng), g),
    ensures
        g.len() == size.area(),
        forall|i: int|
            0 <= i < size.area() && x_odd(i, size) && y_odd(i, size) ==> (#[trigger] g[i])
                == CellState::Wall,
        floor_count_in(g, size, size.area(), false, false) >= 1,
        floor_count_in(g, size, size.area(), true, false) + floor_count_in(
            g,
            size,
            size.area(),
            false,
            true,
        ) == floor_count_in(g, size, size.area(), false, false) - 1,
        forall|i: int|
            0 <= i < size.area() && !x_odd(i, size) && !y_odd(i, size) && (#[trigger] g[i])
                == CellState::Floor ==> floor_connected(
                g,
                size,
                generate_seed(size, rng),
                coord_at(i, size),
            ),
{
    let nx = (size.width - 2) / 2;
    let ny = (size.height - 2) / 2;
    vstd::arithmetic::div_mod::lemma_fundamental_div_mod(size.width as int - 2, 2);
    vstd::arithmetic::div_mod::lemma_fundamental_div_mod(size.height as int - 2, 2);
    lemma_rng_value_bound(rng, nx as u32);
    lemma_rng_value_bound(rng_step(rng), ny as u32);
    let ix = rng_value(rng, nx as u32);
    let iy = rng_value(rng_step(rng), ny as u32);
    let seed = generate_seed(size, rng);
    assert(seed.x % 2 == 0 && seed.y % 2 == 0) by {
        vstd::arithmetic::div_mod::lemma_mod_multiples_basic(1 + ix as int, 2);
        vstd::arithmetic::div_mod::lemma_mod_multiples_basic(1 + iy as int, 2);
        vstd::arithmetic::mul::lemma_mul_is_commutative(1 + ix as int, 2);
        vstd::arithmetic::mul::lemma_mul_is_commutative(1 + iy as int, 2);
    }
    assert(in_bounds(seed, size));
    lemma_carve_tree_counts(size, seed, rng_step(rng_step(rng)), g);
}

/// The carve state a loop iteration starts from, assembled from the live
/// pieces of the computation.
spec fn live_model(
    size: GridSize,
    cells: Seq<CellState>,
    stack: Seq<CellCoord>,
    visited: Seq<CellCoord>,
    rng: CarveRng,
) -> CarveModel {
    CarveModel { size, cells, stack, visited, rng }
}

/// Carves passages outward from `seed` until every cell reachable by step-2
/// moves has been visited. The caller chooses the starting layout; carving
/// only ever turns cells to `Floor`.
pub fn carve_from(grid: &mut GridStore, seed: CellCoord, rng: CarveRng)
    requires
        old(grid).wf(),
        in_bounds(seed, old(grid).size),
    ensures
        final(grid).wf(),
        final(grid).size == old(grid).size,
        carve_reaches(carve_init(old(grid).size, old(grid)@, seed, rng), final(grid)@),
{
    let ghost m0 = carve_init(old(grid).size, old(grid)@, seed, rng);
    grid.set_at(seed, CellState::Floor);
    let mut stack: Vec<CellCoord> = Vec::new();
    stack.push(seed);
    let mut visited: Vec<CellCoord> = Vec::new();
    visited.push(seed);
    let mut rsrc = rng;
    proof {
        assert(stack@ =~= seq![seed]);
        assert(visited@ =~= seq![seed]);
        assert(live_model(grid.size, grid@, stack@, visited@, rsrc) =~= m0);
        lemma_cell_index_bounds(seed, grid.size);
    }
    while stack.len() > 0
        invariant
            grid.wf(),
            grid.size == m0.size,
            m0.size == old(grid).size,
            visited@.no_duplicates(),
            forall|i: int| 0 <= i < visited@.len() ==> in_bounds(#[trigger] visited@[i], grid.size),
            forall|i: int| 0 <= i < stack@.len() ==> in_bounds(#[trigger] stack@[i], grid.size),
            visited@.len() <= grid.size.area(),
            forall|g: Seq<CellState>|
                carve_reaches(live_model(grid.size, grid@, stack@, visited@, rsrc), g)
                    ==> carve_reaches(m0, g),
        decreases grid.size.area() - visited@.len(), stack@.len(),
    {
        let ghost pre = live_model(grid.size, grid@, stack@, visited@, rsrc);
        let current = stack[stack.len() - 1];
        let ns = neighbors(current, grid.size);
        let unv = filter_unvisited(&ns, &visited);
        proof {
            lemma_neighbors_in_bounds(current, grid.size);
            lemma_unvisited_props(ns@, visited@);
            assert(pre.stack.last() == current);
        }
        if unv.len() > 0 {
            let bound = unv.len() as u32;
            let idx = rsrc.next_below(bound);
            let next = unv[idx as usize];
            proof {
                assert(unvisited_in(ns@, visited@)[idx as int] == next);
                assert(ns@.contains(next) && !visited@.contains(next));
                let k = choose|k: int| 0 <= k < ns@.len() && ns@[k] == next;
                assert(in_bounds(next, grid.size) && two_apart(current, next));
            }
            let wall = find_wall(current, next, grid.size);
            match wall {
                Some(w) => {
                    proof {
                        assert(wall_spec(current, next, grid.size) == Some(w));
                        assert(in_bounds(w, grid.size));
                    }
                    grid.set_at(w, CellState::Floor);
                    grid.set_at(next, CellState::Floor);
                    stack.push(next);
                    visited.push(next);
                },
                None => {
                    visited.push(next);
                },
            }
            proof {
                let post = live_model(grid.size, grid@, stack@, visited@, rsrc);
                assert(post =~= carve_step(pre));
                lemma_visited_bound(visited@, grid.size);
                assert forall|g: Seq<CellState>| carve_reaches(post, g) implies carve_reaches(
                    m0,
                    g,
                ) by {
                    let f = choose|f: nat| carve_run(post, f) == Some(g);
                    assert(carve_run(pre, f + 1) == Some(g));
                    assert(carve_reaches(pre, g));
                }
            }
        } else {
            stack.pop();
            proof {
                let post = live_model(grid.size, grid@, stack@, visited@, rsrc);
                assert(post.stack =~= pre.stack.drop_last());
                assert(post =~= carve_step(pre));
                assert forall|g: Seq<CellState>| carve_reaches(post, g) implies carve_reaches(
                    m0,
                    g,
                ) by {
                    let f = choose|f: nat| carve_run(post, f) == Some(g);
                    assert(carve_run(pre, f + 1) == Some(g));
                    assert(carve_reaches(pre, g));
                }
            }
        }
    }
    proof {
        let fin = live_model(grid.size, grid@, stack@, visited@, rsrc);
        assert(carve_run(fin, 0) == Some(grid@));
        assert(carve_reaches(fin, grid@));
    }
}

/// The interior even-lattice seed cell that `generate_maze` draws from
/// `rng`: both coordinates land in `{2, 4, ...}` below `extent - 1`.
pub open spec fn generate_seed(size: GridSize, rng: CarveRng) -> CellCoord {
    let nx = (size.width - 2) / 2;
    let ny = (size.height - 2) / 2;
    let ix = rng_value(rng, nx as u32);
    let iy = rng_value(rng_step(rng), ny as u32);
    CellCoord { x: (2 + 2 * ix) as u32, y: (2 + 2 * iy) as u32 }
}

/// The starting state `generate_maze` hands the carve loop: an all-Wall grid
/// seeded on `generate_seed`, with the random source advanced past the two
/// seed draws.
pub open spec fn generate_model(size: GridSize, rng: CarveRng) -> CarveModel {
    carve_init(
        size,
        all_cells(size, CellState::Wall),
        generate_seed(size, rng),
        rng_step(rng_step(rng)),
    )
}

/// Resets the whole grid to `Wall`, picks a random interior seed whose
/// coordinates are both even, and carves a maze from it.
///
/// Fails fast with `DegenerateGridSize`, leaving the grid untouched, when an
/// extent is below four cells and no interior even seed exists.
pub fn generate_maze(grid: &mut GridStore, rng: CarveRng) -> (res: Result<(), MazeError>)
    requires
        old(grid).wf(),
    ensures
        final(grid).wf(),
        final(grid).size == old(grid).size,
        res is Ok <==> (old(grid).size.width >= 4 && old(grid).size.height >= 4),
        res is Ok ==> carve_reaches(generate_model(old(grid).size, rng), final(grid)@),
        res is Err ==> *final(grid) == *old(grid) && res == Err::<(), MazeError>(
            MazeError::DegenerateGridSize,
        ),
{
    let w = grid.size.width;
    let h = grid.size.height;
    if w < 4 || h < 4 {
        return Err(MazeError::DegenerateGridSize);
    }
    grid.reset_all(CellState::Wall);
    let mut rsrc = rng;
    let nx = (w - 2) / 2;
    let ny = (h - 2) / 2;
    let ix = rsrc.next_below(nx);
    let iy = rsrc.next_below(ny);
    proof {
        vstd::arithmetic::div_mod::lemma_fundamental_div_mod(w as int - 2, 2);
        vstd::arithmetic::div_mod::lemma_fundamental_div_mod(h as int - 2, 2);
        assert(2 * (nx as int) <= w - 2);
        assert(2 * (ny as int) <= h - 2);
    }
    let seed = CellCoord { x: 2 + 2 * ix, y: 2 + 2 * iy };
    proof {
        assert(in_bounds(seed, grid.size));
        assert(carve_init(grid.size, grid@, seed, rsrc) =~= generate_model(grid.size, rng));
    }
    carve_from(grid, seed, rsrc);
    Ok(())
}

} // verus!

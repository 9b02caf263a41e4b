//! Connected sets of cells of a binary raster, under 8-connectivity.
use vstd::prelude::*;
use crate::grid::correlate::scanned_before;
use crate::plane::{cell_index, lemma_cell_index, Plane};

verus! {

/// Whether two different cells touch, by a side or by a corner.
pub open spec fn adjacent(y1: int, x1: int, y2: int, x2: int) -> bool {
    -1 <= y1 - y2 <= 1 && -1 <= x1 - x2 <= 1 && !(y1 == y2 && x1 == x2)
}

/// Whether the cell lies in the raster and is set.
pub open spec fn open_at(mask: Plane<bool>, y: int, x: int) -> bool {
    mask.inside(y, x) && mask.at(y, x)
}

/// Whether `path` is a walk over set cells, each step to an adjacent cell.
pub open spec fn is_path(mask: Plane<bool>, path: Seq<(int, int)>) -> bool {
    &&& path.len() > 0
    &&& forall|i: int| 0 <= i < path.len() ==> open_at(mask, (#[trigger] path[i]).0, path[i].1)
    &&& forall|i: int|
        0 < i < path.len() ==> adjacent(
            path[i - 1].0,
            path[i - 1].1,
            (#[trigger] path[i]).0,
            path[i].1,
        )
}

/// Whether `path` is a walk over set cells from `(sy, sx)` to `(y, x)`.
pub open spec fn joins(mask: Plane<bool>, path: Seq<(int, int)>, sy: int, sx: int, y: int, x: int) -> bool {
    is_path(mask, path) && path[0] == (sy, sx) && path[path.len() - 1] == (y, x)
}

/// Whether the cell `(y, x)` belongs to the connected set of `(sy, sx)`:
/// both are set, and a walk over set cells leads from one to the other.
pub open spec fn connected(mask: Plane<bool>, sy: int, sx: int, y: int, x: int) -> bool {
    exists|path: Seq<(int, int)>| #[trigger] joins(mask, path, sy, sx, y, x)
}

/// Whether the list holds the cell `(y, x)`.
pub open spec fn listed(cells: Seq<(usize, usize)>, y: int, x: int) -> bool {
    exists|i: int| 0 <= i < cells.len() && (#[trigger] cells[i]).0 == y && cells[i].1 == x
}

/// Whether `cells` lists the connected set of `(sy, sx)`: every cell of the
/// set once, and no other cell.
pub open spec fn is_component(mask: Plane<bool>, sy: int, sx: int, cells: Seq<(usize, usize)>) -> bool {
    &&& forall|i: int|
        0 <= i < cells.len() ==> connected(
            mask,
            sy,
            sx,
            (#[trigger] cells[i]).0 as int,
            cells[i].1 as int,
        )
    &&& forall|y: int, x: int| #[trigger] connected(mask, sy, sx, y, x) ==> listed(cells, y, x)
    &&& forall|i: int, j: int| 0 <= i < j < cells.len() ==> cells[i] != cells[j]
}

/// Whether every set cell next to `(y, x)` is marked.
pub open spec fn all_neighbours_marked(mask: Plane<bool>, marked: Plane<bool>, y: int, x: int) -> bool {
    forall|v: int, u: int| adjacent(y, x, v, u) && #[trigger] open_at(mask, v, u) ==> marked.at(v, u)
}

/// Whether every set cell next to a marked cell is marked: the marked cells
/// are whole connected sets.
pub open spec fn sealed(mask: Plane<bool>, marked: Plane<bool>) -> bool {
    forall|y: int, x: int|
        marked.inside(y, x) && #[trigger] marked.at(y, x) ==> all_neighbours_marked(
            mask,
            marked,
            y,
            x,
        )
}

/// How many cells are not marked.
pub open spec fn count_false(s: Seq<bool>) -> nat
    decreases s.len(),
{
    if s.len() == 0 {
        0
    } else {
        count_false(s.drop_last()) + if s.last() {
            0nat
        } else {
            1nat
        }
    }
}

proof fn lemma_count_false_update(s: Seq<bool>, i: int)
    requires
        0 <= i < s.len(),
        !s[i],
    ensures
        count_false(s.update(i, true)) + 1 == count_false(s),
    decreases s.len(),
{
    if i == s.len() - 1 {
        assert(s.update(i, true).drop_last() =~= s.drop_last());
    } else {
        lemma_count_false_update(s.drop_last(), i);
        assert(s.update(i, true).drop_last() =~= s.drop_last().update(i, true));
    }
}

/// The state of a fill that started at `(sy, sx)`: `cells` are the cells
/// marked so far, `stack` those whose neighbours are still to be looked at.
spec fn flooding(
    mask: Plane<bool>,
    before: Plane<bool>,
    marked: Plane<bool>,
    cells: Seq<(usize, usize)>,
    stack: Seq<(usize, usize)>,
    sy: int,
    sx: int,
    busy: Option<(int, int)>,
) -> bool {
    &&& mask.wf() && marked.wf() && before.wf()
    &&& marked.height == mask.height && marked.width == mask.width
    &&& before.height == mask.height && before.width == mask.width
    &&& cells.len() > 0 && cells[0].0 == sy && cells[0].1 == sx
    &&& forall|y: int, x: int|
        mask.inside(y, x) ==> #[trigger] marked.at(y, x) == (before.at(y, x) || listed(cells, y, x))
    &&& forall|i: int|
        0 <= i < cells.len() ==> {
            let c = #[trigger] cells[i];
            open_at(mask, c.0 as int, c.1 as int) && !before.at(c.0 as int, c.1 as int)
                && connected(mask, sy, sx, c.0 as int, c.1 as int)
        }
    &&& forall|i: int, j: int| 0 <= i < j < cells.len() ==> cells[i] != cells[j]
    &&& forall|i: int|
        0 <= i < stack.len() ==> listed(cells, (#[trigger] stack[i]).0 as int, stack[i].1 as int)
    &&& forall|i: int|
        0 <= i < cells.len() ==> {
            let c = #[trigger] cells[i];
            listed(stack, c.0 as int, c.1 as int) || all_neighbours_marked(
                mask,
                marked,
                c.0 as int,
                c.1 as int,
            ) || busy == Some((c.0 as int, c.1 as int))
        }
}

spec fn fill_measure(marked: Plane<bool>, stack: Seq<(usize, usize)>) -> int {
    (2 * count_false(marked.cells@) + stack.len()) as int
}

proof fn lemma_listed_push(cells: Seq<(usize, usize)>, c: (usize, usize))
    ensures
        forall|y: int, x: int|
            #[trigger] listed(cells.push(c), y, x) <==> (listed(cells, y, x) || (c.0 == y && c.1
                == x)),
{
    let longer = cells.push(c);
    assert forall|y: int, x: int| #[trigger]
        listed(longer, y, x) <==> (listed(cells, y, x) || (c.0 == y && c.1 == x)) by {
        if listed(cells, y, x) {
            let i = choose|i: int| 0 <= i < cells.len() && (#[trigger] cells[i]).0 == y && cells[i].1 == x;
            assert(longer[i] == cells[i]);
        }
        if c.0 == y && c.1 == x {
            assert(longer[cells.len() as int] == c);
        }
        if listed(longer, y, x) {
            let i = choose|i: int| 0 <= i < longer.len() && (#[trigger] longer[i]).0 == y && longer[i].1 == x;
            if i < cells.len() {
                assert(cells[i] == longer[i]);
            }
        }
    }
}

/// A walk goes on to an adjacent set cell.
pub proof fn lemma_connected_step(mask: Plane<bool>, sy: int, sx: int, py: int, px: int, y: int, x: int)
    requires
        connected(mask, sy, sx, py, px),
        adjacent(py, px, y, x),
        open_at(mask, y, x),
    ensures
        connected(mask, sy, sx, y, x),
{
    let path = choose|path: Seq<(int, int)>| #[trigger] joins(mask, path, sy, sx, py, px);
    let longer = path.push((y, x));
    assert forall|i: int| 0 <= i < longer.len() implies open_at(
        mask,
        (#[trigger] longer[i]).0,
        longer[i].1,
    ) by {
        if i < path.len() {
            assert(longer[i] == path[i]);
        }
    }
    assert forall|i: int| 0 < i < longer.len() implies adjacent(
        longer[i - 1].0,
        longer[i - 1].1,
        (#[trigger] longer[i]).0,
        longer[i].1,
    ) by {
        if i < path.len() {
            assert(longer[i] == path[i] && longer[i - 1] == path[i - 1]);
        } else {
            assert(longer[i - 1] == path[path.len() - 1]);
        }
    }
    assert(longer[0] == path[0]);
    assert(joins(mask, longer, sy, sx, y, x));
}

/// A set cell is connected to itself.
pub proof fn lemma_connected_self(mask: Plane<bool>, y: int, x: int)
    requires
        open_at(mask, y, x),
    ensures
        connected(mask, y, x, y, x),
{
    let path = seq![(y, x)];
    assert(joins(mask, path, y, x, y, x));
}

/// Looks at the cell `(y, x)`, a neighbour of the cell `(py, px)` that the
/// fill is busy with: if it is set and not marked, it is marked and put on
/// the stack.
fn visit(
    mask: &Plane<bool>,
    marked: &mut Plane<bool>,
    cells: &mut Vec<(usize, usize)>,
    stack: &mut Vec<(usize, usize)>,
    y: usize,
    x: usize,
    Ghost(before): Ghost<Plane<bool>>,
    Ghost(sy): Ghost<int>,
    Ghost(sx): Ghost<int>,
    Ghost(py): Ghost<int>,
    Ghost(px): Ghost<int>,
)
    requires
        flooding(*mask, before, *old(marked), old(cells)@, old(stack)@, sy, sx, Some((py, px))),
        mask.inside(y as int, x as int),
        adjacent(py, px, y as int, x as int),
        listed(old(cells)@, py, px),
    ensures
        flooding(*mask, before, *final(marked), final(cells)@, final(stack)@, sy, sx, Some((py, px))),
        listed(final(cells)@, py, px),
        open_at(*mask, y as int, x as int) ==> final(marked).at(y as int, x as int),
        forall|v: int, u: int|
            mask.inside(v, u) && old(marked).at(v, u) ==> #[trigger] final(marked).at(v, u),
        fill_measure(*final(marked), final(stack)@) <= fill_measure(*old(marked), old(stack)@),
{
    if mask.get(y, x) && !marked.get(y, x) {
        let ghost marked0 = *marked;
        let ghost cells0 = cells@;
        let ghost stack0 = stack@;
        proof {
            lemma_cell_index(mask.height as int, mask.width as int, y as int, x as int);
            lemma_count_false_update(marked.cells@, cell_index(mask.width as int, y as int, x as int));
            lemma_listed_push(cells0, (y, x));
            lemma_listed_push(stack0, (y, x));
        }
        marked.set(y, x, true);
        cells.push((y, x));
        stack.push((y, x));
        proof {
            // the new cell is connected to the start through its neighbour
            let i = choose|i: int| 0 <= i < cells0.len() && (#[trigger] cells0[i]).0 == py && cells0[i].1 == px;
            assert(cells0[i].0 == py && cells0[i].1 == px);
            assert(connected(*mask, sy, sx, py, px));
            lemma_connected_step(*mask, sy, sx, py, px, y as int, x as int);
            assert(connected(*mask, sy, sx, y as int, x as int));
            assert(!listed(cells0, y as int, x as int));
            assert forall|i: int| 0 <= i < cells@.len() implies {
                let c = #[trigger] cells@[i];
                open_at(*mask, c.0 as int, c.1 as int) && !before.at(c.0 as int, c.1 as int)
                    && connected(*mask, sy, sx, c.0 as int, c.1 as int)
            } by {
                if i < cells0.len() {
                    assert(cells@[i] == cells0[i]);
                }
            }
            assert forall|i: int, j: int| 0 <= i < j < cells@.len() implies cells@[i] != cells@[j] by {
                if j == cells0.len() {
                    assert(cells@[i] == cells0[i]);
                } else {
                    assert(cells@[i] == cells0[i] && cells@[j] == cells0[j]);
                }
            }
            assert forall|i: int| 0 <= i < stack@.len() implies listed(
                cells@,
                (#[trigger] stack@[i]).0 as int,
                stack@[i].1 as int,
            ) by {
                if i < stack0.len() {
                    assert(stack@[i] == stack0[i]);
                }
            }
            assert forall|i: int| 0 <= i < cells@.len() implies {
                let c = #[trigger] cells@[i];
                listed(stack@, c.0 as int, c.1 as int) || all_neighbours_marked(
                    *mask,
                    *marked,
                    c.0 as int,
                    c.1 as int,
                ) || Some((py, px)) == Some((c.0 as int, c.1 as int))
            } by {
                if i < cells0.len() {
                    assert(cells@[i] == cells0[i]);
                    let c = cells0[i];
                    if all_neighbours_marked(*mask, marked0, c.0 as int, c.1 as int) {
                        assert(all_neighbours_marked(*mask, *marked, c.0 as int, c.1 as int));
                    }
                }
            }
        }
    }
}

/// Looks at the eight neighbours of the cell `(cy, cx)`.
fn visit_around(
    mask: &Plane<bool>,
    marked: &mut Plane<bool>,
    cells: &mut Vec<(usize, usize)>,
    stack: &mut Vec<(usize, usize)>,
    cy: usize,
    cx: usize,
    Ghost(before): Ghost<Plane<bool>>,
    Ghost(sy): Ghost<int>,
    Ghost(sx): Ghost<int>,
)
    requires
        flooding(
            *mask,
            before,
            *old(marked),
            old(cells)@,
            old(stack)@,
            sy,
            sx,
            Some((cy as int, cx as int)),
        ),
        mask.inside(cy as int, cx as int),
        listed(old(cells)@, cy as int, cx as int),
    ensures
        flooding(
            *mask,
            before,
            *final(marked),
            final(cells)@,
            final(stack)@,
            sy,
            sx,
            Some((cy as int, cx as int)),
        ),
        all_neighbours_marked(*mask, *final(marked), cy as int, cx as int),
        fill_measure(*final(marked), final(stack)@) <= fill_measure(*old(marked), old(stack)@),
{
    let ghost py = cy as int;
    let ghost px = cx as int;
    let height: usize = mask.height;
    let width: usize = mask.width;
    if cy > 0 {
        if cx > 0 {
            visit(mask, marked, cells, stack, cy - 1, cx - 1, Ghost(before), Ghost(sy), Ghost(sx), Ghost(py), Ghost(px));
        }
        visit(mask, marked, cells, stack, cy - 1, cx, Ghost(before), Ghost(sy), Ghost(sx), Ghost(py), Ghost(px));
        if cx + 1 < width {
            visit(mask, marked, cells, stack, cy - 1, cx + 1, Ghost(before), Ghost(sy), Ghost(sx), Ghost(py), Ghost(px));
        }
    }
    if cx > 0 {
        visit(mask, marked, cells, stack, cy, cx - 1, Ghost(before), Ghost(sy), Ghost(sx), Ghost(py), Ghost(px));
    }
    if cx + 1 < width {
        visit(mask, marked, cells, stack, cy, cx + 1, Ghost(before), Ghost(sy), Ghost(sx), Ghost(py), Ghost(px));
    }
    if cy + 1 < height {
        if cx > 0 {
            visit(mask, marked, cells, stack, cy + 1, cx - 1, Ghost(before), Ghost(sy), Ghost(sx), Ghost(py), Ghost(px));
        }
        visit(mask, marked, cells, stack, cy + 1, cx, Ghost(before), Ghost(sy), Ghost(sx), Ghost(py), Ghost(px));
        if cx + 1 < width {
            visit(mask, marked, cells, stack, cy + 1, cx + 1, Ghost(before), Ghost(sy), Ghost(sx), Ghost(py), Ghost(px));
        }
    }
    proof {
        assert forall|v: int, u: int| adjacent(py, px, v, u) && #[trigger] open_at(*mask, v, u) implies marked.at(
            v,
            u,
        ) by {
            assert(v == py - 1 || v == py || v == py + 1);
            assert(u == px - 1 || u == px || u == px + 1);
        }
    }
}

/// Once a fill has nothing left to look at, every cell of the connected set
/// of its start is listed.
proof fn lemma_fill_complete(
    mask: Plane<bool>,
    before: Plane<bool>,
    marked: Plane<bool>,
    cells: Seq<(usize, usize)>,
    sy: int,
    sx: int,
    path: Seq<(int, int)>,
    y: int,
    x: int,
)
    requires
        flooding(mask, before, marked, cells, Seq::empty(), sy, sx, None),
        sealed(mask, before),
        joins(mask, path, sy, sx, y, x),
    ensures
        listed(cells, y, x),
    decreases path.len(),
{
    if path.len() == 1 {
        assert(cells[0].0 == y && cells[0].1 == x);
    } else {
        let shorter = path.drop_last();
        let p = shorter[shorter.len() - 1];
        assert(p == path[path.len() - 2]);
        assert forall|i: int| 0 <= i < shorter.len() implies open_at(
            mask,
            (#[trigger] shorter[i]).0,
            shorter[i].1,
        ) by {
            assert(shorter[i] == path[i]);
        }
        assert forall|i: int| 0 < i < shorter.len() implies adjacent(
            shorter[i - 1].0,
            shorter[i - 1].1,
            (#[trigger] shorter[i]).0,
            shorter[i].1,
        ) by {
            assert(shorter[i] == path[i] && shorter[i - 1] == path[i - 1]);
        }
        assert(shorter[0] == path[0]);
        assert(joins(mask, shorter, sy, sx, p.0, p.1));
        lemma_fill_complete(mask, before, marked, cells, sy, sx, shorter, p.0, p.1);
        let i = choose|i: int| 0 <= i < cells.len() && (#[trigger] cells[i]).0 == p.0 && cells[i].1 == p.1;
        let c = cells[i];
        assert(!listed(Seq::<(usize, usize)>::empty(), c.0 as int, c.1 as int));
        assert(all_neighbours_marked(mask, marked, c.0 as int, c.1 as int));
        assert(path[path.len() - 1] == (y, x));
        assert(adjacent(p.0, p.1, y, x));
        assert(open_at(mask, y, x));
        assert(marked.at(y, x));
        if before.at(y, x) {
            assert(all_neighbours_marked(mask, before, y, x));
            assert(adjacent(y, x, p.0, p.1));
            assert(open_at(mask, p.0, p.1));
            assert(before.at(p.0, p.1));
            assert(false);
        }
    }
}

/// Marks the connected set of the set cell `(sy, sx)` in `marked` and lists
/// its cells. The cells that are marked beforehand must be whole connected
/// sets that `(sy, sx)` does not belong to.
pub fn flood_fill(mask: &Plane<bool>, marked: &mut Plane<bool>, sy: usize, sx: usize) -> (cells: Vec<
    (usize, usize),
>)
    requires
        mask.wf(),
        old(marked).wf(),
        old(marked).height == mask.height,
        old(marked).width == mask.width,
        open_at(*mask, sy as int, sx as int),
        !old(marked).at(sy as int, sx as int),
        sealed(*mask, *old(marked)),
    ensures
        final(marked).wf(),
        final(marked).height == mask.height,
        final(marked).width == mask.width,
        forall|y: int, x: int|
            mask.inside(y, x) ==> #[trigger] final(marked).at(y, x) == (old(marked).at(y, x)
                || connected(*mask, sy as int, sx as int, y, x)),
        sealed(*mask, *final(marked)),
        is_component(*mask, sy as int, sx as int, cells@),
        cells@.len() > 0,
        cells@[0] == (sy, sx),
        forall|i: int|
            0 <= i < cells@.len() ==> mask.inside(
                (#[trigger] cells@[i]).0 as int,
                cells@[i].1 as int,
            ),
{
    let ghost before = *marked;
    let mut cells: Vec<(usize, usize)> = Vec::new();
    let mut stack: Vec<(usize, usize)> = Vec::new();
    marked.set(sy, sx, true);
    cells.push((sy, sx));
    stack.push((sy, sx));
    proof {
        lemma_connected_self(*mask, sy as int, sx as int);
        assert(cells@[0] == (sy, sx));
        assert(stack@[0] == (sy, sx));
        assert(listed(cells@, sy as int, sx as int));
        assert forall|y: int, x: int| mask.inside(y, x) implies #[trigger] marked.at(y, x) == (
        before.at(y, x) || listed(cells@, y, x)) by {
            if listed(cells@, y, x) {
                let i = choose|i: int| 0 <= i < cells@.len() && (#[trigger] cells@[i]).0 == y && cells@[i].1 == x;
                assert(i == 0);
            }
        }
        assert(listed(stack@, cells@[0].0 as int, cells@[0].1 as int));
        assert(flooding(*mask, before, *marked, cells@, stack@, sy as int, sx as int, None));
    }
    while stack.len() > 0
        invariant
            flooding(*mask, before, *marked, cells@, stack@, sy as int, sx as int, None),
        decreases fill_measure(*marked, stack@),
    {
        let ghost stack0 = stack@;
        let top = stack.pop().unwrap();
        let cy: usize = top.0;
        let cx: usize = top.1;
        proof {
            assert(stack0[stack0.len() - 1] == top);
            assert(listed(cells@, cy as int, cx as int));
            let k = choose|k: int| 0 <= k < cells@.len() && (#[trigger] cells@[k]).0 == cy && cells@[k].1 == cx;
            assert(open_at(*mask, cells@[k].0 as int, cells@[k].1 as int));
            assert forall|i: int| 0 <= i < stack@.len() implies listed(
                cells@,
                (#[trigger] stack@[i]).0 as int,
                stack@[i].1 as int,
            ) by {
                assert(stack@[i] == stack0[i]);
            }
            assert forall|i: int| 0 <= i < cells@.len() implies {
                let c = #[trigger] cells@[i];
                listed(stack@, c.0 as int, c.1 as int) || all_neighbours_marked(
                    *mask,
                    *marked,
                    c.0 as int,
                    c.1 as int,
                ) || Some((cy as int, cx as int)) == Some((c.0 as int, c.1 as int))
            } by {
                let c = cells@[i];
                if listed(stack0, c.0 as int, c.1 as int) {
                    let j = choose|j: int| 0 <= j < stack0.len() && (#[trigger] stack0[j]).0 == c.0 && stack0[j].1 == c.1;
                    if j < stack@.len() {
                        assert(stack@[j] == stack0[j]);
                    }
                }
            }
        }
        visit_around(
            mask,
            marked,
            &mut cells,
            &mut stack,
            cy,
            cx,
            Ghost(before),
            Ghost(sy as int),
            Ghost(sx as int),
        );
        proof {
            assert forall|i: int| 0 <= i < cells@.len() implies {
                let c = #[trigger] cells@[i];
                listed(stack@, c.0 as int, c.1 as int) || all_neighbours_marked(
                    *mask,
                    *marked,
                    c.0 as int,
                    c.1 as int,
                ) || None::<(int, int)> == Some((c.0 as int, c.1 as int))
            } by {
                let c = cells@[i];
                if c.0 == cy && c.1 == cx {
                    assert(all_neighbours_marked(*mask, *marked, c.0 as int, c.1 as int));
                }
            }
        }
    }
    proof {
        assert(stack@ =~= Seq::empty());
        assert forall|y: int, x: int| #[trigger]
            connected(*mask, sy as int, sx as int, y, x) implies listed(cells@, y, x) by {
            let path = choose|path: Seq<(int, int)>| #[trigger]
                joins(*mask, path, sy as int, sx as int, y, x);
            lemma_fill_complete(*mask, before, *marked, cells@, sy as int, sx as int, path, y, x);
        }
        assert forall|y: int, x: int| mask.inside(y, x) implies #[trigger] marked.at(y, x) == (
        before.at(y, x) || connected(*mask, sy as int, sx as int, y, x)) by {
            if listed(cells@, y, x) {
                let i = choose|i: int| 0 <= i < cells@.len() && (#[trigger] cells@[i]).0 == y && cells@[i].1 == x;
                assert(connected(*mask, sy as int, sx as int, cells@[i].0 as int, cells@[i].1 as int));
            }
        }
        assert forall|y: int, x: int| marked.inside(y, x) && #[trigger] marked.at(y, x) implies all_neighbours_marked(
            *mask,
            *marked,
            y,
            x,
        ) by {
            if before.at(y, x) {
                assert(all_neighbours_marked(*mask, before, y, x));
            } else {
                assert(listed(cells@, y, x));
                let i = choose|i: int| 0 <= i < cells@.len() && (#[trigger] cells@[i]).0 == y && cells@[i].1 == x;
                let c = cells@[i];
                assert(!listed(stack@, c.0 as int, c.1 as int));
                assert(all_neighbours_marked(*mask, *marked, c.0 as int, c.1 as int));
            }
        }
        assert forall|i: int| 0 <= i < cells@.len() implies connected(
            *mask,
            sy as int,
            sx as int,
            (#[trigger] cells@[i]).0 as int,
            cells@[i].1 as int,
        ) && mask.inside(cells@[i].0 as int, cells@[i].1 as int) by {
            let c = cells@[i];
            assert(open_at(*mask, c.0 as int, c.1 as int));
        }
    }
    cells
}

/// A walk to a cell and a walk on from it make a walk.
pub proof fn lemma_connected_trans(
    mask: Plane<bool>,
    ay: int,
    ax: int,
    by: int,
    bx: int,
    cy: int,
    cx: int,
)
    requires
        connected(mask, ay, ax, by, bx),
        connected(mask, by, bx, cy, cx),
    ensures
        connected(mask, ay, ax, cy, cx),
{
    let first = choose|path: Seq<(int, int)>| #[trigger] joins(mask, path, ay, ax, by, bx);
    let second = choose|path: Seq<(int, int)>| #[trigger] joins(mask, path, by, bx, cy, cx);
    lemma_walk_on(mask, first, second, ay, ax, by, bx, cy, cx);
}

proof fn lemma_walk_on(
    mask: Plane<bool>,
    first: Seq<(int, int)>,
    second: Seq<(int, int)>,
    ay: int,
    ax: int,
    by: int,
    bx: int,
    cy: int,
    cx: int,
)
    requires
        joins(mask, first, ay, ax, by, bx),
        joins(mask, second, by, bx, cy, cx),
    ensures
        connected(mask, ay, ax, cy, cx),
    decreases second.len(),
{
    if second.len() == 1 {
        assert(joins(mask, first, ay, ax, cy, cx));
    } else {
        let shorter = second.drop_last();
        let p = shorter[shorter.len() - 1];
        assert(p == second[second.len() - 2]);
        assert forall|i: int| 0 <= i < shorter.len() implies open_at(
            mask,
            (#[trigger] shorter[i]).0,
            shorter[i].1,
        ) by {
            assert(shorter[i] == second[i]);
        }
        assert forall|i: int| 0 < i < shorter.len() implies adjacent(
            shorter[i - 1].0,
            shorter[i - 1].1,
            (#[trigger] shorter[i]).0,
            shorter[i].1,
        ) by {
            assert(shorter[i] == second[i] && shorter[i - 1] == second[i - 1]);
        }
        assert(shorter[0] == second[0]);
        assert(joins(mask, shorter, by, bx, p.0, p.1));
        lemma_walk_on(mask, first, shorter, ay, ax, by, bx, p.0, p.1);
        assert(second[second.len() - 1] == (cy, cx));
        assert(adjacent(p.0, p.1, cy, cx));
        assert(open_at(mask, cy, cx));
        lemma_connected_step(mask, ay, ax, p.0, p.1, cy, cx);
    }
}

/// Whether the cell `(y, x)` belongs to the connected set of a seed that
/// comes before the cell `(ly, lx)`, reading row by row.
pub open spec fn traced_before(
    mask: Plane<bool>,
    seeds: Plane<bool>,
    ly: int,
    lx: int,
    y: int,
    x: int,
) -> bool {
    exists|sy: int, sx: int|
        open_at(seeds, sy, sx) && scanned_before(sy, sx, ly, lx) && #[trigger] connected(
            mask,
            sy,
            sx,
            y,
            x,
        )
}

/// Whether the cell `(y, x)` belongs to the connected set of a seed.
pub open spec fn traced(mask: Plane<bool>, seeds: Plane<bool>, y: int, x: int) -> bool {
    exists|sy: int, sx: int| open_at(seeds, sy, sx) && #[trigger] connected(mask, sy, sx, y, x)
}

/// The cells of `mask` that are connected to a seed. Every seed must be a
/// set cell of `mask`.
#[verifier::loop_isolation(false)]
pub fn trace_edges(mask: &Plane<bool>, seeds: &Plane<bool>) -> (edges: Plane<bool>)
    requires
        mask.wf(),
        seeds.wf(),
        seeds.height == mask.height,
        seeds.width == mask.width,
        forall|y: int, x: int| open_at(*seeds, y, x) ==> #[trigger] mask.at(y, x),
    ensures
        edges.wf(),
        edges.height == mask.height,
        edges.width == mask.width,
        forall|y: int, x: int|
            mask.inside(y, x) ==> #[trigger] edges.at(y, x) == traced(*mask, *seeds, y, x),
{
    let height: usize = mask.height;
    let width: usize = mask.width;
    let mut edges: Plane<bool> = Plane::filled(height, width, false);
    let mut y: usize = 0;
    while y < height
        invariant
            y <= height,
            edges.wf(),
            edges.height == height,
            edges.width == width,
            sealed(*mask, edges),
            forall|v: int, u: int|
                mask.inside(v, u) ==> #[trigger] edges.at(v, u) == traced_before(
                    *mask,
                    *seeds,
                    y as int,
                    0,
                    v,
                    u,
                ),
        decreases height - y,
    {
        let mut x: usize = 0;
        while x < width
            invariant
                y < height,
                x <= width,
                edges.wf(),
                edges.height == height,
                edges.width == width,
                sealed(*mask, edges),
                forall|v: int, u: int|
                    mask.inside(v, u) ==> #[trigger] edges.at(v, u) == traced_before(
                        *mask,
                        *seeds,
                        y as int,
                        x as int,
                        v,
                        u,
                    ),
            decreases width - x,
        {
            let ghost edges0 = edges;
            let is_seed: bool = seeds.get(y, x);
            let mut fresh: bool = false;
            if is_seed {
                if !edges.get(y, x) {
                    fresh = true;
                    let _ = flood_fill(mask, &mut edges, y, x);
                }
            }
            proof {
                assert forall|v: int, u: int| mask.inside(v, u) implies #[trigger] edges.at(v, u)
                    == traced_before(*mask, *seeds, y as int, x + 1, v, u) by {
                    let was = traced_before(*mask, *seeds, y as int, x as int, v, u);
                    let now = traced_before(*mask, *seeds, y as int, x + 1, v, u);
                    assert(edges0.at(v, u) == was);
                    if was {
                        let (sy, sx) = choose|sy: int, sx: int|
                            open_at(*seeds, sy, sx) && scanned_before(sy, sx, y as int, x as int)
                                && #[trigger] connected(*mask, sy, sx, v, u);
                        assert(scanned_before(sy, sx, y as int, x + 1) && connected(
                            *mask,
                            sy,
                            sx,
                            v,
                            u,
                        ));
                    }
                    if now {
                        let (sy, sx) = choose|sy: int, sx: int|
                            open_at(*seeds, sy, sx) && scanned_before(sy, sx, y as int, x + 1)
                                && #[trigger] connected(*mask, sy, sx, v, u);
                        if sy == y && sx == x {
                            if !fresh {
                                // the seed was reached from an earlier one
                                assert(edges0.at(y as int, x as int));
                                let (ty, tx) = choose|ty: int, tx: int|
                                    open_at(*seeds, ty, tx) && scanned_before(
                                        ty,
                                        tx,
                                        y as int,
                                        x as int,
                                    ) && #[trigger] connected(*mask, ty, tx, y as int, x as int);
                                lemma_connected_trans(*mask, ty, tx, y as int, x as int, v, u);
                                assert(scanned_before(ty, tx, y as int, x as int) && connected(
                                    *mask,
                                    ty,
                                    tx,
                                    v,
                                    u,
                                ));
                                assert(was);
                            }
                        } else {
                            assert(scanned_before(sy, sx, y as int, x as int) && connected(
                                *mask,
                                sy,
                                sx,
                                v,
                                u,
                            ));
                            assert(was);
                        }
                    }
                    if fresh && connected(*mask, y as int, x as int, v, u) {
                        assert(open_at(*seeds, y as int, x as int) && scanned_before(
                            y as int,
                            x as int,
                            y as int,
                            x + 1,
                        ) && connected(*mask, y as int, x as int, v, u));
                    }
                }
            }
            x += 1;
        }
        proof {
            assert forall|v: int, u: int| mask.inside(v, u) implies #[trigger] edges.at(v, u)
                == traced_before(*mask, *seeds, y + 1, 0, v, u) by {
                let was = traced_before(*mask, *seeds, y as int, width as int, v, u);
                let now = traced_before(*mask, *seeds, y + 1, 0, v, u);
                if was {
                    let (sy, sx) = choose|sy: int, sx: int|
                        open_at(*seeds, sy, sx) && scanned_before(sy, sx, y as int, width as int)
                            && #[trigger] connected(*mask, sy, sx, v, u);
                    assert(scanned_before(sy, sx, y + 1, 0) && connected(*mask, sy, sx, v, u));
                }
                if now {
                    let (sy, sx) = choose|sy: int, sx: int|
                        open_at(*seeds, sy, sx) && scanned_before(sy, sx, y + 1, 0)
                            && #[trigger] connected(*mask, sy, sx, v, u);
                    assert(scanned_before(sy, sx, y as int, width as int) && connected(
                        *mask,
                        sy,
                        sx,
                        v,
                        u,
                    ));
                }
            }
        }
        y += 1;
    }
    proof {
        assert forall|v: int, u: int| mask.inside(v, u) implies #[trigger] edges.at(v, u) == traced(
            *mask,
            *seeds,
            v,
            u,
        ) by {
            if traced(*mask, *seeds, v, u) {
                let (sy, sx) = choose|sy: int, sx: int|
                    open_at(*seeds, sy, sx) && #[trigger] connected(*mask, sy, sx, v, u);
                assert(scanned_before(sy, sx, height as int, 0) && connected(*mask, sy, sx, v, u));
            }
            if traced_before(*mask, *seeds, height as int, 0, v, u) {
                let (sy, sx) = choose|sy: int, sx: int|
                    open_at(*seeds, sy, sx) && scanned_before(sy, sx, height as int, 0)
                        && #[trigger] connected(*mask, sy, sx, v, u);
                assert(open_at(*seeds, sy, sx) && connected(*mask, sy, sx, v, u));
            }
        }
    }
    edges
}

} // verus!

use vstd::prelude::*;

use vstd::string::StrSliceExecFns;

verus! {

/// A cell position in a maze: `x` counts columns, `y` counts rows.
#[derive(Debug, Clone, Copy, PartialEq, Eq, Structural)]
pub struct Point {
    pub x: usize,
    pub y: usize,
}

impl Point {
    /// The point at column `x`, row `y`.
    pub fn new(x: usize, y: usize) -> (p: Point)
        ensures
            p == (Point { x, y }),
    {
        Point { x, y }
    }
}

/// A maze is a non-empty rectangle: every row has the width of the first.
pub open spec fn rect(maze: Seq<String>) -> bool {
    maze.len() > 0 && forall|i: int| 0 <= i < maze.len() ==> (#[trigger] maze[i])@.len()
        == maze[0]@.len()
}

/// The number of columns of a maze.
pub open spec fn width(maze: Seq<String>) -> nat {
    maze[0]@.len()
}

/// A point that lies on the grid and not on a wall.
pub open spec fn open_cell(maze: Seq<String>, wall: char, p: Point) -> bool {
    p.y < maze.len() && p.x < width(maze) && maze[p.y as int]@[p.x as int] != wall
}

/// The visited grid has one row per maze row and one entry per column.
spec fn seen_wf(maze: Seq<String>, seen: Seq<Vec<bool>>) -> bool {
    seen.len() == maze.len() && forall|i: int| 0 <= i < seen.len() ==> (#[trigger] seen[i])@.len()
        == width(maze)
}

/// How many entries of one visited row are still false.
spec fn row_unseen(row: Seq<bool>) -> nat
    decreases row.len(),
{
    if row.len() == 0 {
        0
    } else {
        (if row[0] {
            0nat
        } else {
            1nat
        }) + row_unseen(row.drop_first())
    }
}

/// How many entries of the whole visited grid are still false.
spec fn grid_unseen(seen: Seq<Vec<bool>>) -> nat
    decreases seen.len(),
{
    if seen.len() == 0 {
        0
    } else {
        row_unseen(seen[0]@) + grid_unseen(seen.drop_first())
    }
}

/// Marking one still-false entry of a row lowers its count by one.
proof fn lemma_row_mark(row: Seq<bool>, x: int)
    requires
        0 <= x < row.len(),
        !row[x],
    ensures
        row_unseen(row) >= 1,
        row_unseen(row.update(x, true)) == row_unseen(row) - 1,
    decreases row.len(),
{
    if x == 0 {
        assert(row.update(0, true).drop_first() =~= row.drop_first());
    } else {
        lemma_row_mark(row.drop_first(), x - 1);
        assert(row.update(x, true).drop_first() =~= row.drop_first().update(x - 1, true));
    }
}

/// Marking one still-false entry of the grid lowers its count by one.
proof fn lemma_grid_mark(s: Seq<Vec<bool>>, t: Seq<Vec<bool>>, y: int, x: int)
    requires
        0 <= y < s.len(),
        t.len() == s.len(),
        forall|i: int| 0 <= i < s.len() && i != y ==> s[i] == t[i],
        0 <= x < s[y]@.len(),
        !s[y]@[x],
        t[y]@ == s[y]@.update(x, true),
    ensures
        grid_unseen(s) >= 1,
        grid_unseen(t) == grid_unseen(s) - 1,
    decreases s.len(),
{
    if y == 0 {
        lemma_row_mark(s[0]@, x);
        assert(t.drop_first() =~= s.drop_first());
        assert(grid_unseen(t.drop_first()) == grid_unseen(s.drop_first()));
    } else {
        lemma_grid_mark(s.drop_first(), t.drop_first(), y - 1, x);
        assert(t[0] == s[0]);
    }
}

/// One step of the backtracking search. When it reports success it has
/// extended `path` by a route that starts at `curr`, ends at `end` and walks
/// only open cells; when it fails it leaves `path` as it found it. Visited
/// marks only ever accumulate.
fn walk(
    maze: &Vec<String>,
    wall: char,
    curr: Point,
    end: Point,
    seen: &mut Vec<Vec<bool>>,
    path: &mut Vec<Point>,
) -> (r: bool)
    requires
        rect(maze@),
        seen_wf(maze@, old(seen)@),
    ensures
        seen_wf(maze@, final(seen)@),
        grid_unseen(final(seen)@) <= grid_unseen(old(seen)@),
        !r ==> final(path)@ == old(path)@,
        r ==> {
            &&& final(path)@.len() > old(path)@.len()
            &&& final(path)@.subrange(0, old(path)@.len() as int) == old(path)@
            &&& final(path)@[old(path)@.len() as int] == curr
            &&& final(path)@.last() == end
            &&& forall|k: int|
                old(path)@.len() <= k < final(path)@.len() ==> open_cell(
                    maze@,
                    wall,
                    #[trigger] final(path)@[k],
                )
        },
    decreases grid_unseen(old(seen)@),
{
    // off the map
    if curr.x >= maze[0].unicode_len() || curr.y >= maze.len() {
        return false;
    }

    // on a wall
    proof {
        assert(maze@[curr.y as int]@.len() == width(maze@));
    }
    if maze[curr.y].get_char(curr.x) == wall {
        return false;
    }

    // at the destination
    if curr == end {
        path.push(curr);
        proof {
            assert(path@.subrange(0, old(path)@.len() as int) =~= old(path)@);
        }
        return true;
    }

    // already visited
    if seen[curr.y][curr.x] {
        return false;
    }

    let ghost seen0 = seen@;
    let row = &mut seen[curr.y];
    row.set(curr.x, true);
    proof {
        lemma_grid_mark(seen0, seen@, curr.y as int, curr.x as int);
    }

    path.push(curr);
    let ghost base = path@;

    if curr.y >= 1 {
        if walk(maze, wall, Point::new(curr.x, curr.y - 1), end, seen, path) {
            proof {
                assert(open_cell(maze@, wall, curr));
                assert(path@.subrange(0, base.len() as int) == base);
                assert(path@.subrange(0, old(path)@.len() as int) =~= old(path)@);
                assert(path@[old(path)@.len() as int] == base[old(path)@.len() as int]);
                assert forall|k: int|
                    old(path)@.len() <= k < path@.len() implies open_cell(
                    maze@,
                    wall,
                    #[trigger] path@[k],
                ) by {
                    if k < base.len() {
                        assert(path@[k] == base[k]);
                    }
                }
            }
            return true;
        }
    }
    if walk(maze, wall, Point::new(curr.x + 1, curr.y), end, seen, path) {
        proof {
            assert(open_cell(maze@, wall, curr));
            assert(path@.subrange(0, base.len() as int) == base);
            assert(path@.subrange(0, old(path)@.len() as int) =~= old(path)@);
            assert(path@[old(path)@.len() as int] == base[old(path)@.len() as int]);
            assert forall|k: int|
                old(path)@.len() <= k < path@.len() implies open_cell(
                maze@,
                wall,
                #[trigger] path@[k],
            ) by {
                if k < base.len() {
                    assert(path@[k] == base[k]);
                }
            }
        }
        return true;
    }
    if walk(maze, wall, Point::new(curr.x, curr.y + 1), end, seen, path) {
        proof {
            assert(open_cell(maze@, wall, curr));
            assert(path@.subrange(0, base.len() as int) == base);
            assert(path@.subrange(0, old(path)@.len() as int) =~= old(path)@);
            assert(path@[old(path)@.len() as int] == base[old(path)@.len() as int]);
            assert forall|k: int|
                old(path)@.len() <= k < path@.len() implies open_cell(
                maze@,
                wall,
                #[trigger] path@[k],
            ) by {
                if k < base.len() {
                    assert(path@[k] == base[k]);
                }
            }
        }
        return true;
    }
    if curr.x >= 1 {
        if walk(maze, wall, Point::new(curr.x - 1, curr.y), end, seen, path) {
            proof {
                assert(open_cell(maze@, wall, curr));
                assert(path@.subrange(0, base.len() as int) == base);
                assert(path@.subrange(0, old(path)@.len() as int) =~= old(path)@);
                assert(path@[old(path)@.len() as int] == base[old(path)@.len() as int]);
                assert forall|k: int|
                    old(path)@.len() <= k < path@.len() implies open_cell(
                    maze@,
                    wall,
                    #[trigger] path@[k],
                ) by {
                    if k < base.len() {
                        assert(path@[k] == base[k]);
                    }
                }
            }
            return true;
        }
    }

    path.pop();
    proof {
        assert(path@ =~= old(path)@);
    }
    false
}

/// Searches the maze for a route from `start` to `end`. A non-empty result
/// is a route that starts at `start`, ends at `end` and stays on open cells;
/// an empty result means the search found none.
pub fn solver(maze: &Vec<String>, wall: char, start: Point, end: Point) -> (path: Vec<Point>)
    requires
        rect(maze@),
    ensures
        path@.len() > 0 ==> {
            &&& path@[0] == start
            &&& path@.last() == end
            &&& forall|k: int|
                0 <= k < path@.len() ==> open_cell(maze@, wall, #[trigger] path@[k])
        },
{
    let w = maze[0].unicode_len();
    let mut seen: Vec<Vec<bool>> = Vec::new();

    while seen.len() < maze.len()
        invariant
            rect(maze@),
            seen@.len() <= maze@.len(),
            w == width(maze@),
            forall|i: int| 0 <= i < seen@.len() ==> (#[trigger] seen@[i])@.len() == width(maze@),
        decreases maze@.len() - seen@.len(),
    {
        let row: Vec<bool> = vec![false; w];
        seen.push(row);
    }

    let mut path: Vec<Point> = Vec::new();
    walk(maze, wall, start, end, &mut seen, &mut path);
    path
}

} // verus!

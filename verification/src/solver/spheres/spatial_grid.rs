//! The spatial grid of the gap-filling packer: placed spheres filed under
//! the integer cell that holds their centre, and the lookup of every sphere
//! filed in a box of cells. Which cell a centre falls in is measured by the
//! caller.
use std::collections::HashMap;
use vstd::prelude::*;

verus! {

broadcast use vstd::std_specs::hash::group_hash_axioms;

/// The key of a grid cell: its integer coordinates along x, y and z.
pub type CellKey = (i32, i32, i32);

/// Placed spheres filed by grid cell, each cell under its code
/// (`cell_code`).
pub struct SpatialGrid {
    cells: HashMap<u128, Vec<usize>>,
}

/// The code of a cell: its three coordinates, as 32-bit patterns, side by
/// side in one integer (x highest).
pub open spec fn cell_code(key: CellKey) -> u128 {
    ((key.0 as u32 as u128) << 64u128) | ((key.1 as u32 as u128) << 32u128) | (key.2 as u32 as u128)
}

/// Different cells have different codes.
pub proof fn lemma_cell_code_injective(a: CellKey, b: CellKey)
    requires
        cell_code(a) == cell_code(b),
    ensures
        a == b,
{
    let (a0, a1, a2) = (a.0 as u32, a.1 as u32, a.2 as u32);
    let (b0, b1, b2) = (b.0 as u32, b.1 as u32, b.2 as u32);
    assert(a0 == b0 && a1 == b1 && a2 == b2) by (bit_vector)
        requires
            ((a0 as u128) << 64u128) | ((a1 as u128) << 32u128) | (a2 as u128) == ((b0 as u128)
                << 64u128) | ((b1 as u128) << 32u128) | (b2 as u128),
    ;
    let (x0, x1, x2, y0, y1, y2) = (a.0, a.1, a.2, b.0, b.1, b.2);
    assert(x0 == y0 && x1 == y1 && x2 == y2) by (bit_vector)
        requires
            x0 as u32 == y0 as u32,
            x1 as u32 == y1 as u32,
            x2 as u32 == y2 as u32,
    ;
}

/// The code of a cell.
fn encode(key: CellKey) -> (code: u128)
    ensures
        code == cell_code(key),
{
    ((key.0 as u32 as u128) << 64u128) | ((key.1 as u32 as u128) << 32u128) | (key.2 as u32 as u128)
}

/// The spheres filed under `key`, none when the cell is empty.
pub open spec fn cell_contents(m: Map<CellKey, Seq<usize>>, key: CellKey) -> Seq<usize> {
    if m.dom().contains(key) {
        m[key]
    } else {
        Seq::empty()
    }
}

/// The contents of the cells `(x, y, z)` for `z` in `z_lo..z_hi`, in order.
pub open spec fn z_run(m: Map<CellKey, Seq<usize>>, x: int, y: int, z_lo: int, z_hi: int) -> Seq<
    usize,
>
    decreases z_hi - z_lo,
{
    if z_hi <= z_lo {
        Seq::empty()
    } else {
        z_run(m, x, y, z_lo, z_hi - 1) + cell_contents(m, (x as i32, y as i32, (z_hi - 1) as i32))
    }
}

/// The contents of the cells `(x, y, z)` for `y` in `y_lo..y_hi` and `z` in
/// `z_lo..z_hi`, `y` outer.
pub open spec fn y_run(
    m: Map<CellKey, Seq<usize>>,
    x: int,
    y_lo: int,
    y_hi: int,
    z_lo: int,
    z_hi: int,
) -> Seq<usize>
    decreases y_hi - y_lo,
{
    if y_hi <= y_lo {
        Seq::empty()
    } else {
        y_run(m, x, y_lo, y_hi - 1, z_lo, z_hi) + z_run(m, x, y_hi - 1, z_lo, z_hi)
    }
}

/// The contents of the cells of the box `x_lo..x_hi`, `y_lo..y_hi`,
/// `z_lo..z_hi`, `x` outermost and `z` innermost.
pub open spec fn x_run(
    m: Map<CellKey, Seq<usize>>,
    x_lo: int,
    x_hi: int,
    y_lo: int,
    y_hi: int,
    z_lo: int,
    z_hi: int,
) -> Seq<usize>
    decreases x_hi - x_lo,
{
    if x_hi <= x_lo {
        Seq::empty()
    } else {
        x_run(m, x_lo, x_hi - 1, y_lo, y_hi, z_lo, z_hi) + y_run(m, x_hi - 1, y_lo, y_hi, z_lo, z_hi)
    }
}

/// What a query of the box of cells from `min_key` to `max_key`, both
/// included, returns.
pub open spec fn query_spec(m: Map<CellKey, Seq<usize>>, min_key: CellKey, max_key: CellKey) -> Seq<
    usize,
> {
    x_run(
        m,
        min_key.0 as int,
        max_key.0 + 1,
        min_key.1 as int,
        max_key.1 + 1,
        min_key.2 as int,
        max_key.2 + 1,
    )
}

impl SpatialGrid {
    /// The spheres filed under each non-empty cell.
    pub closed spec fn view(&self) -> Map<CellKey, Seq<usize>> {
        Map::new(
            |k: CellKey| self.cells@.contains_key(cell_code(k)),
            |k: CellKey| self.cells@[cell_code(k)]@,
        )
    }

    /// An empty grid.
    pub fn new() -> (grid: Self)
        ensures
            grid.view() == Map::<CellKey, Seq<usize>>::empty(),
    {
        let grid = SpatialGrid { cells: HashMap::new() };
        proof {
            assert(grid.view() =~= Map::<CellKey, Seq<usize>>::empty());
        }
        grid
    }

    /// The spheres filed under `key`, in filing order.
    pub fn cell(&self, key: CellKey) -> (r: Vec<usize>)
        ensures
            r@ == cell_contents(self.view(), key),
    {
        match self.cells.get(&encode(key)) {
            Some(found) => found.clone(),
            None => Vec::new(),
        }
    }

    /// Files the sphere `index` under the cell `key`, after those already
    /// there.
    pub fn insert(&mut self, key: CellKey, index: usize)
        ensures
            final(self).view() == old(self).view().insert(
                key,
                cell_contents(old(self).view(), key).push(index),
            ),
    {
        let ghost old_view = self.view();
        let code = encode(key);
        let mut filed = match self.cells.remove(&code) {
            Some(found) => found,
            None => Vec::new(),
        };
        filed.push(index);
        self.cells.insert(code, filed);
        proof {
            let expected = old_view.insert(key, cell_contents(old_view, key).push(index));
            assert forall|k: CellKey| #[trigger] self.view().dom().contains(k) == expected.dom().contains(k) by {
                if cell_code(k) == code {
                    lemma_cell_code_injective(k, key);
                }
            }
            assert forall|k: CellKey| #[trigger] self.view().dom().contains(k) implies self.view()[k]
                == expected[k] by {
                if cell_code(k) == code {
                    lemma_cell_code_injective(k, key);
                }
            }
            assert(self.view() =~= expected);
        }
    }

    /// Every sphere filed in the box of cells from `min_key` to `max_key`,
    /// both included: cell by cell, `x` outermost and `z` innermost, each
    /// cell's spheres in filing order.
    pub fn query(&self, min_key: CellKey, max_key: CellKey) -> (result: Vec<usize>)
        ensures
            result@ == query_spec(self.view(), min_key, max_key),
    {
        let mut result: Vec<usize> = Vec::new();
        let x_end: i64 = max_key.0 as i64 + 1;
        let y_end: i64 = max_key.1 as i64 + 1;
        let z_end: i64 = max_key.2 as i64 + 1;
        let ghost m = self.view();
        let mut x: i64 = min_key.0 as i64;
        while x < x_end
            invariant
                m == self.view(),
                x_end == max_key.0 + 1,
                y_end == max_key.1 + 1,
                z_end == max_key.2 + 1,
                min_key.0 <= x <= x_end || (x == min_key.0 && x_end < x),
                result@ == x_run(m, min_key.0 as int, x as int, min_key.1 as int, y_end as int, min_key.2 as int, z_end as int),
            decreases x_end - x,
        {
            let ghost before_x = result@;
            let mut y: i64 = min_key.1 as i64;
            while y < y_end
                invariant
                        m == self.view(),
                    min_key.0 <= x < x_end <= i32::MAX + 1,
                    y_end == max_key.1 + 1,
                    z_end == max_key.2 + 1,
                    min_key.1 <= y <= y_end || (y == min_key.1 && y_end < y),
                    result@ == before_x + y_run(m, x as int, min_key.1 as int, y as int, min_key.2 as int, z_end as int),
                decreases y_end - y,
            {
                let ghost before_y = result@;
                let mut z: i64 = min_key.2 as i64;
                while z < z_end
                    invariant
                                m == self.view(),
                        min_key.0 <= x < x_end <= i32::MAX + 1,
                        min_key.1 <= y < y_end <= i32::MAX + 1,
                        z_end == max_key.2 + 1,
                        min_key.2 <= z <= z_end || (z == min_key.2 && z_end < z),
                        result@ == before_y + z_run(m, x as int, y as int, min_key.2 as int, z as int),
                    decreases z_end - z,
                {
                    let key: CellKey = (x as i32, y as i32, z as i32);
                    let found = self.cell(key);
                    let ghost before_z = result@;
                    let mut t: usize = 0;
                    while t < found.len()
                        invariant
                            0 <= t <= found.len(),
                            result@ == before_z + found@.take(t as int),
                        decreases found.len() - t,
                    {
                        result.push(found[t]);
                        t += 1;
                        proof {
                            assert(result@ =~= before_z + found@.take(t as int));
                        }
                    }
                    proof {
                        assert(found@.take(found.len() as int) =~= found@);
                        assert(result@ =~= before_z + cell_contents(m, key));
                    }
                    z += 1;
                    proof {
                        assert(result@ =~= before_y + z_run(m, x as int, y as int, min_key.2 as int, z as int));
                    }
                }
                y += 1;
                proof {
                    assert(result@ =~= before_x + y_run(m, x as int, min_key.1 as int, y as int, min_key.2 as int, z_end as int));
                }
            }
            x += 1;
            proof {
                assert(result@ =~= x_run(m, min_key.0 as int, x as int, min_key.1 as int, y_end as int, min_key.2 as int, z_end as int));
            }
        }
        result
    }
}

} // verus!

use vstd::prelude::*;

verus! {

/// Number of cells on the grid.
pub const GRID_CELLS: usize = 100;

/// The serialized index of the cell `(x, y)`: rows of ten, lowest row first.
pub open spec fn cell_index(x: int, y: int) -> int {
    10 * y + x
}

/// A ship of length `L`, given by the cell of its head and its orientation:
/// `z == false` lays it along increasing `x`, `z == true` along increasing `y`.
#[derive(Debug, Clone, Copy)]
pub struct Ship<const L: usize> {
    pub x: u8,
    pub y: u8,
    pub z: bool,
}

impl<const L: usize> Ship<L> {
    /// Column of the cell `k` steps from the head.
    pub open spec fn cell_x(self, k: int) -> int {
        if self.z {
            self.x as int
        } else {
            self.x + k
        }
    }

    /// Row of the cell `k` steps from the head.
    pub open spec fn cell_y(self, k: int) -> int {
        if self.z {
            self.y + k
        } else {
            self.y as int
        }
    }

    /// Serialized index of the cell `k` steps from the head.
    pub open spec fn cell(self, k: int) -> int {
        cell_index(self.cell_x(k), self.cell_y(k))
    }

    /// The ship lies on the grid: head and tail are both within `[0, 9]` on
    /// both axes.
    pub open spec fn in_range(self) -> bool {
        &&& self.cell_x(L - 1) <= 9
        &&& self.cell_y(L - 1) <= 9
        &&& self.x <= 9
        &&& self.y <= 9
    }

    /// Every cell index of the ship fits the index type.
    pub open spec fn indexable(self) -> bool {
        L > 0 ==> self.cell(L - 1) <= u8::MAX
    }

    /// Every cell index of the ship is the index of some grid cell. This is
    /// weaker than `in_range`: a horizontal ship may run over the end of its
    /// row into the next one.
    pub open spec fn on_grid(self) -> bool {
        L > 0 ==> self.cell(L - 1) < GRID_CELLS
    }

    /// The ship occupies the cell `(x, y)`.
    pub open spec fn covers(self, x: int, y: int) -> bool {
        exists|k: int| 0 <= k < L && self.cell_x(k) == x && self.cell_y(k) == y
    }

    /// The ship occupies the cell with serialized index `i`.
    pub open spec fn occupies(self, i: int) -> bool {
        exists|k: int| 0 <= k < L && #[trigger] self.cell(k) == i
    }

    pub fn new(x: u8, y: u8, z: bool) -> (ship: Self)
        ensures
            ship.x == x,
            ship.y == y,
            ship.z == z,
    {
        Self { x, y, z }
    }

    /// The serialized indices of the cells the ship occupies, head first.
    /// No range is checked: the indices only have to fit a byte.
    pub fn coordinates(&self) -> (cells: [u8; L])
        requires
            self.indexable(),
        ensures
            forall|k: int| 0 <= k < L ==> #[trigger] cells[k] == self.cell(k),
    {
        let mut cells: [u8; L] = [0u8; L];
        let mut i: usize = 0;
        while i < L
            invariant
                i <= L,
                self.indexable(),
                forall|k: int| 0 <= k < i ==> #[trigger] cells[k] == self.cell(k),
            decreases L - i,
        {
            let step: u8 = i as u8;
            let x: u8 = if self.z { self.x } else { self.x + step };
            let y: u8 = if self.z { self.y + step } else { self.y };
            cells[i] = y * 10 + x;
            i += 1;
        }
        cells
    }

    /// The placement as the triple `(x, y, z)`.
    pub fn canonical(&self) -> (triple: (u8, u8, bool))
        ensures
            triple == (self.x, self.y, self.z),
    {
        (self.x, self.y, self.z)
    }

    /// Tells whether every cell index of the ship is the index of a grid
    /// cell.
    pub fn is_on_grid(&self) -> (ok: bool)
        ensures
            ok == self.on_grid(),
    {
        if L == 0 {
            return true;
        }
        if L > 100 {
            return false;
        }
        let reach: usize = L - 1;
        let x: usize = self.x as usize;
        let y: usize = self.y as usize;
        if self.z {
            10 * (y + reach) + x < 100
        } else {
            10 * y + x + reach < 100
        }
    }

    /// Tells whether the ship lies on the grid.
    pub fn is_in_range(&self) -> (ok: bool)
        ensures
            ok == (L > 0 && self.in_range()),
    {
        if L == 0 || L > 10 || self.x > 9 || self.y > 9 {
            return false;
        }
        let reach: u8 = (L - 1) as u8;
        if self.z {
            self.y + reach <= 9
        } else {
            self.x + reach <= 9
        }
    }
}

/// Two ships occupy a common cell.
pub open spec fn ships_overlap<const A: usize, const B: usize>(a: Ship<A>, b: Ship<B>) -> bool {
    exists|i: int| a.occupies(i) && b.occupies(i)
}

/// Tells whether two ships occupy a common cell.
pub fn overlap<const A: usize, const B: usize>(a: &Ship<A>, b: &Ship<B>) -> (found: bool)
    requires
        a.indexable(),
        b.indexable(),
    ensures
        found == ships_overlap(*a, *b),
{
    let left = a.coordinates();
    let right = b.coordinates();
    let mut i: usize = 0;
    while i < A
        invariant
            i <= A,
            forall|k: int| 0 <= k < A ==> #[trigger] left[k] == a.cell(k),
            forall|k: int| 0 <= k < B ==> #[trigger] right[k] == b.cell(k),
            forall|k: int, m: int|
                0 <= k < i && 0 <= m < B ==> #[trigger] a.cell(k) != #[trigger] b.cell(m),
        decreases A - i,
    {
        let mut j: usize = 0;
        while j < B
            invariant
                i < A,
                j <= B,
                forall|k: int| 0 <= k < A ==> #[trigger] left[k] == a.cell(k),
                forall|k: int| 0 <= k < B ==> #[trigger] right[k] == b.cell(k),
                forall|m: int| 0 <= m < j ==> a.cell(i as int) != #[trigger] b.cell(m),
            decreases B - j,
        {
            if left[i] == right[j] {
                proof {
                    let at = a.cell(i as int);
                    assert(a.cell(i as int) == at && b.cell(j as int) == at);
                    assert(a.occupies(at) && b.occupies(at));
                }
                return true;
            }
            j += 1;
        }
        i += 1;
    }
    proof {
        if ships_overlap(*a, *b) {
            let at = choose|at: int| a.occupies(at) && b.occupies(at);
            let k = choose|k: int| 0 <= k < A && #[trigger] a.cell(k) == at;
            let m = choose|m: int| 0 <= m < B && #[trigger] b.cell(m) == at;
            assert(a.cell(k) != b.cell(m));
        }
    }
    false
}

} // verus!

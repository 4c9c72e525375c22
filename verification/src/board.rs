use vstd::prelude::*;
use vstd::arithmetic::power2::{lemma2_to64, lemma_pow2_adds, lemma_pow2_strictly_increases};
use vstd::set_lib::{lemma_int_range, lemma_len_subset, lemma_map_size_bound, set_int_range};
use crate::field::{is_canonical, ORDER};
use crate::packing::{
    bit_of, le_value, lemma_bit_of_le_value, lemma_le_value_bound, lemma_le_value_gap, pack_bits,
    read_bit,
};
use crate::render::{drawing, render_bits};
use crate::ship::{cell_index, overlap, ships_overlap, Ship};

verus! {

/// The five ships of one player, in the fixed order of their lengths
/// 5, 4, 3, 3, 2.
#[derive(Debug, Clone, Copy)]
pub struct Board {
    pub carrier: Ship<5>,
    pub battleship: Ship<4>,
    pub cruiser: Ship<3>,
    pub submarine: Ship<3>,
    pub destroyer: Ship<2>,
}

impl Board {
    /// Some ship of the board occupies the cell with serialized index `i`.
    pub open spec fn occupied(self, i: int) -> bool {
        ||| self.carrier.occupies(i)
        ||| self.battleship.occupies(i)
        ||| self.cruiser.occupies(i)
        ||| self.submarine.occupies(i)
        ||| self.destroyer.occupies(i)
    }

    /// Every cell index of every ship is the index of a grid cell.
    pub open spec fn on_grid(self) -> bool {
        &&& self.carrier.on_grid()
        &&& self.battleship.on_grid()
        &&& self.cruiser.on_grid()
        &&& self.submarine.on_grid()
        &&& self.destroyer.on_grid()
    }

    /// Every ship lies on the grid with head and tail.
    pub open spec fn in_range(self) -> bool {
        &&& self.carrier.in_range()
        &&& self.battleship.in_range()
        &&& self.cruiser.in_range()
        &&& self.submarine.in_range()
        &&& self.destroyer.in_range()
    }

    /// No two ships occupy a common cell.
    pub open spec fn no_overlap(self) -> bool {
        &&& !ships_overlap(self.carrier, self.battleship)
        &&& !ships_overlap(self.carrier, self.cruiser)
        &&& !ships_overlap(self.battleship, self.cruiser)
        &&& !ships_overlap(self.carrier, self.submarine)
        &&& !ships_overlap(self.battleship, self.submarine)
        &&& !ships_overlap(self.cruiser, self.submarine)
        &&& !ships_overlap(self.carrier, self.destroyer)
        &&& !ships_overlap(self.battleship, self.destroyer)
        &&& !ships_overlap(self.cruiser, self.destroyer)
        &&& !ships_overlap(self.submarine, self.destroyer)
    }

    /// The board is a legal placement: all ships on the grid, none over
    /// another.
    pub open spec fn valid(self) -> bool {
        self.in_range() && self.no_overlap()
    }

    /// The occupancy bitmap: one bit per cell, in the order of the cell indices.
    pub open spec fn bitmap(self) -> Seq<bool> {
        Seq::new(100, |i: int| self.occupied(i))
    }

    /// The two words of the packed bitmap: cells 0 to 63, then cells 64 to 99.
    pub open spec fn limbs(self) -> Seq<u64> {
        seq![
            le_value(self.bitmap().subrange(0, 64)) as u64,
            le_value(self.bitmap().subrange(64, 100)) as u64,
        ]
    }

    pub fn new(
        carrier: Ship<5>,
        battleship: Ship<4>,
        cruiser: Ship<3>,
        submarine: Ship<3>,
        destroyer: Ship<2>,
    ) -> (board: Self)
        ensures
            board.carrier == carrier,
            board.battleship == battleship,
            board.cruiser == cruiser,
            board.submarine == submarine,
            board.destroyer == destroyer,
    {
        Self { carrier, battleship, cruiser, submarine, destroyer }
    }

    /// Marks the cells of `ship` on `board`; cells already marked stay marked.
    pub fn add_ship<const L: usize>(ship: &Ship<L>, board: &mut [bool; 100])
        requires
            ship.on_grid(),
        ensures
            forall|i: int|
                0 <= i < 100 ==> #[trigger] final(board)[i] == (old(board)[i] || ship.occupies(i)),
    {
        let cells = ship.coordinates();
        let mut k: usize = 0;
        while k < L
            invariant
                k <= L,
                ship.on_grid(),
                forall|j: int| 0 <= j < L ==> #[trigger] cells[j] == ship.cell(j),
                forall|i: int|
                    0 <= i < 100 ==> #[trigger] board[i] == (old(board)[i] || exists|j: int|
                        0 <= j < k && #[trigger] ship.cell(j) == i),
            decreases L - k,
        {
            let cell: usize = cells[k] as usize;
            assert(ship.cell(k as int) <= ship.cell(L - 1));
            board[cell] = true;
            k += 1;
        }
    }

    /// The occupancy bitmap of the board.
    pub fn bits(&self) -> (bits: [bool; 100])
        requires
            self.on_grid(),
        ensures
            bits@ == self.bitmap(),
    {
        let mut board: [bool; 100] = [false; 100];
        Board::add_ship(&self.carrier, &mut board);
        Board::add_ship(&self.battleship, &mut board);
        Board::add_ship(&self.cruiser, &mut board);
        Board::add_ship(&self.submarine, &mut board);
        Board::add_ship(&self.destroyer, &mut board);
        assert(board@ =~= self.bitmap());
        board
    }

    /// The bitmap packed little-endian into a 128-bit word, given as its
    /// low and high halves. The top 28 bits are zero.
    pub fn canonical(&self) -> (limbs: [u64; 2])
        requires
            self.on_grid(),
        ensures
            limbs@ == self.limbs(),
    {
        let bits = self.bits();
        let low = pack_bits(&bits, 0, 64);
        let high = pack_bits(&bits, 64, 36);
        let limbs: [u64; 2] = [low, high];
        assert(limbs@ =~= self.limbs());
        limbs
    }

    /// A legal placement lies on the grid.
    pub proof fn lemma_valid_on_grid(self)
        requires
            self.valid(),
        ensures
            self.on_grid(),
    {
    }

    /// Tells whether every cell index of every ship is the index of a grid
    /// cell.
    pub fn is_on_grid(&self) -> (ok: bool)
        ensures
            ok == self.on_grid(),
    {
        self.carrier.is_on_grid() && self.battleship.is_on_grid() && self.cruiser.is_on_grid()
            && self.submarine.is_on_grid() && self.destroyer.is_on_grid()
    }

    /// Tells whether the board is a legal placement.
    pub fn is_valid(&self) -> (ok: bool)
        ensures
            ok == self.valid(),
    {
        if !(self.carrier.is_in_range() && self.battleship.is_in_range()
            && self.cruiser.is_in_range() && self.submarine.is_in_range()
            && self.destroyer.is_in_range()) {
            return false;
        }
        !(overlap(&self.carrier, &self.battleship) || overlap(&self.carrier, &self.cruiser)
            || overlap(&self.battleship, &self.cruiser) || overlap(
            &self.carrier,
            &self.submarine,
        ) || overlap(&self.battleship, &self.submarine) || overlap(
            &self.cruiser,
            &self.submarine,
        ) || overlap(&self.carrier, &self.destroyer) || overlap(
            &self.battleship,
            &self.destroyer,
        ) || overlap(&self.cruiser, &self.destroyer) || overlap(
            &self.submarine,
            &self.destroyer,
        ))
    }
}

/// The cell of the `t`-th of the seventeen ship segments of a board: first
/// the five of the carrier, then four, three, three and two.
pub open spec fn segment_cell(board: Board, t: int) -> int {
    if t < 5 {
        board.carrier.cell(t)
    } else if t < 9 {
        board.battleship.cell(t - 5)
    } else if t < 12 {
        board.cruiser.cell(t - 9)
    } else if t < 15 {
        board.submarine.cell(t - 12)
    } else {
        board.destroyer.cell(t - 15)
    }
}

/// Every occupied cell is the cell of one of the seventeen segments.
pub proof fn lemma_occupied_by_segment(board: Board, i: int) -> (t: int)
    requires
        board.occupied(i),
    ensures
        0 <= t < 17,
        segment_cell(board, t) == i,
{
    if board.carrier.occupies(i) {
        choose|k: int| 0 <= k < 5 && #[trigger] board.carrier.cell(k) == i
    } else if board.battleship.occupies(i) {
        5 + choose|k: int| 0 <= k < 4 && #[trigger] board.battleship.cell(k) == i
    } else if board.cruiser.occupies(i) {
        9 + choose|k: int| 0 <= k < 3 && #[trigger] board.cruiser.cell(k) == i
    } else if board.submarine.occupies(i) {
        12 + choose|k: int| 0 <= k < 3 && #[trigger] board.submarine.cell(k) == i
    } else {
        15 + choose|k: int| 0 <= k < 2 && #[trigger] board.destroyer.cell(k) == i
    }
}

/// Among any thirty-two cells in a row one is free: a board has only
/// seventeen segments.
pub proof fn lemma_free_cell(board: Board, from: int) -> (i: int)
    ensures
        from <= i < from + 32,
        !board.occupied(i),
{
    let cells = set_int_range(from, from + 32);
    if forall|i: int| from <= i < from + 32 ==> board.occupied(i) {
        let segments = set_int_range(0, 17);
        let cell_of = |t: int| segment_cell(board, t);
        let image = segments.map(cell_of);
        lemma_int_range(0, 17);
        lemma_int_range(from, from + 32);
        lemma_map_size_bound(segments, image, cell_of);
        assert(cells.subset_of(image)) by {
            assert forall|i: int| cells.contains(i) implies image.contains(i) by {
                let t = lemma_occupied_by_segment(board, i);
                assert(segments.contains(t) && cell_of(t) == i);
            }
        }
        lemma_len_subset(cells, image);
        arbitrary()
    } else {
        choose|i: int| from <= i < from + 32 && !board.occupied(i)
    }
}

impl Board {
    /// Both words of the packed bitmap are field elements, and the sums
    /// that define them fit their words.
    pub proof fn lemma_limbs_canonical(self)
        ensures
            le_value(self.bitmap().subrange(0, 64)) < ORDER,
            le_value(self.bitmap().subrange(64, 100)) < 0x10_0000_0000,
            is_canonical(self.limbs()[0]),
            is_canonical(self.limbs()[1]),
    {
        let low = self.bitmap().subrange(0, 64);
        let i = lemma_free_cell(self, 32);
        assert(!low[i]);
        lemma_le_value_gap(low, i);
        lemma2_to64();
        if i > 32 {
            lemma_pow2_strictly_increases(32, i as nat);
        }
        lemma_le_value_bound(self.bitmap().subrange(64, 100));
        lemma_pow2_adds(32, 4);
    }
}

impl Board {
    /// Unpacks the two words of a packed bitmap into the bits of the 100
    /// cells.
    pub fn unpack(limbs: &[u64; 2]) -> (bits: [bool; 100])
        ensures
            forall|i: int|
                0 <= i < 100 ==> #[trigger] bits[i] == bit_of(limbs[i / 64] as nat, (i % 64) as nat),
    {
        let mut bits: [bool; 100] = [false; 100];
        let mut i: usize = 0;
        while i < 100
            invariant
                i <= 100,
                forall|j: int|
                    0 <= j < i ==> #[trigger] bits[j] == bit_of(
                        limbs[j / 64] as nat,
                        (j % 64) as nat,
                    ),
            decreases 100 - i,
        {
            bits[i] = read_bit(limbs[i / 64], i % 64);
            i += 1;
        }
        bits
    }

    /// The commitment to the board: what `hasher` returns for the two words
    /// of its packed bitmap.
    pub fn hash<H: Fn([u64; 2]) -> [u64; 4]>(&self, hasher: H) -> (digest: [u64; 4])
        requires
            self.on_grid(),
            forall|limbs: [u64; 2]| call_requires(hasher, (limbs,)),
        ensures
            exists|limbs: [u64; 2]| limbs@ == self.limbs() && call_ensures(hasher, (limbs,), digest),
    {
        hasher(self.canonical())
    }

    /// Packing the bitmap and unpacking it again gives the bitmap back.
    pub proof fn lemma_round_trip(self, i: int)
        requires
            0 <= i < 100,
        ensures
            bit_of(self.limbs()[i / 64] as nat, (i % 64) as nat) == self.bitmap()[i],
    {
        self.lemma_limbs_canonical();
        if i < 64 {
            lemma_bit_of_le_value(self.bitmap().subrange(0, 64), i);
        } else {
            lemma_bit_of_le_value(self.bitmap().subrange(64, 100), i - 64);
        }
    }

    /// Some ship of the board covers the cell in column `x` and row `y`.
    pub open spec fn covers(self, x: int, y: int) -> bool {
        ||| self.carrier.covers(x, y)
        ||| self.battleship.covers(x, y)
        ||| self.cruiser.covers(x, y)
        ||| self.submarine.covers(x, y)
        ||| self.destroyer.covers(x, y)
    }

    /// On a board whose ships lie on the grid, the bit of a cell is set
    /// exactly where a ship covers the cell.
    pub proof fn lemma_bitmap_is_cover(self, x: int, y: int)
        requires
            self.in_range(),
            0 <= x < 10,
            0 <= y < 10,
        ensures
            self.bitmap()[cell_index(x, y)] <==> self.covers(x, y),
    {
        lemma_ship_cover(self.carrier, x, y);
        lemma_ship_cover(self.battleship, x, y);
        lemma_ship_cover(self.cruiser, x, y);
        lemma_ship_cover(self.submarine, x, y);
        lemma_ship_cover(self.destroyer, x, y);
    }
}

/// A ship on the grid occupies the index of a cell exactly where it covers
/// the cell.
pub proof fn lemma_ship_cover<const L: usize>(ship: Ship<L>, x: int, y: int)
    requires
        ship.in_range(),
        0 <= x < 10,
        0 <= y < 10,
    ensures
        ship.occupies(cell_index(x, y)) <==> ship.covers(x, y),
{
    if ship.occupies(cell_index(x, y)) {
        let k = choose|k: int| 0 <= k < L && #[trigger] ship.cell(k) == cell_index(x, y);
        assert(ship.cell_x(k) == x && ship.cell_y(k) == y);
    }
    if ship.covers(x, y) {
        let k = choose|k: int| 0 <= k < L && ship.cell_x(k) == x && ship.cell_y(k) == y;
        assert(ship.cell(k) == cell_index(x, y));
    }
}

impl Board {
    /// The drawing of the board, line by line.
    pub fn render(&self) -> (lines: Vec<String>)
        requires
            self.on_grid(),
        ensures
            lines@.len() == 13,
            forall|k: int| 0 <= k < 13 ==> (#[trigger] lines@[k])@ == drawing(self.bitmap())[k],
    {
        let bits = self.bits();
        render_bits(&bits)
    }

    /// The drawing of the board that the two words of a packed bitmap
    /// stand for, line by line.
    pub fn render_canonical(board: &[u64; 2]) -> (lines: Vec<String>)
        ensures
            lines@.len() == 13,
            forall|k: int|
                0 <= k < 13 ==> (#[trigger] lines@[k])@ == drawing(
                    Seq::new(100, |i: int| bit_of(board[i / 64] as nat, (i % 64) as nat)),
                )[k],
    {
        let bits = Board::unpack(board);
        assert(bits@ =~= Seq::new(100, |i: int| bit_of(board[i / 64] as nat, (i % 64) as nat)));
        render_bits(&bits)
    }
}

} // verus!

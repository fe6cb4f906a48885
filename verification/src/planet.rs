//! The terrain: kinds of cell, their looks and worth, and the square grid
//! that holds them.

use crate::chance::random_below;
use vstd::prelude::*;

verus! {

/// What a cell of the grid is made of.
#[derive(Debug, Clone, Copy, PartialEq, Eq, Structural)]
pub enum CellType {
    Air,
    Rock,
    Stone,
    Bedrock,
    Water,
    Rover,
}

/// A colour as red, green and blue.
#[derive(Debug, Clone, Copy, PartialEq, Eq, Structural)]
pub struct CellColor {
    pub r: u8,
    pub g: u8,
    pub b: u8,
}

/// What every kind of terrain can tell about itself.
pub trait CellTrait {
    /// The colour the kind is drawn in.
    spec fn color(&self) -> CellColor;

    /// Whether digging turns the kind into air.
    spec fn is_mineable(&self) -> bool;

    fn get_color(&self) -> (color: CellColor)
        ensures
            color == self.color(),
    ;

    fn mineable(&self) -> (mineable: bool)
        ensures
            mineable == self.is_mineable(),
    ;
}

impl CellTrait for CellType {
    open spec fn color(&self) -> CellColor {
        match self {
            CellType::Air => CellColor { r: 250, g: 165, b: 0 },
            CellType::Rock => CellColor { r: 128, g: 100, b: 64 },
            CellType::Stone => CellColor { r: 64, g: 64, b: 64 },
            CellType::Bedrock => CellColor { r: 0, g: 0, b: 0 },
            CellType::Water => CellColor { r: 0, g: 0, b: 255 },
            CellType::Rover => CellColor { r: 255, g: 0, b: 0 },
        }
    }

    open spec fn is_mineable(&self) -> bool {
        *self == CellType::Rock || *self == CellType::Stone
    }

    fn get_color(&self) -> (color: CellColor) {
        match self {
            CellType::Air => CellColor { r: 250, g: 165, b: 0 },
            CellType::Rock => CellColor { r: 128, g: 100, b: 64 },
            CellType::Stone => CellColor { r: 64, g: 64, b: 64 },
            CellType::Bedrock => CellColor { r: 0, g: 0, b: 0 },
            CellType::Water => CellColor { r: 0, g: 0, b: 255 },
            CellType::Rover => CellColor { r: 255, g: 0, b: 0 },
        }
    }

    fn mineable(&self) -> (mineable: bool) {
        match self {
            CellType::Air => false,
            CellType::Rock => true,
            CellType::Stone => true,
            CellType::Bedrock => false,
            CellType::Water => false,
            CellType::Rover => false,
        }
    }
}

impl CellType {
    /// The character a cell of this kind is printed as.
    pub open spec fn glyph_of(self) -> char {
        match self {
            CellType::Air => ' ',
            CellType::Rock => '.',
            CellType::Stone => 'o',
            CellType::Bedrock => 'X',
            CellType::Rover => 'R',
            CellType::Water => 'W',
        }
    }

    /// The points a rover earns for digging a cell of this kind out.
    pub open spec fn reward_of(self) -> nat {
        match self {
            CellType::Rock => 10,
            CellType::Stone => 100,
            _ => 0,
        }
    }

    pub fn glyph(&self) -> (glyph: char)
        ensures
            glyph == self.glyph_of(),
    {
        match self {
            CellType::Air => ' ',
            CellType::Rock => '.',
            CellType::Stone => 'o',
            CellType::Bedrock => 'X',
            CellType::Rover => 'R',
            CellType::Water => 'W',
        }
    }

    /// The glyph as a string of its own.
    pub fn to_string(&self) -> (text: String)
        ensures
            text@ == seq![self.glyph_of()],
    {
        proof {
            reveal_strlit(" ");
            reveal_strlit(".");
            reveal_strlit("o");
            reveal_strlit("X");
            reveal_strlit("R");
            reveal_strlit("W");
        }
        let glyph = match self {
            CellType::Air => " ",
            CellType::Rock => ".",
            CellType::Stone => "o",
            CellType::Bedrock => "X",
            CellType::Rover => "R",
            CellType::Water => "W",
        };
        assert(glyph@ =~= seq![self.glyph_of()]);
        String::from_str(glyph)
    }

    pub fn reward(&self) -> (points: u32)
        ensures
            points == self.reward_of(),
    {
        match self {
            CellType::Air => 0,
            CellType::Rock => 10,
            CellType::Stone => 100,
            CellType::Bedrock => 0,
            CellType::Rover => 0,
            CellType::Water => 0,
        }
    }
}

/// One square of the grid: what it is made of and where it lies.
#[derive(Debug, Clone, Copy, PartialEq, Eq, Structural)]
pub struct Cell {
    pub cell_type: CellType,
    pub x: i32,
    pub y: i32,
}

impl Cell {
    pub fn new(cell_type: CellType, x: i32, y: i32) -> (cell: Cell)
        ensures
            cell == (Cell { cell_type, x, y }),
    {
        Cell { cell_type, x, y }
    }
}

/// The grid as mathematics: a side length and the kinds of its cells, row
/// after row.
pub struct Grid {
    pub size: nat,
    pub kinds: Seq<CellType>,
}

impl Grid {
    /// There is one kind for every position of the square.
    pub open spec fn wf(self) -> bool {
        self.kinds.len() == self.size * self.size
    }

    /// Whether `(x, y)` lies on the grid.
    pub open spec fn contains(self, x: int, y: int) -> bool {
        0 <= x < self.size && 0 <= y < self.size
    }

    /// Where the cell at `(x, y)` stands in `kinds`.
    pub open spec fn index_of(self, x: int, y: int) -> int {
        x + y * self.size
    }

    /// The kind found at `(x, y)`; beyond the edge everything is bedrock.
    pub open spec fn kind_at(self, x: int, y: int) -> CellType {
        if self.contains(x, y) {
            self.kinds[self.index_of(x, y)]
        } else {
            CellType::Bedrock
        }
    }

    /// The cell that stands at position `i` of the row-major order.
    pub open spec fn cell(self, i: int) -> Cell {
        Cell {
            cell_type: self.kinds[i],
            x: (i % self.size as int) as i32,
            y: (i / self.size as int) as i32,
        }
    }

    /// All cells in row-major order.
    pub open spec fn cells(self) -> Seq<Cell> {
        Seq::new(self.kinds.len(), |i: int| self.cell(i))
    }

    /// The cell at `(x, y)`, if it lies on the grid.
    pub open spec fn cell_at(self, x: int, y: int) -> Option<Cell> {
        if self.contains(x, y) {
            Some(self.cell(self.index_of(x, y)))
        } else {
            None
        }
    }

    /// The same grid with the cell at `(x, y)` turned into `kind`.
    pub open spec fn with_kind(self, x: int, y: int, kind: CellType) -> Grid {
        Grid { size: self.size, kinds: self.kinds.update(self.index_of(x, y), kind) }
    }

    /// The colours of all cells, three bytes each.
    pub open spec fn colors(self) -> Seq<u8> {
        Seq::new(
            3 * self.kinds.len(),
            |i: int|
                {
                    let color = self.kinds[i / 3].color();
                    if i % 3 == 0 {
                        color.r
                    } else if i % 3 == 1 {
                        color.g
                    } else {
                        color.b
                    }
                },
        )
    }

    /// How long the printed map is: every cell, and a line break between rows.
    pub open spec fn ascii_len(self) -> nat {
        if self.size == 0 {
            0
        } else {
            (self.kinds.len() + self.size - 1) as nat
        }
    }

    /// The map as text, one row per line, no line break after the last row.
    pub open spec fn ascii(self) -> Seq<u8> {
        Seq::new(
            self.ascii_len(),
            |i: int|
                {
                    let side = self.size as int;
                    let row = i / (side + 1);
                    let column = i % (side + 1);
                    if column == side {
                        10u8
                    } else {
                        self.kinds[row * side + column].glyph_of() as u8
                    }
                },
        )
    }
}

/// A position on a square of side `size` and its place in row-major order
/// determine each other.
pub proof fn lemma_row_major(x: int, y: int, size: int)
    requires
        0 <= x < size,
        0 <= y < size,
    ensures
        0 <= y * size,
        0 <= x + y * size < size * size,
        (x + y * size) % size == x,
        (x + y * size) / size == y,
{
    assert(y * size + size <= size * size) by (nonlinear_arith)
        requires
            0 <= y < size,
    ;
    assert(0 <= y * size) by (nonlinear_arith)
        requires
            0 <= y,
            0 < size,
    ;
    vstd::arithmetic::div_mod::lemma_fundamental_div_mod_converse(x + y * size, size, y, x);
}

/// A place in row-major order on a square of side `size` names one position.
pub proof fn lemma_position(i: int, size: int)
    requires
        0 <= size,
        0 <= i < size * size,
    ensures
        0 <= i % size < size,
        0 <= i / size < size,
        i % size + (i / size) * size == i,
{
    assert(size > 0) by (nonlinear_arith)
        requires
            0 <= size,
            0 <= i < size * size,
    ;
    vstd::arithmetic::div_mod::lemma_fundamental_div_mod(i, size);
    vstd::arithmetic::div_mod::lemma_mod_bound(i, size);
    let q = i / size;
    assert(size * q == q * size) by (nonlinear_arith);
    assert(0 <= q) by (nonlinear_arith)
        requires
            size * q + i % size == i,
            0 <= i % size < size,
            0 <= i,
            size > 0,
    ;
    assert(q < size) by (nonlinear_arith)
        requires
            size * q + i % size == i,
            0 <= i % size,
            i < size * size,
            size > 0,
    ;
}

/// How many kinds of solid ground the generator scatters.
pub const SOLID_KINDS: usize = 4;

/// One more than the largest number the generator draws for a cell: the
/// number of solid kinds to the fourth power.
pub const SKEW_SPAN: usize = 256;

/// The solid kinds from the most common to the rarest.
pub open spec fn solid_kind(rank: int) -> CellType {
    if rank == 0 {
        CellType::Air
    } else if rank == 1 {
        CellType::Rock
    } else if rank == 2 {
        CellType::Stone
    } else {
        CellType::Bedrock
    }
}

/// What an inverted draw must exceed for the kind of that rank to be taken:
/// the number of kinds rarer than it, to the fourth power.
pub open spec fn skew_threshold(rank: int) -> int {
    let rarer = SOLID_KINDS - (rank + 1);
    rarer * rarer * rarer * rarer
}

/// The solid kind an inverted draw stands for: the most common kind whose
/// threshold it exceeds, and air where it exceeds none.
pub open spec fn skewed_kind_of(index: int) -> CellType {
    if index > 81 {
        CellType::Air
    } else if index > 16 {
        CellType::Rock
    } else if index > 1 {
        CellType::Stone
    } else if index > 0 {
        CellType::Bedrock
    } else {
        CellType::Air
    }
}

/// Whether a noise sample, given as the bits of an IEEE 754 single, is a
/// number greater than one half. No negative number and no NaN is.
pub open spec fn is_wet(sample: u32) -> bool {
    0x3F00_0000 < sample <= 0x7F80_0000
}

/// The kind of a cell, from its noise sample and its inverted draw: water
/// where the sample is above one half, else the solid kind of the draw.
pub open spec fn terrain_of(sample: u32, index: int) -> CellType {
    if is_wet(sample) {
        CellType::Water
    } else {
        skewed_kind_of(index)
    }
}

/// Whether the generator can lay `kind` on a cell with this noise sample.
pub open spec fn may_lie_on(kind: CellType, sample: u32) -> bool {
    exists|index: int| 1 <= index <= SKEW_SPAN && kind == terrain_of(sample, index)
}

/// The thresholds of the four solid kinds, worked out.
pub proof fn lemma_skew_thresholds()
    ensures
        skew_threshold(0) == 81,
        skew_threshold(1) == 16,
        skew_threshold(2) == 1,
        skew_threshold(3) == 0,
{
    assert(3int * 3 * 3 * 3 == 81) by (nonlinear_arith);
    assert(2int * 2 * 2 * 2 == 16) by (nonlinear_arith);
    assert(1int * 1 * 1 * 1 == 1) by (nonlinear_arith);
    assert(0int * 0 * 0 * 0 == 0) by (nonlinear_arith);
    assert(skew_threshold(0) == 3int * 3 * 3 * 3);
    assert(skew_threshold(1) == 2int * 2 * 2 * 2);
    assert(skew_threshold(2) == 1int * 1 * 1 * 1);
    assert(skew_threshold(3) == 0int * 0 * 0 * 0);
}

/// An inverted draw stands for the most common solid kind whose threshold
/// it exceeds: for the kind of rank `rank`, if it exceeds that threshold and
/// none of a more common kind.
pub proof fn lemma_skewed_kind(index: int, rank: int)
    requires
        0 <= rank < SOLID_KINDS,
        index > skew_threshold(rank),
        forall|r: int| 0 <= r < rank ==> index <= skew_threshold(r),
    ensures
        skewed_kind_of(index) == solid_kind(rank),
{
    lemma_skew_thresholds();
    if rank > 0 {
        assert(index <= skew_threshold(rank - 1));
    }
}

/// An inverted draw that exceeds no threshold stands for air. Every draw
/// that the generator makes exceeds one.
pub proof fn lemma_skewed_kind_default(index: int)
    ensures
        (forall|r: int| 0 <= r < SOLID_KINDS ==> index <= skew_threshold(r)) ==> skewed_kind_of(
            index,
        ) == CellType::Air,
        1 <= index ==> index > skew_threshold(SOLID_KINDS - 1),
{
    lemma_skew_thresholds();
    if forall|r: int| 0 <= r < SOLID_KINDS ==> index <= skew_threshold(r) {
        assert(index <= skew_threshold(3));
    }
}

/// The solid kind that the inverted draw `index` stands for.
pub fn skewed_kind(index: usize) -> (kind: CellType)
    ensures
        kind == skewed_kind_of(index as int),
{
    let kinds: [CellType; 4] = [CellType::Air, CellType::Rock, CellType::Stone, CellType::Bedrock];
    let mut rank: usize = 0;
    while rank < SOLID_KINDS
        invariant
            rank <= SOLID_KINDS,
            kinds@.len() == SOLID_KINDS,
            forall|r: int| 0 <= r < SOLID_KINDS ==> kinds@[r] == solid_kind(r),
            forall|r: int| 0 <= r < rank ==> index <= skew_threshold(r),
        decreases SOLID_KINDS - rank,
    {
        let rarer: usize = SOLID_KINDS - (rank + 1);
        assert(rarer * rarer <= 9 && rarer * rarer * rarer <= 27 && rarer * rarer * rarer * rarer
            <= 81) by (nonlinear_arith)
            requires
                0 <= rarer <= 3,
        ;
        proof {
            lemma_skew_thresholds();
            assert(rarer * rarer * rarer * rarer == skew_threshold(rank as int));
        }
        if index > rarer * rarer * rarer * rarer {
            assert(kinds@[rank as int] == solid_kind(rank as int));
            return kinds[rank];
        }
        rank += 1;
    }
    proof {
        lemma_skew_thresholds();
    }
    CellType::Air
}

/// The kind of a cell from its noise sample and its inverted draw.
pub fn terrain(sample: u32, index: usize) -> (kind: CellType)
    ensures
        kind == terrain_of(sample, index as int),
{
    if 0x3F00_0000 < sample && sample <= 0x7F80_0000 {
        CellType::Water
    } else {
        skewed_kind(index)
    }
}

/// Everything beyond the edge of the grid is bedrock.
pub proof fn lemma_beyond_the_edge(grid: Grid, x: int, y: int)
    requires
        !grid.contains(x, y),
    ensures
        grid.kind_at(x, y) == CellType::Bedrock,
        grid.cell_at(x, y) is None,
{
}

/// Changing one cell of a grid changes that cell and no other.
pub proof fn lemma_with_kind(grid: Grid, x: int, y: int, kind: CellType, u: int, v: int)
    requires
        grid.wf(),
        grid.contains(x, y),
    ensures
        grid.with_kind(x, y, kind).wf(),
        grid.with_kind(x, y, kind).size == grid.size,
        grid.with_kind(x, y, kind).kind_at(x, y) == kind,
        (u, v) != (x, y) ==> grid.with_kind(x, y, kind).kind_at(u, v) == grid.kind_at(u, v),
{
    lemma_row_major(x, y, grid.size as int);
    if grid.contains(u, v) {
        lemma_row_major(u, v, grid.size as int);
    }
}

/// The world: a square grid of cells.
#[derive(Debug)]
pub struct Planet {
    cells: Vec<Cell>,
    size: u32,
}

impl View for Planet {
    type V = Grid;

    closed spec fn view(&self) -> Grid {
        Grid { size: self.size as nat, kinds: self.cells@.map_values(|cell: Cell| cell.cell_type) }
    }
}

impl Planet {
    /// The planet is a full square whose cells know where they lie.
    pub closed spec fn wf(&self) -> bool {
        &&& self.size <= i32::MAX
        &&& self.cells@.len() == self.size * self.size
        &&& forall|i: int|
            0 <= i < self.cells@.len() ==> (#[trigger] self.cells@[i]).x == i % (self.size as int)
                && self.cells@[i].y == i / (self.size as int)
    }

    /// A well-formed planet has a well-formed grid with a side that fits the
    /// coordinates.
    pub proof fn lemma_wf(&self)
        requires
            self.wf(),
        ensures
            self@.wf(),
            self@.size <= i32::MAX,
            self@.kinds.len() <= usize::MAX,
    {
        assert(self@.kinds.len() == self.cells.len());
    }

    /// Lays out a planet of side `size` over a noise field. `noise` holds one
    /// sample for every cell in row-major order, each as the bits of an IEEE
    /// 754 single. For every cell a number below [`SKEW_SPAN`] is drawn at
    /// random and inverted; sample and inverted draw decide the kind as
    /// [`terrain_of`] says.
    pub fn new(size: u32, noise: &Vec<u32>) -> (planet: Planet)
        requires
            size <= i32::MAX,
            noise@.len() == size * size,
        ensures
            planet.wf(),
            planet@.size == size,
            forall|i: int|
                0 <= i < noise@.len() ==> may_lie_on(#[trigger] planet@.kinds[i], noise@[i]),
    {
        let mut cells: Vec<Cell> = Vec::new();
        let mut y: u32 = 0;
        while y < size
            invariant
                size <= i32::MAX,
                noise@.len() == size * size,
                y <= size,
                cells@.len() == y * size,
                forall|i: int|
                    0 <= i < cells@.len() ==> (#[trigger] cells@[i]).x == i % (size as int)
                        && cells@[i].y == i / (size as int),
                forall|i: int|
                    0 <= i < cells@.len() ==> may_lie_on((#[trigger] cells@[i]).cell_type, noise@[i]),
            decreases size - y,
        {
            let mut x: u32 = 0;
            while x < size
                invariant
                    size <= i32::MAX,
                    noise@.len() == size * size,
                    y < size,
                    x <= size,
                    cells@.len() == y * size + x,
                    forall|i: int|
                        0 <= i < cells@.len() ==> (#[trigger] cells@[i]).x == i % (size as int)
                            && cells@[i].y == i / (size as int),
                    forall|i: int|
                        0 <= i < cells@.len() ==> may_lie_on(
                            (#[trigger] cells@[i]).cell_type,
                            noise@[i],
                        ),
                decreases size - x,
            {
                proof {
                    lemma_row_major(x as int, y as int, size as int);
                }
                let draw = random_below(SKEW_SPAN);
                let index: usize = SKEW_SPAN - draw;
                let sample = noise[cells.len()];
                let cell_type = terrain(sample, index);
                cells.push(Cell::new(cell_type, x as i32, y as i32));
                x += 1;
            }
            assert(y * size + size == (y + 1) * size) by (nonlinear_arith);
            y += 1;
        }
        let planet = Planet { cells, size };
        assert forall|i: int| 0 <= i < noise@.len() implies may_lie_on(
            #[trigger] planet@.kinds[i],
            noise@[i],
        ) by {
            assert(planet@.kinds[i] == planet.cells@[i].cell_type);
        }
        planet
    }

    /// The side length of the square.
    pub fn size(&self) -> (size: u32)
        ensures
            size == self@.size,
    {
        self.size
    }

    /// Where the cell at `(x, y)` stands in the vector.
    fn offset(&self, x: i32, y: i32) -> (offset: usize)
        requires
            self.wf(),
            self@.contains(x as int, y as int),
        ensures
            offset == self@.index_of(x as int, y as int),
            offset < self.cells@.len(),
    {
        proof {
            lemma_row_major(x as int, y as int, self.size as int);
            assert(self.cells@.len() == self.cells.len());
        }
        x as usize + y as usize * self.size as usize
    }

    pub fn get_cell(&self, x: i32, y: i32) -> (cell: Option<&Cell>)
        requires
            self.wf(),
        ensures
            match cell {
                Some(found) => Some(*found) == self@.cell_at(x as int, y as int),
                None => self@.cell_at(x as int, y as int) is None,
            },
    {
        if x < 0 || y < 0 {
            return None;
        }
        if x as u32 >= self.size || y as u32 >= self.size {
            return None;
        }
        let offset = self.offset(x, y);
        proof {
            lemma_row_major(x as int, y as int, self.size as int);
        }
        Some(&self.cells[offset])
    }

    pub fn get_cell_type(&self, x: i32, y: i32) -> (kind: CellType)
        requires
            self.wf(),
        ensures
            kind == self@.kind_at(x as int, y as int),
    {
        match self.get_cell(x, y) {
            Some(cell) => cell.cell_type,
            None => CellType::Bedrock,
        }
    }

    /// The kind at a position that need not fit the grid's own coordinates:
    /// what a rover finds when it looks past the edge.
    pub fn kind_at(&self, x: i64, y: i64) -> (kind: CellType)
        requires
            self.wf(),
        ensures
            kind == self@.kind_at(x as int, y as int),
    {
        if x < 0 || y < 0 || x >= self.size as i64 || y >= self.size as i64 {
            CellType::Bedrock
        } else {
            self.get_cell_type(x as i32, y as i32)
        }
    }

    pub fn set_celltype(&mut self, x: i32, y: i32, cell_type: CellType)
        requires
            old(self).wf(),
            old(self)@.contains(x as int, y as int),
        ensures
            final(self).wf(),
            final(self)@ == old(self)@.with_kind(x as int, y as int, cell_type),
    {
        let offset = self.offset(x, y);
        proof {
            lemma_row_major(x as int, y as int, self.size as int);
        }
        self.cells.set(offset, Cell { cell_type, x, y });
        assert(self@.kinds =~= old(self)@.with_kind(x as int, y as int, cell_type).kinds);
    }

    pub fn cells(&self) -> (cells: Vec<Cell>)
        requires
            self.wf(),
        ensures
            cells@ == self@.cells(),
    {
        let mut cells: Vec<Cell> = Vec::new();
        let mut i: usize = 0;
        while i < self.cells.len()
            invariant
                self.wf(),
                i <= self.cells@.len(),
                cells@.len() == i,
                forall|j: int| 0 <= j < i ==> cells@[j] == self@.cell(j),
            decreases self.cells@.len() - i,
        {
            proof {
                lemma_position(i as int, self.size as int);
            }
            cells.push(self.cells[i]);
            i += 1;
        }
        assert(cells@ =~= self@.cells());
        cells
    }

    pub fn color_buffer(&self) -> (buffer: Vec<u8>)
        requires
            self.wf(),
        ensures
            buffer@ == self@.colors(),
    {
        let mut buffer: Vec<u8> = Vec::new();
        let mut i: usize = 0;
        while i < self.cells.len()
            invariant
                i <= self.cells@.len(),
                buffer@.len() == 3 * i,
                forall|j: int| 0 <= j < 3 * i ==> buffer@[j] == self@.colors()[j],
            decreases self.cells@.len() - i,
        {
            let cell_color = self.cells[i].cell_type.get_color();
            buffer.push(cell_color.r);
            buffer.push(cell_color.g);
            buffer.push(cell_color.b);
            i += 1;
        }
        assert(buffer@ =~= self@.colors());
        buffer
    }
}

impl Planet {
    /// The map as text: one glyph for each cell, and a line break before
    /// every row but the first.
    pub fn print_ascii(&self) -> (buffer: Vec<u8>)
        requires
            self.wf(),
        ensures
            buffer@ == self@.ascii(),
    {
        let mut buffer: Vec<u8> = Vec::new();
        let size = self.size as usize;
        let ghost side = self.size as int;
        let mut row: usize = 0;
        while row < size
            invariant
                self.wf(),
                size == self.size,
                side == self.size,
                row <= size,
                buffer@.len() == (if row == 0 {
                    0
                } else {
                    row * (side + 1) - 1
                }),
                forall|p: int| 0 <= p < buffer@.len() ==> buffer@[p] == self@.ascii()[p],
            decreases size - row,
        {
            proof {
                assert(row * (side + 1) + side <= side * side + side - 1) by (nonlinear_arith)
                    requires
                        0 <= row < side,
                ;
                assert(0 <= row * (side + 1)) by (nonlinear_arith)
                    requires
                        0 <= row,
                        0 <= side,
                ;
            }
            if row != 0 {
                proof {
                    let p = row * (side + 1) - 1;
                    assert(p == (row - 1) * (side + 1) + side) by (nonlinear_arith)
                        requires
                            p == row * (side + 1) - 1,
                    ;
                    vstd::arithmetic::div_mod::lemma_fundamental_div_mod_converse(
                        p,
                        side + 1,
                        row - 1,
                        side,
                    );
                }
                buffer.push(10u8);
            }
            let mut column: usize = 0;
            while column < size
                invariant
                    self.wf(),
                    size == self.size,
                    side == self.size,
                    row < size,
                    column <= size,
                    buffer@.len() == row * (side + 1) + column,
                    row * (side + 1) + side <= side * side + side - 1,
                    forall|p: int| 0 <= p < buffer@.len() ==> buffer@[p] == self@.ascii()[p],
                decreases size - column,
            {
                proof {
                    lemma_row_major(column as int, row as int, side);
                    let p = row * (side + 1) + column;
                    vstd::arithmetic::div_mod::lemma_fundamental_div_mod_converse(
                        p,
                        side + 1,
                        row as int,
                        column as int,
                    );
                    assert(self.cells@.len() == self.cells.len());
                }
                let cell = &self.cells[column + row * size];
                buffer.push(cell.cell_type.glyph() as u8);
                column += 1;
            }
            assert((row + 1) * (side + 1) - 1 == row * (side + 1) + side) by (nonlinear_arith);
            row += 1;
        }
        assert(size * (side + 1) - 1 == side * side + side - 1) by (nonlinear_arith)
            requires
                size == side,
        ;
        assert(buffer@ =~= self@.ascii());
        buffer
    }

    /// The cells of one kind, in row-major order.
    pub fn cells_of_type(&self, kind: CellType) -> (cells: Vec<Cell>)
        requires
            self.wf(),
        ensures
            cells@ == self@.cells().filter(|cell: Cell| cell.cell_type == kind),
    {
        let mut cells: Vec<Cell> = Vec::new();
        let ghost all = self@.cells();
        let ghost wanted = |cell: Cell| cell.cell_type == kind;
        let mut i: usize = 0;
        while i < self.cells.len()
            invariant
                self.wf(),
                all == self@.cells(),
                wanted == (|cell: Cell| cell.cell_type == kind),
                i <= self.cells@.len(),
                cells@ == all.take(i as int).filter(wanted),
            decreases self.cells@.len() - i,
        {
            proof {
                lemma_position(i as int, self.size as int);
                reveal(Seq::filter);
                assert(all.take(i + 1).drop_last() =~= all.take(i as int));
            }
            let cell = self.cells[i];
            if cell.cell_type == kind {
                cells.push(cell);
            }
            i += 1;
        }
        assert(all.take(i as int) =~= all);
        cells
    }

    /// One cell of the given kind, drawn at random among all of them, or
    /// nothing where the planet has no such cell.
    pub fn random_cell(&self, kind: CellType) -> (cell: Option<Cell>)
        requires
            self.wf(),
        ensures
            match cell {
                Some(found) => found.cell_type == kind && self@.cell_at(
                    found.x as int,
                    found.y as int,
                ) == Some(found),
                None => forall|x: int, y: int|
                    self@.contains(x, y) ==> self@.kind_at(x, y) != kind,
            },
    {
        let cells = self.cells_of_type(kind);
        let ghost wanted = |cell: Cell| cell.cell_type == kind;
        if cells.len() == 0 {
            assert forall|x: int, y: int| self@.contains(x, y) implies self@.kind_at(x, y)
                != kind by {
                lemma_row_major(x, y, self.size as int);
                let i = self@.index_of(x, y);
                if self@.kinds[i] == kind {
                    assert(wanted(self@.cells()[i]));
                    self@.cells().lemma_filter_contains(wanted, i);
                }
            }
            return None;
        }
        let draw = random_below(cells.len());
        let found = cells[draw];
        proof {
            let all = self@.cells();
            all.lemma_filter_pred(wanted, draw as int);
            assert(all.filter(wanted).contains(found));
            all.lemma_filter_contains_rev(wanted, found);
            let i = choose|i: int| 0 <= i < all.len() && all[i] == found;
            lemma_position(i, self.size as int);
            lemma_row_major(found.x as int, found.y as int, self.size as int);
        }
        Some(found)
    }
}

} // verus!

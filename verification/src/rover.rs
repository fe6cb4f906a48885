//! A rover: where it stands, where it looks, what it has earned, and what it
//! may do to the planet under it.

use crate::planet::{lemma_with_kind, CellTrait, CellType, Grid, Planet};
use crate::text::{decimal_of, push_decimal};
use vstd::prelude::*;

verus! {

/// The four directions a rover can face.
#[derive(Debug, Clone, Copy, PartialEq, Eq, Structural)]
pub enum Compass {
    North,
    East,
    South,
    West,
}

impl Compass {
    /// The direction after a quarter turn.
    pub open spec fn turned(self, clockwise: bool) -> Compass {
        if clockwise {
            match self {
                Compass::North => Compass::East,
                Compass::East => Compass::South,
                Compass::South => Compass::West,
                Compass::West => Compass::North,
            }
        } else {
            match self {
                Compass::North => Compass::West,
                Compass::East => Compass::North,
                Compass::South => Compass::East,
                Compass::West => Compass::South,
            }
        }
    }

    /// The direction written out.
    pub open spec fn name_of(self) -> Seq<char> {
        match self {
            Compass::North => "North"@,
            Compass::East => "East"@,
            Compass::South => "South"@,
            Compass::West => "West"@,
        }
    }

    pub fn name(&self) -> (name: &'static str)
        ensures
            name@ == self.name_of(),
    {
        match self {
            Compass::North => "North",
            Compass::East => "East",
            Compass::South => "South",
            Compass::West => "West",
        }
    }
}

/// A rover as mathematics.
pub struct RoverView {
    pub username: Seq<char>,
    pub password: Seq<char>,
    pub x: int,
    pub y: int,
    pub rotation: Compass,
    pub points: nat,
}

impl RoverView {
    /// The position `distance` steps ahead of the rover and `offset` steps to
    /// the side. The side axis is the x axis for a rover that faces north or
    /// south and the y axis for one that faces east or west, and runs the way
    /// the coordinate grows.
    pub open spec fn probe(self, distance: int, offset: int) -> (int, int) {
        match self.rotation {
            Compass::North => (self.x + offset, self.y - distance),
            Compass::East => (self.x + distance, self.y + offset),
            Compass::South => (self.x + offset, self.y + distance),
            Compass::West => (self.x - distance, self.y + offset),
        }
    }

    /// The position directly ahead.
    pub open spec fn ahead(self) -> (int, int) {
        self.probe(1, 0)
    }

    /// What lies directly ahead.
    pub open spec fn faces(self, grid: Grid) -> CellType {
        grid.kind_at(self.ahead().0, self.ahead().1)
    }

    /// The rover after a quarter turn.
    pub open spec fn turned(self, clockwise: bool) -> RoverView {
        RoverView { rotation: self.rotation.turned(clockwise), ..self }
    }

    /// The rover after it tried to move one step ahead: it moves into air and
    /// stays in front of anything else.
    pub open spec fn advanced(self, grid: Grid) -> RoverView {
        if self.faces(grid) == CellType::Air {
            RoverView { x: self.ahead().0, y: self.ahead().1, ..self }
        } else {
            self
        }
    }

    /// The rover after `steps` tries to move ahead.
    pub open spec fn advanced_times(self, grid: Grid, steps: nat) -> RoverView
        decreases steps,
    {
        if steps == 0 {
            self
        } else {
            self.advanced(grid).advanced_times(grid, (steps - 1) as nat)
        }
    }

    /// The position of the `i`-th cell of a scan: five cells two steps ahead,
    /// then three cells one step ahead, each row from the low side to the
    /// high side.
    pub open spec fn scan_position(self, i: int) -> (int, int) {
        if i < 5 {
            self.probe(2, i - 2)
        } else {
            self.probe(1, i - 6)
        }
    }

    /// What a scan reports: the glyphs of the eight cells in front.
    pub open spec fn scan_report(self, grid: Grid) -> Seq<char> {
        Seq::new(
            8,
            |i: int| grid.kind_at(self.scan_position(i).0, self.scan_position(i).1).glyph_of(),
        )
    }

    /// The points that digging ahead would earn.
    pub open spec fn dig_reward(self, grid: Grid) -> nat {
        self.faces(grid).reward_of()
    }

    /// The rover after it dug ahead.
    pub open spec fn after_dig(self, grid: Grid) -> RoverView {
        RoverView { points: self.points + self.dig_reward(grid), ..self }
    }

    /// The grid after the rover dug ahead: rock and stone give way to air,
    /// everything else stays.
    pub open spec fn dug(self, grid: Grid) -> Grid {
        if self.faces(grid).is_mineable() {
            grid.with_kind(self.ahead().0, self.ahead().1, CellType::Air)
        } else {
            grid
        }
    }

    /// The answer to a request for the rover's position.
    pub open spec fn position_text(self) -> Seq<char> {
        "Position x:"@ + decimal_of(self.x) + " y:"@ + decimal_of(self.y) + " Direction:"@
            + self.rotation.name_of()
    }
}

/// Four quarter turns the same way bring a direction back to where it was.
pub proof fn lemma_full_circle(rotation: Compass, clockwise: bool)
    ensures
        rotation.turned(clockwise).turned(clockwise).turned(clockwise).turned(clockwise)
            == rotation,
{
}

/// A quarter turn one way undoes a quarter turn the other way.
pub proof fn lemma_turn_back(rotation: Compass, clockwise: bool)
    ensures
        rotation.turned(clockwise).turned(!clockwise) == rotation,
{
}

/// Turning changes nothing of a rover but its direction, so four quarter
/// turns the same way, or one each way, leave the rover as it was.
pub proof fn lemma_rover_turns(rover: RoverView, clockwise: bool)
    ensures
        rover.turned(clockwise).turned(clockwise).turned(clockwise).turned(clockwise) == rover,
        rover.turned(clockwise).turned(!clockwise) == rover,
{
}

/// A rover that faces the edge of the grid does not move forward.
pub proof fn lemma_edge_stops(rover: RoverView, grid: Grid)
    requires
        !grid.contains(rover.ahead().0, rover.ahead().1),
    ensures
        rover.advanced(grid) == rover,
{
}

/// A rover that moved forward stands on what was air, and on the grid.
pub proof fn lemma_moves_into_air(rover: RoverView, grid: Grid)
    requires
        rover.advanced(grid) != rover,
    ensures
        grid.contains(rover.advanced(grid).x, rover.advanced(grid).y),
        grid.kind_at(rover.advanced(grid).x, rover.advanced(grid).y) == CellType::Air,
{
}

/// A rover that faces anything but air stays where it is and as it is,
/// however often it tries to move forward.
pub proof fn lemma_blocked_stays(rover: RoverView, grid: Grid, steps: nat)
    requires
        rover.faces(grid) != CellType::Air,
    ensures
        rover.advanced_times(grid, steps) == rover,
    decreases steps,
{
    if steps > 0 {
        lemma_blocked_stays(rover, grid, (steps - 1) as nat);
    }
}

/// Digging at air, bedrock, water or another rover earns nothing and leaves
/// the grid as it was.
pub proof fn lemma_dig_spares(rover: RoverView, grid: Grid)
    requires
        rover.faces(grid) == CellType::Air || rover.faces(grid) == CellType::Bedrock
            || rover.faces(grid) == CellType::Water || rover.faces(grid) == CellType::Rover,
    ensures
        rover.after_dig(grid) == rover,
        rover.dug(grid) == grid,
{
}

/// Digging at rock earns ten points and digging at stone a hundred; the cell
/// ahead becomes air and every other cell stays what it was.
pub proof fn lemma_dig_pays(rover: RoverView, grid: Grid, x: int, y: int)
    requires
        grid.wf(),
        rover.faces(grid) == CellType::Rock || rover.faces(grid) == CellType::Stone,
    ensures
        rover.faces(grid) == CellType::Rock ==> rover.after_dig(grid).points == rover.points + 10,
        rover.faces(grid) == CellType::Stone ==> rover.after_dig(grid).points == rover.points
            + 100,
        rover.after_dig(grid) == (RoverView { points: rover.after_dig(grid).points, ..rover }),
        rover.dug(grid).wf(),
        rover.dug(grid).size == grid.size,
        rover.faces(rover.dug(grid)) == CellType::Air,
        (x, y) != rover.ahead() ==> rover.dug(grid).kind_at(x, y) == grid.kind_at(x, y),
{
    lemma_with_kind(grid, rover.ahead().0, rover.ahead().1, CellType::Air, x, y);
}

/// A cell is mined once: after a rover dug, digging again earns nothing and
/// changes nothing.
pub proof fn lemma_dig_once(rover: RoverView, grid: Grid)
    requires
        grid.wf(),
    ensures
        rover.after_dig(grid).after_dig(rover.dug(grid)) == rover.after_dig(grid),
        rover.after_dig(grid).dug(rover.dug(grid)) == rover.dug(grid),
{
    if rover.faces(grid).is_mineable() {
        lemma_with_kind(grid, rover.ahead().0, rover.ahead().1, CellType::Air, 0, 0);
    }
}

/// The answer to a request for the position names both axes: it holds
/// `x:` and `y:`, each before its coordinate.
pub proof fn lemma_position_names_axes(rover: RoverView)
    ensures
        ({
            let text = rover.position_text();
            let x_at = 9int;
            let y_at = 12 + decimal_of(rover.x).len() as int;
            &&& text.subrange(x_at, x_at + 2) == "x:"@
            &&& text.subrange(x_at + 2, y_at - 1) == decimal_of(rover.x)
            &&& text.subrange(y_at, y_at + 2) == "y:"@
            &&& text.subrange(y_at + 2, y_at + 2 + decimal_of(rover.y).len()) == decimal_of(rover.y)
        }),
{
    reveal_strlit("Position x:");
    reveal_strlit(" y:");
    reveal_strlit(" Direction:");
    reveal_strlit("x:");
    reveal_strlit("y:");
    let text = rover.position_text();
    let x_at = 9int;
    let y_at = 12 + decimal_of(rover.x).len() as int;
    assert(text.subrange(x_at, x_at + 2) =~= "x:"@);
    assert(text.subrange(x_at + 2, y_at - 1) =~= decimal_of(rover.x));
    assert(text.subrange(y_at, y_at + 2) =~= "y:"@);
    assert(text.subrange(y_at + 2, y_at + 2 + decimal_of(rover.y).len()) =~= decimal_of(rover.y));
}

/// A player's vehicle on the planet.
#[derive(Debug, Clone)]
pub struct Rover {
    pub username: String,
    pub password: String,
    pub x: i32,
    pub y: i32,
    pub rotation: Compass,
    pub points: u32,
}

impl View for Rover {
    type V = RoverView;

    open spec fn view(&self) -> RoverView {
        RoverView {
            username: self.username@,
            password: self.password@,
            x: self.x as int,
            y: self.y as int,
            rotation: self.rotation,
            points: self.points as nat,
        }
    }
}

impl Rover {
    /// A rover that has just landed at `(x, y)`: it faces north and has no
    /// points.
    pub fn new(username: String, password: String, x: i32, y: i32) -> (rover: Rover)
        ensures
            rover@ == (RoverView {
                username: username@,
                password: password@,
                x: x as int,
                y: y as int,
                rotation: Compass::North,
                points: 0,
            }),
    {
        Rover { username, password, x, y, rotation: Compass::North, points: 0 }
    }

    /// The position `distance` steps ahead and `offset` steps to the side.
    fn probe(&self, distance: i64, offset: i64) -> (at: (i64, i64))
        requires
            -2 <= distance <= 2,
            -2 <= offset <= 2,
        ensures
            at.0 == self@.probe(distance as int, offset as int).0,
            at.1 == self@.probe(distance as int, offset as int).1,
    {
        let x = self.x as i64;
        let y = self.y as i64;
        match self.rotation {
            Compass::North => (x + offset, y - distance),
            Compass::East => (x + distance, y + offset),
            Compass::South => (x + offset, y + distance),
            Compass::West => (x - distance, y + offset),
        }
    }

    /// Moves one step ahead if air lies there, and not at all otherwise.
    pub fn forward(&mut self, planet: &Planet)
        requires
            planet.wf(),
        ensures
            final(self)@ == old(self)@.advanced(planet@),
    {
        let target = self.probe(1, 0);
        let cell_type = planet.kind_at(target.0, target.1);
        if cell_type != CellType::Air {
            return ;
        }
        proof {
            planet.lemma_wf();
        }
        self.x = target.0 as i32;
        self.y = target.1 as i32;
    }

    /// Turns a quarter to the right or to the left.
    pub fn rotate(&mut self, clockwise: bool)
        ensures
            final(self)@ == old(self)@.turned(clockwise),
    {
        if clockwise {
            match self.rotation {
                Compass::North => self.rotation = Compass::East,
                Compass::East => self.rotation = Compass::South,
                Compass::South => self.rotation = Compass::West,
                Compass::West => self.rotation = Compass::North,
            }
        } else {
            match self.rotation {
                Compass::North => self.rotation = Compass::West,
                Compass::East => self.rotation = Compass::North,
                Compass::South => self.rotation = Compass::East,
                Compass::West => self.rotation = Compass::South,
            }
        }
    }

    /// Where the rover stands and where it looks, as a line of text.
    pub fn position(&self) -> (text: String)
        ensures
            text@ == self@.position_text(),
    {
        let mut text = String::from_str("Position x:");
        push_decimal(&mut text, self.x);
        text.append(" y:");
        push_decimal(&mut text, self.y);
        text.append(" Direction:");
        text.append(self.rotation.name());
        assert(text@ =~= self@.position_text());
        text
    }

    /// Looks at the eight cells in front: the five two steps ahead, then the
    /// three one step ahead.
    pub fn scan(&self, planet: &Planet) -> (scanline: String)
        requires
            planet.wf(),
        ensures
            scanline@ == self@.scan_report(planet@),
    {
        let mut scanline = String::new();
        let ghost report = self@.scan_report(planet@);
        let mut index: i64 = -2;
        while index < 3
            invariant
                planet.wf(),
                report == self@.scan_report(planet@),
                -2 <= index <= 3,
                scanline@ == report.take(index + 2),
            decreases 3 - index,
        {
            let at = self.probe(2, index);
            let glyph = planet.kind_at(at.0, at.1).to_string();
            scanline.append(glyph.as_str());
            assert(scanline@ =~= report.take(index + 3));
            index += 1;
        }
        let mut index: i64 = -1;
        while index < 2
            invariant
                planet.wf(),
                report == self@.scan_report(planet@),
                -1 <= index <= 2,
                scanline@ == report.take(index + 6),
            decreases 2 - index,
        {
            let at = self.probe(1, index);
            let glyph = planet.kind_at(at.0, at.1).to_string();
            scanline.append(glyph.as_str());
            assert(scanline@ =~= report.take(index + 7));
            index += 1;
        }
        assert(scanline@ =~= report);
        scanline
    }

    /// The points that digging ahead would earn: nothing where nothing can be
    /// mined.
    pub fn dig_reward(&self, planet: &Planet) -> (points: u32)
        requires
            planet.wf(),
        ensures
            points == self@.dig_reward(planet@),
    {
        let target = self.probe(1, 0);
        planet.kind_at(target.0, target.1).reward()
    }

    /// Digs out the cell ahead. Rock and stone turn into air and their worth
    /// is added to the rover's points; anything else is left as it is.
    pub fn dig(&mut self, planet: &mut Planet)
        requires
            old(planet).wf(),
            old(self).points + old(self)@.dig_reward(old(planet)@) <= u32::MAX,
        ensures
            final(planet).wf(),
            final(self)@ == old(self)@.after_dig(old(planet)@),
            final(planet)@ == old(self)@.dug(old(planet)@),
    {
        let target = self.probe(1, 0);
        proof {
            planet.lemma_wf();
        }
        if target.0 < -0x8000_0000 || target.0 > 0x7fff_ffff || target.1 < -0x8000_0000 || target.1
            > 0x7fff_ffff {
            return ;
        }
        let cell_front = planet.get_cell(target.0 as i32, target.1 as i32);
        if cell_front.is_none() {
            return ;
        }
        let cell_front = cell_front.unwrap();
        if !cell_front.cell_type.mineable() {
            return ;
        }
        let price = cell_front.cell_type.reward();
        let cell_x = cell_front.x;
        let cell_y = cell_front.y;
        proof {
            crate::planet::lemma_row_major(target.0 as int, target.1 as int, planet@.size as int);
        }
        planet.set_celltype(cell_x, cell_y, CellType::Air);
        self.points += price;
    }
}

impl Default for Rover {
    fn default() -> (rover: Rover)
        ensures
            rover@ == (RoverView {
                username: Seq::<char>::empty(),
                password: Seq::<char>::empty(),
                x: 0,
                y: 0,
                rotation: Compass::North,
                points: 0,
            }),
    {
        Rover {
            username: String::new(),
            password: String::new(),
            x: 0,
            y: 0,
            rotation: Compass::North,
            points: 0,
        }
    }
}

} // verus!

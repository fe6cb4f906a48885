use mars_rover::planet::{skewed_kind, terrain, Cell, CellColor, CellTrait, CellType, Planet, SKEW_SPAN, SOLID_KINDS};

fn dry(size: u32) -> Vec<u32> {
    vec![0u32; (size as usize) * (size as usize)]
}

fn flat(size: u32) -> Planet {
    let mut planet = Planet::new(size, &dry(size));
    for y in 0..size as i32 {
        for x in 0..size as i32 {
            planet.set_celltype(x, y, CellType::Air);
        }
    }
    planet
}

#[test]
fn mineable_kinds_are_rock_and_stone() {
    assert!(!CellType::Air.mineable());
    assert!(CellType::Rock.mineable());
    assert!(CellType::Stone.mineable());
    assert!(!CellType::Bedrock.mineable());
    assert!(!CellType::Water.mineable());
    assert!(!CellType::Rover.mineable());
}

#[test]
fn rewards_are_ten_and_a_hundred() {
    assert_eq!(CellType::Rock.reward(), 10);
    assert_eq!(CellType::Stone.reward(), 100);
    assert_eq!(CellType::Air.reward(), 0);
    assert_eq!(CellType::Bedrock.reward(), 0);
    assert_eq!(CellType::Water.reward(), 0);
    assert_eq!(CellType::Rover.reward(), 0);
}

#[test]
fn glyphs_of_all_kinds() {
    assert_eq!(CellType::Air.glyph(), ' ');
    assert_eq!(CellType::Rock.glyph(), '.');
    assert_eq!(CellType::Stone.glyph(), 'o');
    assert_eq!(CellType::Bedrock.glyph(), 'X');
    assert_eq!(CellType::Rover.glyph(), 'R');
    assert_eq!(CellType::Water.glyph(), 'W');
    assert_eq!(CellType::Air.to_string(), " ");
    assert_eq!(CellType::Rock.to_string(), ".");
    assert_eq!(CellType::Stone.to_string(), "o");
    assert_eq!(CellType::Bedrock.to_string(), "X");
    assert_eq!(CellType::Rover.to_string(), "R");
    assert_eq!(CellType::Water.to_string(), "W");
}

#[test]
fn colors_of_all_kinds() {
    assert_eq!(CellType::Air.get_color(), CellColor { r: 250, g: 165, b: 0 });
    assert_eq!(CellType::Rock.get_color(), CellColor { r: 128, g: 100, b: 64 });
    assert_eq!(CellType::Stone.get_color(), CellColor { r: 64, g: 64, b: 64 });
    assert_eq!(CellType::Bedrock.get_color(), CellColor { r: 0, g: 0, b: 0 });
    assert_eq!(CellType::Water.get_color(), CellColor { r: 0, g: 0, b: 255 });
    assert_eq!(CellType::Rover.get_color(), CellColor { r: 255, g: 0, b: 0 });
}

#[test]
fn cell_new_keeps_its_arguments() {
    let cell = Cell::new(CellType::Stone, 3, -4);
    assert_eq!(cell.cell_type, CellType::Stone);
    assert_eq!(cell.x, 3);
    assert_eq!(cell.y, -4);
}

#[test]
fn skewed_kind_at_every_threshold() {
    assert_eq!(SOLID_KINDS, 4);
    assert_eq!(SKEW_SPAN, 256);
    assert_eq!(skewed_kind(256), CellType::Air);
    assert_eq!(skewed_kind(82), CellType::Air);
    assert_eq!(skewed_kind(81), CellType::Rock);
    assert_eq!(skewed_kind(17), CellType::Rock);
    assert_eq!(skewed_kind(16), CellType::Stone);
    assert_eq!(skewed_kind(2), CellType::Stone);
    assert_eq!(skewed_kind(1), CellType::Bedrock);
    assert_eq!(skewed_kind(0), CellType::Air);
    assert_eq!(skewed_kind(usize::MAX), CellType::Air);
}

#[test]
fn skewed_kind_counts_over_all_draws() {
    let mut air = 0;
    let mut rock = 0;
    let mut stone = 0;
    let mut bedrock = 0;
    for draw in 0..SKEW_SPAN {
        match skewed_kind(SKEW_SPAN - draw) {
            CellType::Air => air += 1,
            CellType::Rock => rock += 1,
            CellType::Stone => stone += 1,
            CellType::Bedrock => bedrock += 1,
            other => panic!("not a solid kind: {:?}", other),
        }
    }
    assert_eq!((air, rock, stone, bedrock), (175, 65, 15, 1));
}

#[test]
fn terrain_is_water_above_one_half() {
    assert_eq!(terrain(0.6f32.to_bits(), 1), CellType::Water);
    assert_eq!(terrain(1.0f32.to_bits(), 200), CellType::Water);
    assert_eq!(terrain(f32::INFINITY.to_bits(), 200), CellType::Water);
    assert_eq!(terrain(0.500_000_1f32.to_bits(), 200), CellType::Water);
}

#[test]
fn terrain_is_solid_up_to_one_half() {
    assert_eq!(terrain(0.5f32.to_bits(), 200), CellType::Air);
    assert_eq!(terrain(0.5f32.to_bits(), 1), CellType::Bedrock);
    assert_eq!(terrain(0.25f32.to_bits(), 50), CellType::Rock);
    assert_eq!(terrain(0.0f32.to_bits(), 10), CellType::Stone);
    assert_eq!(terrain((-0.0f32).to_bits(), 10), CellType::Stone);
    assert_eq!(terrain((-0.7f32).to_bits(), 50), CellType::Rock);
    assert_eq!(terrain(f32::NEG_INFINITY.to_bits(), 1), CellType::Bedrock);
    assert_eq!(terrain(f32::NAN.to_bits(), 100), CellType::Air);
}

#[test]
fn new_planet_is_water_where_the_noise_is_high() {
    let noise = vec![0.9f32.to_bits(); 16];
    let planet = Planet::new(4, &noise);
    assert_eq!(planet.size(), 4);
    let cells = planet.cells();
    assert_eq!(cells.len(), 16);
    assert!(cells.iter().all(|cell| cell.cell_type == CellType::Water));
}

#[test]
fn new_planet_is_solid_where_the_noise_is_low() {
    let size = 100;
    let planet = Planet::new(size, &dry(size));
    let cells = planet.cells();
    assert_eq!(cells.len(), 10_000);
    let solid = [CellType::Air, CellType::Rock, CellType::Stone, CellType::Bedrock];
    assert!(cells.iter().all(|cell| solid.contains(&cell.cell_type)));
    let air = cells.iter().filter(|cell| cell.cell_type == CellType::Air).count();
    let rock = cells.iter().filter(|cell| cell.cell_type == CellType::Rock).count();
    assert!(air > rock);
    assert!(rock > 0);
}

#[test]
fn new_planet_follows_the_noise_cell_by_cell() {
    let mut noise = dry(3);
    noise[4] = 0.75f32.to_bits();
    noise[8] = 0.51f32.to_bits();
    let planet = Planet::new(3, &noise);
    assert_eq!(planet.get_cell_type(1, 1), CellType::Water);
    assert_eq!(planet.get_cell_type(2, 2), CellType::Water);
    assert_ne!(planet.get_cell_type(0, 0), CellType::Water);
    assert_ne!(planet.get_cell_type(2, 1), CellType::Water);
}

#[test]
fn empty_planet_has_nothing() {
    let planet = Planet::new(0, &Vec::new());
    assert_eq!(planet.size(), 0);
    assert!(planet.cells().is_empty());
    assert!(planet.color_buffer().is_empty());
    assert!(planet.print_ascii().is_empty());
    assert!(planet.get_cell(0, 0).is_none());
    assert_eq!(planet.get_cell_type(0, 0), CellType::Bedrock);
    assert!(planet.random_cell(CellType::Air).is_none());
}

#[test]
fn cells_are_in_row_major_order() {
    let planet = flat(3);
    let cells = planet.cells();
    assert_eq!(cells.len(), 9);
    for (index, cell) in cells.iter().enumerate() {
        assert_eq!(cell.x, (index % 3) as i32);
        assert_eq!(cell.y, (index / 3) as i32);
        assert_eq!(cell.cell_type, CellType::Air);
    }
}

#[test]
fn get_cell_inside_the_grid() {
    let mut planet = flat(4);
    planet.set_celltype(3, 1, CellType::Stone);
    let cell = planet.get_cell(3, 1).unwrap();
    assert_eq!(*cell, Cell { cell_type: CellType::Stone, x: 3, y: 1 });
    assert_eq!(planet.get_cell_type(3, 1), CellType::Stone);
    assert_eq!(planet.cells()[7], Cell { cell_type: CellType::Stone, x: 3, y: 1 });
}

#[test]
fn lookups_beyond_the_edge_find_bedrock() {
    let planet = flat(4);
    for (x, y) in [(-1, 0), (0, -1), (4, 0), (0, 4), (4, 4), (-1, -1), (4, 1), (5, 2), (i32::MAX, 0), (0, i32::MIN)] {
        assert!(planet.get_cell(x, y).is_none());
        assert_eq!(planet.get_cell_type(x, y), CellType::Bedrock);
        assert_eq!(planet.kind_at(x as i64, y as i64), CellType::Bedrock);
    }
    assert_eq!(planet.kind_at(i64::MAX, 0), CellType::Bedrock);
    assert_eq!(planet.kind_at(0, i64::MIN), CellType::Bedrock);
    assert_eq!(planet.kind_at(2, 3), CellType::Air);
}

#[test]
fn set_celltype_changes_one_cell() {
    let mut planet = flat(3);
    planet.set_celltype(2, 1, CellType::Rock);
    for y in 0..3 {
        for x in 0..3 {
            let expected = if (x, y) == (2, 1) { CellType::Rock } else { CellType::Air };
            assert_eq!(planet.get_cell_type(x, y), expected);
        }
    }
    assert_eq!(planet.size(), 3);
}

#[test]
fn color_buffer_has_three_bytes_for_each_cell() {
    let mut planet = flat(2);
    planet.set_celltype(1, 0, CellType::Rock);
    planet.set_celltype(0, 1, CellType::Water);
    planet.set_celltype(1, 1, CellType::Rover);
    assert_eq!(planet.color_buffer(), vec![250, 165, 0, 128, 100, 64, 0, 0, 255, 255, 0, 0]);
}

#[test]
fn print_ascii_breaks_the_line_between_rows() {
    let mut planet = flat(3);
    planet.set_celltype(0, 0, CellType::Bedrock);
    planet.set_celltype(1, 1, CellType::Stone);
    planet.set_celltype(2, 1, CellType::Rock);
    planet.set_celltype(0, 2, CellType::Water);
    planet.set_celltype(2, 2, CellType::Rover);
    assert_eq!(planet.print_ascii(), b"X  \n o.\nW R".to_vec());
}

#[test]
fn print_ascii_of_a_single_cell() {
    let planet = flat(1);
    assert_eq!(planet.print_ascii(), b" ".to_vec());
}

#[test]
fn cells_of_type_keeps_the_order() {
    let mut planet = flat(3);
    planet.set_celltype(2, 0, CellType::Rock);
    planet.set_celltype(0, 2, CellType::Rock);
    let rocks = planet.cells_of_type(CellType::Rock);
    assert_eq!(rocks, vec![Cell::new(CellType::Rock, 2, 0), Cell::new(CellType::Rock, 0, 2)]);
    assert_eq!(planet.cells_of_type(CellType::Air).len(), 7);
    assert!(planet.cells_of_type(CellType::Water).is_empty());
}

#[test]
fn random_cell_is_of_the_kind_asked_for() {
    let mut planet = flat(4);
    planet.set_celltype(1, 2, CellType::Stone);
    for _ in 0..200 {
        let cell = planet.random_cell(CellType::Air).unwrap();
        assert_eq!(cell.cell_type, CellType::Air);
        assert_eq!(planet.get_cell(cell.x, cell.y), Some(&cell));
        assert_eq!(planet.random_cell(CellType::Stone), Some(Cell::new(CellType::Stone, 1, 2)));
    }
    assert!(planet.random_cell(CellType::Water).is_none());
}

#[test]
fn random_cell_reaches_every_cell() {
    let planet = flat(2);
    let mut seen = [false; 4];
    for _ in 0..400 {
        let cell = planet.random_cell(CellType::Air).unwrap();
        seen[(cell.x + 2 * cell.y) as usize] = true;
    }
    assert_eq!(seen, [true; 4]);
}

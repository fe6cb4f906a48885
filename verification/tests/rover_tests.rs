use mars_rover::planet::{CellType, Planet};
use mars_rover::rover::{Compass, Rover};

fn flat(size: u32) -> Planet {
    let noise = vec![0u32; (size as usize) * (size as usize)];
    let mut planet = Planet::new(size, &noise);
    for y in 0..size as i32 {
        for x in 0..size as i32 {
            planet.set_celltype(x, y, CellType::Air);
        }
    }
    planet
}

fn rover_at(x: i32, y: i32, rotation: Compass) -> Rover {
    let mut rover = Rover::new("alice".to_string(), "secret".to_string(), x, y);
    rover.rotation = rotation;
    rover
}

#[test]
fn new_rover_faces_north_without_points() {
    let rover = Rover::new("alice".to_string(), "secret".to_string(), 3, 4);
    assert_eq!(rover.username, "alice");
    assert_eq!(rover.password, "secret");
    assert_eq!((rover.x, rover.y), (3, 4));
    assert_eq!(rover.rotation, Compass::North);
    assert_eq!(rover.points, 0);
}

#[test]
fn default_rover_is_empty_at_the_origin() {
    let rover = Rover::default();
    assert_eq!(rover.username, "");
    assert_eq!(rover.password, "");
    assert_eq!((rover.x, rover.y), (0, 0));
    assert_eq!(rover.rotation, Compass::North);
    assert_eq!(rover.points, 0);
}

#[test]
fn rotate_clockwise_goes_north_east_south_west() {
    let mut rover = rover_at(1, 1, Compass::North);
    rover.rotate(true);
    assert_eq!(rover.rotation, Compass::East);
    rover.rotate(true);
    assert_eq!(rover.rotation, Compass::South);
    rover.rotate(true);
    assert_eq!(rover.rotation, Compass::West);
    rover.rotate(true);
    assert_eq!(rover.rotation, Compass::North);
}

#[test]
fn rotate_counter_clockwise_goes_north_west_south_east() {
    let mut rover = rover_at(1, 1, Compass::North);
    rover.rotate(false);
    assert_eq!(rover.rotation, Compass::West);
    rover.rotate(false);
    assert_eq!(rover.rotation, Compass::South);
    rover.rotate(false);
    assert_eq!(rover.rotation, Compass::East);
    rover.rotate(false);
    assert_eq!(rover.rotation, Compass::North);
}

#[test]
fn rotate_one_way_undoes_the_other() {
    for start in [Compass::North, Compass::East, Compass::South, Compass::West] {
        for clockwise in [true, false] {
            let mut rover = rover_at(2, 2, start);
            rover.rotate(clockwise);
            rover.rotate(!clockwise);
            assert_eq!(rover.rotation, start);
            assert_eq!((rover.x, rover.y, rover.points), (2, 2, 0));
        }
    }
}

#[test]
fn forward_moves_one_step_into_air() {
    let planet = flat(5);
    let cases = [
        (Compass::North, (2, 1)),
        (Compass::East, (3, 2)),
        (Compass::South, (2, 3)),
        (Compass::West, (1, 2)),
    ];
    for (rotation, expected) in cases {
        let mut rover = rover_at(2, 2, rotation);
        rover.forward(&planet);
        assert_eq!((rover.x, rover.y), expected);
        assert_eq!(rover.rotation, rotation);
    }
}

#[test]
fn forward_stops_at_every_edge() {
    let planet = flat(3);
    let cases = [
        (Compass::North, (1, 0)),
        (Compass::East, (2, 1)),
        (Compass::South, (1, 2)),
        (Compass::West, (0, 1)),
    ];
    for (rotation, (x, y)) in cases {
        let mut rover = rover_at(x, y, rotation);
        for _ in 0..5 {
            rover.forward(&planet);
            assert_eq!((rover.x, rover.y), (x, y));
        }
    }
}

#[test]
fn forward_stops_in_front_of_everything_but_air() {
    for kind in [CellType::Rock, CellType::Stone, CellType::Bedrock, CellType::Water, CellType::Rover] {
        let mut planet = flat(5);
        planet.set_celltype(3, 2, kind);
        let mut rover = rover_at(2, 2, Compass::East);
        for _ in 0..4 {
            rover.forward(&planet);
            assert_eq!((rover.x, rover.y), (2, 2));
        }
    }
}

#[test]
fn forward_far_from_the_grid_does_not_move() {
    let planet = flat(3);
    let mut rover = rover_at(i32::MAX, i32::MIN, Compass::East);
    rover.forward(&planet);
    assert_eq!((rover.x, rover.y), (i32::MAX, i32::MIN));
    rover.rotation = Compass::North;
    rover.forward(&planet);
    assert_eq!((rover.x, rover.y), (i32::MAX, i32::MIN));
}

#[test]
fn position_names_place_and_direction() {
    assert_eq!(rover_at(3, 4, Compass::North).position(), "Position x:3 y:4 Direction:North");
    assert_eq!(rover_at(0, 17, Compass::East).position(), "Position x:0 y:17 Direction:East");
    assert_eq!(rover_at(120, 9, Compass::South).position(), "Position x:120 y:9 Direction:South");
    assert_eq!(rover_at(-5, 1000, Compass::West).position(), "Position x:-5 y:1000 Direction:West");
    assert_eq!(
        rover_at(i32::MIN, i32::MAX, Compass::North).position(),
        "Position x:-2147483648 y:2147483647 Direction:North"
    );
}

#[test]
fn scan_north_on_air_is_eight_spaces() {
    let planet = flat(11);
    let rover = rover_at(5, 5, Compass::North);
    assert_eq!(rover.scan(&planet), "        ");
}

#[test]
fn scan_east_sees_bedrock_in_the_middle_of_the_far_row() {
    let mut planet = flat(11);
    planet.set_celltype(7, 5, CellType::Bedrock);
    let rover = rover_at(5, 5, Compass::East);
    assert_eq!(rover.scan(&planet), "  X     ");
}

fn marked() -> Planet {
    let mut planet = flat(11);
    planet.set_celltype(3, 3, CellType::Rock);
    planet.set_celltype(7, 3, CellType::Stone);
    planet.set_celltype(4, 4, CellType::Water);
    planet.set_celltype(6, 4, CellType::Bedrock);
    planet.set_celltype(3, 7, CellType::Rover);
    planet.set_celltype(7, 7, CellType::Water);
    planet.set_celltype(4, 6, CellType::Stone);
    planet.set_celltype(6, 6, CellType::Rock);
    planet
}

#[test]
fn scan_reads_far_row_then_near_row_from_low_to_high() {
    let planet = marked();
    assert_eq!(rover_at(5, 5, Compass::North).scan(&planet), ".   oW X");
    assert_eq!(rover_at(5, 5, Compass::South).scan(&planet), "R   Wo .");
    assert_eq!(rover_at(5, 5, Compass::East).scan(&planet), "o   WX .");
    assert_eq!(rover_at(5, 5, Compass::West).scan(&planet), ".   RW o");
}

#[test]
fn scan_at_the_corner_sees_the_wall() {
    let planet = flat(4);
    assert_eq!(rover_at(0, 0, Compass::North).scan(&planet), "XXXXXXXX");
    assert_eq!(rover_at(0, 0, Compass::West).scan(&planet), "XXXXXXXX");
    assert_eq!(rover_at(0, 0, Compass::East).scan(&planet), "XX   X  ");
    assert_eq!(rover_at(0, 0, Compass::South).scan(&planet), "XX   X  ");
    assert_eq!(rover_at(3, 3, Compass::South).scan(&planet), "XXXXXXXX");
    assert_eq!(rover_at(3, 3, Compass::North).scan(&planet), "   XX  X");
}

#[test]
fn dig_rock_earns_ten() {
    let mut planet = flat(5);
    planet.set_celltype(2, 1, CellType::Rock);
    let mut rover = rover_at(2, 2, Compass::North);
    assert_eq!(rover.dig_reward(&planet), 10);
    rover.dig(&mut planet);
    assert_eq!(rover.points, 10);
    assert_eq!(planet.get_cell_type(2, 1), CellType::Air);
    assert_eq!((rover.x, rover.y), (2, 2));
}

#[test]
fn dig_stone_earns_a_hundred() {
    let mut planet = flat(5);
    planet.set_celltype(3, 2, CellType::Stone);
    let mut rover = rover_at(2, 2, Compass::East);
    rover.points = 7;
    assert_eq!(rover.dig_reward(&planet), 100);
    rover.dig(&mut planet);
    assert_eq!(rover.points, 107);
    assert_eq!(planet.get_cell_type(3, 2), CellType::Air);
}

#[test]
fn dig_mines_a_cell_once() {
    let mut planet = flat(5);
    planet.set_celltype(2, 3, CellType::Stone);
    let mut rover = rover_at(2, 2, Compass::South);
    rover.dig(&mut planet);
    rover.dig(&mut planet);
    rover.dig(&mut planet);
    assert_eq!(rover.points, 100);
    assert_eq!(planet.get_cell_type(2, 3), CellType::Air);
    assert_eq!(rover.dig_reward(&planet), 0);
}

#[test]
fn dig_leaves_what_cannot_be_mined() {
    for kind in [CellType::Air, CellType::Bedrock, CellType::Water, CellType::Rover] {
        let mut planet = flat(5);
        planet.set_celltype(1, 2, kind);
        let before = planet.cells();
        let mut rover = rover_at(2, 2, Compass::West);
        rover.points = 42;
        assert_eq!(rover.dig_reward(&planet), 0);
        rover.dig(&mut planet);
        assert_eq!(rover.points, 42);
        assert_eq!(planet.cells(), before);
    }
}

#[test]
fn dig_at_the_edge_changes_nothing() {
    let mut planet = flat(3);
    let before = planet.cells();
    let mut rover = rover_at(0, 0, Compass::North);
    rover.dig(&mut planet);
    rover.rotation = Compass::West;
    rover.dig(&mut planet);
    assert_eq!(rover.points, 0);
    assert_eq!(planet.cells(), before);
}

#[test]
fn dig_changes_only_the_cell_ahead() {
    let mut planet = flat(4);
    for y in 0..4 {
        for x in 0..4 {
            planet.set_celltype(x, y, CellType::Rock);
        }
    }
    let mut rover = rover_at(1, 1, Compass::East);
    rover.dig(&mut planet);
    for y in 0..4 {
        for x in 0..4 {
            let expected = if (x, y) == (2, 1) { CellType::Air } else { CellType::Rock };
            assert_eq!(planet.get_cell_type(x, y), expected);
        }
    }
}

#[test]
fn compass_names() {
    assert_eq!(Compass::North.name(), "North");
    assert_eq!(Compass::East.name(), "East");
    assert_eq!(Compass::South.name(), "South");
    assert_eq!(Compass::West.name(), "West");
}

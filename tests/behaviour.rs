use dungeon::{all_links, Direction, Dungeon, Errors, Neighbours, Room};

fn names(path: &[&Room]) -> Vec<String> {
    path.iter().map(|r| r.name.clone()).collect()
}

fn parse(text: &str) -> Result<Dungeon, Errors> {
    Dungeon::from_reader(text.as_bytes())
}

#[test]
fn duplicate_add_keeps_the_room() {
    let mut dungeon = Dungeon::new();
    dungeon.add_room("Entrance").unwrap();
    dungeon.add_room("Hall").unwrap();
    dungeon.set_link("Entrance", Direction::East, "Hall").unwrap();
    match dungeon.add_room("Entrance") {
        Err(Errors::DuplicateRoom(name)) => assert_eq!(name, "Entrance"),
        other => panic!("unexpected {:?}", other),
    }
    assert_eq!(dungeon.get_room("Entrance").unwrap().name, "Entrance");
    assert_eq!(all_links(&dungeon, dungeon.get_room("Entrance").unwrap()), vec!["Hall"]);
}

#[test]
fn unknown_names_are_reported() {
    let mut dungeon = Dungeon::new();
    dungeon.add_room("Entrance").unwrap();
    match dungeon.get_room("Nowhere") {
        Err(Errors::UnknownRoom(name)) => assert_eq!(name, "Nowhere"),
        other => panic!("unexpected {:?}", other),
    }
    match dungeon.get_next_room("Nowhere", Direction::North) {
        Err(Errors::UnknownRoom(name)) => assert_eq!(name, "Nowhere"),
        other => panic!("unexpected {:?}", other),
    }
    assert!(dungeon.get_next_room("Entrance", Direction::North).unwrap().is_none());
}

#[test]
fn set_link_checks_the_first_room_first() {
    let mut dungeon = Dungeon::new();
    dungeon.add_room("A").unwrap();
    match dungeon.set_link("X", Direction::North, "Y") {
        Err(Errors::UnknownRoom(name)) => assert_eq!(name, "X"),
        other => panic!("unexpected {:?}", other),
    }
    match dungeon.set_link("A", Direction::North, "Y") {
        Err(Errors::UnknownRoom(name)) => assert_eq!(name, "Y"),
        other => panic!("unexpected {:?}", other),
    }
    match dungeon.set_link("X", Direction::North, "A") {
        Err(Errors::UnknownRoom(name)) => assert_eq!(name, "X"),
        other => panic!("unexpected {:?}", other),
    }
    assert!(dungeon.get_next_room("A", Direction::North).unwrap().is_none());
}

#[test]
fn links_are_mirrored_in_every_direction() {
    let pairs = [
        (Direction::North, Direction::South),
        (Direction::South, Direction::North),
        (Direction::East, Direction::West),
        (Direction::West, Direction::East),
    ];
    for (there, back) in pairs {
        let mut dungeon = Dungeon::new();
        dungeon.add_room("A").unwrap();
        dungeon.add_room("B").unwrap();
        dungeon.set_link("A", there, "B").unwrap();
        assert_eq!(dungeon.get_next_room("A", there).unwrap().unwrap().name, "B");
        assert_eq!(dungeon.get_next_room("B", back).unwrap().unwrap().name, "A");
        assert!(dungeon.get_next_room("A", back).unwrap().is_none());
    }
}

#[test]
fn relinking_a_slot_replaces_it() {
    let mut dungeon = Dungeon::new();
    dungeon.add_room("A").unwrap();
    dungeon.add_room("B").unwrap();
    dungeon.add_room("C").unwrap();
    dungeon.set_link("A", Direction::North, "B").unwrap();
    dungeon.set_link("A", Direction::North, "C").unwrap();
    assert_eq!(dungeon.get_next_room("A", Direction::North).unwrap().unwrap().name, "C");
    assert_eq!(dungeon.get_next_room("C", Direction::South).unwrap().unwrap().name, "A");
}

#[test]
fn a_room_may_link_to_itself() {
    let mut dungeon = Dungeon::new();
    dungeon.add_room("Loop").unwrap();
    dungeon.set_link("Loop", Direction::East, "Loop").unwrap();
    assert_eq!(all_links(&dungeon, dungeon.get_room("Loop").unwrap()), vec!["Loop", "Loop"]);
    let path = dungeon.find_path("Loop", "Loop").unwrap().unwrap();
    assert_eq!(names(&path), vec!["Loop"]);
}

#[test]
fn an_empty_name_is_a_room_like_any_other() {
    let mut dungeon = Dungeon::new();
    dungeon.add_room("").unwrap();
    dungeon.add_room("Hall").unwrap();
    assert!(all_links(&dungeon, dungeon.get_room("").unwrap()).is_empty());
    dungeon.set_link("Hall", Direction::West, "").unwrap();
    assert_eq!(dungeon.get_next_room("Hall", Direction::West).unwrap().unwrap().name, "");
    assert_eq!(all_links(&dungeon, dungeon.get_room("").unwrap()), vec!["Hall"]);
}

#[test]
fn non_latin_names_link_both_ways() {
    let mut dungeon = Dungeon::new();
    dungeon.add_room("門").unwrap();
    dungeon.add_room("庭 園").unwrap();
    dungeon.set_link("門", Direction::South, "庭 園").unwrap();
    assert_eq!(dungeon.get_room("庭 園").unwrap().name, "庭 園");
    assert_eq!(dungeon.get_next_room("庭 園", Direction::North).unwrap().unwrap().name, "門");
    let path = dungeon.find_path("庭 園", "門").unwrap().unwrap();
    assert_eq!(names(&path), vec!["庭 園", "門"]);
}

#[test]
fn neighbours_slots_start_empty_and_take_names() {
    let mut slots = Neighbours::new();
    assert!(slots.clone().get_north().is_none());
    assert!(slots.clone().get_west().is_none());
    slots.set_north(String::from("N"));
    slots.set_south(String::from("S"));
    slots.set_east(String::from("E"));
    slots.set_west(String::from("W"));
    slots.set_west(String::from("W2"));
    assert_eq!(slots.clone().get_north(), Some(String::from("N")));
    assert_eq!(slots.clone().get_south(), Some(String::from("S")));
    assert_eq!(slots.clone().get_east(), Some(String::from("E")));
    assert_eq!(slots.get_west(), Some(String::from("W2")));
    let room = Room::new(String::from("Cell"));
    assert_eq!(room.name, "Cell");
    assert!(room.next_to.get_south().is_none());
}

#[test]
fn parses_with_a_blank_separator() {
    let dungeon = parse("## Rooms\n- A\n- B\n\n## Links\n- A -> North -> B").unwrap();
    assert_eq!(dungeon.get_next_room("A", Direction::North).unwrap().unwrap().name, "B");
    assert_eq!(dungeon.get_next_room("B", Direction::South).unwrap().unwrap().name, "A");
}

#[test]
fn a_wrong_header_after_the_separator_is_reported_at_its_line() {
    assert!(matches!(
        parse("## Rooms\n- A\n\n## Doors"),
        Err(Errors::LineParseError { line_number: 4 })
    ));
}

#[test]
fn input_ending_before_the_links_header_is_reported_at_the_last_line() {
    assert!(matches!(parse("## Rooms\n- A"), Err(Errors::LineParseError { line_number: 2 })));
    assert!(matches!(parse("## Rooms\n- A\n\n"), Err(Errors::LineParseError { line_number: 3 })));
    assert!(matches!(parse("## Rooms"), Err(Errors::LineParseError { line_number: 1 })));
}

#[test]
fn trailing_white_space_is_ignored() {
    let dungeon = parse("## Rooms  \n- A \n- B\t\n## Links \n- A -> West -> B  ").unwrap();
    assert_eq!(dungeon.get_room("A").unwrap().name, "A");
    assert_eq!(dungeon.get_next_room("A", Direction::West).unwrap().unwrap().name, "B");
}

#[test]
fn room_lines_must_start_with_a_dash() {
    assert!(matches!(
        parse("## Rooms\n- A\n* B\n## Links"),
        Err(Errors::LineParseError { line_number: 3 })
    ));
    assert!(matches!(
        parse("## Rooms\n-\n## Links"),
        Err(Errors::LineParseError { line_number: 2 })
    ));
}

#[test]
fn a_repeated_room_line_is_a_duplicate() {
    match parse("## Rooms\n- A\n- A\n## Links") {
        Err(Errors::DuplicateRoom(name)) => assert_eq!(name, "A"),
        other => panic!("unexpected {:?}", other.map(|_| ())),
    }
}

#[test]
fn link_lines_need_three_fields() {
    assert!(matches!(
        parse("## Rooms\n- A\n- B\n## Links\n- A -> North"),
        Err(Errors::LineParseError { line_number: 5 })
    ));
    assert!(matches!(
        parse("## Rooms\n- A\n- B\n## Links\n- A -> North -> B -> A"),
        Err(Errors::LineParseError { line_number: 5 })
    ));
    assert!(matches!(
        parse("## Rooms\n- A\n- B\n## Links\nA -> North -> B"),
        Err(Errors::LineParseError { line_number: 5 })
    ));
}

#[test]
fn a_bad_direction_carries_its_token() {
    match parse("## Rooms\n- Entrance\n- Treasure Room\n## Links\n- Entrance -> North-west -> Treasure Room") {
        Err(Errors::DirectionParseError(token)) => assert_eq!(token, "North-west"),
        other => panic!("unexpected {:?}", other.map(|_| ())),
    }
    match parse("## Rooms\n- A\n- B\n## Links\n- A -> north -> B") {
        Err(Errors::DirectionParseError(token)) => assert_eq!(token, "north"),
        other => panic!("unexpected {:?}", other.map(|_| ())),
    }
}

#[test]
fn an_undeclared_endpoint_is_named() {
    match parse("## Rooms\n- Entrance\n## Links\n- Closet -> North -> Bathroom") {
        Err(Errors::UnknownRoom(name)) => assert_eq!(name, "Closet"),
        other => panic!("unexpected {:?}", other.map(|_| ())),
    }
    match parse("## Rooms\n- Entrance\n## Links\n- Entrance -> North -> Bathroom") {
        Err(Errors::UnknownRoom(name)) => assert_eq!(name, "Bathroom"),
        other => panic!("unexpected {:?}", other.map(|_| ())),
    }
}

#[test]
fn link_endpoints_are_trimmed() {
    let dungeon = parse("## Rooms\n- A\n- B\n## Links\n- A  -> East -> B").unwrap();
    assert_eq!(dungeon.get_next_room("A", Direction::East).unwrap().unwrap().name, "B");
}

#[test]
fn the_first_error_wins() {
    match parse("## Rooms\n- A\n## Links\n- A -> Up -> Z\n- Q -> North -> A") {
        Err(Errors::DirectionParseError(token)) => assert_eq!(token, "Up"),
        other => panic!("unexpected {:?}", other.map(|_| ())),
    }
}

#[test]
fn search_explores_the_last_pushed_neighbour_first() {
    let mut dungeon = Dungeon::new();
    for name in ["A", "B", "C", "D"] {
        dungeon.add_room(name).unwrap();
    }
    dungeon.set_link("A", Direction::North, "B").unwrap();
    dungeon.set_link("A", Direction::West, "C").unwrap();
    dungeon.set_link("B", Direction::West, "D").unwrap();
    dungeon.set_link("C", Direction::North, "D").unwrap();
    let path = dungeon.find_path("A", "D").unwrap().unwrap();
    assert_eq!(names(&path), vec!["A", "C", "D"]);
}

#[test]
fn a_long_corridor_is_walked_end_to_end() {
    let mut dungeon = Dungeon::new();
    let rooms: Vec<String> = (0..12).map(|i| format!("Room {}", i)).collect();
    for r in &rooms {
        dungeon.add_room(r).unwrap();
    }
    for i in 0..rooms.len() - 1 {
        dungeon.set_link(&rooms[i], Direction::East, &rooms[i + 1]).unwrap();
    }
    let path = dungeon.find_path("Room 0", "Room 11").unwrap().unwrap();
    assert_eq!(names(&path), rooms);
    let back = dungeon.find_path("Room 11", "Room 0").unwrap().unwrap();
    assert_eq!(back.len(), 12);
    assert_eq!(back[11].name, "Room 0");
}

#[test]
fn separate_parts_have_no_path() {
    let mut dungeon = Dungeon::new();
    for name in ["A", "B", "C", "D"] {
        dungeon.add_room(name).unwrap();
    }
    dungeon.set_link("A", Direction::North, "B").unwrap();
    dungeon.set_link("C", Direction::North, "D").unwrap();
    assert!(dungeon.find_path("A", "D").unwrap().is_none());
    assert_eq!(names(&dungeon.find_path("A", "B").unwrap().unwrap()), vec!["A", "B"]);
    match dungeon.find_path("A", "Z") {
        Err(Errors::UnknownRoom(name)) => assert_eq!(name, "Z"),
        other => panic!("unexpected {:?}", other.map(|_| ())),
    }
    match dungeon.find_path("Y", "Z") {
        Err(Errors::UnknownRoom(name)) => assert_eq!(name, "Y"),
        other => panic!("unexpected {:?}", other.map(|_| ())),
    }
}

#[test]
fn a_found_path_repeats_no_room() {
    let mut dungeon = Dungeon::new();
    for name in ["A", "B", "C", "D", "E"] {
        dungeon.add_room(name).unwrap();
    }
    dungeon.set_link("A", Direction::East, "B").unwrap();
    dungeon.set_link("B", Direction::South, "C").unwrap();
    dungeon.set_link("C", Direction::West, "D").unwrap();
    dungeon.set_link("D", Direction::North, "A").unwrap();
    dungeon.set_link("C", Direction::East, "E").unwrap();
    let path = names(&dungeon.find_path("A", "E").unwrap().unwrap());
    assert_eq!(path.first().unwrap(), "A");
    assert_eq!(path.last().unwrap(), "E");
    let mut seen = path.clone();
    seen.sort();
    seen.dedup();
    assert_eq!(seen.len(), path.len());
    for w in path.windows(2) {
        let here = dungeon.get_room(&w[0]).unwrap();
        assert!(all_links(&dungeon, here).contains(&w[1].as_str()));
    }
}

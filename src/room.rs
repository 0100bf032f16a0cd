use vstd::prelude::*;

verus! {

/// One of the four cardinal link slots of a room.
#[derive(Clone, Copy, Debug, PartialEq, Eq, Structural)]
pub enum Direction {
    North,
    South,
    East,
    West,
}

/// The slot that a link in direction `d` is mirrored into.
pub open spec fn opposite(d: Direction) -> Direction {
    match d {
        Direction::North => Direction::South,
        Direction::South => Direction::North,
        Direction::East => Direction::West,
        Direction::West => Direction::East,
    }
}

/// Executable form of [`opposite`].
pub fn opposite_of(d: Direction) -> (r: Direction)
    ensures
        r == opposite(d),
{
    match d {
        Direction::North => Direction::South,
        Direction::South => Direction::North,
        Direction::East => Direction::West,
        Direction::West => Direction::East,
    }
}

/// The four neighbour slots of a room; an empty slot is `None`.
#[derive(Debug)]
pub struct Neighbours {
    pub west: Option<String>,
    pub east: Option<String>,
    pub south: Option<String>,
    pub north: Option<String>,
}

/// Name of a room as a sequence of characters.
pub type Name = Seq<char>;

/// What a room's slots say: for each set direction, the neighbour's name.
pub type Exits = Map<Direction, Name>;

pub open spec fn opt_view(o: Option<String>) -> Option<Name> {
    match o {
        Some(s) => Some(s@),
        None => None,
    }
}

impl Neighbours {
    /// The slot for direction `d`.
    pub open spec fn slot(&self, d: Direction) -> Option<Name> {
        match d {
            Direction::North => opt_view(self.north),
            Direction::South => opt_view(self.south),
            Direction::East => opt_view(self.east),
            Direction::West => opt_view(self.west),
        }
    }
}

impl View for Neighbours {
    type V = Exits;

    open spec fn view(&self) -> Exits {
        Map::new(|d: Direction| self.slot(d) is Some, |d: Direction| self.slot(d)->0)
    }
}

fn clone_slot(o: &Option<String>) -> (r: Option<String>)
    ensures
        opt_view(r) == opt_view(*o),
{
    match o {
        Some(s) => Some(s.clone()),
        None => None,
    }
}

impl Neighbours {
    /// A copy with the same four slots.
    pub fn clone(&self) -> (r: Neighbours)
        ensures
            r@ == self@,
    {
        let r = Neighbours {
            west: clone_slot(&self.west),
            east: clone_slot(&self.east),
            north: clone_slot(&self.north),
            south: clone_slot(&self.south),
        };
        r
    }

    /// Four empty slots.
    pub fn new() -> (r: Self)
        ensures
            r@ == Map::<Direction, Name>::empty(),
    {
        let r = Neighbours { north: None, west: None, east: None, south: None };
        r
    }

    pub fn set_west(&mut self, room_name: String)
        ensures
            final(self)@ == old(self)@.insert(Direction::West, room_name@),
    {
        self.west = Some(room_name);
    }

    pub fn set_east(&mut self, room_name: String)
        ensures
            final(self)@ == old(self)@.insert(Direction::East, room_name@),
    {
        self.east = Some(room_name);
    }

    pub fn set_north(&mut self, room_name: String)
        ensures
            final(self)@ == old(self)@.insert(Direction::North, room_name@),
    {
        self.north = Some(room_name);
    }

    pub fn set_south(&mut self, room_name: String)
        ensures
            final(self)@ == old(self)@.insert(Direction::South, room_name@),
    {
        self.south = Some(room_name);
    }

    /// Sets the slot for direction `d`.
    pub fn set(&mut self, d: Direction, room_name: String)
        ensures
            final(self)@ == old(self)@.insert(d, room_name@),
    {
        match d {
            Direction::North => self.set_north(room_name),
            Direction::South => self.set_south(room_name),
            Direction::East => self.set_east(room_name),
            Direction::West => self.set_west(room_name),
        }
    }

    pub fn get_west(self) -> (r: Option<String>)
        ensures
            opt_view(r) == self.slot(Direction::West),
    {
        self.west
    }

    pub fn get_east(self) -> (r: Option<String>)
        ensures
            opt_view(r) == self.slot(Direction::East),
    {
        self.east
    }

    pub fn get_north(self) -> (r: Option<String>)
        ensures
            opt_view(r) == self.slot(Direction::North),
    {
        self.north
    }

    pub fn get_south(self) -> (r: Option<String>)
        ensures
            opt_view(r) == self.slot(Direction::South),
    {
        self.south
    }

    /// The name in the slot for direction `d`, borrowed.
    pub fn get(&self, d: Direction) -> (r: Option<&String>)
        ensures
            match r {
                Some(s) => self@.contains_key(d) && s@ == self@[d],
                None => !self@.contains_key(d),
            },
    {
        match d {
            Direction::North => self.north.as_ref(),
            Direction::South => self.south.as_ref(),
            Direction::East => self.east.as_ref(),
            Direction::West => self.west.as_ref(),
        }
    }
}

/// A named node of the dungeon with its four neighbour slots.
#[derive(Debug)]
pub struct Room {
    pub name: String,
    pub next_to: Neighbours,
}

impl Room {
    /// A room called `name` with no links.
    pub fn new(name: String) -> (r: Self)
        ensures
            r.name@ == name@,
            r.next_to@ == Map::<Direction, Name>::empty(),
    {
        Room { name, next_to: Neighbours::new() }
    }
}

} // verus!

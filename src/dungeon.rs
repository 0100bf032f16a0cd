use vstd::prelude::*;

use crate::error::Errors;
use crate::room::{opposite, opposite_of, Direction, Exits, Name, Room};

pub mod path;

verus! {

/// The model of a dungeon: each room's name mapped to its exits.
pub type Layout = Map<Name, Exits>;

/// `e` is `UnknownRoom` naming `n`.
pub open spec fn is_unknown_room(e: Errors, n: Name) -> bool {
    match e {
        Errors::UnknownRoom(s) => s@ == n,
        _ => false,
    }
}

/// `e` is `DuplicateRoom` naming `n`.
pub open spec fn is_duplicate_room(e: Errors, n: Name) -> bool {
    match e {
        Errors::DuplicateRoom(s) => s@ == n,
        _ => false,
    }
}

/// Every link of the layout leads to a room of the layout.
pub open spec fn links_closed(m: Layout) -> bool {
    forall|k: Name, d: Direction|
        #![trigger m[k][d]]
        m.contains_key(k) && m[k].contains_key(d) ==> m.contains_key(m[k][d])
}

/// The layout after linking `a` towards `d` to `b`, and `b` back towards the
/// opposite direction to `a`.
pub open spec fn linked(m: Layout, a: Name, d: Direction, b: Name) -> Layout {
    let m1 = m.insert(a, m[a].insert(d, b));
    m1.insert(b, m1[b].insert(opposite(d), a))
}

/// The layout after adding a room called `name`: unchanged if the name is taken.
pub open spec fn with_room(m: Layout, name: Name) -> Layout {
    if m.contains_key(name) {
        m
    } else {
        m.insert(name, Exits::empty())
    }
}

/// The name in slot `d` of room `a`, if that slot is set.
pub open spec fn next_name(m: Layout, a: Name, d: Direction) -> Option<Name> {
    if m[a].contains_key(d) {
        Some(m[a][d])
    } else {
        None
    }
}

/// The names in the set slots of `e`, in the order North, South, East, West.
pub open spec fn exit_names(e: Exits) -> Seq<Name> {
    slot_names(e, Direction::North) + slot_names(e, Direction::South) + slot_names(
        e,
        Direction::East,
    ) + slot_names(e, Direction::West)
}

pub open spec fn slot_names(e: Exits, d: Direction) -> Seq<Name> {
    if e.contains_key(d) {
        seq![e[d]]
    } else {
        seq![]
    }
}

/// A graph of uniquely named rooms joined by directional links.
pub struct Dungeon {
    pub(crate) rooms: Vec<Room>,
    pub(crate) layout: Ghost<Layout>,
}

impl View for Dungeon {
    type V = Layout;

    closed spec fn view(&self) -> Layout {
        self.layout@
    }
}

impl Dungeon {
    /// The rooms are stored once each and agree with the layout, whose links
    /// all lead to rooms of the dungeon.
    pub closed spec fn wf(&self) -> bool {
        &&& forall|i: int, j: int|
            0 <= i < j < self.rooms.len() ==> self.rooms[i].name@ != self.rooms[j].name@
        &&& forall|k: Name|
            self.layout@.contains_key(k) <==> exists|i: int|
                0 <= i < self.rooms.len() && #[trigger] self.rooms[i].name@ == k
        &&& forall|i: int|
            0 <= i < self.rooms.len() ==> self.layout@[#[trigger] self.rooms[i].name@]
                == self.rooms[i].next_to@
        &&& links_closed(self.layout@)
    }

    /// Position of the room called `name`, if there is one.
    pub(crate) fn index_of(&self, name: &str) -> (r: Option<usize>)
        requires
            self.wf(),
        ensures
            match r {
                Some(i) => i < self.rooms.len() && self.rooms[i as int].name@ == name@
                    && self@.contains_key(name@),
                None => !self@.contains_key(name@),
            },
    {
        let key = name.to_owned();
        let mut i: usize = 0;
        while i < self.rooms.len()
            invariant
                self.wf(),
                key@ == name@,
                i <= self.rooms.len(),
                forall|j: int| 0 <= j < i ==> self.rooms[j].name@ != name@,
            decreases self.rooms.len() - i,
        {
            if self.rooms[i].name == key {
                return Some(i);
            }
            i = i + 1;
        }
        None
    }

    /// An empty dungeon.
    pub fn new() -> (r: Self)
        ensures
            r.wf(),
            r@ == Layout::empty(),
    {
        Dungeon { rooms: Vec::new(), layout: Ghost(Layout::empty()) }
    }

    /// Adds a room called `name` with no links, unless the name is taken.
    pub fn add_room(&mut self, name: &str) -> (r: Result<(), Errors>)
        requires
            old(self).wf(),
        ensures
            final(self).wf(),
            final(self)@ == with_room(old(self)@, name@),
            old(self)@.contains_key(name@) ==> r is Err && is_duplicate_room(r->Err_0, name@),
            !old(self)@.contains_key(name@) ==> r is Ok,
    {
        if self.index_of(name).is_some() {
            return Err(Errors::DuplicateRoom(name.to_owned()));
        }
        let room = Room::new(name.to_owned());
        self.rooms.push(room);
        self.layout = Ghost(self.layout@.insert(name@, Exits::empty()));
        proof {
            let n = self.rooms.len() - 1;
            assert forall|k: Name|
                self.layout@.contains_key(k) <==> exists|i: int|
                    0 <= i < self.rooms.len() && #[trigger] self.rooms[i].name@ == k by {
                if old(self).layout@.contains_key(k) {
                    let i = choose|i: int|
                        0 <= i < old(self).rooms.len() && #[trigger] old(self).rooms[i].name@
                            == k;
                    assert(self.rooms[i].name@ == k);
                }
                if k == name@ {
                    assert(self.rooms[n as int].name@ == k);
                }
            }
        }
        Ok(())
    }

    /// The room called `room_name`.
    pub fn get_room(&self, room_name: &str) -> (r: Result<&Room, Errors>)
        requires
            self.wf(),
        ensures
            match r {
                Ok(room) => self@.contains_key(room_name@) && room.name@ == room_name@
                    && room.next_to@ == self@[room_name@],
                Err(e) => !self@.contains_key(room_name@) && is_unknown_room(e, room_name@),
            },
    {
        match self.index_of(room_name) {
            Some(i) => Ok(&self.rooms[i]),
            None => Err(Errors::UnknownRoom(room_name.to_owned())),
        }
    }

    /// Sets the `direction` slot of `room_name` to `other_room_name`, and the
    /// opposite slot of `other_room_name` back to `room_name`.
    pub fn set_link(&mut self, room_name: &str, direction: Direction, other_room_name: &str) -> (r:
        Result<(), Errors>)
        requires
            old(self).wf(),
        ensures
            final(self).wf(),
            !old(self)@.contains_key(room_name@) ==> r is Err && is_unknown_room(
                r->Err_0,
                room_name@,
            ) && final(self)@ == old(self)@,
            old(self)@.contains_key(room_name@) && !old(self)@.contains_key(other_room_name@)
                ==> r is Err && is_unknown_room(r->Err_0, other_room_name@) && final(self)@ == old(
                self,
            )@,
            old(self)@.contains_key(room_name@) && old(self)@.contains_key(other_room_name@)
                ==> r is Ok && final(self)@ == linked(
                old(self)@,
                room_name@,
                direction,
                other_room_name@,
            ),
    {
        let i = match self.index_of(room_name) {
            Some(i) => i,
            None => {
                return Err(Errors::UnknownRoom(room_name.to_owned()));
            },
        };
        let j = match self.index_of(other_room_name) {
            Some(j) => j,
            None => {
                return Err(Errors::UnknownRoom(other_room_name.to_owned()));
            },
        };
        let ghost m = self.layout@;
        let ghost a = room_name@;
        let ghost b = other_room_name@;
        let ghost m1 = m.insert(a, m[a].insert(direction, b));
        self.rooms[i].next_to.set(direction, other_room_name.to_owned());
        self.layout = Ghost(m1);
        proof {
            assert forall|k: Name|
                self.layout@.contains_key(k) <==> exists|x: int|
                    0 <= x < self.rooms.len() && #[trigger] self.rooms[x].name@ == k by {
                if old(self).layout@.contains_key(k) {
                    let x = choose|x: int|
                        0 <= x < old(self).rooms.len() && #[trigger] old(self).rooms[x].name@
                            == k;
                    assert(self.rooms[x].name@ == k);
                }
            }
        }
        self.rooms[j].next_to.set(opposite_of(direction), room_name.to_owned());
        self.layout = Ghost(linked(m, a, direction, b));
        proof {
            assert forall|k: Name|
                self.layout@.contains_key(k) <==> exists|x: int|
                    0 <= x < self.rooms.len() && #[trigger] self.rooms[x].name@ == k by {
                if old(self).layout@.contains_key(k) {
                    let x = choose|x: int|
                        0 <= x < old(self).rooms.len() && #[trigger] old(self).rooms[x].name@
                            == k;
                    assert(self.rooms[x].name@ == k);
                }
            }
        }
        Ok(())
    }

    /// The room that the `direction` slot of `room_name` leads to, if any.
    pub fn get_next_room(&self, room_name: &str, direction: Direction) -> (r: Result<
        Option<&Room>,
        Errors,
    >)
        requires
            self.wf(),
        ensures
            match r {
                Ok(None) => self@.contains_key(room_name@) && next_name(self@, room_name@, direction)
                    == None::<Name>,
                Ok(Some(room)) => self@.contains_key(room_name@) && next_name(
                    self@,
                    room_name@,
                    direction,
                ) == Some(room.name@) && self@.contains_key(room.name@) && room.next_to@
                    == self@[room.name@],
                Err(e) => !self@.contains_key(room_name@) && is_unknown_room(e, room_name@),
            },
    {
        let i = match self.index_of(room_name) {
            Some(i) => i,
            None => {
                return Err(Errors::UnknownRoom(room_name.to_owned()));
            },
        };
        match self.rooms[i].next_to.get(direction) {
            None => Ok(None),
            Some(next) => {
                match self.index_of(next.as_str()) {
                    Some(j) => Ok(Some(&self.rooms[j])),
                    None => Ok(None),
                }
            },
        }
    }
}

fn push_link<'a>(dungeon: &'a Dungeon, name: &str, d: Direction, out: &mut Vec<&'a str>)
    requires
        dungeon.wf(),
        dungeon@.contains_key(name@),
    ensures
        final(out)@.map_values(|s: &str| s@) == old(out)@.map_values(|s: &str| s@) + slot_names(
            dungeon@[name@],
            d,
        ),
{
    let ghost before = out@;
    match dungeon.get_next_room(name, d) {
        Ok(Some(next)) => {
            out.push(next.name.as_str());
            assert(out@.map_values(|s: &str| s@) =~= before.map_values(|s: &str| s@) + slot_names(
                dungeon@[name@],
                d,
            ));
        },
        _ => {
            assert(before.map_values(|s: &str| s@) + slot_names(dungeon@[name@], d) =~= before.map_values(
                |s: &str| s@,
            ));
        },
    }
}

/// The names of the rooms that the slots of `room` lead to, looked up in
/// `dungeon`, in the order North, South, East, West.
pub fn all_links<'a>(dungeon: &'a Dungeon, room: &'a Room) -> (r: Vec<&'a str>)
    requires
        dungeon.wf(),
        dungeon@.contains_key(room.name@),
    ensures
        r@.map_values(|s: &str| s@) == exit_names(dungeon@[room.name@]),
{
    let mut out: Vec<&'a str> = Vec::new();
    let name = room.name.as_str();
    push_link(dungeon, name, Direction::North, &mut out);
    push_link(dungeon, name, Direction::South, &mut out);
    push_link(dungeon, name, Direction::East, &mut out);
    push_link(dungeon, name, Direction::West, &mut out);
    assert(Seq::<Name>::empty() + slot_names(dungeon@[name@], Direction::North) =~= slot_names(
        dungeon@[name@],
        Direction::North,
    ));
    out
}

} // verus!

use vstd::prelude::*;

use crate::dungeon::{Dungeon, Layout, is_unknown_room};
use crate::error::Errors;
use crate::room::{Direction, Name, Room};
use crate::search::{findpaths, is_graph_path};

verus! {

/// Some slot of room `a` leads to `b`.
pub open spec fn adjacent(m: Layout, a: Name, b: Name) -> bool {
    m.contains_key(a) && exists|d: Direction| #[trigger] m[a].contains_key(d) && m[a][d] == b
}

/// `p` is a sequence of rooms of `m` from `from` to `to`, each consecutive
/// pair adjacent.
pub open spec fn is_path(m: Layout, p: Seq<Name>, from: Name, to: Name) -> bool {
    &&& p.len() > 0
    &&& p[0] == from
    &&& p.last() == to
    &&& forall|i: int| 0 <= i < p.len() ==> m.contains_key(#[trigger] p[i])
    &&& forall|i: int| 0 <= i < p.len() - 1 ==> adjacent(m, #[trigger] p[i], p[i + 1])
}

/// A path that visits no room twice.
pub open spec fn is_simple_path(m: Layout, p: Seq<Name>, from: Name, to: Name) -> bool {
    is_path(m, p, from, to) && p.no_duplicates()
}

/// Some sequence of links leads from `from` to `to`.
pub open spec fn connected(m: Layout, from: Name, to: Name) -> bool {
    exists|p: Seq<Name>| is_simple_path(m, p, from, to)
}

/// The names of a sequence of rooms.
pub open spec fn room_names(rs: Seq<&Room>) -> Seq<Name> {
    rs.map_values(|r: &Room| r.name@)
}

impl Dungeon {
    spec fn name_of(&self, i: int) -> Name {
        self.rooms[i].name@
    }

    /// Position of the room called `nm`.
    spec fn index_for(&self, nm: Name) -> usize {
        choose|x: usize| (x as int) < self.rooms.len() && self.rooms[x as int].name@ == nm
    }

    proof fn lemma_name_unique(&self, i: int, j: int)
        requires
            self.wf(),
            0 <= i < self.rooms.len(),
            0 <= j < self.rooms.len(),
            self.name_of(i) == self.name_of(j),
        ensures
            i == j,
    {
    }

    proof fn lemma_index_for(&self, nm: Name)
        requires
            self.wf(),
            self@.contains_key(nm),
        ensures
            (self.index_for(nm) as int) < self.rooms.len(),
            self.name_of(self.index_for(nm) as int) == nm,
    {
    }

    /// Appends the position of the room behind slot `d` of room `i`, if set.
    fn push_exit(&self, i: usize, d: Direction, out: &mut Vec<usize>)
        requires
            self.wf(),
            i < self.rooms.len(),
        ensures
            final(out).len() <= old(out).len() + 1,
            forall|x: usize| old(out)@.contains(x) ==> final(out)@.contains(x),
            forall|x: usize|
                #![trigger final(out)@.contains(x)]
                final(out)@.contains(x) ==> old(out)@.contains(x) || ((x as int)
                    < self.rooms.len() && self@[self.name_of(i as int)].contains_key(d)
                    && self.name_of(x as int) == self@[self.name_of(i as int)][d]),
            self@[self.name_of(i as int)].contains_key(d) ==> exists|x: usize|
                #[trigger] final(out)@.contains(x) && (x as int) < self.rooms.len() && self.name_of(
                    x as int,
                ) == self@[self.name_of(i as int)][d],
    {
        match self.rooms[i].next_to.get(d) {
            None => {},
            Some(next) => {
                match self.index_of(next.as_str()) {
                    Some(j) => {
                        let ghost before = out@;
                        out.push(j);
                        proof {
                            assert(out@[before.len() as int] == j);
                            assert(out@.contains(j));
                            assert forall|x: usize| before.contains(x) implies out@.contains(x) by {
                                let y = choose|y: int| 0 <= y < before.len() && before[y] == x;
                                assert(out@[y] == x);
                            }
                            assert(forall|x: usize| out@.contains(x) ==> before.contains(x) || x == j);
                        }
                    },
                    None => {
                    },
                }
            },
        }
    }

    /// For each room, by position, the positions of the rooms its slots lead
    /// to, in the order North, South, East, West.
    fn adjacency(&self) -> (g: Vec<Vec<usize>>)
        requires
            self.wf(),
        ensures
            g.len() == self.rooms.len(),
            forall|i: int| 0 <= i < g.len() ==> (#[trigger] g[i]).len() <= 4,
            forall|i: int, x: int|
                0 <= i < g.len() && 0 <= x < g[i].len() ==> #[trigger] g[i][x] < g.len(),
            forall|i: int, j: usize|
                0 <= i < g.len() && (j as int) < g.len() ==> (#[trigger] g[i]@.contains(j)
                    <==> adjacent(self@, self.name_of(i), self.name_of(j as int))),
    {
        let mut g: Vec<Vec<usize>> = Vec::new();
        let mut i: usize = 0;
        while i < self.rooms.len()
            invariant
                self.wf(),
                i <= self.rooms.len(),
                g.len() == i,
                forall|a: int| 0 <= a < g.len() ==> (#[trigger] g[a]).len() <= 4,
                forall|a: int, x: int|
                    0 <= a < g.len() && 0 <= x < g[a].len() ==> #[trigger] g[a][x]
                        < self.rooms.len(),
                forall|a: int, j: usize|
                    0 <= a < g.len() && (j as int) < self.rooms.len() ==> (
                    #[trigger] g[a]@.contains(j) <==> adjacent(
                        self@,
                        self.name_of(a),
                        self.name_of(j as int),
                    )),
            decreases self.rooms.len() - i,
        {
            let mut exits: Vec<usize> = Vec::new();
            self.push_exit(i, Direction::North, &mut exits);
            self.push_exit(i, Direction::South, &mut exits);
            self.push_exit(i, Direction::East, &mut exits);
            self.push_exit(i, Direction::West, &mut exits);
            proof {
                let ni = self.name_of(i as int);
                assert forall|x: int| 0 <= x < exits.len() implies #[trigger] exits[x]
                    < self.rooms.len() by {
                    assert(exits@.contains(exits@[x]));
                }
                assert forall|j: usize| (j as int) < self.rooms.len() implies (
                #[trigger] exits@.contains(j) <==> adjacent(self@, ni, self.name_of(j as int))) by {
                    if exits@.contains(j) {
                        assert(self@[ni].contains_key(Direction::North) || self@[ni].contains_key(
                            Direction::South,
                        ) || self@[ni].contains_key(Direction::East) || self@[ni].contains_key(
                            Direction::West,
                        ));
                    }
                    if adjacent(self@, ni, self.name_of(j as int)) {
                        let d = choose|d: Direction|
                            #[trigger] self@[ni].contains_key(d) && self@[ni][d] == self.name_of(
                                j as int,
                            );
                        let x = choose|x: usize|
                            #[trigger] exits@.contains(x) && (x as int) < self.rooms.len()
                                && self.name_of(x as int) == self@[ni][d];
                        self.lemma_name_unique(x as int, j as int);
                    }
                }
            }
            g.push(exits);
            proof {
            }
            i = i + 1;
        }
        g
    }

    /// Some path of rooms from `start_room_name` to `end_room_name`: the
    /// first one that a depth-first search meets, or `None` if none exists.
    pub fn find_path(&self, start_room_name: &str, end_room_name: &str) -> (r: Result<
        Option<Vec<&Room>>,
        Errors,
    >)
        requires
            self.wf(),
        ensures
            !self@.contains_key(start_room_name@) ==> r is Err && is_unknown_room(
                r->Err_0,
                start_room_name@,
            ),
            self@.contains_key(start_room_name@) && !self@.contains_key(end_room_name@) ==> r is Err
                && is_unknown_room(r->Err_0, end_room_name@),
            self@.contains_key(start_room_name@) && self@.contains_key(end_room_name@) ==> r is Ok
                && match r->Ok_0 {
                Some(p) => is_simple_path(self@, room_names(p@), start_room_name@, end_room_name@)
                    && forall|i: int|
                    0 <= i < p.len() ==> (#[trigger] p[i]).next_to@ == self@[p[i].name@],
                None => !connected(self@, start_room_name@, end_room_name@),
            },
    {
        let s = match self.index_of(start_room_name) {
            Some(s) => s,
            None => {
                return Err(Errors::UnknownRoom(start_room_name.to_owned()));
            },
        };
        let t = match self.index_of(end_room_name) {
            Some(t) => t,
            None => {
                return Err(Errors::UnknownRoom(end_room_name.to_owned()));
            },
        };
        let g = self.adjacency();
        let found = findpaths(&g, s, t);
        if found.len() == 0 {
            proof {
                assert forall|q: Seq<Name>|
                    !is_simple_path(self@, q, start_room_name@, end_room_name@) by {
                    if is_simple_path(self@, q, start_room_name@, end_room_name@) {
                        self.lemma_no_path(&g, q, s, t);
                    }
                }
            }
            return Ok(None);
        }
        let mut result: Vec<&Room> = Vec::new();
        let mut i: usize = 0;
        while i < found.len()
            invariant
                self.wf(),
                i <= found.len(),
                result.len() == i,
                is_graph_path(g@, found@, s, t),
                g.len() == self.rooms.len(),
                forall|k: int| 0 <= k < i ==> #[trigger] result[k] == &self.rooms[found[k] as int],
            decreases found.len() - i,
        {
            result.push(&self.rooms[found[i]]);
            i = i + 1;
        }
        proof {
            let p = room_names(result@);
            assert forall|a: int, b: int| 0 <= a < b < p.len() implies p[a] != p[b] by {
                if p[a] == p[b] {
                    self.lemma_name_unique(found@[a] as int, found@[b] as int);
                }
            }
        }
        Ok(Some(result))
    }

    /// A simple path of names gives a path of positions that the search
    /// would have found.
    proof fn lemma_no_path(&self, g: &Vec<Vec<usize>>, q: Seq<Name>, s: usize, t: usize)
        requires
            self.wf(),
            g.len() == self.rooms.len(),
            forall|i: int, j: usize|
                0 <= i < g.len() && (j as int) < g.len() ==> (#[trigger] g[i]@.contains(j)
                    <==> adjacent(self@, self.name_of(i), self.name_of(j as int))),
            (s as int) < self.rooms.len(),
            (t as int) < self.rooms.len(),
            is_simple_path(self@, q, self.name_of(s as int), self.name_of(t as int)),
        ensures
            is_graph_path(g@, q.map_values(|nm: Name| self.index_for(nm)), s, t),
    {
        let qi = q.map_values(|nm: Name| self.index_for(nm));
        assert forall|k: int| 0 <= k < q.len() implies (#[trigger] qi[k] as int) < g.len()
            && self.name_of(qi[k] as int) == q[k] by {
            self.lemma_index_for(q[k]);
        }
        self.lemma_name_unique(qi[0] as int, s as int);
        self.lemma_name_unique(qi.last() as int, t as int);
    }
}

} // verus!

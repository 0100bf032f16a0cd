use vstd::prelude::*;

use crate::dungeon::path::{connected, is_path, is_simple_path};
use crate::dungeon::{Layout, linked, next_name, with_room};
use crate::parse::{Failure, direction_of, line_at, parse_links};
use crate::room::{opposite, Direction, Name};
use crate::text::{split_arrows, trim};

verus! {

/// Once a room is added, adding the same name again is refused (its name is
/// present) and leaves the layout, and so the number of rooms, unchanged.
pub proof fn law_add_twice(m: Layout, name: Name)
    ensures
        with_room(m, name).contains_key(name),
        with_room(with_room(m, name), name) == with_room(m, name),
        with_room(with_room(m, name), name).dom().len() == with_room(m, name).dom().len(),
{
}

/// A name that was never added is absent, whatever other names were added.
pub proof fn law_never_added(m: Layout, name: Name, other: Name)
    requires
        !m.contains_key(name),
        other != name,
    ensures
        !with_room(m, other).contains_key(name),
{
}

/// After linking `a` towards `d` to `b`, slot `d` of `a` leads to `b` and the
/// opposite slot of `b` leads back to `a`.
pub proof fn law_link_reciprocal(m: Layout, a: Name, d: Direction, b: Name)
    requires
        m.contains_key(a),
        m.contains_key(b),
    ensures
        linked(m, a, d, b).contains_key(a),
        linked(m, a, d, b).contains_key(b),
        next_name(linked(m, a, d, b), a, d) == Some(b),
        next_name(linked(m, a, d, b), b, opposite(d)) == Some(a),
{
}

/// Linking the same slot again replaces the earlier neighbour.
pub proof fn law_link_overwrites(m: Layout, a: Name, d: Direction, b: Name, c: Name)
    requires
        m.contains_key(a),
        m.contains_key(b),
        m.contains_key(c),
    ensures
        next_name(linked(linked(m, a, d, b), a, d, c), a, d) == Some(c),
{
}

/// Any two new names, whatever their characters, can be added and linked,
/// and each is then found through the other.
pub proof fn law_new_rooms_link(m: Layout, a: Name, b: Name, d: Direction)
    requires
        !m.contains_key(a),
        !m.contains_key(b),
        a != b,
    ensures
        ({
            let m2 = with_room(with_room(m, a), b);
            &&& m2.contains_key(a) && m2.contains_key(b)
            &&& next_name(linked(m2, a, d, b), a, d) == Some(b)
            &&& next_name(linked(m2, a, d, b), b, opposite(d)) == Some(a)
        }),
{
}

/// The only path from a room to itself that visits no room twice is that
/// room alone, and it exists.
pub proof fn law_reflexive_path(m: Layout, x: Name, p: Seq<Name>)
    requires
        m.contains_key(x),
    ensures
        connected(m, x, x),
        is_simple_path(m, p, x, x) ==> p == seq![x],
{
    assert(is_simple_path(m, seq![x], x, x));
    if is_simple_path(m, p, x, x) && p.len() > 1 {
        assert(p[0] == p[p.len() - 1]);
    }
    if is_simple_path(m, p, x, x) {
        assert(p =~= seq![x]);
    }
}

/// Where no sequence of links leads from `a` to `b`, the two are not
/// connected.
pub proof fn law_unlinked_not_connected(m: Layout, a: Name, b: Name)
    requires
        forall|p: Seq<Name>| !is_path(m, p, a, b),
    ensures
        !connected(m, a, b),
{
}

/// The fields of the link line `t`, after its two-character prefix.
pub open spec fn link_fields(t: Seq<char>) -> Seq<Seq<char>> {
    split_arrows(t.subrange(2, t.len() as int))
}

/// A well-formed link line that names a room not declared stops the link
/// section with `Unknown`, naming the first such room.
pub proof fn law_undeclared_endpoint(lines: Seq<Seq<char>>, j: int, m: Layout)
    requires
        0 <= j < lines.len(),
        line_at(lines, j).len() >= 2,
        line_at(lines, j)[0] == '-',
        link_fields(line_at(lines, j)).len() == 3,
        direction_of(link_fields(line_at(lines, j))[1]) is Some,
        !m.contains_key(trim(link_fields(line_at(lines, j))[0])) || !m.contains_key(
            trim(link_fields(line_at(lines, j))[2]),
        ),
    ensures
        ({
            let a = trim(link_fields(line_at(lines, j))[0]);
            let b = trim(link_fields(line_at(lines, j))[2]);
            parse_links(lines, j, m) == Err::<Layout, Failure>(
                Failure::Unknown(if !m.contains_key(a) { a } else { b }),
            )
        }),
{
}

/// A link line whose middle field names no direction stops the link
/// section with `BadDirection`, carrying that field.
pub proof fn law_bad_direction(lines: Seq<Seq<char>>, j: int, m: Layout)
    requires
        0 <= j < lines.len(),
        line_at(lines, j).len() >= 2,
        line_at(lines, j)[0] == '-',
        link_fields(line_at(lines, j)).len() == 3,
        direction_of(link_fields(line_at(lines, j))[1]) is None,
    ensures
        parse_links(lines, j, m) == Err::<Layout, Failure>(
            Failure::BadDirection(link_fields(line_at(lines, j))[1]),
        ),
{
}

} // verus!

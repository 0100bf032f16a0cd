use vstd::prelude::*;
use vstd::string::*;

use crate::dungeon::{Dungeon, Layout, is_duplicate_room, is_unknown_room, linked};
use crate::error::Errors;
use crate::room::{Direction, Exits};
use crate::text::{
    same_text, split_arrows, split_arrows_of, texts, trim, trim_end, trim_end_of, trim_of,
};

verus! {

/// Why a text does not describe a dungeon, as a value of the model.
pub enum Failure {
    /// The line with this number breaks the layout (0: there is no line).
    Line(nat),
    /// A room is declared twice.
    Duplicate(Seq<char>),
    /// A link names a room that was not declared.
    Unknown(Seq<char>),
    /// The middle field of a link line names no direction.
    BadDirection(Seq<char>),
}

/// `e` is the error that reports `f`.
pub open spec fn reports(e: Errors, f: Failure) -> bool {
    match f {
        Failure::Line(n) => e matches Errors::LineParseError { line_number } && line_number == n,
        Failure::Duplicate(name) => is_duplicate_room(e, name),
        Failure::Unknown(name) => is_unknown_room(e, name),
        Failure::BadDirection(t) => match e {
            Errors::DirectionParseError(s) => s@ == t,
            _ => false,
        },
    }
}

pub open spec fn rooms_header() -> Seq<char> {
    "## Rooms"@
}

pub open spec fn links_header() -> Seq<char> {
    "## Links"@
}

/// The direction that the token `t` names, matched exactly.
pub open spec fn direction_of(t: Seq<char>) -> Option<Direction> {
    if t == "North"@ {
        Some(Direction::North)
    } else if t == "South"@ {
        Some(Direction::South)
    } else if t == "East"@ {
        Some(Direction::East)
    } else if t == "West"@ {
        Some(Direction::West)
    } else {
        None
    }
}

/// Line `i` (counting from 0) with its trailing white space removed.
pub open spec fn line_at(lines: Seq<Seq<char>>, i: int) -> Seq<char> {
    trim_end(lines[i])
}

/// The room section from line `i` on, with the rooms `m` declared so far:
/// the rooms and the index of the first link line, or the first failure.
pub open spec fn parse_rooms(lines: Seq<Seq<char>>, i: int, m: Layout) -> Result<
    (Layout, int),
    Failure,
>
    decreases lines.len() - i,
{
    if i < 0 || i >= lines.len() {
        Err(Failure::Line(lines.len()))
    } else {
        let t = line_at(lines, i);
        if t.len() == 0 {
            if i + 1 >= lines.len() {
                Err(Failure::Line(lines.len()))
            } else if line_at(lines, i + 1) == links_header() {
                Ok((m, i + 2))
            } else {
                Err(Failure::Line((i + 2) as nat))
            }
        } else if t == links_header() {
            Ok((m, i + 1))
        } else if t[0] != '-' || t.len() < 2 {
            Err(Failure::Line((i + 1) as nat))
        } else {
            let name = t.subrange(2, t.len() as int);
            if m.contains_key(name) {
                Err(Failure::Duplicate(name))
            } else {
                parse_rooms(lines, i + 1, m.insert(name, Exits::empty()))
            }
        }
    }
}

/// The effect of the trimmed link line `t`, numbered `number`, on `m`.
pub open spec fn link_line(t: Seq<char>, number: nat, m: Layout) -> Result<Layout, Failure> {
    if t.len() < 2 || t[0] != '-' {
        Err(Failure::Line(number))
    } else {
        let f = split_arrows(t.subrange(2, t.len() as int));
        if f.len() != 3 {
            Err(Failure::Line(number))
        } else {
            match direction_of(f[1]) {
                None => Err(Failure::BadDirection(f[1])),
                Some(d) => {
                    let a = trim(f[0]);
                    let b = trim(f[2]);
                    if !m.contains_key(a) {
                        Err(Failure::Unknown(a))
                    } else if !m.contains_key(b) {
                        Err(Failure::Unknown(b))
                    } else {
                        Ok(linked(m, a, d, b))
                    }
                }
            }
        }
    }
}

/// The link section from line `j` on, applied to `m`.
pub open spec fn parse_links(lines: Seq<Seq<char>>, j: int, m: Layout) -> Result<Layout, Failure>
    decreases lines.len() - j,
{
    if j < 0 || j >= lines.len() {
        Ok(m)
    } else {
        match link_line(line_at(lines, j), (j + 1) as nat, m) {
            Err(f) => Err(f),
            Ok(m2) => parse_links(lines, j + 1, m2),
        }
    }
}

/// The dungeon that the text with these lines describes, or the first failure.
pub open spec fn parse(lines: Seq<Seq<char>>) -> Result<Layout, Failure> {
    if lines.len() == 0 {
        Err(Failure::Line(0))
    } else if line_at(lines, 0) != rooms_header() {
        Err(Failure::Line(1))
    } else {
        match parse_rooms(lines, 1, Layout::empty()) {
            Err(f) => Err(f),
            Ok((m, j)) => parse_links(lines, j, m),
        }
    }
}

proof fn lemma_rooms_end(lines: Seq<Seq<char>>, i: int, m: Layout)
    requires
        0 <= i,
        parse_rooms(lines, i, m) is Ok,
    ensures
        i < parse_rooms(lines, i, m)->Ok_0.1 <= lines.len(),
    decreases lines.len() - i,
{
    let t = line_at(lines, i);
    if t.len() != 0 && t != links_header() && t[0] == '-' && t.len() >= 2 {
        let name = t.subrange(2, t.len() as int);
        if !m.contains_key(name) {
            lemma_rooms_end(lines, i + 1, m.insert(name, Exits::empty()));
        }
    }
}

/// The direction that `dir` names, if any.
fn str_to_direction(dir: &str) -> (r: Option<Direction>)
    ensures
        r == direction_of(dir@),
{
    if same_text(dir, "North") {
        Some(Direction::North)
    } else if same_text(dir, "South") {
        Some(Direction::South)
    } else if same_text(dir, "East") {
        Some(Direction::East)
    } else if same_text(dir, "West") {
        Some(Direction::West)
    } else {
        None
    }
}

/// Applies the trimmed link line `t`, numbered `number`, to `d`.
fn apply_link_line(t: &str, number: usize, d: &mut Dungeon) -> (r: Result<(), Errors>)
    requires
        old(d).wf(),
    ensures
        final(d).wf(),
        match link_line(t@, number as nat, old(d)@) {
            Ok(m) => r is Ok && final(d)@ == m,
            Err(f) => r is Err && reports(r->Err_0, f),
        },
{
    let n = t.unicode_len();
    if n < 2 || t.get_char(0) != '-' {
        return Err(Errors::LineParseError { line_number: number });
    }
    let fields = split_arrows_of(t.substring_char(2, n));
    if fields.len() != 3 {
        return Err(Errors::LineParseError { line_number: number });
    }
    let dir = match str_to_direction(fields[1].as_str()) {
        Some(dir) => dir,
        None => {
            return Err(Errors::DirectionParseError(fields[1].clone()));
        },
    };
    d.set_link(trim_of(fields[0].as_str()), dir, trim_of(fields[2].as_str()))
}

/// Reads the room section, from the line after the header, into `d`; on
/// success returns the index of the first link line.
fn parse_rooms_section(lines: &Vec<String>, d: &mut Dungeon) -> (r: Result<usize, Errors>)
    requires
        old(d).wf(),
        old(d)@ == Layout::empty(),
        lines.len() >= 1,
    ensures
        final(d).wf(),
        match parse_rooms(texts(lines@), 1, Layout::empty()) {
            Ok((m, j)) => r == Ok::<usize, Errors>(j as usize) && final(d)@ == m,
            Err(f) => r is Err && reports(r->Err_0, f),
        },
{
    let ghost ls = texts(lines@);
    let n = lines.len();
    let mut i: usize = 1;
    while i < n
        invariant
            1 <= i <= n,
            n == lines.len(),
            ls == texts(lines@),
            d.wf(),
            parse_rooms(ls, 1, Layout::empty()) == parse_rooms(ls, i as int, d@),
        decreases n - i,
    {
        let t = trim_end_of(lines[i].as_str());
        let len = t.unicode_len();
        if len == 0 {
            if i + 1 >= n {
                return Err(Errors::LineParseError { line_number: n });
            }
            if same_text(trim_end_of(lines[i + 1].as_str()), "## Links") {
                return Ok(i + 2);
            }
            return Err(Errors::LineParseError { line_number: i + 2 });
        }
        if same_text(t, "## Links") {
            return Ok(i + 1);
        }
        if t.get_char(0) != '-' || len < 2 {
            return Err(Errors::LineParseError { line_number: i + 1 });
        }
        match d.add_room(t.substring_char(2, len)) {
            Ok(()) => {},
            Err(e) => {
                return Err(e);
            },
        }
        i = i + 1;
    }
    Err(Errors::LineParseError { line_number: n })
}

/// Applies the link lines from index `start` on to `d`.
fn parse_links_section(lines: &Vec<String>, start: usize, d: &mut Dungeon) -> (r: Result<
    (),
    Errors,
>)
    requires
        old(d).wf(),
    ensures
        final(d).wf(),
        match parse_links(texts(lines@), start as int, old(d)@) {
            Ok(m) => r is Ok && final(d)@ == m,
            Err(f) => r is Err && reports(r->Err_0, f),
        },
{
    let ghost ls = texts(lines@);
    let n = lines.len();
    let mut j: usize = start;
    while j < n
        invariant
            n == lines.len(),
            start <= j,
            ls == texts(lines@),
            d.wf(),
            parse_links(ls, start as int, old(d)@) == parse_links(ls, j as int, d@),
        decreases n - j,
    {
        let t = trim_end_of(lines[j].as_str());
        match apply_link_line(t, j + 1, d) {
            Ok(()) => {},
            Err(e) => {
                return Err(e);
            },
        }
        j = j + 1;
    }
    Ok(())
}

/// Relies on `std::io::BufRead::lines`: the lines of `reader`, each without
/// its line ending, or the first I/O error met. Nothing is promised of what
/// a reader yields.
#[verifier::external_body]
fn read_lines<B: std::io::BufRead>(reader: B) -> (r: Result<Vec<String>, std::io::Error>) {
    reader.lines().collect()
}

impl Dungeon {
    /// The dungeon described by the text that `reader` yields; an I/O failure
    /// is reported as `IoError`.
    pub fn from_reader<B: std::io::BufRead>(reader: B) -> (r: Result<Dungeon, Errors>)
        ensures
            match r {
                Ok(d) => d.wf() && exists|lines: Seq<Seq<char>>| parse(lines) == Ok::<Layout, Failure>(d@),
                Err(e) => e is IoError || exists|lines: Seq<Seq<char>>|
                    #[trigger] parse(lines) is Err && reports(e, parse(lines)->Err_0),
            },
    {
        match read_lines(reader) {
            Ok(lines) => Dungeon::from_lines(&lines),
            Err(e) => Err(Errors::IoError(e)),
        }
    }

    /// The dungeon that the text with these lines describes.
    pub fn from_lines(lines: &Vec<String>) -> (r: Result<Dungeon, Errors>)
        ensures
            match parse(texts(lines@)) {
                Ok(m) => r is Ok && r->Ok_0.wf() && r->Ok_0@ == m,
                Err(f) => r is Err && reports(r->Err_0, f),
            },
    {
        let ghost ls = texts(lines@);
        if lines.len() == 0 {
            return Err(Errors::LineParseError { line_number: 0 });
        }
        if !same_text(trim_end_of(lines[0].as_str()), "## Rooms") {
            return Err(Errors::LineParseError { line_number: 1 });
        }
        let mut dungeon = Dungeon::new();
        proof {
            if parse_rooms(ls, 1, Layout::empty()) is Ok {
                lemma_rooms_end(ls, 1, Layout::empty());
            }
        }
        let start = match parse_rooms_section(lines, &mut dungeon) {
            Ok(start) => start,
            Err(e) => {
                return Err(e);
            },
        };
        match parse_links_section(lines, start, &mut dungeon) {
            Ok(()) => Ok(dungeon),
            Err(e) => Err(e),
        }
    }
}

} // verus!

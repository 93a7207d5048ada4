//! The megaminx: twelve pentagonal faces of ten stickers, the centres left out.
use crate::codec::{encode, flat, grid, key_modulus, labels_fit, pack};
use crate::models::{UnknownMove, Puzzle, at_home, blank, blank_net, cycle, cycled, home, paint, paint_stickers, painted, spin, spun, stickers};
use crate::text::{texts, upper_of, uppercase, words, words_of};
use vstd::prelude::*;

verus! {

/// The faces of the megaminx.
pub enum Faces {
    White,
    Blue,
    Yellow,
    Purple,
    Green,
    Red,
    Lime,
    Orange,
    Sky,
    Beige,
    Pink,
    Gray,
}

impl Faces {
    /// The face's row in a state.
    pub open spec fn index(&self) -> nat {
        match self {
            Faces::White => 0,
            Faces::Blue => 1,
            Faces::Yellow => 2,
            Faces::Purple => 3,
            Faces::Green => 4,
            Faces::Red => 5,
            Faces::Lime => 6,
            Faces::Orange => 7,
            Faces::Sky => 8,
            Faces::Beige => 9,
            Faces::Pink => 10,
            Faces::Gray => 11,
        }
    }

    pub fn to_number(&self) -> (r: usize)
        ensures
            r == self.index(),
    {
        match self {
            Faces::White => 0,
            Faces::Blue => 1,
            Faces::Yellow => 2,
            Faces::Purple => 3,
            Faces::Green => 4,
            Faces::Red => 5,
            Faces::Lime => 6,
            Faces::Orange => 7,
            Faces::Sky => 8,
            Faces::Beige => 9,
            Faces::Pink => 10,
            Faces::Gray => 11,
        }
    }
}

#[derive(Clone, Copy)]
pub struct Megaminx {
    pub state: [[u8; 10]; 12],
}

impl Default for Megaminx {
    fn default() -> (r: Self)
        ensures
            grid(r.state) == home(12, 10),
    {
        let r = Self { state: [[0u8; 10], [1u8; 10], [2u8; 10], [3u8; 10], [4u8; 10], [5u8; 10], [6u8; 10], [7u8; 10], [8u8; 10], [9u8; 10], [10u8; 10], [11u8; 10]] };
        assert(grid(r.state) =~~= home(12, 10));
        r
    }
}

/// The stickers of the four neighbouring faces that a turn of `face` carries round, three
/// on each, in the order in which they travel.
pub open spec fn adjacent(face: Faces) -> [(usize, [usize; 3]); 5] {
    match face {
        Faces::White => [(1, [2, 3, 4]), (2, [0, 1, 2]), (3, [8, 9, 0]), (4, [6, 7, 8]), (5, [4, 5, 6])],
        Faces::Blue => [(10, [0, 1, 2]), (6, [0, 1, 2]), (2, [8, 9, 0]), (0, [8, 9, 0]), (5, [6, 7, 8])],
        Faces::Yellow => [(6, [2, 3, 4]), (7, [2, 3, 4]), (3, [6, 7, 8]), (0, [6, 7, 8]), (1, [4, 5, 6])],
        Faces::Purple => [(7, [4, 5, 6]), (8, [4, 5, 6]), (4, [4, 5, 6]), (0, [4, 5, 6]), (2, [2, 3, 4])],
        Faces::Green => [(8, [6, 7, 8]), (9, [6, 7, 8]), (5, [2, 3, 4]), (0, [2, 3, 4]), (3, [0, 1, 2])],
        Faces::Red => [(9, [8, 9, 0]), (10, [8, 9, 0]), (1, [0, 1, 2]), (0, [0, 1, 2]), (4, [8, 9, 0])],
        Faces::Lime => [(11, [2, 3, 4]), (7, [0, 1, 2]), (2, [6, 7, 8]), (1, [6, 7, 8]), (10, [2, 3, 4])],
        Faces::Orange => [(11, [4, 5, 6]), (8, [2, 3, 4]), (3, [4, 5, 6]), (2, [4, 5, 6]), (6, [4, 5, 6])],
        Faces::Sky => [(11, [6, 7, 8]), (9, [4, 5, 6]), (4, [2, 3, 4]), (3, [2, 3, 4]), (7, [6, 7, 8])],
        Faces::Beige => [(11, [8, 9, 0]), (10, [6, 7, 8]), (5, [0, 1, 2]), (4, [0, 1, 2]), (8, [8, 9, 0])],
        Faces::Pink => [(11, [0, 1, 2]), (6, [8, 9, 0]), (1, [8, 9, 0]), (5, [8, 9, 0]), (9, [0, 1, 2])],
        Faces::Gray => [(10, [4, 5, 6]), (9, [2, 3, 4]), (8, [0, 1, 2]), (7, [8, 9, 0]), (6, [6, 7, 8])],
    }
}

fn adjacent_of(face: &Faces) -> (r: [(usize, [usize; 3]); 5])
    ensures
        r == adjacent(*face),
{
    match face {
        Faces::White => [(1, [2, 3, 4]), (2, [0, 1, 2]), (3, [8, 9, 0]), (4, [6, 7, 8]), (5, [4, 5, 6])],
        Faces::Blue => [(10, [0, 1, 2]), (6, [0, 1, 2]), (2, [8, 9, 0]), (0, [8, 9, 0]), (5, [6, 7, 8])],
        Faces::Yellow => [(6, [2, 3, 4]), (7, [2, 3, 4]), (3, [6, 7, 8]), (0, [6, 7, 8]), (1, [4, 5, 6])],
        Faces::Purple => [(7, [4, 5, 6]), (8, [4, 5, 6]), (4, [4, 5, 6]), (0, [4, 5, 6]), (2, [2, 3, 4])],
        Faces::Green => [(8, [6, 7, 8]), (9, [6, 7, 8]), (5, [2, 3, 4]), (0, [2, 3, 4]), (3, [0, 1, 2])],
        Faces::Red => [(9, [8, 9, 0]), (10, [8, 9, 0]), (1, [0, 1, 2]), (0, [0, 1, 2]), (4, [8, 9, 0])],
        Faces::Lime => [(11, [2, 3, 4]), (7, [0, 1, 2]), (2, [6, 7, 8]), (1, [6, 7, 8]), (10, [2, 3, 4])],
        Faces::Orange => [(11, [4, 5, 6]), (8, [2, 3, 4]), (3, [4, 5, 6]), (2, [4, 5, 6]), (6, [4, 5, 6])],
        Faces::Sky => [(11, [6, 7, 8]), (9, [4, 5, 6]), (4, [2, 3, 4]), (3, [2, 3, 4]), (7, [6, 7, 8])],
        Faces::Beige => [(11, [8, 9, 0]), (10, [6, 7, 8]), (5, [0, 1, 2]), (4, [0, 1, 2]), (8, [8, 9, 0])],
        Faces::Pink => [(11, [0, 1, 2]), (6, [8, 9, 0]), (1, [8, 9, 0]), (5, [8, 9, 0]), (9, [0, 1, 2])],
        Faces::Gray => [(10, [4, 5, 6]), (9, [2, 3, 4]), (8, [0, 1, 2]), (7, [8, 9, 0]), (6, [6, 7, 8])],
    }
}

/// `s` after `magnitude` fifth turns of `face`, clockwise.
pub open spec fn turned(s: Seq<Seq<u8>>, face: Faces, magnitude: u32) -> Seq<Seq<u8>> {
    let r = (magnitude % 8) as int;
    cycled(spun(s, face.index() as int, r * 2), adjacent(face), r)
}

/// The face that a move's letter names.
pub open spec fn face_of(c: char) -> Option<Faces> {
    if c == 'U' {
        Some(Faces::White)
    } else if c == 'F' {
        Some(Faces::Blue)
    } else if c == 'R' {
        Some(Faces::Yellow)
    } else if c == 'B' {
        Some(Faces::Purple)
    } else if c == 'V' {
        Some(Faces::Green)
    } else if c == 'L' {
        Some(Faces::Red)
    } else if c == 'P' {
        Some(Faces::Pink)
    } else if c == 'G' {
        Some(Faces::Lime)
    } else if c == 'O' {
        Some(Faces::Orange)
    } else if c == 'S' {
        Some(Faces::Sky)
    } else if c == 'J' {
        Some(Faces::Beige)
    } else if c == 'D' {
        Some(Faces::Gray)
    } else {
        None
    }
}

/// The fifth turns of a move: four for a prime, else the digit two, three or four, else one.
pub open spec fn magnitude_of(t: Seq<char>) -> u32 {
    if t.len() > 1 && t[1] == '\'' {
        4
    } else if t.len() > 1 && t[1] == '2' {
        2
    } else if t.len() > 1 && t[1] == '3' {
        3
    } else if t.len() > 1 && t[1] == '4' {
        4
    } else {
        1
    }
}

/// The face and fifth turns of a move, if its first letter names a face.
pub open spec fn move_of(t: Seq<char>) -> Option<(Faces, u32)> {
    if t.len() > 0 {
        match face_of(t[0]) {
            Some(face) => Some((face, magnitude_of(t))),
            None => None,
        }
    } else {
        None
    }
}

/// `s` after the moves of `moves` in order, up to the first that names no face.
pub open spec fn after_moves(s: Seq<Seq<u8>>, moves: Seq<Seq<char>>) -> Seq<Seq<u8>>
    decreases moves.len(),
{
    if moves.len() == 0 {
        s
    } else {
        match move_of(moves[0]) {
            Some((face, m)) => after_moves(turned(s, face, m), moves.drop_first()),
            None => s,
        }
    }
}

fn parse_move(t: &str) -> (r: Option<(Faces, u32)>)
    ensures
        r == move_of(t@),
{
    let n = t.unicode_len();
    if n == 0 {
        return None;
    }
    let face = match t.get_char(0) {
        'U' => Faces::White,
        'F' => Faces::Blue,
        'R' => Faces::Yellow,
        'B' => Faces::Purple,
        'V' => Faces::Green,
        'L' => Faces::Red,
        'P' => Faces::Pink,
        'G' => Faces::Lime,
        'O' => Faces::Orange,
        'S' => Faces::Sky,
        'J' => Faces::Beige,
        'D' => Faces::Gray,
        _ => return None,
    };
    let magnitude: u32 = if n > 1 {
        match t.get_char(1) {
            '\'' => 4,
            '2' => 2,
            '3' => 3,
            '4' => 4,
            _ => 1,
        }
    } else {
        1
    };
    Some((face, magnitude))
}

impl Megaminx {
    /// The unfolded net, row by row: each cell holds the label of the sticker drawn there,
    /// or `NO_STICKER`.
    pub fn net(&self) -> (r: [[u8; 56]; 13])
        ensures
            grid(r) == painted(painted(blank(13, 56), net_centres()@), stickers(grid(self.state), net_map()@)),
    {
        let mut r = blank_net();
        paint(&mut r, &net_centres_of());
        paint_stickers(&mut r, &self.state, &net_map_of());
        r
    }

    fn rotate(&mut self, face: Faces, magnitude: u32)
        requires
            magnitude % 8 <= 5,
        ensures
            grid(final(self).state) == turned(grid(old(self).state), face, magnitude),
    {
        let rotation = (magnitude % 8) as usize;
        spin(&mut self.state, face.to_number(), rotation * 2);
        let adjacent = adjacent_of(&face);
        cycle(&mut self.state, &adjacent, rotation);
    }

    /// Applies the moves of `moves` in order, stopping at the first that names no face.
    /// Fails, naming the position of that move, where a move is not known.
    pub fn input_move_list(&mut self, moves: &Vec<String>) -> (r: Result<(), UnknownMove>)
        ensures
            grid(final(self).state) == after_moves(grid(old(self).state), texts(moves@)),
            r is Ok <==> forall|j: int| 0 <= j < moves.len() ==> (#[trigger] move_of(texts(moves@)[j])) is Some,
            r is Err ==> r->Err_0.index < moves.len() && move_of(texts(moves@)[r->Err_0.index as int]) is None
                && forall|j: int| 0 <= j < r->Err_0.index ==> (#[trigger] move_of(texts(moves@)[j])) is Some,
    {
        let ghost all = texts(moves@);
        let mut i: usize = 0;
        assert(all.subrange(0, all.len() as int) =~= all);
        while i < moves.len()
            invariant
                all == texts(moves@),
                i <= moves.len(),
                forall|j: int| 0 <= j < i ==> (#[trigger] move_of(all[j])) is Some,
                after_moves(grid(old(self).state), all) == after_moves(grid(self.state), all.subrange(i as int, all.len() as int)),
            decreases moves.len() - i,
        {
            let ghost rest = all.subrange(i as int, all.len() as int);
            assert(rest[0] == moves[i as int]@);
            assert(rest.drop_first() =~= all.subrange(i + 1, all.len() as int));
            match parse_move(moves[i].as_str()) {
                Some((face, magnitude)) => self.rotate(face, magnitude),
                None => {
                    return Err(UnknownMove { index: i });
                }
            }
            i = i + 1;
        }
        assert(all.subrange(i as int, all.len() as int) =~= Seq::<Seq<char>>::empty());
        Ok(())
    }

    /// Applies the moves written in `moves`, separated by whitespace and in either case.
    /// Fails, naming the position of that move, where a move is not known.
    pub fn input_moves(&mut self, moves: &str) -> (r: Result<(), UnknownMove>)
        ensures
            grid(final(self).state) == after_moves(grid(old(self).state), words_of(upper_of(moves@))),
            r is Ok <==> forall|j: int| 0 <= j < words_of(upper_of(moves@)).len() ==> (#[trigger] move_of(
                words_of(upper_of(moves@))[j],
            )) is Some,
            r is Err ==> r->Err_0.index < words_of(upper_of(moves@)).len() && move_of(
                words_of(upper_of(moves@))[r->Err_0.index as int],
            ) is None && forall|j: int| 0 <= j < r->Err_0.index ==> (#[trigger] move_of(words_of(upper_of(moves@))[j])) is Some,
    {
        let upper = uppercase(moves);
        let list = words(upper.as_str());
        proof {
            assert(list@.len() == texts(list@).len());
        }
        self.input_move_list(&list)
    }
}

/// Where each sticker appears on the drawn net: entry `((f, p), (x, y))` puts piece `p` of
/// face `f` at row `x`, column `y`.
pub open spec fn net_map() -> [((usize, usize), (usize, usize)); 120] {
    [
        ((0, 0), (9, 12)), ((0, 1), (8, 10)), ((0, 2), (7, 8)), ((0, 3), (6, 9)), ((0, 4), (5, 10)),
        ((0, 5), (5, 12)), ((0, 6), (5, 14)), ((0, 7), (6, 15)), ((0, 8), (7, 16)), ((0, 9), (8, 14)),
        ((1, 0), (12, 15)), ((1, 1), (11, 14)), ((1, 2), (10, 13)), ((1, 3), (9, 15)), ((1, 4), (8, 17)),
        ((1, 5), (9, 19)), ((1, 6), (10, 21)), ((1, 7), (11, 20)), ((1, 8), (12, 19)), ((1, 9), (12, 17)),
        ((2, 0), (7, 18)), ((2, 1), (6, 17)), ((2, 2), (5, 16)), ((2, 3), (4, 18)), ((2, 4), (3, 20)),
        ((2, 5), (4, 22)), ((2, 6), (5, 24)), ((2, 7), (6, 23)), ((2, 8), (7, 22)), ((2, 9), (7, 20)),
        ((3, 0), (4, 10)), ((3, 1), (3, 9)), ((3, 2), (2, 8)), ((3, 3), (1, 10)), ((3, 4), (0, 12)),
        ((3, 5), (1, 14)), ((3, 6), (2, 16)), ((3, 7), (3, 15)), ((3, 8), (4, 14)), ((3, 9), (4, 12)),
        ((4, 0), (7, 2)), ((4, 1), (6, 1)), ((4, 2), (5, 0)), ((4, 3), (4, 2)), ((4, 4), (3, 4)),
        ((4, 5), (4, 6)), ((4, 6), (5, 8)), ((4, 7), (6, 7)), ((4, 8), (7, 6)), ((4, 9), (7, 4)),
        ((5, 0), (12, 5)), ((5, 1), (11, 4)), ((5, 2), (10, 3)), ((5, 3), (9, 5)), ((5, 4), (8, 7)),
        ((5, 5), (9, 9)), ((5, 6), (10, 11)), ((5, 7), (11, 10)), ((5, 8), (12, 9)), ((5, 9), (12, 7)),
        ((6, 0), (7, 32)), ((6, 1), (6, 31)), ((6, 2), (5, 30)), ((6, 3), (4, 32)), ((6, 4), (3, 34)),
        ((6, 5), (4, 36)), ((6, 6), (5, 38)), ((6, 7), (6, 37)), ((6, 8), (7, 36)), ((6, 9), (7, 34)),
        ((7, 0), (4, 40)), ((7, 1), (3, 39)), ((7, 2), (2, 38)), ((7, 3), (1, 40)), ((7, 4), (0, 42)),
        ((7, 5), (1, 44)), ((7, 6), (2, 46)), ((7, 7), (3, 45)), ((7, 8), (4, 44)), ((7, 9), (4, 42)),
        ((8, 0), (7, 48)), ((8, 1), (6, 47)), ((8, 2), (5, 46)), ((8, 3), (4, 48)), ((8, 4), (3, 50)),
        ((8, 5), (4, 52)), ((8, 6), (5, 54)), ((8, 7), (6, 53)), ((8, 8), (7, 52)), ((8, 9), (7, 50)),
        ((9, 0), (12, 45)), ((9, 1), (11, 44)), ((9, 2), (10, 43)), ((9, 3), (9, 45)), ((9, 4), (8, 47)),
        ((9, 5), (9, 49)), ((9, 6), (10, 51)), ((9, 7), (11, 50)), ((9, 8), (12, 49)), ((9, 9), (12, 47)),
        ((10, 0), (12, 35)), ((10, 1), (11, 34)), ((10, 2), (10, 33)), ((10, 3), (9, 35)), ((10, 4), (8, 37)),
        ((10, 5), (9, 39)), ((10, 6), (10, 41)), ((10, 7), (11, 40)), ((10, 8), (12, 39)), ((10, 9), (12, 37)),
        ((11, 0), (9, 42)), ((11, 1), (8, 40)), ((11, 2), (7, 38)), ((11, 3), (6, 39)), ((11, 4), (5, 40)),
        ((11, 5), (5, 42)), ((11, 6), (5, 44)), ((11, 7), (6, 45)), ((11, 8), (7, 46)), ((11, 9), (8, 44)),
    ]
}

fn net_map_of() -> (r: [((usize, usize), (usize, usize)); 120])
    ensures
        r == net_map(),
{
    [
        ((0, 0), (9, 12)), ((0, 1), (8, 10)), ((0, 2), (7, 8)), ((0, 3), (6, 9)), ((0, 4), (5, 10)),
        ((0, 5), (5, 12)), ((0, 6), (5, 14)), ((0, 7), (6, 15)), ((0, 8), (7, 16)), ((0, 9), (8, 14)),
        ((1, 0), (12, 15)), ((1, 1), (11, 14)), ((1, 2), (10, 13)), ((1, 3), (9, 15)), ((1, 4), (8, 17)),
        ((1, 5), (9, 19)), ((1, 6), (10, 21)), ((1, 7), (11, 20)), ((1, 8), (12, 19)), ((1, 9), (12, 17)),
        ((2, 0), (7, 18)), ((2, 1), (6, 17)), ((2, 2), (5, 16)), ((2, 3), (4, 18)), ((2, 4), (3, 20)),
        ((2, 5), (4, 22)), ((2, 6), (5, 24)), ((2, 7), (6, 23)), ((2, 8), (7, 22)), ((2, 9), (7, 20)),
        ((3, 0), (4, 10)), ((3, 1), (3, 9)), ((3, 2), (2, 8)), ((3, 3), (1, 10)), ((3, 4), (0, 12)),
        ((3, 5), (1, 14)), ((3, 6), (2, 16)), ((3, 7), (3, 15)), ((3, 8), (4, 14)), ((3, 9), (4, 12)),
        ((4, 0), (7, 2)), ((4, 1), (6, 1)), ((4, 2), (5, 0)), ((4, 3), (4, 2)), ((4, 4), (3, 4)),
        ((4, 5), (4, 6)), ((4, 6), (5, 8)), ((4, 7), (6, 7)), ((4, 8), (7, 6)), ((4, 9), (7, 4)),
        ((5, 0), (12, 5)), ((5, 1), (11, 4)), ((5, 2), (10, 3)), ((5, 3), (9, 5)), ((5, 4), (8, 7)),
        ((5, 5), (9, 9)), ((5, 6), (10, 11)), ((5, 7), (11, 10)), ((5, 8), (12, 9)), ((5, 9), (12, 7)),
        ((6, 0), (7, 32)), ((6, 1), (6, 31)), ((6, 2), (5, 30)), ((6, 3), (4, 32)), ((6, 4), (3, 34)),
        ((6, 5), (4, 36)), ((6, 6), (5, 38)), ((6, 7), (6, 37)), ((6, 8), (7, 36)), ((6, 9), (7, 34)),
        ((7, 0), (4, 40)), ((7, 1), (3, 39)), ((7, 2), (2, 38)), ((7, 3), (1, 40)), ((7, 4), (0, 42)),
        ((7, 5), (1, 44)), ((7, 6), (2, 46)), ((7, 7), (3, 45)), ((7, 8), (4, 44)), ((7, 9), (4, 42)),
        ((8, 0), (7, 48)), ((8, 1), (6, 47)), ((8, 2), (5, 46)), ((8, 3), (4, 48)), ((8, 4), (3, 50)),
        ((8, 5), (4, 52)), ((8, 6), (5, 54)), ((8, 7), (6, 53)), ((8, 8), (7, 52)), ((8, 9), (7, 50)),
        ((9, 0), (12, 45)), ((9, 1), (11, 44)), ((9, 2), (10, 43)), ((9, 3), (9, 45)), ((9, 4), (8, 47)),
        ((9, 5), (9, 49)), ((9, 6), (10, 51)), ((9, 7), (11, 50)), ((9, 8), (12, 49)), ((9, 9), (12, 47)),
        ((10, 0), (12, 35)), ((10, 1), (11, 34)), ((10, 2), (10, 33)), ((10, 3), (9, 35)), ((10, 4), (8, 37)),
        ((10, 5), (9, 39)), ((10, 6), (10, 41)), ((10, 7), (11, 40)), ((10, 8), (12, 39)), ((10, 9), (12, 37)),
        ((11, 0), (9, 42)), ((11, 1), (8, 40)), ((11, 2), (7, 38)), ((11, 3), (6, 39)), ((11, 4), (5, 40)),
        ((11, 5), (5, 42)), ((11, 6), (5, 44)), ((11, 7), (6, 45)), ((11, 8), (7, 46)), ((11, 9), (8, 44)),
    ]
}

/// The centre of each face, drawn on the net in the face's colour.
pub open spec fn net_centres() -> [(usize, usize, u8); 12] {
    [(7, 12, 0), (10, 17, 1), (5, 20, 2), (2, 12, 3), (5, 4, 4), (10, 7, 5), (5, 34, 6), (2, 42, 7), (5, 50, 8), (10, 47, 9), (10, 37, 10), (7, 42, 11)]
}

fn net_centres_of() -> (r: [(usize, usize, u8); 12])
    ensures
        r == net_centres(),
{
    [(7, 12, 0), (10, 17, 1), (5, 20, 2), (2, 12, 3), (5, 4, 4), (10, 7, 5), (5, 34, 6), (2, 42, 7), (5, 50, 8), (10, 47, 9), (10, 37, 10), (7, 42, 11)]
}

impl Puzzle for Megaminx {
    open spec fn faces(&self) -> Seq<Seq<u8>> {
        grid(self.state)
    }

    open spec fn solved_faces() -> Seq<Seq<u8>> {
        home(12, 10)
    }

    open spec fn fits(&self) -> bool {
        labels_fit(self.state)
    }

    fn is_solved(&self) -> (r: bool) {
        at_home(&self.state)
    }

    fn return_state(&self) -> (key: u128) {
        encode(&self.state)
    }
}

} // verus!

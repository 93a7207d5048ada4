//! The 3x3x3 cube: six faces of eight stickers, the centres left out.
use crate::codec::{encode, flat, grid, key_modulus, labels_fit, pack};
use crate::models::{UnknownMove, Faces, Puzzle, at_home, blank, blank_net, cycle, cycled, home, paint, paint_stickers, painted, spin, spun, stickers};
use crate::text::{texts, upper_of, uppercase, words, words_of};
use vstd::prelude::*;

verus! {

#[derive(Clone, Copy)]
pub struct RubiksCube {
    pub state: [[u8; 8]; 6],
}

impl Default for RubiksCube {
    fn default() -> (r: Self)
        ensures
            grid(r.state) == home(6, 8),
    {
        let r = Self { state: [[0u8; 8], [1u8; 8], [2u8; 8], [3u8; 8], [4u8; 8], [5u8; 8]] };
        assert(grid(r.state) =~~= home(6, 8));
        r
    }
}

/// The stickers of the four neighbouring faces that a turn of `face` carries round, three
/// on each, in the order in which they travel.
pub open spec fn adjacent(face: Faces) -> [(usize, [usize; 3]); 4] {
    match face {
        Faces::White => [(3, [0, 1, 2]), (4, [0, 1, 2]), (1, [0, 1, 2]), (2, [0, 1, 2])],
        Faces::Blue => [(0, [4, 5, 6]), (4, [2, 3, 4]), (5, [0, 1, 2]), (2, [6, 7, 0])],
        Faces::Orange => [(0, [2, 3, 4]), (1, [2, 3, 4]), (5, [2, 3, 4]), (3, [6, 7, 0])],
        Faces::Green => [(0, [0, 1, 2]), (2, [2, 3, 4]), (5, [4, 5, 6]), (4, [6, 7, 0])],
        Faces::Red => [(0, [6, 7, 0]), (3, [2, 3, 4]), (5, [6, 7, 0]), (1, [6, 7, 0])],
        Faces::Yellow => [(1, [4, 5, 6]), (4, [4, 5, 6]), (3, [4, 5, 6]), (2, [4, 5, 6])],
    }
}

fn adjacent_of(face: &Faces) -> (r: [(usize, [usize; 3]); 4])
    ensures
        r == adjacent(*face),
{
    match face {
        Faces::White => [(3, [0, 1, 2]), (4, [0, 1, 2]), (1, [0, 1, 2]), (2, [0, 1, 2])],
        Faces::Blue => [(0, [4, 5, 6]), (4, [2, 3, 4]), (5, [0, 1, 2]), (2, [6, 7, 0])],
        Faces::Orange => [(0, [2, 3, 4]), (1, [2, 3, 4]), (5, [2, 3, 4]), (3, [6, 7, 0])],
        Faces::Green => [(0, [0, 1, 2]), (2, [2, 3, 4]), (5, [4, 5, 6]), (4, [6, 7, 0])],
        Faces::Red => [(0, [6, 7, 0]), (3, [2, 3, 4]), (5, [6, 7, 0]), (1, [6, 7, 0])],
        Faces::Yellow => [(1, [4, 5, 6]), (4, [4, 5, 6]), (3, [4, 5, 6]), (2, [4, 5, 6])],
    }
}

/// `s` after `magnitude` quarter turns of `face`, clockwise.
pub open spec fn turned(s: Seq<Seq<u8>>, face: Faces, magnitude: u32) -> Seq<Seq<u8>> {
    let r = (magnitude % 8) as int;
    cycled(spun(s, face.index() as int, r * 2), adjacent(face), r)
}

/// The face that a move's letter names.
pub open spec fn face_of(c: char) -> Option<Faces> {
    if c == 'U' {
        Some(Faces::White)
    } else if c == 'F' {
        Some(Faces::Blue)
    } else if c == 'R' {
        Some(Faces::Orange)
    } else if c == 'B' {
        Some(Faces::Green)
    } else if c == 'L' {
        Some(Faces::Red)
    } else if c == 'D' {
        Some(Faces::Yellow)
    } else {
        None
    }
}

/// The quarter turns of a move: three for a prime, two for a double, else one.
pub open spec fn magnitude_of(t: Seq<char>) -> u32 {
    if t.len() > 1 && t[1] == '\'' {
        3
    } else if t.len() > 1 && t[1] == '2' {
        2
    } else {
        1
    }
}

/// The face and quarter turns of a move, if its first letter names a face.
pub open spec fn move_of(t: Seq<char>) -> Option<(Faces, u32)> {
    if t.len() > 0 {
        match face_of(t[0]) {
            Some(face) => Some((face, magnitude_of(t))),
            None => None,
        }
    } else {
        None
    }
}

/// `s` after the moves of `moves` in order, up to the first that names no face.
pub open spec fn after_moves(s: Seq<Seq<u8>>, moves: Seq<Seq<char>>) -> Seq<Seq<u8>>
    decreases moves.len(),
{
    if moves.len() == 0 {
        s
    } else {
        match move_of(moves[0]) {
            Some((face, m)) => after_moves(turned(s, face, m), moves.drop_first()),
            None => s,
        }
    }
}

fn parse_move(t: &str) -> (r: Option<(Faces, u32)>)
    ensures
        r == move_of(t@),
{
    let n = t.unicode_len();
    if n == 0 {
        return None;
    }
    let face = match t.get_char(0) {
        'U' => Faces::White,
        'F' => Faces::Blue,
        'R' => Faces::Orange,
        'B' => Faces::Green,
        'L' => Faces::Red,
        'D' => Faces::Yellow,
        _ => return None,
    };
    let magnitude: u32 = if n > 1 {
        match t.get_char(1) {
            '\'' => 3,
            '2' => 2,
            _ => 1,
        }
    } else {
        1
    };
    Some((face, magnitude))
}

impl RubiksCube {
    /// The unfolded net, row by row: each cell holds the label of the sticker drawn there,
    /// or `NO_STICKER`.
    pub fn net(&self) -> (r: [[u8; 12]; 9])
        ensures
            grid(r) == painted(painted(blank(9, 12), net_centres()@), stickers(grid(self.state), net_map()@)),
    {
        let mut r = blank_net();
        paint(&mut r, &net_centres_of());
        paint_stickers(&mut r, &self.state, &net_map_of());
        r
    }

    fn rotate(&mut self, face: Faces, magnitude: u32)
        requires
            magnitude % 8 <= 4,
        ensures
            grid(final(self).state) == turned(grid(old(self).state), face, magnitude),
    {
        let rotation = (magnitude % 8) as usize;
        spin(&mut self.state, face.to_number(), rotation * 2);
        let adjacent = adjacent_of(&face);
        cycle(&mut self.state, &adjacent, rotation);
    }

    /// Applies the moves of `moves` in order, stopping at the first that names no face.
    /// Fails, naming the position of that move, where a move is not known.
    pub fn input_move_list(&mut self, moves: &Vec<String>) -> (r: Result<(), UnknownMove>)
        ensures
            grid(final(self).state) == after_moves(grid(old(self).state), texts(moves@)),
            r is Ok <==> forall|j: int| 0 <= j < moves.len() ==> (#[trigger] move_of(texts(moves@)[j])) is Some,
            r is Err ==> r->Err_0.index < moves.len() && move_of(texts(moves@)[r->Err_0.index as int]) is None
                && forall|j: int| 0 <= j < r->Err_0.index ==> (#[trigger] move_of(texts(moves@)[j])) is Some,
    {
        let ghost all = texts(moves@);
        let mut i: usize = 0;
        assert(all.subrange(0, all.len() as int) =~= all);
        while i < moves.len()
            invariant
                all == texts(moves@),
                i <= moves.len(),
                forall|j: int| 0 <= j < i ==> (#[trigger] move_of(all[j])) is Some,
                after_moves(grid(old(self).state), all) == after_moves(grid(self.state), all.subrange(i as int, all.len() as int)),
            decreases moves.len() - i,
        {
            let ghost rest = all.subrange(i as int, all.len() as int);
            assert(rest[0] == moves[i as int]@);
            assert(rest.drop_first() =~= all.subrange(i + 1, all.len() as int));
            match parse_move(moves[i].as_str()) {
                Some((face, magnitude)) => self.rotate(face, magnitude),
                None => {
                    return Err(UnknownMove { index: i });
                }
            }
            i = i + 1;
        }
        assert(all.subrange(i as int, all.len() as int) =~= Seq::<Seq<char>>::empty());
        Ok(())
    }

    /// Applies the moves written in `moves`, separated by whitespace and in either case.
    /// Fails, naming the position of that move, where a move is not known.
    pub fn input_moves(&mut self, moves: &str) -> (r: Result<(), UnknownMove>)
        ensures
            grid(final(self).state) == after_moves(grid(old(self).state), words_of(upper_of(moves@))),
            r is Ok <==> forall|j: int| 0 <= j < words_of(upper_of(moves@)).len() ==> (#[trigger] move_of(
                words_of(upper_of(moves@))[j],
            )) is Some,
            r is Err ==> r->Err_0.index < words_of(upper_of(moves@)).len() && move_of(
                words_of(upper_of(moves@))[r->Err_0.index as int],
            ) is None && forall|j: int| 0 <= j < r->Err_0.index ==> (#[trigger] move_of(words_of(upper_of(moves@))[j])) is Some,
    {
        let upper = uppercase(moves);
        let list = words(upper.as_str());
        proof {
            assert(list@.len() == texts(list@).len());
        }
        self.input_move_list(&list)
    }
}

/// Where each sticker appears on the drawn net: entry `((f, p), (x, y))` puts piece `p` of
/// face `f` at row `x`, column `y`.
pub open spec fn net_map() -> [((usize, usize), (usize, usize)); 48] {
    [
        ((0, 0), (0, 3)), ((0, 1), (0, 4)), ((0, 2), (0, 5)), ((0, 3), (1, 5)), ((0, 4), (2, 5)),
        ((0, 5), (2, 4)), ((0, 6), (2, 3)), ((0, 7), (1, 3)), ((1, 0), (3, 3)), ((1, 1), (3, 4)),
        ((1, 2), (3, 5)), ((1, 3), (4, 5)), ((1, 4), (5, 5)), ((1, 5), (5, 4)), ((1, 6), (5, 3)),
        ((1, 7), (4, 3)), ((2, 0), (3, 6)), ((2, 1), (3, 7)), ((2, 2), (3, 8)), ((2, 3), (4, 8)),
        ((2, 4), (5, 8)), ((2, 5), (5, 7)), ((2, 6), (5, 6)), ((2, 7), (4, 6)), ((3, 0), (3, 9)),
        ((3, 1), (3, 10)), ((3, 2), (3, 11)), ((3, 3), (4, 11)), ((3, 4), (5, 11)), ((3, 5), (5, 10)),
        ((3, 6), (5, 9)), ((3, 7), (4, 9)), ((4, 0), (3, 0)), ((4, 1), (3, 1)), ((4, 2), (3, 2)),
        ((4, 3), (4, 2)), ((4, 4), (5, 2)), ((4, 5), (5, 1)), ((4, 6), (5, 0)), ((4, 7), (4, 0)),
        ((5, 0), (6, 3)), ((5, 1), (6, 4)), ((5, 2), (6, 5)), ((5, 3), (7, 5)), ((5, 4), (8, 5)),
        ((5, 5), (8, 4)), ((5, 6), (8, 3)), ((5, 7), (7, 3)),
    ]
}

fn net_map_of() -> (r: [((usize, usize), (usize, usize)); 48])
    ensures
        r == net_map(),
{
    [
        ((0, 0), (0, 3)), ((0, 1), (0, 4)), ((0, 2), (0, 5)), ((0, 3), (1, 5)), ((0, 4), (2, 5)),
        ((0, 5), (2, 4)), ((0, 6), (2, 3)), ((0, 7), (1, 3)), ((1, 0), (3, 3)), ((1, 1), (3, 4)),
        ((1, 2), (3, 5)), ((1, 3), (4, 5)), ((1, 4), (5, 5)), ((1, 5), (5, 4)), ((1, 6), (5, 3)),
        ((1, 7), (4, 3)), ((2, 0), (3, 6)), ((2, 1), (3, 7)), ((2, 2), (3, 8)), ((2, 3), (4, 8)),
        ((2, 4), (5, 8)), ((2, 5), (5, 7)), ((2, 6), (5, 6)), ((2, 7), (4, 6)), ((3, 0), (3, 9)),
        ((3, 1), (3, 10)), ((3, 2), (3, 11)), ((3, 3), (4, 11)), ((3, 4), (5, 11)), ((3, 5), (5, 10)),
        ((3, 6), (5, 9)), ((3, 7), (4, 9)), ((4, 0), (3, 0)), ((4, 1), (3, 1)), ((4, 2), (3, 2)),
        ((4, 3), (4, 2)), ((4, 4), (5, 2)), ((4, 5), (5, 1)), ((4, 6), (5, 0)), ((4, 7), (4, 0)),
        ((5, 0), (6, 3)), ((5, 1), (6, 4)), ((5, 2), (6, 5)), ((5, 3), (7, 5)), ((5, 4), (8, 5)),
        ((5, 5), (8, 4)), ((5, 6), (8, 3)), ((5, 7), (7, 3)),
    ]
}

/// The centre of each face, drawn on the net in the face's colour.
pub open spec fn net_centres() -> [(usize, usize, u8); 6] {
    [(1, 4, 0), (4, 4, 1), (4, 7, 2), (4, 10, 3), (4, 1, 4), (7, 4, 5)]
}

fn net_centres_of() -> (r: [(usize, usize, u8); 6])
    ensures
        r == net_centres(),
{
    [(1, 4, 0), (4, 4, 1), (4, 7, 2), (4, 10, 3), (4, 1, 4), (7, 4, 5)]
}

impl Puzzle for RubiksCube {
    open spec fn faces(&self) -> Seq<Seq<u8>> {
        grid(self.state)
    }

    open spec fn solved_faces() -> Seq<Seq<u8>> {
        home(6, 8)
    }

    open spec fn fits(&self) -> bool {
        labels_fit(self.state)
    }

    fn is_solved(&self) -> (r: bool) {
        at_home(&self.state)
    }

    fn return_state(&self) -> (key: u128) {
        encode(&self.state)
    }
}

} // verus!

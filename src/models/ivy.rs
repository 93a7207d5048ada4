//! The ivy cube: six faces of two petals around a centre.
use crate::codec::{encode, flat, grid, key_modulus, labels_fit, pack};
use crate::models::{UnknownMove, Faces, Puzzle, at_home, blank, blank_net, cycle, cycled, home, paint_stickers, painted, stickers};
use crate::text::{texts, upper_of, uppercase, words, words_of};
use vstd::prelude::*;

verus! {

#[derive(Clone, Copy)]
pub struct Ivy {
    pub state: [[u8; 3]; 6],
}

impl Default for Ivy {
    fn default() -> (r: Self)
        ensures
            grid(r.state) == home(6, 3),
    {
        let r = Self { state: [[0u8; 3], [1u8; 3], [2u8; 3], [3u8; 3], [4u8; 3], [5u8; 3]] };
        assert(grid(r.state) =~~= home(6, 3));
        r
    }
}

/// The pieces of the three neighbouring faces that a turn about `face` carries round,
/// in the order in which they travel, if a turn about `face` exists.
pub open spec fn adjacent(face: Faces) -> Option<[(usize, [usize; 2]); 3]> {
    match face {
        Faces::White => Some([(0, [1, 2]), (2, [1, 2]), (3, [1, 2])]),
        Faces::Blue => Some([(0, [0, 1]), (4, [2, 1]), (1, [2, 1])]),
        Faces::Red => Some([(1, [1, 0]), (5, [1, 2]), (2, [1, 0])]),
        Faces::Green => Some([(4, [1, 0]), (3, [1, 0]), (5, [1, 0])]),
        _ => None,
    }
}

fn adjacent_of(face: &Faces) -> (r: Option<[(usize, [usize; 2]); 3]>)
    ensures
        r == adjacent(*face),
{
    match face {
        Faces::White => Some([(0, [1, 2]), (2, [1, 2]), (3, [1, 2])]),
        Faces::Blue => Some([(0, [0, 1]), (4, [2, 1]), (1, [2, 1])]),
        Faces::Red => Some([(1, [1, 0]), (5, [1, 2]), (2, [1, 0])]),
        Faces::Green => Some([(4, [1, 0]), (3, [1, 0]), (5, [1, 0])]),
        _ => None,
    }
}

/// `s` after `magnitude` turns about `face`; a face that no turn is about leaves `s` as it is.
pub open spec fn turned(s: Seq<Seq<u8>>, face: Faces, magnitude: u32) -> Seq<Seq<u8>> {
    let r = (magnitude % 8) as int;
    match adjacent(face) {
        Some(a) => cycled(s, a, r),
        None => s,
    }
}

/// The face that a move's letter names.
pub open spec fn face_of(c: char) -> Option<Faces> {
    if c == 'U' {
        Some(Faces::White)
    } else if c == 'F' {
        Some(Faces::Blue)
    } else if c == 'R' {
        Some(Faces::Red)
    } else if c == 'L' {
        Some(Faces::Green)
    } else {
        None
    }
}

/// The turns of a move: two for a prime or a double, else one.
pub open spec fn magnitude_of(t: Seq<char>) -> u32 {
    if t.len() > 1 && t[1] == '\'' {
        2
    } else if t.len() > 1 && t[1] == '2' {
        2
    } else {
        1
    }
}

/// The face and turns of a move, if its first letter names a face.
pub open spec fn move_of(t: Seq<char>) -> Option<(Faces, u32)> {
    if t.len() > 0 {
        match face_of(t[0]) {
            Some(face) => Some((face, magnitude_of(t))),
            None => None,
        }
    } else {
        None
    }
}

/// `s` after the moves of `moves` in order, up to the first that names no face.
pub open spec fn after_moves(s: Seq<Seq<u8>>, moves: Seq<Seq<char>>) -> Seq<Seq<u8>>
    decreases moves.len(),
{
    if moves.len() == 0 {
        s
    } else {
        match move_of(moves[0]) {
            Some((face, m)) => after_moves(turned(s, face, m), moves.drop_first()),
            None => s,
        }
    }
}

fn parse_move(t: &str) -> (r: Option<(Faces, u32)>)
    ensures
        r == move_of(t@),
{
    let n = t.unicode_len();
    if n == 0 {
        return None;
    }
    let face = match t.get_char(0) {
        'U' => Faces::White,
        'F' => Faces::Blue,
        'R' => Faces::Red,
        'L' => Faces::Green,
        _ => return None,
    };
    let magnitude: u32 = if n > 1 {
        match t.get_char(1) {
            '\'' => 2,
            '2' => 2,
            _ => 1,
        }
    } else {
        1
    };
    Some((face, magnitude))
}

impl Ivy {
    /// The unfolded net, row by row: each cell holds the label of the sticker drawn there,
    /// or `NO_STICKER`.
    pub fn net(&self) -> (r: [[u8; 12]; 9])
        ensures
            grid(r) == painted(blank(9, 12), stickers(grid(self.state), net_map()@)),
    {
        let mut r = blank_net();
        paint_stickers(&mut r, &self.state, &net_map_of());
        r
    }

    fn rotate(&mut self, face: Faces, magnitude: u32)
        requires
            magnitude % 8 <= 3,
        ensures
            grid(final(self).state) == turned(grid(old(self).state), face, magnitude),
    {
        let rotation = (magnitude % 8) as usize;
        let adjacent = match adjacent_of(&face) {
            Some(a) => a,
            None => return,
        };
        cycle(&mut self.state, &adjacent, rotation);
    }

    /// Applies the moves of `moves` in order, stopping at the first that names no face.
    /// Fails, naming the position of that move, where a move is not known.
    pub fn input_move_list(&mut self, moves: &Vec<String>) -> (r: Result<(), UnknownMove>)
        ensures
            grid(final(self).state) == after_moves(grid(old(self).state), texts(moves@)),
            r is Ok <==> forall|j: int| 0 <= j < moves.len() ==> (#[trigger] move_of(texts(moves@)[j])) is Some,
            r is Err ==> r->Err_0.index < moves.len() && move_of(texts(moves@)[r->Err_0.index as int]) is None
                && forall|j: int| 0 <= j < r->Err_0.index ==> (#[trigger] move_of(texts(moves@)[j])) is Some,
    {
        let ghost all = texts(moves@);
        let mut i: usize = 0;
        assert(all.subrange(0, all.len() as int) =~= all);
        while i < moves.len()
            invariant
                all == texts(moves@),
                i <= moves.len(),
                forall|j: int| 0 <= j < i ==> (#[trigger] move_of(all[j])) is Some,
                after_moves(grid(old(self).state), all) == after_moves(grid(self.state), all.subrange(i as int, all.len() as int)),
            decreases moves.len() - i,
        {
            let ghost rest = all.subrange(i as int, all.len() as int);
            assert(rest[0] == moves[i as int]@);
            assert(rest.drop_first() =~= all.subrange(i + 1, all.len() as int));
            match parse_move(moves[i].as_str()) {
                Some((face, magnitude)) => self.rotate(face, magnitude),
                None => {
                    return Err(UnknownMove { index: i });
                }
            }
            i = i + 1;
        }
        assert(all.subrange(i as int, all.len() as int) =~= Seq::<Seq<char>>::empty());
        Ok(())
    }

    /// Applies the moves written in `moves`, separated by whitespace and in either case.
    /// Fails, naming the position of that move, where a move is not known.
    pub fn input_moves(&mut self, moves: &str) -> (r: Result<(), UnknownMove>)
        ensures
            grid(final(self).state) == after_moves(grid(old(self).state), words_of(upper_of(moves@))),
            r is Ok <==> forall|j: int| 0 <= j < words_of(upper_of(moves@)).len() ==> (#[trigger] move_of(
                words_of(upper_of(moves@))[j],
            )) is Some,
            r is Err ==> r->Err_0.index < words_of(upper_of(moves@)).len() && move_of(
                words_of(upper_of(moves@))[r->Err_0.index as int],
            ) is None && forall|j: int| 0 <= j < r->Err_0.index ==> (#[trigger] move_of(words_of(upper_of(moves@))[j])) is Some,
    {
        let upper = uppercase(moves);
        let list = words(upper.as_str());
        proof {
            assert(list@.len() == texts(list@).len());
        }
        self.input_move_list(&list)
    }
}

/// Where each sticker appears on the drawn net: entry `((f, p), (x, y))` puts piece `p` of
/// face `f` at row `x`, column `y`.
pub open spec fn net_map() -> [((usize, usize), (usize, usize)); 18] {
    [
        ((0, 0), (2, 3)), ((0, 1), (1, 4)), ((0, 2), (0, 5)), ((1, 0), (5, 5)), ((1, 1), (4, 4)),
        ((1, 2), (3, 3)), ((2, 0), (5, 6)), ((2, 1), (4, 7)), ((2, 2), (3, 8)), ((3, 0), (5, 11)),
        ((3, 1), (4, 10)), ((3, 2), (3, 9)), ((4, 0), (5, 0)), ((4, 1), (4, 1)), ((4, 2), (3, 2)),
        ((5, 0), (8, 3)), ((5, 1), (7, 4)), ((5, 2), (6, 5)),
    ]
}

fn net_map_of() -> (r: [((usize, usize), (usize, usize)); 18])
    ensures
        r == net_map(),
{
    [
        ((0, 0), (2, 3)), ((0, 1), (1, 4)), ((0, 2), (0, 5)), ((1, 0), (5, 5)), ((1, 1), (4, 4)),
        ((1, 2), (3, 3)), ((2, 0), (5, 6)), ((2, 1), (4, 7)), ((2, 2), (3, 8)), ((3, 0), (5, 11)),
        ((3, 1), (4, 10)), ((3, 2), (3, 9)), ((4, 0), (5, 0)), ((4, 1), (4, 1)), ((4, 2), (3, 2)),
        ((5, 0), (8, 3)), ((5, 1), (7, 4)), ((5, 2), (6, 5)),
    ]
}

impl Puzzle for Ivy {
    open spec fn faces(&self) -> Seq<Seq<u8>> {
        grid(self.state)
    }

    open spec fn solved_faces() -> Seq<Seq<u8>> {
        home(6, 3)
    }

    open spec fn fits(&self) -> bool {
        labels_fit(self.state)
    }

    fn is_solved(&self) -> (r: bool) {
        at_home(&self.state)
    }

    fn return_state(&self) -> (key: u128) {
        encode(&self.state)
    }
}

} // verus!

//! The pyraminx: four triangular faces of nine stickers, with four loose tips.
use crate::codec::{decode, encode, flat, grid, key_modulus, labels_fit, pack, unpack};
use crate::models::{UnknownMove, Puzzle, all_fit, at_home, blank, blank_net, cycle, cycled, home, lemma_cycled_fits, paint_stickers, painted, stickers};
use crate::text::{texts, upper_of, uppercase, words, words_of};
use vstd::prelude::*;

verus! {

/// The faces of the pyraminx.
#[derive(Clone, Copy)]
pub enum Faces {
    Blue,
    Red,
    Green,
    Yellow,
}

impl Faces {
    /// The face's row in a state.
    pub open spec fn index(&self) -> nat {
        match self {
            Faces::Blue => 0,
            Faces::Red => 1,
            Faces::Green => 2,
            Faces::Yellow => 3,
        }
    }

    pub fn to_number(&self) -> (r: usize)
        ensures
            r == self.index(),
    {
        match self {
            Faces::Blue => 0,
            Faces::Red => 1,
            Faces::Green => 2,
            Faces::Yellow => 3,
        }
    }
}

/// The four tips, each turning on its own.
#[derive(Clone, Copy)]
pub enum Tips {
    Top,
    Right,
    Left,
    Back,
}

/// One move: a turn of a face, or of a tip, by a number of thirds.
#[derive(Clone, Copy)]
pub enum Turn {
    Face(Faces, u32),
    Tip(Tips, u32),
}

#[derive(Clone, Copy)]
pub struct Pyraminx {
    pub state: [[u8; 9]; 4],
}

impl Default for Pyraminx {
    fn default() -> (r: Self)
        ensures
            grid(r.state) == home(4, 9),
    {
        let r = Self { state: [[0u8; 9], [1u8; 9], [2u8; 9], [3u8; 9]] };
        assert(grid(r.state) =~~= home(4, 9));
        r
    }
}

/// The three corners of face `f`, in the order in which a turn carries them.
pub open spec fn face_corners(f: usize) -> [(usize, [usize; 1]); 3] {
    [(f, [0]), (f, [4]), (f, [7])]
}

/// The six edge stickers of face `f` in pairs, in the order in which a turn carries them.
pub open spec fn face_edges(f: usize) -> [(usize, [usize; 2]); 3] {
    [(f, [1, 2]), (f, [3, 5]), (f, [6, 8])]
}

/// The stickers of the three neighbouring faces that a turn of `face` carries round,
/// five on each, in the order in which they travel.
pub open spec fn adjacent(face: Faces) -> [(usize, [usize; 5]); 3] {
    match face {
        Faces::Blue => [(2, [4, 3, 5, 6, 7]), (3, [0, 1, 2, 3, 4]), (1, [0, 1, 2, 3, 4])],
        Faces::Red => [(0, [4, 3, 5, 6, 7]), (3, [4, 3, 5, 6, 7]), (2, [0, 1, 2, 3, 4])],
        Faces::Green => [(1, [7, 6, 5, 3, 4]), (3, [1, 0, 8, 6, 7]), (0, [4, 3, 2, 1, 0])],
        Faces::Yellow => [(0, [7, 6, 8, 0, 1]), (2, [7, 6, 8, 0, 1]), (1, [7, 6, 8, 0, 1])],
    }
}

fn adjacent_of(face: &Faces) -> (r: [(usize, [usize; 5]); 3])
    ensures
        r == adjacent(*face),
{
    match face {
        Faces::Blue => [(2, [4, 3, 5, 6, 7]), (3, [0, 1, 2, 3, 4]), (1, [0, 1, 2, 3, 4])],
        Faces::Red => [(0, [4, 3, 5, 6, 7]), (3, [4, 3, 5, 6, 7]), (2, [0, 1, 2, 3, 4])],
        Faces::Green => [(1, [7, 6, 5, 3, 4]), (3, [1, 0, 8, 6, 7]), (0, [4, 3, 2, 1, 0])],
        Faces::Yellow => [(0, [7, 6, 8, 0, 1]), (2, [7, 6, 8, 0, 1]), (1, [7, 6, 8, 0, 1])],
    }
}

/// The three stickers of a tip, in the order in which a turn of it carries them.
pub open spec fn tip_stickers(tip: Tips) -> [(usize, [usize; 1]); 3] {
    match tip {
        Tips::Top => [(0, [4]), (1, [4]), (2, [4])],
        Tips::Right => [(0, [7]), (3, [4]), (1, [0])],
        Tips::Left => [(0, [0]), (2, [7]), (3, [0])],
        Tips::Back => [(1, [7]), (3, [7]), (2, [0])],
    }
}

fn tip_stickers_of(tip: &Tips) -> (r: [(usize, [usize; 1]); 3])
    ensures
        r == tip_stickers(*tip),
{
    match tip {
        Tips::Top => [(0, [4]), (1, [4]), (2, [4])],
        Tips::Right => [(0, [7]), (3, [4]), (1, [0])],
        Tips::Left => [(0, [0]), (2, [7]), (3, [0])],
        Tips::Back => [(1, [7]), (3, [7]), (2, [0])],
    }
}

/// `s` after `magnitude` thirds of a turn of `face`: its own corners and edges move on by
/// that many places and its neighbours' stickers travel round.
pub open spec fn turned(s: Seq<Seq<u8>>, face: Faces, magnitude: u32) -> Seq<Seq<u8>> {
    let r = (magnitude % 8) as int;
    let f = face.index() as usize;
    cycled(cycled(cycled(s, face_corners(f), 3 - r), face_edges(f), 3 - r), adjacent(face), r)
}

/// `s` after `magnitude` thirds of a turn of `tip`.
pub open spec fn tipped(s: Seq<Seq<u8>>, tip: Tips, magnitude: u32) -> Seq<Seq<u8>> {
    cycled(s, tip_stickers(tip), (magnitude % 8) as int)
}

/// `s` after `turn`.
pub open spec fn applied(s: Seq<Seq<u8>>, turn: Turn) -> Seq<Seq<u8>> {
    match turn {
        Turn::Face(face, m) => turned(s, face, m),
        Turn::Tip(tip, m) => tipped(s, tip, m),
    }
}

/// The turn is by at most three thirds, counted modulo eight.
pub open spec fn small(turn: Turn) -> bool {
    match turn {
        Turn::Face(_, m) => m % 8 <= 3,
        Turn::Tip(_, m) => m % 8 <= 3,
    }
}

/// Four faces of nine labels each.
pub open spec fn shaped(s: Seq<Seq<u8>>) -> bool {
    s.len() == 4 && forall|f: int| 0 <= f < 4 ==> (#[trigger] s[f]).len() == 9
}

/// A turn keeps the shape of a state and keeps its labels within three bits.
pub proof fn lemma_applied_fits(s: Seq<Seq<u8>>, turn: Turn)
    requires
        shaped(s),
        all_fit(s),
        small(turn),
    ensures
        shaped(applied(s, turn)),
        all_fit(applied(s, turn)),
{
    match turn {
        Turn::Face(face, m) => {
            let r = (m % 8) as int;
            let f = face.index() as usize;
            lemma_cycled_fits(s, face_corners(f), 3 - r);
            let s1 = cycled(s, face_corners(f), 3 - r);
            lemma_cycled_fits(s1, face_edges(f), 3 - r);
            let s2 = cycled(s1, face_edges(f), 3 - r);
            lemma_cycled_fits(s2, adjacent(face), r);
        },
        Turn::Tip(tip, m) => {
            lemma_cycled_fits(s, tip_stickers(tip), (m % 8) as int);
        },
    }
}

/// The face that a move's letter names.
pub open spec fn face_of(c: char) -> Option<Faces> {
    if c == 'F' {
        Some(Faces::Blue)
    } else if c == 'R' {
        Some(Faces::Red)
    } else if c == 'L' {
        Some(Faces::Green)
    } else if c == 'D' {
        Some(Faces::Yellow)
    } else {
        None
    }
}

/// The tip that a move's letter names.
pub open spec fn tip_of(c: char) -> Option<Tips> {
    if c == 'T' {
        Some(Tips::Top)
    } else if c == 'E' {
        Some(Tips::Right)
    } else if c == 'K' {
        Some(Tips::Left)
    } else if c == 'B' {
        Some(Tips::Back)
    } else {
        None
    }
}

/// The thirds of a move: two for a prime or a double, else one.
pub open spec fn magnitude_of(t: Seq<char>) -> u32 {
    if t.len() > 1 && t[1] == '\'' {
        2
    } else if t.len() > 1 && t[1] == '2' {
        2
    } else {
        1
    }
}

/// The turn that a move names, if its first letter names a face or a tip.
pub open spec fn move_of(t: Seq<char>) -> Option<Turn> {
    if t.len() > 0 {
        match face_of(t[0]) {
            Some(face) => Some(Turn::Face(face, magnitude_of(t))),
            None => match tip_of(t[0]) {
                Some(tip) => Some(Turn::Tip(tip, magnitude_of(t))),
                None => None,
            },
        }
    } else {
        None
    }
}

/// `s` after the moves of `moves` in order, up to the first that names no face or tip.
pub open spec fn after_moves(s: Seq<Seq<u8>>, moves: Seq<Seq<char>>) -> Seq<Seq<u8>>
    decreases moves.len(),
{
    if moves.len() == 0 {
        s
    } else {
        match move_of(moves[0]) {
            Some(Turn::Face(face, m)) => after_moves(turned(s, face, m), moves.drop_first()),
            Some(Turn::Tip(tip, m)) => after_moves(tipped(s, tip, m), moves.drop_first()),
            None => s,
        }
    }
}

fn parse_move(t: &str) -> (r: Option<Turn>)
    ensures
        r == move_of(t@),
{
    let n = t.unicode_len();
    if n == 0 {
        return None;
    }
    let magnitude: u32 = if n > 1 {
        match t.get_char(1) {
            '\'' => 2,
            '2' => 2,
            _ => 1,
        }
    } else {
        1
    };
    match t.get_char(0) {
        'F' => Some(Turn::Face(Faces::Blue, magnitude)),
        'R' => Some(Turn::Face(Faces::Red, magnitude)),
        'L' => Some(Turn::Face(Faces::Green, magnitude)),
        'D' => Some(Turn::Face(Faces::Yellow, magnitude)),
        'T' => Some(Turn::Tip(Tips::Top, magnitude)),
        'E' => Some(Turn::Tip(Tips::Right, magnitude)),
        'K' => Some(Turn::Tip(Tips::Left, magnitude)),
        'B' => Some(Turn::Tip(Tips::Back, magnitude)),
        _ => None,
    }
}

impl Pyraminx {
    /// The unfolded net, row by row: each cell holds the label of the sticker drawn there,
    /// or `NO_STICKER`.
    pub fn net(&self) -> (r: [[u8; 32]; 11])
        ensures
            grid(r) == painted(blank(11, 32), stickers(grid(self.state), net_map()@)),
    {
        let mut r = blank_net();
        paint_stickers(&mut r, &self.state, &net_map_of());
        r
    }

    fn rotate(&mut self, face: Faces, magnitude: u32)
        requires
            magnitude % 8 <= 3,
        ensures
            grid(final(self).state) == turned(grid(old(self).state), face, magnitude),
    {
        let number = face.to_number();
        let rotation = (magnitude % 8) as usize;
        let corners = [(number, [0]), (number, [4]), (number, [7])];
        cycle(&mut self.state, &corners, 3 - rotation);
        let edges = [(number, [1, 2]), (number, [3, 5]), (number, [6, 8])];
        cycle(&mut self.state, &edges, 3 - rotation);
        let adjacent = adjacent_of(&face);
        cycle(&mut self.state, &adjacent, rotation);
    }

    /// The state that `key` holds.
    pub fn from_key(key: u128) -> (r: Self)
        ensures
            grid(r.state) == unpack(key as nat, 4, 9),
    {
        Self { state: decode(key) }
    }

    pub fn apply_turn(&mut self, turn: Turn)
        requires
            small(turn),
        ensures
            grid(final(self).state) == applied(grid(old(self).state), turn),
    {
        match turn {
            Turn::Face(face, magnitude) => self.rotate(face, magnitude),
            Turn::Tip(tip, magnitude) => self.rotate_tip(tip, magnitude),
        }
    }

    fn rotate_tip(&mut self, tip: Tips, magnitude: u32)
        requires
            magnitude % 8 <= 3,
        ensures
            grid(final(self).state) == tipped(grid(old(self).state), tip, magnitude),
    {
        let rotation = (magnitude % 8) as usize;
        let tips = tip_stickers_of(&tip);
        cycle(&mut self.state, &tips, rotation);
    }

    /// Applies the moves of `moves` in order, stopping at the first that names no face or tip.
    /// Fails, naming the position of that move, where a move is not known.
    pub fn input_move_list(&mut self, moves: &Vec<String>) -> (r: Result<(), UnknownMove>)
        ensures
            grid(final(self).state) == after_moves(grid(old(self).state), texts(moves@)),
            r is Ok <==> forall|j: int| 0 <= j < moves.len() ==> (#[trigger] move_of(texts(moves@)[j])) is Some,
            r is Err ==> r->Err_0.index < moves.len() && move_of(texts(moves@)[r->Err_0.index as int]) is None
                && forall|j: int| 0 <= j < r->Err_0.index ==> (#[trigger] move_of(texts(moves@)[j])) is Some,
    {
        let ghost all = texts(moves@);
        let mut i: usize = 0;
        assert(all.subrange(0, all.len() as int) =~= all);
        while i < moves.len()
            invariant
                all == texts(moves@),
                i <= moves.len(),
                forall|j: int| 0 <= j < i ==> (#[trigger] move_of(all[j])) is Some,
                after_moves(grid(old(self).state), all) == after_moves(grid(self.state), all.subrange(i as int, all.len() as int)),
            decreases moves.len() - i,
        {
            let ghost rest = all.subrange(i as int, all.len() as int);
            assert(rest[0] == moves[i as int]@);
            assert(rest.drop_first() =~= all.subrange(i + 1, all.len() as int));
            match parse_move(moves[i].as_str()) {
                Some(Turn::Face(face, magnitude)) => self.rotate(face, magnitude),
                Some(Turn::Tip(tip, magnitude)) => self.rotate_tip(tip, magnitude),
                None => {
                    return Err(UnknownMove { index: i });
                }
            }
            i = i + 1;
        }
        assert(all.subrange(i as int, all.len() as int) =~= Seq::<Seq<char>>::empty());
        Ok(())
    }

    /// Applies the moves written in `moves`, separated by whitespace and in either case.
    /// Fails, naming the position of that move, where a move is not known.
    pub fn input_moves(&mut self, moves: &str) -> (r: Result<(), UnknownMove>)
        ensures
            grid(final(self).state) == after_moves(grid(old(self).state), words_of(upper_of(moves@))),
            r is Ok <==> forall|j: int| 0 <= j < words_of(upper_of(moves@)).len() ==> (#[trigger] move_of(
                words_of(upper_of(moves@))[j],
            )) is Some,
            r is Err ==> r->Err_0.index < words_of(upper_of(moves@)).len() && move_of(
                words_of(upper_of(moves@))[r->Err_0.index as int],
            ) is None && forall|j: int| 0 <= j < r->Err_0.index ==> (#[trigger] move_of(words_of(upper_of(moves@))[j])) is Some,
    {
        let upper = uppercase(moves);
        let list = words(upper.as_str());
        proof {
            assert(list@.len() == texts(list@).len());
        }
        self.input_move_list(&list)
    }
}

/// Where each sticker appears on the drawn net: entry `((f, p), (x, y))` puts piece `p` of
/// face `f` at row `x`, column `y`.
pub open spec fn net_map() -> [((usize, usize), (usize, usize)); 36] {
    [
        ((0, 0), (4, 11)), ((0, 1), (3, 14)), ((0, 2), (2, 13)), ((0, 3), (2, 15)), ((0, 4), (0, 15)),
        ((0, 5), (2, 17)), ((0, 6), (3, 16)), ((0, 7), (4, 19)), ((0, 8), (4, 15)), ((1, 0), (4, 23)),
        ((1, 1), (2, 24)), ((1, 2), (2, 21)), ((1, 3), (1, 23)), ((1, 4), (0, 19)), ((1, 5), (0, 24)),
        ((1, 6), (1, 26)), ((1, 7), (0, 30)), ((1, 8), (2, 28)), ((2, 0), (0, 0)), ((2, 1), (1, 5)),
        ((2, 2), (0, 6)), ((2, 3), (1, 8)), ((2, 4), (0, 11)), ((2, 5), (2, 9)), ((2, 6), (2, 7)),
        ((2, 7), (4, 7)), ((2, 8), (2, 4)), ((3, 0), (6, 11)), ((3, 1), (7, 14)), ((3, 2), (6, 15)),
        ((3, 3), (7, 16)), ((3, 4), (6, 19)), ((3, 5), (8, 17)), ((3, 6), (8, 15)), ((3, 7), (10, 15)),
        ((3, 8), (8, 13)),
    ]
}

fn net_map_of() -> (r: [((usize, usize), (usize, usize)); 36])
    ensures
        r == net_map(),
{
    [
        ((0, 0), (4, 11)), ((0, 1), (3, 14)), ((0, 2), (2, 13)), ((0, 3), (2, 15)), ((0, 4), (0, 15)),
        ((0, 5), (2, 17)), ((0, 6), (3, 16)), ((0, 7), (4, 19)), ((0, 8), (4, 15)), ((1, 0), (4, 23)),
        ((1, 1), (2, 24)), ((1, 2), (2, 21)), ((1, 3), (1, 23)), ((1, 4), (0, 19)), ((1, 5), (0, 24)),
        ((1, 6), (1, 26)), ((1, 7), (0, 30)), ((1, 8), (2, 28)), ((2, 0), (0, 0)), ((2, 1), (1, 5)),
        ((2, 2), (0, 6)), ((2, 3), (1, 8)), ((2, 4), (0, 11)), ((2, 5), (2, 9)), ((2, 6), (2, 7)),
        ((2, 7), (4, 7)), ((2, 8), (2, 4)), ((3, 0), (6, 11)), ((3, 1), (7, 14)), ((3, 2), (6, 15)),
        ((3, 3), (7, 16)), ((3, 4), (6, 19)), ((3, 5), (8, 17)), ((3, 6), (8, 15)), ((3, 7), (10, 15)),
        ((3, 8), (8, 13)),
    ]
}

impl Puzzle for Pyraminx {
    open spec fn faces(&self) -> Seq<Seq<u8>> {
        grid(self.state)
    }

    open spec fn solved_faces() -> Seq<Seq<u8>> {
        home(4, 9)
    }

    open spec fn fits(&self) -> bool {
        labels_fit(self.state)
    }

    fn is_solved(&self) -> (r: bool) {
        at_home(&self.state)
    }

    fn return_state(&self) -> (key: u128) {
        encode(&self.state)
    }
}

} // verus!

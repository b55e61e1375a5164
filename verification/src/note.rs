//! Wish notes: the records participants submit and later draw.

use vstd::prelude::*;

verus! {

/// The mathematical content of a wish note: an ordered sequence of exactly
/// three desired presents, a place the author has never visited, the
/// author's identity, and the identity of the assigned santa (empty while
/// the note is unassigned).
pub struct NoteView {
    pub presents: Seq<Seq<char>>,
    pub my_place: Seq<char>,
    pub author: Seq<char>,
    pub santa: Seq<char>,
}

impl NoteView {
    /// A note holds three non-empty presents and a non-empty place.
    pub open spec fn valid(self) -> bool {
        &&& self.presents.len() == 3
        &&& forall|i: int| 0 <= i < 3 ==> self.presents[i].len() > 0
        &&& self.my_place.len() > 0
    }

    /// The note with its santa set; every other part is kept.
    pub open spec fn with_santa(self, santa: Seq<char>) -> NoteView {
        NoteView { santa, ..self }
    }
}

/// A participant's wish note. The three presents are ordered: they are
/// asked for, validated and displayed as the first, second and third wish.
#[derive(Debug)]
pub struct WishNote {
    pub present1: String,
    pub present2: String,
    pub present3: String,
    pub my_place: String,
    pub author_id: String,
    pub santa_id: String,
}

impl View for WishNote {
    type V = NoteView;

    open spec fn view(&self) -> NoteView {
        NoteView {
            presents: seq![self.present1@, self.present2@, self.present3@],
            my_place: self.my_place@,
            author: self.author_id@,
            santa: self.santa_id@,
        }
    }
}

impl Clone for WishNote {
    fn clone(&self) -> (res: Self)
        ensures
            res == *self,
    {
        WishNote {
            present1: self.present1.clone(),
            present2: self.present2.clone(),
            present3: self.present3.clone(),
            my_place: self.my_place.clone(),
            author_id: self.author_id.clone(),
            santa_id: self.santa_id.clone(),
        }
    }
}

impl WishNote {
    /// Whether the note is a complete submission: three non-empty presents
    /// and a non-empty place.
    pub fn is_valid(&self) -> (r: bool)
        ensures
            r == self@.valid(),
    {
        let r = !self.present1.as_str().is_empty() && !self.present2.as_str().is_empty()
            && !self.present3.as_str().is_empty() && !self.my_place.as_str().is_empty();
        proof {
            assert(self@.presents[0] == self.present1@);
            assert(self@.presents[1] == self.present2@);
            assert(self@.presents[2] == self.present3@);
            assert(self@.presents.len() == 3);
        }
        r
    }
}

/// Names the four submitted fields, in the order they are validated.
#[derive(Clone, Copy, PartialEq, Eq, Structural, Debug)]
pub enum NoteField {
    Present1,
    Present2,
    Present3,
    Place,
}

/// The first submitted field that is empty, checked in the fixed order
/// first present, second present, third present, place; `None` when the
/// submission is complete.
pub open spec fn first_missing_field(
    p1: Seq<char>,
    p2: Seq<char>,
    p3: Seq<char>,
    place: Seq<char>,
) -> Option<NoteField> {
    if p1.len() == 0 {
        Some(NoteField::Present1)
    } else if p2.len() == 0 {
        Some(NoteField::Present2)
    } else if p3.len() == 0 {
        Some(NoteField::Present3)
    } else if place.len() == 0 {
        Some(NoteField::Place)
    } else {
        None
    }
}

} // verus!

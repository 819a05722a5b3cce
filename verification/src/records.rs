//! The data model: a verse record as loaded from the dataset, and the lookup
//! key built from the command line.

use vstd::prelude::*;
use crate::bytes::clone_bytes;

verus! {

/// One verse of scripture, as loaded from the dataset. All text fields are
/// UTF-8 byte strings.
pub struct Scripture {
    pub chapter: i32,
    pub verse: i32,
    pub text: Vec<u8>,
    pub translation_id: Vec<u8>,
    pub book_id: Vec<u8>,
    pub book_name: Vec<u8>,
}

/// The mathematical value of a [`Scripture`].
pub ghost struct ScriptureView {
    pub chapter: i32,
    pub verse: i32,
    pub text: Seq<u8>,
    pub translation_id: Seq<u8>,
    pub book_id: Seq<u8>,
    pub book_name: Seq<u8>,
}

impl View for Scripture {
    type V = ScriptureView;

    open spec fn view(&self) -> ScriptureView {
        ScriptureView {
            chapter: self.chapter,
            verse: self.verse,
            text: self.text@,
            translation_id: self.translation_id@,
            book_id: self.book_id@,
            book_name: self.book_name@,
        }
    }
}

impl Clone for Scripture {
    /// A copy with the same value.
    fn clone(&self) -> (r: Self)
        ensures
            r@ == self@,
    {
        Scripture {
            chapter: self.chapter,
            verse: self.verse,
            text: clone_bytes(&self.text),
            translation_id: clone_bytes(&self.translation_id),
            book_id: clone_bytes(&self.book_id),
            book_name: clone_bytes(&self.book_name),
        }
    }
}

/// The values of a whole record sequence.
pub open spec fn views_of(s: Seq<Scripture>) -> Seq<ScriptureView> {
    s.map_values(|r: Scripture| r@)
}

/// The user's query: a book (matched against name or ID, ignoring ASCII
/// case), a chapter, and the verses asked for.
pub struct LookupKey {
    pub book: Vec<u8>,
    pub chapter: i32,
    pub verses: Vec<i32>,
}

/// The mathematical value of a [`LookupKey`].
pub ghost struct KeyView {
    pub book: Seq<u8>,
    pub chapter: i32,
    pub verses: Seq<i32>,
}

impl View for LookupKey {
    type V = KeyView;

    open spec fn view(&self) -> KeyView {
        KeyView { book: self.book@, chapter: self.chapter, verses: self.verses@ }
    }
}

} // verus!

use crate::field::Elt;
use crate::wide::Wide;
use vstd::prelude::*;

verus! {

/// The shape of a value. Each tag is encoded as the field element of its index.
#[derive(Clone, Copy, Debug, PartialEq, Eq, Structural, Hash)]
pub enum Tag {
    Nil,
    Cons,
    Sym,
    Fun,
    Num,
    Str,
    Char,
    Comm,
    U64,
    Key,
    Env,
    Error,
    Thunk,
    Builtin,
    BigNum,
    Fix,
}

/// The number of tags.
pub const TAG_COUNT: u32 = 16;

/// The index of a tag, which is also its field encoding.
pub open spec fn tag_index(t: Tag) -> u32 {
    match t {
        Tag::Nil => 0,
        Tag::Cons => 1,
        Tag::Sym => 2,
        Tag::Fun => 3,
        Tag::Num => 4,
        Tag::Str => 5,
        Tag::Char => 6,
        Tag::Comm => 7,
        Tag::U64 => 8,
        Tag::Key => 9,
        Tag::Env => 10,
        Tag::Error => 11,
        Tag::Thunk => 12,
        Tag::Builtin => 13,
        Tag::BigNum => 14,
        Tag::Fix => 15,
    }
}

/// The tag encoded by a field representative, if any.
pub open spec fn tag_of(v: u32) -> Option<Tag> {
    if v == 0 { Some(Tag::Nil) }
    else if v == 1 { Some(Tag::Cons) }
    else if v == 2 { Some(Tag::Sym) }
    else if v == 3 { Some(Tag::Fun) }
    else if v == 4 { Some(Tag::Num) }
    else if v == 5 { Some(Tag::Str) }
    else if v == 6 { Some(Tag::Char) }
    else if v == 7 { Some(Tag::Comm) }
    else if v == 8 { Some(Tag::U64) }
    else if v == 9 { Some(Tag::Key) }
    else if v == 10 { Some(Tag::Env) }
    else if v == 11 { Some(Tag::Error) }
    else if v == 12 { Some(Tag::Thunk) }
    else if v == 13 { Some(Tag::Builtin) }
    else if v == 14 { Some(Tag::BigNum) }
    else if v == 15 { Some(Tag::Fix) }
    else { None }
}

/// Decoding inverts encoding, and the encodings are exactly the indices below the tag count.
pub proof fn lemma_tag_encoding(t: Tag, v: u32)
    ensures
        tag_of(tag_index(t)) == Some(t),
        tag_index(t) < TAG_COUNT,
        tag_of(v) is Some <==> v < TAG_COUNT,
        tag_of(v) is Some ==> tag_index(tag_of(v).unwrap()) == v,
{
}

impl Tag {
    /// The field element that encodes this tag.
    pub fn elt(&self) -> (r: Elt)
        ensures
            r.0 == tag_index(*self),
            r.canonical(),
    {
        let v: u32 = match self {
            Tag::Nil => 0,
            Tag::Cons => 1,
            Tag::Sym => 2,
            Tag::Fun => 3,
            Tag::Num => 4,
            Tag::Str => 5,
            Tag::Char => 6,
            Tag::Comm => 7,
            Tag::U64 => 8,
            Tag::Key => 9,
            Tag::Env => 10,
            Tag::Error => 11,
            Tag::Thunk => 12,
            Tag::Builtin => 13,
            Tag::BigNum => 14,
            Tag::Fix => 15,
        };
        Elt(v)
    }

    /// The tag that a field element encodes, or `None` if it encodes none.
    pub fn try_from_field(e: &Elt) -> (r: Option<Tag>)
        ensures
            r == tag_of(e.0),
    {
        match e.0 {
            0 => Some(Tag::Nil),
            1 => Some(Tag::Cons),
            2 => Some(Tag::Sym),
            3 => Some(Tag::Fun),
            4 => Some(Tag::Num),
            5 => Some(Tag::Str),
            6 => Some(Tag::Char),
            7 => Some(Tag::Comm),
            8 => Some(Tag::U64),
            9 => Some(Tag::Key),
            10 => Some(Tag::Env),
            11 => Some(Tag::Error),
            12 => Some(Tag::Thunk),
            13 => Some(Tag::Builtin),
            14 => Some(Tag::BigNum),
            15 => Some(Tag::Fix),
            _ => None,
        }
    }

    /// The tag that a field element encodes; the element must encode one.
    pub fn from_field(e: &Elt) -> (r: Tag)
        requires
            tag_of(e.0) is Some,
        ensures
            Some(r) == tag_of(e.0),
    {
        match Tag::try_from_field(e) {
            Some(t) => t,
            None => Tag::Nil,
        }
    }

    /// The wide encoding of this tag: its field element padded with zeros.
    pub fn value(&self) -> (r: Wide)
        ensures
            r == Wide::widen_spec(Elt(tag_index(*self))),
    {
        Wide::widen(self.elt())
    }
}

} // verus!

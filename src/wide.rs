use crate::field::Elt;
use crate::tag::{tag_index, tag_of, Tag};
use vstd::prelude::*;

verus! {

/// An eight-element digest.
#[derive(Clone, Copy, Debug, Eq, PartialOrd, Ord, Hash)]
pub struct Wide(pub [Elt; 8]);

impl PartialEq for Wide {
    fn eq(&self, o: &Wide) -> (r: bool) {
        let mut i: usize = 0;
        while i < WIDTH
            invariant
                i <= WIDTH,
                forall|j: int| 0 <= j < i ==> self.0[j] == o.0[j],
            decreases WIDTH - i,
        {
            if self.0[i].0 != o.0[i].0 {
                return false;
            }
            i += 1;
        }
        assert(self.0 =~= o.0);
        true
    }
}

impl vstd::std_specs::cmp::PartialEqSpecImpl for Wide {
    open spec fn obeys_eq_spec() -> bool {
        true
    }

    open spec fn eq_spec(&self, o: &Wide) -> bool {
        *self == *o
    }
}

/// The width of a digest.
pub const WIDTH: usize = 8;

impl Wide {
    /// The digest that embeds one element, with the other seven slots zero.
    pub open spec fn widen_spec(e: Elt) -> Wide {
        Wide([e, Elt(0), Elt(0), Elt(0), Elt(0), Elt(0), Elt(0), Elt(0)])
    }

    /// The digest holds one element followed by seven zeros.
    pub open spec fn is_immediate(self) -> bool {
        forall|i: int| 1 <= i < 8 ==> #[trigger] self.0[i] == Elt(0)
    }

    pub fn widen(elt: Elt) -> (r: Wide)
        ensures
            r == Self::widen_spec(elt),
            r.0[0] == elt,
            r.is_immediate(),
    {
        let mut v = [Elt(0); 8];
        v[0] = elt;
        let r = Wide(v);
        assert(r.0 =~= Self::widen_spec(elt).0);
        r
    }

    /// The element an immediate digest embeds.
    pub fn f(&self) -> (r: Elt)
        requires
            self.is_immediate(),
        ensures
            r == self.0[0],
            *self == Self::widen_spec(r),
    {
        assert(self.0 =~= Self::widen_spec(self.0[0]).0);
        self.0[0]
    }

    /// The digest made of exactly eight given elements.
    pub fn from_slice(elts: &[Elt]) -> (r: Wide)
        requires
            elts@.len() == WIDTH,
        ensures
            r.0@ == elts@,
    {
        let mut v = [Elt(0); 8];
        let mut i: usize = 0;
        while i < WIDTH
            invariant
                elts@.len() == WIDTH,
                i <= WIDTH,
                forall|j: int| 0 <= j < i ==> v[j] == elts@[j],
            decreases WIDTH - i,
        {
            v[i] = elts[i];
            i += 1;
        }
        assert(v@ =~= elts@);
        Wide(v)
    }

    /// The digest of a number: the number itself, widened.
    pub fn from_num(n: &Num) -> (r: Wide)
        ensures
            r == Self::widen_spec(n.0),
    {
        Wide::widen(n.0)
    }
}

impl From<Num> for Wide {
    fn from(n: Num) -> Wide {
        Wide::widen(n.0)
    }
}

impl vstd::std_specs::convert::FromSpecImpl<Num> for Wide {
    open spec fn obeys_from_spec() -> bool {
        true
    }

    open spec fn from_spec(n: Num) -> Wide {
        Wide::widen_spec(n.0)
    }
}

/// A number value: an immediate field element.
#[derive(Clone, Copy, Debug, PartialEq, Eq, Structural, Hash)]
pub struct Num(pub Elt);

} // verus!

verus! {

/// A content-addressed pointer: a wide tag and a wide digest.
#[derive(Clone, Copy, Debug, PartialEq, Eq, PartialOrd, Ord, Hash)]
pub struct WidePtr(pub Wide, pub Wide);

/// A content-store pointer: a tag and the raw elements of a digest.
#[derive(Clone, Copy, Debug, PartialEq, Eq, Hash)]
pub struct ZPtr {
    pub tag: Tag,
    pub digest: [Elt; 8],
}

impl WidePtr {
    /// The tag of the pointer; its wide tag must be an immediate encoding of one.
    pub fn tag(&self) -> (r: Tag)
        requires
            self.0.is_immediate(),
            tag_of(self.0.0[0].0) is Some,
        ensures
            Some(r) == tag_of(self.0.0[0].0),
    {
        Tag::from_field(&self.0.f())
    }

    /// The content-store pointer with the same tag and digest.
    pub fn to_zptr(&self) -> (r: ZPtr)
        requires
            self.0.is_immediate(),
            tag_of(self.0.0[0].0) is Some,
        ensures
            Some(r.tag) == tag_of(self.0.0[0].0),
            r.digest == self.1.0,
    {
        ZPtr { tag: Tag::from_field(&self.0.f()), digest: self.1.0 }
    }

    /// The wide pointer with the same tag and digest as a content-store pointer.
    pub fn from_zptr(zptr: &ZPtr) -> (r: WidePtr)
        ensures
            r.0 == Wide::widen_spec(Elt(tag_index(zptr.tag))),
            r.1 == Wide(zptr.digest),
    {
        WidePtr(Wide::widen(zptr.tag.elt()), Wide(zptr.digest))
    }

    /// The wide pointer of a number: the number tag and the number, both widened.
    pub fn from_num(n: &Num) -> (r: WidePtr)
        ensures
            r.0 == Wide::widen_spec(Elt(tag_index(Tag::Num))),
            r.1 == Wide::widen_spec(n.0),
    {
        WidePtr(Tag::Num.value(), Wide::from_num(n))
    }
}

impl From<Num> for WidePtr {
    fn from(n: Num) -> WidePtr {
        WidePtr::from_num(&n)
    }
}

impl vstd::std_specs::convert::FromSpecImpl<Num> for WidePtr {
    open spec fn obeys_from_spec() -> bool {
        true
    }

    open spec fn from_spec(n: Num) -> WidePtr {
        WidePtr(Wide::widen_spec(Elt(tag_index(Tag::Num))), Wide::widen_spec(n.0))
    }
}

/// Converting a content-store pointer to a wide pointer and back gives it back.
pub proof fn lemma_zptr_round_trip(z: ZPtr, w: WidePtr)
    requires
        w.0 == Wide::widen_spec(Elt(tag_index(z.tag))),
        w.1 == Wide(z.digest),
    ensures
        w.0.is_immediate(),
        tag_of(w.0.0[0].0) == Some(z.tag),
        w.1.0 == z.digest,
{
    crate::tag::lemma_tag_encoding(z.tag, 0);
}

} // verus!

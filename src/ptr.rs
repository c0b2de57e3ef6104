use crate::builtins::{lemma_sym_index, lurk_sym_index, sym_index, BUILTIN_COUNT};
use crate::field::Elt;
use crate::lattice::PtrEq;
use crate::tag::{tag_index, tag_of, Tag};
use crate::wide::Wide;
use vstd::prelude::*;

verus! {

/// A compact pointer: a tag element and an address element. For numbers and errors
/// the address element is the value itself.
#[derive(Clone, Copy, Debug, PartialEq, Eq, Structural, PartialOrd, Ord, Hash)]
pub struct Ptr(pub Elt, pub Elt);

/// The pointer with the given tag and address representative.
pub open spec fn ptr_of(t: Tag, addr: u32) -> Ptr {
    Ptr(Elt(tag_index(t)), Elt(addr))
}

/// Whether a tag element is that of an immediate value (a number or an error).
pub open spec fn is_immediate_tag(e: Elt) -> bool {
    e.0 == tag_index(Tag::Num) || e.0 == tag_index(Tag::Error)
}

/// The equality that two pointers can be resolved to without consulting any relation.
pub open spec fn ptr_eq_spec(a: Ptr, b: Ptr) -> PtrEq {
    if a == b {
        PtrEq::Equal
    } else if a.0 != b.0 {
        PtrEq::NotEqual
    } else if is_immediate_tag(a.0) {
        if a.1 == b.1 { PtrEq::Equal } else { PtrEq::NotEqual }
    } else {
        PtrEq::Unknown
    }
}

/// The pointer to the built-in symbol `name`.
pub open spec fn builtin_ptr(name: Seq<char>) -> Ptr {
    ptr_of(Tag::Builtin, sym_index(name).unwrap() as u32)
}

impl Ptr {
    pub fn nil() -> (r: Ptr)
        ensures
            r == ptr_of(Tag::Sym, 0),
    {
        Ptr(Tag::Sym.elt(), Elt::zero())
    }

    pub fn t() -> (r: Ptr)
        ensures
            r == ptr_of(Tag::Sym, 1),
    {
        Ptr(Tag::Sym.elt(), Elt::one())
    }

    /// The pointer to a built-in operator; `op` must name one.
    pub fn builtin(op: &str) -> (r: Ptr)
        requires
            sym_index(op@) is Some,
        ensures
            r == builtin_ptr(op@),
    {
        proof {
            lemma_sym_index(op@);
        }
        let addr = match lurk_sym_index(op) {
            Some(k) => k,
            None => 0,
        };
        Ptr(Tag::Builtin.elt(), Elt(addr as u32))
    }

    pub fn eq() -> (r: Ptr)
        ensures
            r == builtin_ptr("eq"@),
    {
        proof {
            lemma_present("eq"@, 14);
        }
        Self::builtin("eq")
    }

    pub fn cons() -> (r: Ptr)
        ensures
            r == builtin_ptr("cons"@),
    {
        proof {
            lemma_present("cons"@, 9);
        }
        Self::builtin("cons")
    }

    pub fn car() -> (r: Ptr)
        ensures
            r == builtin_ptr("car"@),
    {
        proof {
            lemma_present("car"@, 3);
        }
        Self::builtin("car")
    }

    pub fn cdr() -> (r: Ptr)
        ensures
            r == builtin_ptr("cdr"@),
    {
        proof {
            lemma_present("cdr"@, 4);
        }
        Self::builtin("cdr")
    }

    pub fn quote() -> (r: Ptr)
        ensures
            r == builtin_ptr("quote"@),
    {
        proof {
            lemma_present("quote"@, 25);
        }
        Self::builtin("quote")
    }

    pub fn atom() -> (r: Ptr)
        ensures
            r == builtin_ptr("atom"@),
    {
        proof {
            lemma_present("atom"@, 0);
        }
        Self::builtin("atom")
    }

    /// The number pointer holding `val`.
    pub fn f(val: Elt) -> (r: Ptr)
        ensures
            r == Ptr(Elt(tag_index(Tag::Num)), val),
    {
        Ptr(Tag::Num.elt(), val)
    }

    pub fn is_num(&self) -> (r: bool)
        ensures
            r == (self.0.0 == tag_index(Tag::Num)),
    {
        self.0.0 == Tag::Num.elt().0
    }

    pub fn is_cons(&self) -> (r: bool)
        ensures
            r == (self.0.0 == tag_index(Tag::Cons)),
    {
        self.0.0 == Tag::Cons.elt().0
    }

    pub fn is_nil(&self) -> (r: bool)
        ensures
            r == (*self == ptr_of(Tag::Sym, 0)),
    {
        *self == Ptr::nil()
    }

    /// A symbol other than the two reserved ones, `nil` and `t`.
    pub fn is_sym(&self) -> (r: bool)
        ensures
            r == (self.0.0 == tag_index(Tag::Sym) && self.1.0 != 0 && self.1.0 != 1),
    {
        self.0.0 == Tag::Sym.elt().0 && self.1.0 != 0 && self.1.0 != 1
    }

    pub fn is_builtin(&self) -> (r: bool)
        ensures
            r == (self.0.0 == tag_index(Tag::Builtin)),
    {
        self.0.0 == Tag::Builtin.elt().0
    }

    pub fn is_fun(&self) -> (r: bool)
        ensures
            r == (self.0.0 == tag_index(Tag::Fun)),
    {
        self.0.0 == Tag::Fun.elt().0
    }

    pub fn is_thunk(&self) -> (r: bool)
        ensures
            r == (self.0.0 == tag_index(Tag::Fix)),
    {
        self.0.0 == Tag::Fix.elt().0
    }

    pub fn is_err(&self) -> (r: bool)
        ensures
            r == (self.0.0 == tag_index(Tag::Error)),
    {
        self.0.0 == Tag::Error.elt().0
    }

    /// The tag of the pointer; its tag element must encode one.
    pub fn tag(&self) -> (r: Tag)
        requires
            tag_of(self.0.0) is Some,
        ensures
            Some(r) == tag_of(self.0.0),
    {
        Tag::from_field(&self.0)
    }

    /// The tag element, widened.
    pub fn wide_tag(&self) -> (r: Wide)
        ensures
            r == Wide::widen_spec(self.0),
    {
        Wide::widen(self.0)
    }

    /// Resolves equality as far as the two pointers alone allow: identical pointers
    /// are equal, pointers of different tags are not, immediate values compare by
    /// value, and anything else is left unknown.
    pub fn is_eq(&self, other: &Ptr) -> (r: PtrEq)
        ensures
            r == ptr_eq_spec(*self, *other),
    {
        if *self == *other {
            PtrEq::Equal
        } else if self.0.0 != other.0.0 {
            PtrEq::NotEqual
        } else if self.is_num() || self.is_err() {
            if self.1.0 == other.1.0 {
                PtrEq::Equal
            } else {
                PtrEq::NotEqual
            }
        } else {
            PtrEq::Unknown
        }
    }
}

proof fn lemma_present(name: Seq<char>, k: int)
    requires
        0 <= k < BUILTIN_COUNT,
        crate::builtins::builtin_symbols()[k] == name,
    ensures
        sym_index(name) is Some,
{
    lemma_sym_index(name);
}

/// `is_eq` never calls pointers with different tag elements equal, never calls
/// identical pointers unequal, and always resolves numbers and errors.
pub proof fn lemma_is_eq_sound(a: Ptr, b: Ptr)
    ensures
        a.0 != b.0 ==> ptr_eq_spec(a, b) != PtrEq::Equal,
        a == b ==> ptr_eq_spec(a, b) == PtrEq::Equal,
        ptr_eq_spec(a, b) == PtrEq::Equal <==> a == b || (a.0 == b.0 && is_immediate_tag(a.0)
            && a.1 == b.1),
        is_immediate_tag(a.0) ==> ptr_eq_spec(a, b) != PtrEq::Unknown,
        ptr_eq_spec(a, b) == ptr_eq_spec(b, a),
{
}

} // verus!

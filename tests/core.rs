use loam_core::allocation::{AllocError, Allocator, ZStoreHashes};
use loam_core::builtins::{builtin_symbol, lurk_sym_index, str_eq, BUILTIN_COUNT};
use loam_core::field::{Elt, PRIME};
use loam_core::lattice::{LEWrap, PtrEq};
use loam_core::memory::{ExportError, Relations, VPtr};
use loam_core::program::LoamProgram;
use loam_core::ptr::Ptr;
use loam_core::tag::Tag;
use loam_core::wide::{Num, Wide, WidePtr, ZPtr};
use std::cell::Cell;

fn w(x: u32) -> Wide {
    Wide::widen(Elt(x))
}

fn sum_hash4(p: &[Wide; 4]) -> Wide {
    let mut acc = Elt(7);
    for x in p.iter() {
        for e in x.0.iter() {
            acc = acc.add(*e).add(Elt(31));
        }
    }
    Wide([acc, Elt(1), Elt(2), Elt(3), Elt(4), Elt(5), Elt(6), Elt(7)])
}

fn sum_hash5(p: &[Wide; 5]) -> Wide {
    let mut acc = Elt(11);
    for x in p.iter() {
        for e in x.0.iter() {
            acc = acc.add(*e).add(Elt(17));
        }
    }
    Wide([acc, Elt(9), Elt(9), Elt(9), Elt(9), Elt(9), Elt(9), Elt(9)])
}

#[test]
fn field_reduces_modulo_prime() {
    assert_eq!(Elt::new(PRIME), Elt(0));
    assert_eq!(Elt::new(PRIME + 5), Elt(5));
    assert_eq!(Elt::new(u32::MAX).0, u32::MAX % PRIME);
    assert_eq!(Elt::new(42), Elt(42));
}

#[test]
fn field_addition_wraps() {
    assert_eq!(Elt(2).add(Elt(3)), Elt(5));
    assert_eq!(Elt(PRIME - 1).add(Elt(1)), Elt(0));
    assert_eq!(Elt(PRIME - 1).add(Elt(PRIME - 1)), Elt(PRIME - 2));
}

#[test]
fn tag_encoding_round_trips() {
    let all = [
        Tag::Nil, Tag::Cons, Tag::Sym, Tag::Fun, Tag::Num, Tag::Str, Tag::Char, Tag::Comm,
        Tag::U64, Tag::Key, Tag::Env, Tag::Error, Tag::Thunk, Tag::Builtin, Tag::BigNum, Tag::Fix,
    ];
    for (i, t) in all.iter().enumerate() {
        assert_eq!(t.elt(), Elt(i as u32));
        assert_eq!(Tag::from_field(&t.elt()), *t);
        assert_eq!(t.value(), Wide::widen(Elt(i as u32)));
    }
    assert_eq!(Tag::try_from_field(&Elt(16)), None);
}

#[test]
fn builtin_index_lookup() {
    assert_eq!(lurk_sym_index("atom"), Some(0));
    assert_eq!(lurk_sym_index("eq"), Some(14));
    assert_eq!(lurk_sym_index("fail"), Some(40));
    assert_eq!(lurk_sym_index("not-a-builtin"), None);
    assert_eq!(lurk_sym_index(""), None);
    for i in 0..BUILTIN_COUNT {
        assert_eq!(lurk_sym_index(builtin_symbol(i)), Some(i));
    }
    assert!(str_eq("cons", "cons"));
    assert!(!str_eq("cons", "car"));
}

#[test]
fn builtin_pointers() {
    let b = Tag::Builtin.elt();
    assert_eq!(Ptr::eq(), Ptr(b, Elt(14)));
    assert_eq!(Ptr::cons(), Ptr(b, Elt(9)));
    assert_eq!(Ptr::car(), Ptr(b, Elt(3)));
    assert_eq!(Ptr::cdr(), Ptr(b, Elt(4)));
    assert_eq!(Ptr::quote(), Ptr(b, Elt(25)));
    assert_eq!(Ptr::atom(), Ptr(b, Elt(0)));
    assert_eq!(Ptr::builtin("lambda"), Ptr(b, Elt(20)));
    assert!(Ptr::eq().is_builtin());
}

#[test]
fn pointer_predicates() {
    let nil = Ptr::nil();
    let t = Ptr::t();
    assert!(nil.is_nil());
    assert!(!t.is_nil());
    assert!(!nil.is_sym());
    assert!(!t.is_sym());
    assert!(Ptr(Tag::Sym.elt(), Elt(5)).is_sym());
    assert!(Ptr::f(Elt(3)).is_num());
    assert!(Ptr(Tag::Cons.elt(), Elt(0)).is_cons());
    assert!(Ptr(Tag::Fun.elt(), Elt(0)).is_fun());
    assert!(Ptr(Tag::Fix.elt(), Elt(0)).is_thunk());
    assert!(!Ptr(Tag::Thunk.elt(), Elt(0)).is_thunk());
    assert!(Ptr(Tag::Error.elt(), Elt(0)).is_err());
    assert_eq!(nil.tag(), Tag::Sym);
    assert_eq!(Ptr::f(Elt(3)).wide_tag(), Wide::widen(Tag::Num.elt()));
}

#[test]
fn is_eq_on_numbers() {
    let five = Ptr(Tag::Num.elt(), Elt(5));
    assert_eq!(five.is_eq(&Ptr(Tag::Num.elt(), Elt(5))), PtrEq::Equal);
    assert_eq!(five.is_eq(&Ptr(Tag::Num.elt(), Elt(7))), PtrEq::NotEqual);
    assert_eq!(five.is_eq(&Ptr(Tag::Cons.elt(), Elt(5))), PtrEq::NotEqual);
    assert_eq!(five.is_eq(&Ptr(Tag::Cons.elt(), Elt(9))), PtrEq::NotEqual);
}

#[test]
fn is_eq_on_errors_always_resolves() {
    let e1 = Ptr(Tag::Error.elt(), Elt(1));
    assert_eq!(e1.is_eq(&Ptr(Tag::Error.elt(), Elt(1))), PtrEq::Equal);
    assert_eq!(e1.is_eq(&Ptr(Tag::Error.elt(), Elt(2))), PtrEq::NotEqual);
}

#[test]
fn is_eq_sound_on_tags_and_identity() {
    let ptrs = [
        Ptr::nil(),
        Ptr::t(),
        Ptr(Tag::Cons.elt(), Elt(1)),
        Ptr(Tag::Cons.elt(), Elt(2)),
        Ptr(Tag::Fun.elt(), Elt(1)),
        Ptr::f(Elt(1)),
        Ptr(Tag::Error.elt(), Elt(1)),
    ];
    for a in ptrs.iter() {
        assert_eq!(a.is_eq(a), PtrEq::Equal);
        for b in ptrs.iter() {
            if a.0 != b.0 {
                assert_ne!(a.is_eq(b), PtrEq::Equal);
            }
            assert_eq!(a.is_eq(b), b.is_eq(a));
        }
    }
}

#[test]
fn is_eq_unknown_then_resolved_by_meet() {
    let a = Ptr(Tag::Cons.elt(), Elt(1));
    let b = Ptr(Tag::Cons.elt(), Elt(2));
    let mut eq = a.is_eq(&b);
    assert_eq!(eq, PtrEq::Unknown);
    assert!(eq.meet_mut(PtrEq::Equal));
    assert_eq!(eq, PtrEq::Equal);
    assert!(!eq.meet_mut(PtrEq::Unknown));
    assert_eq!(eq, PtrEq::Equal);
    assert!(!eq.meet_mut(PtrEq::NotEqual));
    assert_eq!(eq, PtrEq::Equal);
}

#[test]
fn ptr_eq_lattice_laws() {
    let all = [PtrEq::Equal, PtrEq::NotEqual, PtrEq::Unknown];
    for a in all {
        assert_eq!(a.meet(a), a);
        assert_eq!(a.join(a), a);
        for b in all {
            assert_eq!(a.meet(b), b.meet(a));
            assert_eq!(a.join(b), b.join(a));
            assert!(a.meet(b) <= a && a.meet(b) <= b);
            assert!(a.join(b) >= a && a.join(b) >= b);
            for c in all {
                assert_eq!(a.meet(b).meet(c), a.meet(b.meet(c)));
                assert_eq!(a.join(b).join(c), a.join(b.join(c)));
            }
        }
    }
    assert_eq!(PtrEq::NotEqual.meet(PtrEq::Equal), PtrEq::Equal);
    assert_eq!(PtrEq::NotEqual.join(PtrEq::Unknown), PtrEq::Unknown);
}

#[test]
fn ptr_eq_converges_within_three_values() {
    let seq = [PtrEq::NotEqual, PtrEq::Unknown, PtrEq::Equal, PtrEq::NotEqual, PtrEq::Equal];
    let mut x = PtrEq::Unknown;
    let mut changes = 0;
    for o in seq {
        if x.meet_mut(o) {
            changes += 1;
        }
    }
    assert_eq!(x, PtrEq::Equal);
    assert_eq!(changes, 2);
    let mut y = PtrEq::Equal;
    let mut changes = 0;
    for o in seq {
        if y.join_mut(o) {
            changes += 1;
        }
    }
    assert_eq!(y, PtrEq::Unknown);
    assert_eq!(changes, 2);
}

#[test]
fn le_wrap_lattice() {
    let vals = [LEWrap(Elt(0)), LEWrap(Elt(3)), LEWrap(Elt(PRIME - 1))];
    for a in vals {
        for b in vals {
            assert_eq!(a.meet(b), b.meet(a));
            assert_eq!(a.join(b), b.join(a));
            assert!(a.meet(b).0 .0 <= a.0 .0 && a.meet(b).0 .0 <= b.0 .0);
            assert!(a.join(b).0 .0 >= a.0 .0 && a.join(b).0 .0 >= b.0 .0);
            for c in vals {
                assert_eq!(a.meet(b).meet(c), a.meet(b.meet(c)));
                assert_eq!(a.join(b).join(c), a.join(b.join(c)));
            }
        }
    }
    let mut x = LEWrap(Elt(10));
    assert!(x.meet_mut(LEWrap(Elt(4))));
    assert!(!x.meet_mut(LEWrap(Elt(9))));
    assert_eq!(x, LEWrap(Elt(4)));
    assert!(x.join_mut(LEWrap(Elt(9))));
    assert!(!x.join_mut(LEWrap(Elt(9))));
    assert_eq!(x, LEWrap(Elt(9)));
    assert_eq!(LEWrap(Elt(1)).partial_cmp(&LEWrap(Elt(2))), Some(std::cmp::Ordering::Less));
    assert_eq!(LEWrap(Elt(2)).partial_cmp(&LEWrap(Elt(2))), Some(std::cmp::Ordering::Equal));
}

#[test]
fn wide_digests() {
    let d = Wide::widen(Elt(9));
    assert_eq!(d.0, [Elt(9), Elt(0), Elt(0), Elt(0), Elt(0), Elt(0), Elt(0), Elt(0)]);
    assert_eq!(d.f(), Elt(9));
    let elts = [Elt(1), Elt(2), Elt(3), Elt(4), Elt(5), Elt(6), Elt(7), Elt(8)];
    assert_eq!(Wide::from_slice(&elts).0, elts);
    assert_eq!(Wide::from_num(&Num(Elt(4))), Wide::widen(Elt(4)));
    assert!(Wide::widen(Elt(1)) != Wide::widen(Elt(2)));
}

#[test]
fn wide_ptr_zptr_round_trip() {
    let digest = [Elt(1), Elt(2), Elt(3), Elt(4), Elt(5), Elt(6), Elt(7), Elt(8)];
    let z = ZPtr { tag: Tag::Cons, digest };
    let wp = WidePtr::from_zptr(&z);
    assert_eq!(wp.0, Wide::widen(Tag::Cons.elt()));
    assert_eq!(wp.1, Wide(digest));
    assert_eq!(wp.tag(), Tag::Cons);
    assert_eq!(wp.to_zptr(), z);
    let n = WidePtr::from_num(&Num(Elt(12)));
    assert_eq!(n, WidePtr(Wide::widen(Tag::Num.elt()), Wide::widen(Elt(12))));
}

#[test]
fn alloc_addr_counts_per_tag() {
    let mut a = Allocator::new();
    let cons = Tag::Cons.elt();
    let fun = Tag::Fun.elt();
    assert_eq!(a.alloc_addr(cons, Elt(100)), Elt(100));
    assert_eq!(a.alloc_addr(cons, Elt(100)), Elt(101));
    assert_eq!(a.alloc_addr(fun, Elt(0)), Elt(0));
    assert_eq!(a.alloc_addr(cons, Elt(0)), Elt(102));
    assert_eq!(a.alloc_addr(fun, Elt(0)), Elt(1));
    let mut b = Allocator::new();
    assert_eq!(b.alloc_addr(cons, Elt(PRIME - 1)), Elt(PRIME - 1));
    assert_eq!(b.alloc_addr(cons, Elt(0)), Elt(0));
}

#[test]
fn hash4_round_trip_and_memo() {
    let mut a = Allocator::new();
    let calls = Cell::new(0u32);
    let hasher = |p: &[Wide; 4]| {
        calls.set(calls.get() + 1);
        sum_hash4(p)
    };
    let d = a.hash4(w(1), w(2), w(3), w(4), &hasher).unwrap();
    assert_eq!(d, sum_hash4(&[w(1), w(2), w(3), w(4)]));
    assert_eq!(calls.get(), 1);
    assert_eq!(a.hash4(w(1), w(2), w(3), w(4), &hasher), Ok(d));
    assert_eq!(calls.get(), 1);
    assert_eq!(a.unhash4(&d), Ok([w(1), w(2), w(3), w(4)]));
    assert_eq!(a.unhash4(&w(77)), Err(AllocError::UnknownDigest));
}

#[test]
fn hash5_round_trip() {
    let mut a = Allocator::new();
    let d = a.hash5(w(1), w(2), w(3), w(4), w(5), &sum_hash5).unwrap();
    assert_eq!(a.unhash5(&d), Ok([w(1), w(2), w(3), w(4), w(5)]));
    assert_eq!(a.unhash5(&w(1)), Err(AllocError::UnknownDigest));
    assert_eq!(a.unhash4(&d), Err(AllocError::UnknownDigest));
}

#[test]
fn hash_collision_is_reported() {
    let mut a = Allocator::new();
    let constant = |_p: &[Wide; 4]| w(5);
    assert_eq!(a.hash4(w(1), w(1), w(1), w(1), &constant), Ok(w(5)));
    assert_eq!(a.hash4(w(2), w(2), w(2), w(2), &constant), Err(AllocError::DigestCollision));
    assert_eq!(a.unhash4(&w(5)), Ok([w(1), w(1), w(1), w(1)]));
}

#[test]
fn import_seeds_memos() {
    let mut a = Allocator::new();
    let store = ZStoreHashes {
        hashes4: vec![([w(1), w(2), w(3), w(4)], w(50))],
        hashes5: vec![([w(1), w(2), w(3), w(4), w(5)], w(60))],
    };
    assert_eq!(a.import_zstore(&store), Ok(()));
    assert_eq!(a.unhash4(&w(50)), Ok([w(1), w(2), w(3), w(4)]));
    assert_eq!(a.unhash5(&w(60)), Ok([w(1), w(2), w(3), w(4), w(5)]));
    let never = |_p: &[Wide; 4]| w(999);
    assert_eq!(a.hash4(w(1), w(2), w(3), w(4), &never), Ok(w(50)));
    assert_eq!(a.import_zstore(&store), Ok(()));
}

#[test]
fn import_rejects_inconsistent_entries() {
    let mut a = Allocator::new();
    let d = a.hash4(w(1), w(2), w(3), w(4), &sum_hash4).unwrap();
    let other_digest = ZStoreHashes { hashes4: vec![([w(1), w(2), w(3), w(4)], w(51))], hashes5: vec![] };
    assert_eq!(a.import_zstore(&other_digest), Err(AllocError::InconsistentImport));
    let other_pre = ZStoreHashes { hashes4: vec![([w(4), w(3), w(2), w(1)], d)], hashes5: vec![] };
    assert_eq!(a.import_zstore(&other_pre), Err(AllocError::InconsistentImport));
    assert_eq!(a.unhash4(&d), Ok([w(1), w(2), w(3), w(4)]));
}

#[test]
fn cons_is_hash_consed() {
    let mut p = LoamProgram::new();
    let nil = Ptr::nil();
    let c1 = p.cons(nil, nil).unwrap();
    let c2 = p.cons(nil, nil).unwrap();
    assert_eq!(c1, c2);
    assert!(c1.is_cons());
    assert_eq!(p.cons_rel().len(), 1);
    assert_eq!(p.cons_rel()[0], (nil, nil, c1));
}

#[test]
fn distinct_conses_get_distinct_pointers() {
    let mut p = LoamProgram::new();
    let nil = Ptr::nil();
    let t = Ptr::t();
    let a = p.cons(nil, nil).unwrap();
    let b = p.cons(t, nil).unwrap();
    let c = p.cons(a, b).unwrap();
    assert_ne!(a, b);
    assert_ne!(a, c);
    assert_ne!(b, c);
    assert_eq!(p.cons(t, nil), Ok(b));
    assert_eq!(p.cons_rel().len(), 3);
}

#[test]
fn program_alloc_addr_and_hashing() {
    let mut p = LoamProgram::new();
    assert_eq!(p.alloc_addr(Tag::Fun.elt(), Elt(5)), Elt(5));
    assert_eq!(p.alloc_addr(Tag::Fun.elt(), Elt(5)), Elt(6));
    let d = p.hash4(w(1), w(2), w(3), w(4), &sum_hash4).unwrap();
    assert_eq!(p.unhash4(&d), Ok([w(1), w(2), w(3), w(4)]));
    let e = p.hash5(w(1), w(2), w(3), w(4), w(5), &sum_hash5).unwrap();
    assert_eq!(p.unhash5(&e), Ok([w(1), w(2), w(3), w(4), w(5)]));
    let store = ZStoreHashes { hashes4: vec![([w(9), w(9), w(9), w(9)], w(90))], hashes5: vec![] };
    assert_eq!(p.import_zstore(&store), Ok(()));
    assert_eq!(p.unhash4(&w(90)), Ok([w(9), w(9), w(9), w(9)]));
    assert!(p.allocator().unhash4(&w(90)).is_ok());
}

#[test]
fn set_value_is_functional() {
    let mut p = LoamProgram::new();
    let nil = Ptr::nil();
    assert_eq!(p.set_value(nil, w(1)), Ok(()));
    assert_eq!(p.set_value(nil, w(1)), Ok(()));
    assert_eq!(p.set_value(nil, w(2)), Err(AllocError::ValueConflict));
    assert_eq!(p.ptr_value().len(), 1);
    assert_eq!(p.ptr_value()[0], (nil, w(1)));
}

#[test]
fn program_export_snapshot() {
    let mut p = LoamProgram::new();
    let nil = Ptr::nil();
    let a = p.cons(nil, nil).unwrap();
    let b = p.cons(a, nil).unwrap();
    p.set_value(nil, w(3)).unwrap();
    let vm = p.export_memory().unwrap();
    assert_eq!(vm.ptr_value, vec![(VPtr(nil), w(3))]);
    assert_eq!(
        vm.cons_mem,
        vec![(VPtr(a), (VPtr(nil), VPtr(nil))), (VPtr(b), (VPtr(a), VPtr(nil)))]
    );
    assert!(vm.fun_mem.is_empty());
    assert!(vm.thunk_mem.is_empty());
    assert!(p.fun_rel().is_empty());
    assert!(p.thunk_rel().is_empty());
}

#[test]
fn export_collapses_duplicates_and_rejects_conflicts() {
    let mut rels = Relations::new();
    let f = |x: u32| Ptr::f(Elt(x));
    let fun = Ptr(Tag::Fun.elt(), Elt(1));
    let thunk = Ptr(Tag::Fix.elt(), Elt(1));
    rels.ptr_value = vec![(f(1), w(1)), (f(2), w(2)), (f(1), w(1))];
    rels.fun_rel = vec![(f(1), f(2), f(3), fun), (f(1), f(2), f(3), fun)];
    rels.thunk_rel = vec![(f(4), f(5), thunk)];
    let vm = rels.export_memory().unwrap();
    assert_eq!(vm.ptr_value.len(), 2);
    assert_eq!(vm.fun_mem, vec![(VPtr(fun), (VPtr(f(1)), VPtr(f(2)), VPtr(f(3))))]);
    assert_eq!(vm.thunk_mem, vec![(VPtr(thunk), (VPtr(f(4)), VPtr(f(5))))]);
    rels.ptr_value.push((f(2), w(9)));
    assert!(matches!(rels.export_memory(), Err(ExportError::Conflict)));
}

#[test]
fn fun_and_thunk_are_hash_consed() {
    let mut p = LoamProgram::new();
    let nil = Ptr::nil();
    let t = Ptr::t();
    let f1 = p.fun(nil, t, nil).unwrap();
    let f2 = p.fun(nil, t, nil).unwrap();
    let f3 = p.fun(t, t, nil).unwrap();
    assert_eq!(f1, f2);
    assert_ne!(f1, f3);
    assert!(f1.is_fun());
    assert_eq!(p.fun_rel().len(), 2);
    assert_eq!(p.fun_rel()[0], (nil, t, nil, f1));
    let k1 = p.thunk(t, nil).unwrap();
    let k2 = p.thunk(t, nil).unwrap();
    assert_eq!(k1, k2);
    assert!(k1.is_thunk());
    assert_eq!(p.thunk_rel().len(), 1);
    let vm = p.export_memory().unwrap();
    assert_eq!(vm.fun_mem.len(), 2);
    assert_eq!(vm.thunk_mem, vec![(VPtr(k1), (VPtr(t), VPtr(nil)))]);
}

#[test]
fn numbers_convert_to_digests() {
    let n = Num(Elt(21));
    assert_eq!(Wide::from(n), Wide::widen(Elt(21)));
    assert_eq!(
        WidePtr::from(n),
        WidePtr(Wide::widen(Tag::Num.elt()), Wide::widen(Elt(21)))
    );
}

#[test]
fn new_cells_take_the_next_address_of_their_tag() {
    let mut p = LoamProgram::new();
    let nil = Ptr::nil();
    assert_eq!(p.alloc_addr(Tag::Cons.elt(), Elt(PRIME - 1)), Elt(PRIME - 1));
    let c = p.cons(nil, nil).unwrap();
    assert_eq!(c, Ptr(Tag::Cons.elt(), Elt(0)));
    let d = p.cons(c, nil).unwrap();
    assert_eq!(d, Ptr(Tag::Cons.elt(), Elt(1)));
    let k = p.thunk(nil, nil).unwrap();
    assert_eq!(k, Ptr(Tag::Fix.elt(), Elt(0)));
    let f = p.fun(nil, nil, nil).unwrap();
    assert_eq!(f, Ptr(Tag::Fun.elt(), Elt(0)));
}

#[test]
fn program_import_keeps_memos_and_reports_conflicts() {
    let mut p = LoamProgram::new();
    let e = p.hash5(w(1), w(2), w(3), w(4), w(5), &sum_hash5).unwrap();
    let bad = ZStoreHashes { hashes4: vec![], hashes5: vec![([w(5), w(4), w(3), w(2), w(1)], e)] };
    assert_eq!(p.import_zstore(&bad), Err(AllocError::InconsistentImport));
    assert_eq!(p.unhash5(&e), Ok([w(1), w(2), w(3), w(4), w(5)]));
    let constant = |_p: &[Wide; 4]| w(8);
    assert_eq!(p.hash4(w(1), w(1), w(1), w(1), &constant), Ok(w(8)));
    assert_eq!(p.hash4(w(2), w(2), w(2), w(2), &constant), Err(AllocError::DigestCollision));
}

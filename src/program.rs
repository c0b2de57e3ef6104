use crate::allocation::{
    addr_lookup, memo_conflicts, memo_lookup, memo_unlookup, next_addr, AllocError, Allocator, ZStoreHashes,
};
use crate::field::Elt;
use crate::memory::{
    cons_rows, fun_rows, no_conflict, thunk_rows, value_rows, ExportError, Relations, VirtualMemory,
};
use crate::ptr::Ptr;
use crate::tag::{tag_index, Tag};
use crate::wide::Wide;
use vstd::prelude::*;

verus! {

/// The cell recorded for the children `(car, cdr)` in a relation of rows
/// (child, child, cell), if any.
pub open spec fn cons_of(rel: Seq<(Ptr, Ptr, Ptr)>, car: Ptr, cdr: Ptr) -> Option<Ptr> {
    if exists|i: int| 0 <= i < rel.len() && (#[trigger] rel[i]).0 == car && rel[i].1 == cdr {
        Some(rel[choose|i: int| 0 <= i < rel.len() && (#[trigger] rel[i]).0 == car && rel[i].1 == cdr].2)
    } else {
        None
    }
}

/// The pointer a new cell of `tag` gets: the next address the allocator hands out
/// for the tag, starting from zero.
pub open spec fn next_cell(a: Allocator, tag: Tag) -> Ptr {
    Ptr(Elt(tag_index(tag)), next_addr(addr_lookup(a.addr_entries(), Elt(tag_index(tag))), Elt(0)))
}

/// Each pair of children has one cell, each cell one pair of children, and every cell
/// carries `tag`.
pub open spec fn pair_rel_wf(rel: Seq<(Ptr, Ptr, Ptr)>, tag: Tag) -> bool {
    &&& forall|i: int, j: int|
        0 <= i < rel.len() && 0 <= j < rel.len() && i != j ==> ((#[trigger] rel[i]).0, rel[i].1) != (
        (#[trigger] rel[j]).0, rel[j].1) && rel[i].2 != rel[j].2
    &&& forall|i: int| 0 <= i < rel.len() ==> (#[trigger] rel[i]).2.0 == Elt(tag_index(tag))
}

/// Each pointer has one digest.
pub open spec fn value_rel_wf(rel: Seq<(Ptr, Wide)>) -> bool {
    forall|i: int, j: int|
        0 <= i < rel.len() && 0 <= j < rel.len() && i != j ==> (#[trigger] rel[i]).0 != (
        #[trigger] rel[j]).0
}

/// A program's memory: the allocator and the structural relations it fills, kept
/// free of functional-dependency conflicts.
pub struct LoamProgram {
    allocator: Allocator,
    relations: Relations,
}

impl LoamProgram {
    pub closed spec fn alloc_spec(&self) -> Allocator {
        self.allocator
    }

    pub closed spec fn ptr_value_spec(&self) -> Seq<(Ptr, Wide)> {
        self.relations.ptr_value@
    }

    pub closed spec fn cons_rel_spec(&self) -> Seq<(Ptr, Ptr, Ptr)> {
        self.relations.cons_rel@
    }

    pub closed spec fn fun_rel_spec(&self) -> Seq<(Ptr, Ptr, Ptr, Ptr)> {
        self.relations.fun_rel@
    }

    pub closed spec fn thunk_rel_spec(&self) -> Seq<(Ptr, Ptr, Ptr)> {
        self.relations.thunk_rel@
    }

    pub open spec fn wf(&self) -> bool {
        &&& self.alloc_spec().wf()
        &&& value_rel_wf(self.ptr_value_spec())
        &&& pair_rel_wf(self.cons_rel_spec(), Tag::Cons)
        &&& triple_rel_wf(self.fun_rel_spec(), Tag::Fun)
        &&& pair_rel_wf(self.thunk_rel_spec(), Tag::Fix)
    }

    pub fn new() -> (r: LoamProgram)
        ensures
            r.wf(),
            r.ptr_value_spec().len() == 0,
            r.cons_rel_spec().len() == 0,
            r.fun_rel_spec().len() == 0,
            r.thunk_rel_spec().len() == 0,
    {
        LoamProgram { allocator: Allocator::new(), relations: Relations::new() }
    }

    pub fn allocator(&self) -> (r: &Allocator)
        ensures
            *r == self.alloc_spec(),
    {
        &self.allocator
    }

    pub fn ptr_value(&self) -> (r: &Vec<(Ptr, Wide)>)
        ensures
            r@ == self.ptr_value_spec(),
    {
        &self.relations.ptr_value
    }

    pub fn cons_rel(&self) -> (r: &Vec<(Ptr, Ptr, Ptr)>)
        ensures
            r@ == self.cons_rel_spec(),
    {
        &self.relations.cons_rel
    }

    pub fn fun_rel(&self) -> (r: &Vec<(Ptr, Ptr, Ptr, Ptr)>)
        ensures
            r@ == self.fun_rel_spec(),
    {
        &self.relations.fun_rel
    }

    pub fn thunk_rel(&self) -> (r: &Vec<(Ptr, Ptr, Ptr)>)
        ensures
            r@ == self.thunk_rel_spec(),
    {
        &self.relations.thunk_rel
    }

    /// The address the allocator hands out next for `tag`; see `Allocator::alloc_addr`.
    pub fn alloc_addr(&mut self, tag: Elt, initial_addr: Elt) -> (r: Elt)
        requires
            old(self).wf(),
        ensures
            final(self).wf(),
            r == next_addr(addr_lookup(old(self).alloc_spec().addr_entries(), tag), initial_addr),
            addr_lookup(final(self).alloc_spec().addr_entries(), tag) == Some(r),
            forall|t: Elt| t != tag ==> #[trigger] addr_lookup(final(self).alloc_spec().addr_entries(), t)
                == addr_lookup(old(self).alloc_spec().addr_entries(), t),
            final(self).alloc_spec().memo4_entries() == old(self).alloc_spec().memo4_entries(),
            final(self).alloc_spec().memo5_entries() == old(self).alloc_spec().memo5_entries(),
            final(self).ptr_value_spec() == old(self).ptr_value_spec(),
            final(self).cons_rel_spec() == old(self).cons_rel_spec(),
            final(self).fun_rel_spec() == old(self).fun_rel_spec(),
            final(self).thunk_rel_spec() == old(self).thunk_rel_spec(),
    {
        self.allocator.alloc_addr(tag, initial_addr)
    }

    /// The cons cell of `(car, cdr)`: the one already recorded if there is one, else
    /// a new cons pointer at a fresh address, recorded. Fails, recording nothing, if
    /// the address handed out already denotes another cons.
    pub fn cons(&mut self, car: Ptr, cdr: Ptr) -> (r: Result<Ptr, AllocError>)
        requires
            old(self).wf(),
        ensures
            final(self).wf(),
            final(self).ptr_value_spec() == old(self).ptr_value_spec(),
            final(self).fun_rel_spec() == old(self).fun_rel_spec(),
            final(self).thunk_rel_spec() == old(self).thunk_rel_spec(),
            cons_of(old(self).cons_rel_spec(), car, cdr) matches Some(p) ==> r == Ok::<Ptr, AllocError>(p)
                && final(self).cons_rel_spec() == old(self).cons_rel_spec(),
            cons_of(old(self).cons_rel_spec(), car, cdr) is None ==> (r is Err <==> exists|i: int|
                0 <= i < old(self).cons_rel_spec().len() && (#[trigger] old(self).cons_rel_spec()[i]).2 == next_cell(
                    old(self).alloc_spec(),
                    Tag::Cons,
                )),
            cons_of(old(self).cons_rel_spec(), car, cdr) is None && r is Ok ==> r == Ok::<Ptr, AllocError>(
                next_cell(old(self).alloc_spec(), Tag::Cons),
            ),
            cons_of(old(self).cons_rel_spec(), car, cdr) matches Some(_) ==> final(self).alloc_spec() == old(self).alloc_spec(),
            cons_of(old(self).cons_rel_spec(), car, cdr) is None ==> match r {
                Ok(p) => final(self).cons_rel_spec() == old(self).cons_rel_spec().push((car, cdr, p))
                    && p.0 == Elt(tag_index(Tag::Cons)),
                Err(e) => e == AllocError::AddressInUse && final(self).cons_rel_spec() == old(self).cons_rel_spec(),
            },
            r matches Ok(p) ==> cons_of(final(self).cons_rel_spec(), car, cdr) == Some(p),
    {
        intern_pair(&mut self.relations.cons_rel, &mut self.allocator, Tag::Cons, car, cdr)
    }

    /// The thunk of `(body, closed_env)`: the one already recorded if there is one,
    /// else a new thunk pointer at a fresh address, recorded. Fails, recording nothing,
    /// if the address handed out already denotes another thunk.
    pub fn thunk(&mut self, body: Ptr, env: Ptr) -> (r: Result<Ptr, AllocError>)
        requires
            old(self).wf(),
        ensures
            final(self).wf(),
            final(self).ptr_value_spec() == old(self).ptr_value_spec(),
            final(self).fun_rel_spec() == old(self).fun_rel_spec(),
            final(self).cons_rel_spec() == old(self).cons_rel_spec(),
            cons_of(old(self).thunk_rel_spec(), body, env) matches Some(p) ==> r == Ok::<Ptr, AllocError>(p)
                && final(self).thunk_rel_spec() == old(self).thunk_rel_spec(),
            cons_of(old(self).thunk_rel_spec(), body, env) is None ==> (r is Err <==> exists|i: int|
                0 <= i < old(self).thunk_rel_spec().len() && (#[trigger] old(self).thunk_rel_spec()[i]).2 == next_cell(
                    old(self).alloc_spec(),
                    Tag::Fix,
                )),
            cons_of(old(self).thunk_rel_spec(), body, env) is None && r is Ok ==> r == Ok::<Ptr, AllocError>(
                next_cell(old(self).alloc_spec(), Tag::Fix),
            ),
            cons_of(old(self).thunk_rel_spec(), body, env) matches Some(_) ==> final(self).alloc_spec() == old(self).alloc_spec(),
            cons_of(old(self).thunk_rel_spec(), body, env) is None ==> match r {
                Ok(p) => final(self).thunk_rel_spec() == old(self).thunk_rel_spec().push((body, env, p))
                    && p.0 == Elt(tag_index(Tag::Fix)),
                Err(e) => e == AllocError::AddressInUse && final(self).thunk_rel_spec() == old(self).thunk_rel_spec(),
            },
            r matches Ok(p) ==> cons_of(final(self).thunk_rel_spec(), body, env) == Some(p),
    {
        intern_pair(&mut self.relations.thunk_rel, &mut self.allocator, Tag::Fix, body, env)
    }

    /// The closure of `(args, body, closed_env)`: the one already recorded if there is
    /// one, else a new function pointer at a fresh address, recorded. Fails, recording
    /// nothing, if the address handed out already denotes another closure.
    pub fn fun(&mut self, args: Ptr, body: Ptr, env: Ptr) -> (r: Result<Ptr, AllocError>)
        requires
            old(self).wf(),
        ensures
            final(self).wf(),
            final(self).ptr_value_spec() == old(self).ptr_value_spec(),
            final(self).cons_rel_spec() == old(self).cons_rel_spec(),
            final(self).thunk_rel_spec() == old(self).thunk_rel_spec(),
            fun_of(old(self).fun_rel_spec(), args, body, env) matches Some(p) ==> r == Ok::<Ptr, AllocError>(p)
                && final(self).fun_rel_spec() == old(self).fun_rel_spec(),
            fun_of(old(self).fun_rel_spec(), args, body, env) is None ==> (r is Err <==> exists|i: int|
                0 <= i < old(self).fun_rel_spec().len() && (#[trigger] old(self).fun_rel_spec()[i]).3 == next_cell(
                    old(self).alloc_spec(),
                    Tag::Fun,
                )),
            fun_of(old(self).fun_rel_spec(), args, body, env) is None && r is Ok ==> r == Ok::<Ptr, AllocError>(
                next_cell(old(self).alloc_spec(), Tag::Fun),
            ),
            fun_of(old(self).fun_rel_spec(), args, body, env) matches Some(_) ==> final(self).alloc_spec() == old(self).alloc_spec(),
            fun_of(old(self).fun_rel_spec(), args, body, env) is None ==> match r {
                Ok(p) => final(self).fun_rel_spec() == old(self).fun_rel_spec().push((args, body, env, p))
                    && p.0 == Elt(tag_index(Tag::Fun)),
                Err(e) => e == AllocError::AddressInUse && final(self).fun_rel_spec() == old(self).fun_rel_spec(),
            },
            r matches Ok(p) ==> fun_of(final(self).fun_rel_spec(), args, body, env) == Some(p),
    {
        intern_triple(&mut self.relations.fun_rel, &mut self.allocator, Tag::Fun, args, body, env)
    }
    /// The memory snapshot of the relations; a well-formed program always has one.
    pub fn export_memory(&self) -> (r: Result<VirtualMemory, ExportError>)
        requires
            self.wf(),
        ensures
            r matches Ok(vm) ==> crate::memory::dedup_of(vm.ptr_value@, value_rows(self.ptr_value_spec()))
                && crate::memory::dedup_of(vm.cons_mem@, cons_rows(self.cons_rel_spec()))
                && crate::memory::dedup_of(vm.fun_mem@, fun_rows(self.fun_rel_spec()))
                && crate::memory::dedup_of(vm.thunk_mem@, thunk_rows(self.thunk_rel_spec())),
            r is Ok,
    {
        proof {
            lemma_wf_consistent(
                self.relations.ptr_value@,
                self.relations.cons_rel@,
                self.relations.fun_rel@,
                self.relations.thunk_rel@,
            );
        }
        self.relations.export_memory()
    }

    /// Records `w` as the digest of `ptr`. Succeeds, changing nothing, if it already
    /// is; fails if `ptr` already has another digest.
    pub fn set_value(&mut self, ptr: Ptr, w: Wide) -> (r: Result<(), AllocError>)
        requires
            old(self).wf(),
        ensures
            final(self).wf(),
            final(self).alloc_spec() == old(self).alloc_spec(),
            final(self).cons_rel_spec() == old(self).cons_rel_spec(),
            final(self).fun_rel_spec() == old(self).fun_rel_spec(),
            final(self).thunk_rel_spec() == old(self).thunk_rel_spec(),
            (forall|i: int| 0 <= i < old(self).ptr_value_spec().len() ==> (#[trigger] old(self).ptr_value_spec()[i]).0 != ptr)
                ==> r is Ok && final(self).ptr_value_spec() == old(self).ptr_value_spec().push((ptr, w)),
            forall|i: int| 0 <= i < old(self).ptr_value_spec().len() && (#[trigger] old(self).ptr_value_spec()[i]).0 == ptr
                ==> final(self).ptr_value_spec() == old(self).ptr_value_spec() && (r is Ok <==> old(self).ptr_value_spec()[i].1 == w),
            r matches Err(e) ==> e == AllocError::ValueConflict,
    {
        let ghost rel = self.relations.ptr_value@;
        let mut i: usize = 0;
        while i < self.relations.ptr_value.len()
            invariant
                *self == *old(self),
                old(self).wf(),
                self.relations.ptr_value@ == rel,
                i <= rel.len(),
                forall|j: int| 0 <= j < i ==> (#[trigger] rel[j]).0 != ptr,
            decreases rel.len() - i,
        {
            if self.relations.ptr_value[i].0 == ptr {
                let same = self.relations.ptr_value[i].1 == w;
                proof {
                    assert forall|j: int| 0 <= j < rel.len() && (#[trigger] rel[j]).0 == ptr implies j == i by {
                        if j != i {
                            assert(rel[j].0 != rel[i as int].0);
                        }
                    }
                }
                if same {
                    return Ok(());
                } else {
                    return Err(AllocError::ValueConflict);
                }
            }
            i += 1;
        }
        self.relations.ptr_value.push((ptr, w));
        proof {
            let n = self.relations.ptr_value@;
            assert(n[rel.len() as int] == (ptr, w));
            assert forall|a: int, b: int|
                0 <= a < n.len() && 0 <= b < n.len() && a != b implies (#[trigger] n[a]).0 != (
                #[trigger] n[b]).0 by {
                if a < rel.len() {
                    assert(n[a] == rel[a]);
                }
                if b < rel.len() {
                    assert(n[b] == rel[b]);
                }
            }
        }
        Ok(())
    }

    /// Seeds the allocator's hash memos from a content store; see
    /// `Allocator::import_zstore`.
    pub fn import_zstore(&mut self, store: &ZStoreHashes) -> (r: Result<(), AllocError>)
        requires
            old(self).wf(),
        ensures
            final(self).wf(),
            final(self).cons_rel_spec() == old(self).cons_rel_spec(),
            final(self).ptr_value_spec() == old(self).ptr_value_spec(),
            final(self).fun_rel_spec() == old(self).fun_rel_spec(),
            final(self).thunk_rel_spec() == old(self).thunk_rel_spec(),
            final(self).alloc_spec().addr_entries() == old(self).alloc_spec().addr_entries(),
            forall|q: [Wide; 5]| #[trigger] memo_lookup(old(self).alloc_spec().memo5_entries(), q) is Some
                ==> memo_lookup(final(self).alloc_spec().memo5_entries(), q) == memo_lookup(
                old(self).alloc_spec().memo5_entries(),
                q,
            ),
            forall|q: [Wide; 4]| #[trigger] memo_lookup(old(self).alloc_spec().memo4_entries(), q) is Some
                ==> memo_lookup(final(self).alloc_spec().memo4_entries(), q) == memo_lookup(
                old(self).alloc_spec().memo4_entries(),
                q,
            ),
            r is Ok ==> forall|k: int| 0 <= k < store.hashes4@.len() ==> memo_lookup(
                final(self).alloc_spec().memo4_entries(),
                (#[trigger] store.hashes4@[k]).0,
            ) == Some(store.hashes4@[k].1),
            r is Ok ==> forall|k: int| 0 <= k < store.hashes5@.len() ==> memo_lookup(
                final(self).alloc_spec().memo5_entries(),
                (#[trigger] store.hashes5@[k]).0,
            ) == Some(store.hashes5@[k].1),
            r matches Err(e) ==> e == AllocError::InconsistentImport && ((exists|k: int|
                0 <= k < store.hashes4@.len() && memo_conflicts(
                    final(self).alloc_spec().memo4_entries(),
                    #[trigger] store.hashes4@[k],
                )) || (exists|k: int|
                0 <= k < store.hashes5@.len() && memo_conflicts(
                    final(self).alloc_spec().memo5_entries(),
                    #[trigger] store.hashes5@[k],
                ))),
    {
        self.allocator.import_zstore(store)
    }

    /// The four children hashed to `digest`; see `Allocator::unhash4`.
    pub fn unhash4(&self, digest: &Wide) -> (r: Result<[Wide; 4], AllocError>)
        requires
            self.wf(),
        ensures
            match memo_unlookup(self.alloc_spec().memo4_entries(), *digest) {
                Some(p) => r == Ok::<[Wide; 4], AllocError>(p),
                None => r == Err::<[Wide; 4], AllocError>(AllocError::UnknownDigest),
            },
    {
        self.allocator.unhash4(digest)
    }

    /// The five children hashed to `digest`; see `Allocator::unhash5`.
    pub fn unhash5(&self, digest: &Wide) -> (r: Result<[Wide; 5], AllocError>)
        requires
            self.wf(),
        ensures
            match memo_unlookup(self.alloc_spec().memo5_entries(), *digest) {
                Some(p) => r == Ok::<[Wide; 5], AllocError>(p),
                None => r == Err::<[Wide; 5], AllocError>(AllocError::UnknownDigest),
            },
    {
        self.allocator.unhash5(digest)
    }

    /// The memoized digest of four children; see `Allocator::hash4`.
    pub fn hash4<F: Fn(&[Wide; 4]) -> Wide>(&mut self, a: Wide, b: Wide, c: Wide, d: Wide, hasher: &F) -> (r:
        Result<Wide, AllocError>)
        requires
            old(self).wf(),
            forall|p: &[Wide; 4]| #[trigger] hasher.requires((p,)),
        ensures
            final(self).wf(),
            final(self).cons_rel_spec() == old(self).cons_rel_spec(),
            final(self).ptr_value_spec() == old(self).ptr_value_spec(),
            final(self).fun_rel_spec() == old(self).fun_rel_spec(),
            final(self).thunk_rel_spec() == old(self).thunk_rel_spec(),
            final(self).alloc_spec().addr_entries() == old(self).alloc_spec().addr_entries(),
            final(self).alloc_spec().memo5_entries() == old(self).alloc_spec().memo5_entries(),
            memo_lookup(old(self).alloc_spec().memo4_entries(), [a, b, c, d]) matches Some(x) ==> r == Ok::<
                Wide,
                AllocError,
            >(x) && final(self).alloc_spec().memo4_entries() == old(self).alloc_spec().memo4_entries()
                && final(self).alloc_spec().memo5_entries() == old(self).alloc_spec().memo5_entries(),
            memo_lookup(old(self).alloc_spec().memo4_entries(), [a, b, c, d]) is None ==> match r {
                Ok(x) => hasher.ensures((&[a, b, c, d],), x) && memo_unlookup(old(self).alloc_spec().memo4_entries(), x) is None
                    && final(self).alloc_spec().memo4_entries() == old(self).alloc_spec().memo4_entries().push(([a, b, c, d], x)),
                Err(e) => e == AllocError::DigestCollision && final(self).alloc_spec().memo4_entries()
                    == old(self).alloc_spec().memo4_entries() && exists|x: Wide|
                    hasher.ensures((&[a, b, c, d],), x) && memo_unlookup(old(self).alloc_spec().memo4_entries(), x) is Some,
            },
            r matches Ok(x) ==> memo_lookup(final(self).alloc_spec().memo4_entries(), [a, b, c, d]) == Some(x)
                && memo_unlookup(final(self).alloc_spec().memo4_entries(), x) == Some([a, b, c, d]),
    {
        self.allocator.hash4(a, b, c, d, hasher)
    }

    /// The memoized digest of five children; see `Allocator::hash5`.
    pub fn hash5<F: Fn(&[Wide; 5]) -> Wide>(&mut self, a: Wide, b: Wide, c: Wide, d: Wide, e: Wide, hasher: &F) -> (r:
        Result<Wide, AllocError>)
        requires
            old(self).wf(),
            forall|p: &[Wide; 5]| #[trigger] hasher.requires((p,)),
        ensures
            final(self).wf(),
            final(self).cons_rel_spec() == old(self).cons_rel_spec(),
            final(self).ptr_value_spec() == old(self).ptr_value_spec(),
            final(self).fun_rel_spec() == old(self).fun_rel_spec(),
            final(self).thunk_rel_spec() == old(self).thunk_rel_spec(),
            final(self).alloc_spec().addr_entries() == old(self).alloc_spec().addr_entries(),
            final(self).alloc_spec().memo4_entries() == old(self).alloc_spec().memo4_entries(),
            memo_lookup(old(self).alloc_spec().memo5_entries(), [a, b, c, d, e]) matches Some(x) ==> r == Ok::<
                Wide,
                AllocError,
            >(x) && final(self).alloc_spec().memo4_entries() == old(self).alloc_spec().memo4_entries()
                && final(self).alloc_spec().memo5_entries() == old(self).alloc_spec().memo5_entries(),
            memo_lookup(old(self).alloc_spec().memo5_entries(), [a, b, c, d, e]) is None ==> match r {
                Ok(x) => hasher.ensures((&[a, b, c, d, e],), x) && memo_unlookup(old(self).alloc_spec().memo5_entries(), x) is None
                    && final(self).alloc_spec().memo5_entries() == old(self).alloc_spec().memo5_entries().push(([a, b, c, d, e], x)),
                Err(err) => err == AllocError::DigestCollision && final(self).alloc_spec().memo5_entries()
                    == old(self).alloc_spec().memo5_entries() && exists|x: Wide|
                    hasher.ensures((&[a, b, c, d, e],), x) && memo_unlookup(old(self).alloc_spec().memo5_entries(), x) is Some,
            },
            r matches Ok(x) ==> memo_lookup(final(self).alloc_spec().memo5_entries(), [a, b, c, d, e]) == Some(x)
                && memo_unlookup(final(self).alloc_spec().memo5_entries(), x) == Some([a, b, c, d, e]),
    {
        self.allocator.hash5(a, b, c, d, e, hasher)
    }
}

/// The cell of `(car, cdr)` in `rel`: the recorded one, or a new pointer of `tag` at
/// a fresh address, recorded.
fn intern_pair(rel_vec: &mut Vec<(Ptr, Ptr, Ptr)>, allocator: &mut Allocator, tag_kind: Tag, car: Ptr, cdr: Ptr) -> (r:
    Result<Ptr, AllocError>)
    requires
        pair_rel_wf(old(rel_vec)@, tag_kind),
        old(allocator).wf(),
    ensures
        pair_rel_wf(final(rel_vec)@, tag_kind),
        final(allocator).wf(),
        cons_of(old(rel_vec)@, car, cdr) matches Some(p) ==> r == Ok::<Ptr, AllocError>(p)
            && final(rel_vec)@ == old(rel_vec)@ && *final(allocator) == *old(allocator),
        cons_of(old(rel_vec)@, car, cdr) is None ==> (r is Err <==> exists|i: int|
            0 <= i < old(rel_vec)@.len() && (#[trigger] old(rel_vec)@[i]).2 == next_cell(*old(allocator), tag_kind)),
        cons_of(old(rel_vec)@, car, cdr) is None && r is Ok ==> r == Ok::<Ptr, AllocError>(next_cell(*old(allocator), tag_kind)),
        cons_of(old(rel_vec)@, car, cdr) is None ==> match r {
            Ok(p) => final(rel_vec)@ == old(rel_vec)@.push((car, cdr, p)) && p.0 == Elt(tag_index(tag_kind)),
            Err(e) => e == AllocError::AddressInUse && final(rel_vec)@ == old(rel_vec)@,
        },
        r matches Ok(p) ==> cons_of(final(rel_vec)@, car, cdr) == Some(p),
{
    let ghost rel = rel_vec@;
    let mut i: usize = 0;
    while i < rel_vec.len()
        invariant
            *rel_vec == *old(rel_vec),
            *allocator == *old(allocator),
            pair_rel_wf(rel, tag_kind),
            old(allocator).wf(),
            rel_vec@ == rel,
            i <= rel.len(),
            forall|j: int| 0 <= j < i ==> !((#[trigger] rel[j]).0 == car && rel[j].1 == cdr),
        decreases rel.len() - i,
    {
        let (a, d, c) = rel_vec[i];
        if a == car && d == cdr {
            proof {
                lemma_cons_at(rel, tag_kind, i as int);
            }
            return Ok(c);
        }
        i += 1;
    }
    assert(cons_of(rel, car, cdr) is None);
    let tag = tag_kind.elt();
    let addr = allocator.alloc_addr(tag, Elt::zero());
    let p = Ptr(tag, addr);
    assert(p == next_cell(*old(allocator), tag_kind));
    let mut k: usize = 0;
    while k < rel_vec.len()
        invariant
            *rel_vec == *old(rel_vec),
            allocator.wf(),
            pair_rel_wf(rel, tag_kind),
            cons_of(rel, car, cdr) is None,
            rel_vec@ == rel,
            k <= rel.len(),
            p == next_cell(*old(allocator), tag_kind),
            forall|j: int| 0 <= j < k ==> (#[trigger] rel[j]).2 != p,
        decreases rel.len() - k,
    {
        if rel_vec[k].2 == p {
            return Err(AllocError::AddressInUse);
        }
        k += 1;
    }
    rel_vec.push((car, cdr, p));
    proof {
        let n = rel_vec@;
        assert(n[rel.len() as int] == (car, cdr, p));
        assert forall|a: int, b: int|
            0 <= a < n.len() && 0 <= b < n.len() && a != b implies ((#[trigger] n[a]).0, n[a].1) != (
            (#[trigger] n[b]).0, n[b].1) && n[a].2 != n[b].2 by {
            if a < rel.len() {
                assert(n[a] == rel[a]);
            }
            if b < rel.len() {
                assert(n[b] == rel[b]);
            }
        }
        assert forall|a: int| 0 <= a < n.len() implies (#[trigger] n[a]).2.0 == Elt(tag_index(tag_kind)) by {
            if a < rel.len() {
                assert(n[a] == rel[a]);
            }
        }
        lemma_cons_at(n, tag_kind, rel.len() as int);
    }
    Ok(p)
}

/// The closure of `(args, body, env)` in `rel`: the recorded one, or a new pointer of
/// `tag` at a fresh address, recorded.
fn intern_triple(rel_vec: &mut Vec<(Ptr, Ptr, Ptr, Ptr)>, allocator: &mut Allocator, tag_kind: Tag, args: Ptr, body: Ptr, env: Ptr) -> (r:
    Result<Ptr, AllocError>)
    requires
        triple_rel_wf(old(rel_vec)@, tag_kind),
        old(allocator).wf(),
    ensures
        triple_rel_wf(final(rel_vec)@, tag_kind),
        final(allocator).wf(),
        fun_of(old(rel_vec)@, args, body, env) matches Some(p) ==> r == Ok::<Ptr, AllocError>(p)
            && final(rel_vec)@ == old(rel_vec)@ && *final(allocator) == *old(allocator),
        fun_of(old(rel_vec)@, args, body, env) is None ==> (r is Err <==> exists|i: int|
            0 <= i < old(rel_vec)@.len() && (#[trigger] old(rel_vec)@[i]).3 == next_cell(*old(allocator), tag_kind)),
        fun_of(old(rel_vec)@, args, body, env) is None && r is Ok ==> r == Ok::<Ptr, AllocError>(next_cell(*old(allocator), tag_kind)),
        fun_of(old(rel_vec)@, args, body, env) is None ==> match r {
            Ok(p) => final(rel_vec)@ == old(rel_vec)@.push((args, body, env, p)) && p.0 == Elt(tag_index(tag_kind)),
            Err(e) => e == AllocError::AddressInUse && final(rel_vec)@ == old(rel_vec)@,
        },
        r matches Ok(p) ==> fun_of(final(rel_vec)@, args, body, env) == Some(p),
{
    let ghost rel = rel_vec@;
    let mut i: usize = 0;
    while i < rel_vec.len()
        invariant
            *rel_vec == *old(rel_vec),
            *allocator == *old(allocator),
            triple_rel_wf(rel, tag_kind),
            old(allocator).wf(),
            rel_vec@ == rel,
            i <= rel.len(),
            forall|j: int| 0 <= j < i ==> !((#[trigger] rel[j]).0 == args && rel[j].1 == body && rel[j].2 == env),
        decreases rel.len() - i,
    {
        let (x, y, z, c) = rel_vec[i];
        if x == args && y == body && z == env {
            proof {
                lemma_fun_at(rel, tag_kind, i as int);
            }
            return Ok(c);
        }
        i += 1;
    }
    assert(fun_of(rel, args, body, env) is None);
    let tag = tag_kind.elt();
    let addr = allocator.alloc_addr(tag, Elt::zero());
    let p = Ptr(tag, addr);
    assert(p == next_cell(*old(allocator), tag_kind));
    let mut k: usize = 0;
    while k < rel_vec.len()
        invariant
            *rel_vec == *old(rel_vec),
            allocator.wf(),
            triple_rel_wf(rel, tag_kind),
            fun_of(rel, args, body, env) is None,
            rel_vec@ == rel,
            k <= rel.len(),
            p == next_cell(*old(allocator), tag_kind),
            forall|j: int| 0 <= j < k ==> (#[trigger] rel[j]).3 != p,
        decreases rel.len() - k,
    {
        if rel_vec[k].3 == p {
            return Err(AllocError::AddressInUse);
        }
        k += 1;
    }
    rel_vec.push((args, body, env, p));
    proof {
        let n = rel_vec@;
        assert(n[rel.len() as int] == (args, body, env, p));
        assert forall|a: int, b: int|
            0 <= a < n.len() && 0 <= b < n.len() && a != b implies ((#[trigger] n[a]).0, n[a].1, n[a].2) != (
            (#[trigger] n[b]).0, n[b].1, n[b].2) && n[a].3 != n[b].3 by {
            if a < rel.len() {
                assert(n[a] == rel[a]);
            }
            if b < rel.len() {
                assert(n[b] == rel[b]);
            }
        }
        assert forall|a: int| 0 <= a < n.len() implies (#[trigger] n[a]).3.0 == Elt(tag_index(tag_kind)) by {
            if a < rel.len() {
                assert(n[a] == rel[a]);
            }
        }
        lemma_fun_at(n, tag_kind, rel.len() as int);
    }
    Ok(p)
}

/// The closure recorded for `(args, body, env)`, if any.
pub open spec fn fun_of(rel: Seq<(Ptr, Ptr, Ptr, Ptr)>, args: Ptr, body: Ptr, env: Ptr) -> Option<Ptr> {
    if exists|i: int| 0 <= i < rel.len() && (#[trigger] rel[i]).0 == args && rel[i].1 == body && rel[i].2 == env {
        Some(
            rel[choose|i: int|
                0 <= i < rel.len() && (#[trigger] rel[i]).0 == args && rel[i].1 == body && rel[i].2 == env].3,
        )
    } else {
        None
    }
}

/// Each triple of children has one closure, each closure one triple of children, and
/// every closure carries `tag`.
pub open spec fn triple_rel_wf(rel: Seq<(Ptr, Ptr, Ptr, Ptr)>, tag: Tag) -> bool {
    &&& forall|i: int, j: int|
        0 <= i < rel.len() && 0 <= j < rel.len() && i != j ==> ((#[trigger] rel[i]).0, rel[i].1, rel[i].2) != (
        (#[trigger] rel[j]).0, rel[j].1, rel[j].2) && rel[i].3 != rel[j].3
    &&& forall|i: int| 0 <= i < rel.len() ==> (#[trigger] rel[i]).3.0 == Elt(tag_index(tag))
}

proof fn lemma_fun_at(rel: Seq<(Ptr, Ptr, Ptr, Ptr)>, tag: Tag, i: int)
    requires
        triple_rel_wf(rel, tag),
        0 <= i < rel.len(),
    ensures
        fun_of(rel, rel[i].0, rel[i].1, rel[i].2) == Some(rel[i].3),
{
    let j = choose|j: int|
        0 <= j < rel.len() && (#[trigger] rel[j]).0 == rel[i].0 && rel[j].1 == rel[i].1 && rel[j].2 == rel[i].2;
    if j != i {
        assert((rel[i].0, rel[i].1, rel[i].2) != (rel[j].0, rel[j].1, rel[j].2));
    }
}

/// A well-formed program's relations have no conflicting rows.
proof fn lemma_wf_consistent(
    values: Seq<(Ptr, Wide)>,
    conses: Seq<(Ptr, Ptr, Ptr)>,
    funs: Seq<(Ptr, Ptr, Ptr, Ptr)>,
    thunks: Seq<(Ptr, Ptr, Ptr)>,
)
    requires
        value_rel_wf(values),
        pair_rel_wf(conses, Tag::Cons),
        triple_rel_wf(funs, Tag::Fun),
        pair_rel_wf(thunks, Tag::Fix),
    ensures
        no_conflict(value_rows(values)),
        no_conflict(cons_rows(conses)),
        no_conflict(fun_rows(funs)),
        no_conflict(thunk_rows(thunks)),
{
    let fr = fun_rows(funs);
    assert forall|i: int, j: int|
        0 <= i < fr.len() && 0 <= j < fr.len() && (#[trigger] fr[i]).0 == (#[trigger] fr[j]).0 implies fr[i].1
            == fr[j].1 by {
        assert(fr[i] == crate::memory::fun_row(funs[i]));
        assert(fr[j] == crate::memory::fun_row(funs[j]));
        if i != j {
            assert(funs[i].3 != funs[j].3);
        }
    }
    let tr = thunk_rows(thunks);
    assert forall|i: int, j: int|
        0 <= i < tr.len() && 0 <= j < tr.len() && (#[trigger] tr[i]).0 == (#[trigger] tr[j]).0 implies tr[i].1
            == tr[j].1 by {
        assert(tr[i] == crate::memory::thunk_row(thunks[i]));
        assert(tr[j] == crate::memory::thunk_row(thunks[j]));
        if i != j {
            assert(thunks[i].2 != thunks[j].2);
        }
    }
    let vr = value_rows(values);
    assert forall|i: int, j: int|
        0 <= i < vr.len() && 0 <= j < vr.len() && (#[trigger] vr[i]).0 == (#[trigger] vr[j]).0 implies vr[i].1
            == vr[j].1 by {
        assert(vr[i] == crate::memory::value_row(values[i]));
        assert(vr[j] == crate::memory::value_row(values[j]));
        if i != j {
            assert(values[i].0 != values[j].0);
        }
    }
    let cr = cons_rows(conses);
    assert forall|i: int, j: int|
        0 <= i < cr.len() && 0 <= j < cr.len() && (#[trigger] cr[i]).0 == (#[trigger] cr[j]).0 implies cr[i].1
            == cr[j].1 by {
        assert(cr[i] == crate::memory::cons_row(conses[i]));
        assert(cr[j] == crate::memory::cons_row(conses[j]));
        if i != j {
            assert(conses[i].2 != conses[j].2);
        }
    }
}

/// Hash-consing: in a well-formed program, two rows of the cons relation (or of the
/// thunk relation) have the same children exactly when they have the same pointer,
/// two rows of the closure relation have the same three children exactly when they
/// have the same pointer, and looking up a row's children finds its pointer.
pub proof fn lemma_hash_consing(p: LoamProgram)
    requires
        p.wf(),
    ensures
        forall|i: int, j: int|
            0 <= i < p.cons_rel_spec().len() && 0 <= j < p.cons_rel_spec().len() ==> ((
            #[trigger] p.cons_rel_spec()[i]).0 == (#[trigger] p.cons_rel_spec()[j]).0
                && p.cons_rel_spec()[i].1 == p.cons_rel_spec()[j].1 <==> p.cons_rel_spec()[i].2
                == p.cons_rel_spec()[j].2),
        forall|i: int, j: int|
            0 <= i < p.thunk_rel_spec().len() && 0 <= j < p.thunk_rel_spec().len() ==> ((
            #[trigger] p.thunk_rel_spec()[i]).0 == (#[trigger] p.thunk_rel_spec()[j]).0
                && p.thunk_rel_spec()[i].1 == p.thunk_rel_spec()[j].1 <==> p.thunk_rel_spec()[i].2
                == p.thunk_rel_spec()[j].2),
        forall|i: int, j: int|
            0 <= i < p.fun_rel_spec().len() && 0 <= j < p.fun_rel_spec().len() ==> ((
            #[trigger] p.fun_rel_spec()[i]).0 == (#[trigger] p.fun_rel_spec()[j]).0
                && p.fun_rel_spec()[i].1 == p.fun_rel_spec()[j].1 && p.fun_rel_spec()[i].2
                == p.fun_rel_spec()[j].2 <==> p.fun_rel_spec()[i].3 == p.fun_rel_spec()[j].3),
        forall|i: int| 0 <= i < p.cons_rel_spec().len() ==> cons_of(p.cons_rel_spec(), (#[trigger] p.cons_rel_spec()[i]).0,
            p.cons_rel_spec()[i].1) == Some(p.cons_rel_spec()[i].2),
        forall|i: int| 0 <= i < p.thunk_rel_spec().len() ==> cons_of(p.thunk_rel_spec(), (#[trigger] p.thunk_rel_spec()[i]).0,
            p.thunk_rel_spec()[i].1) == Some(p.thunk_rel_spec()[i].2),
        forall|i: int| 0 <= i < p.fun_rel_spec().len() ==> fun_of(p.fun_rel_spec(), (#[trigger] p.fun_rel_spec()[i]).0,
            p.fun_rel_spec()[i].1, p.fun_rel_spec()[i].2) == Some(p.fun_rel_spec()[i].3),
{
    let rel = p.cons_rel_spec();
    assert forall|i: int| 0 <= i < rel.len() implies cons_of(rel, (#[trigger] rel[i]).0, rel[i].1) == Some(rel[i].2) by {
        lemma_cons_at(rel, Tag::Cons, i);
    }
    let th = p.thunk_rel_spec();
    assert forall|i: int| 0 <= i < th.len() implies cons_of(th, (#[trigger] th[i]).0, th[i].1) == Some(th[i].2) by {
        lemma_cons_at(th, Tag::Fix, i);
    }
    let fr = p.fun_rel_spec();
    assert forall|i: int| 0 <= i < fr.len() implies fun_of(fr, (#[trigger] fr[i]).0, fr[i].1, fr[i].2) == Some(fr[i].3) by {
        lemma_fun_at(fr, Tag::Fun, i);
    }
}

/// Recording further cells never changes the cell already recorded for a pair of
/// children: once `cons` (or `thunk`) has answered `p` for some children, every later
/// call on the same children answers `p` again.
pub proof fn lemma_cell_stable(rel: Seq<(Ptr, Ptr, Ptr)>, tag: Tag, row: (Ptr, Ptr, Ptr), car: Ptr, cdr: Ptr)
    requires
        pair_rel_wf(rel.push(row), tag),
        cons_of(rel, car, cdr) is Some,
    ensures
        cons_of(rel.push(row), car, cdr) == cons_of(rel, car, cdr),
{
    let n = rel.push(row);
    let i = choose|i: int| 0 <= i < rel.len() && (#[trigger] rel[i]).0 == car && rel[i].1 == cdr;
    assert(n[i] == rel[i]);
    lemma_cons_at(n, tag, i);
    assert forall|a: int, b: int|
        0 <= a < rel.len() && 0 <= b < rel.len() && a != b implies ((#[trigger] rel[a]).0, rel[a].1) != (
        (#[trigger] rel[b]).0, rel[b].1) && rel[a].2 != rel[b].2 by {
        assert(n[a] == rel[a]);
        assert(n[b] == rel[b]);
    }
    assert forall|a: int| 0 <= a < rel.len() implies (#[trigger] rel[a]).2.0 == Elt(tag_index(tag)) by {
        assert(n[a] == rel[a]);
    }
    lemma_cons_at(rel, tag, i);
}

proof fn lemma_cons_at(rel: Seq<(Ptr, Ptr, Ptr)>, tag: Tag, i: int)
    requires
        pair_rel_wf(rel, tag),
        0 <= i < rel.len(),
    ensures
        cons_of(rel, rel[i].0, rel[i].1) == Some(rel[i].2),
{
    let j = choose|j: int| 0 <= j < rel.len() && (#[trigger] rel[j]).0 == rel[i].0 && rel[j].1 == rel[i].1;
    if j != i {
        assert(((rel[i]).0, rel[i].1) != ((rel[j]).0, rel[j].1));
    }
}

} // verus!

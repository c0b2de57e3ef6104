use crate::ptr::Ptr;
use crate::wide::Wide;
use vstd::prelude::*;

verus! {

/// A pointer used as an address key of a memory snapshot.
#[derive(Clone, Copy, Debug, PartialEq, Eq, Structural, PartialOrd, Ord, Hash)]
pub struct VPtr(pub Ptr);

/// Exact equality, for the values a snapshot maps addresses to.
pub trait ExactEq: Sized {
    fn exact_eq(&self, other: &Self) -> (r: bool)
        ensures
            r == (*self == *other),
    ;
}

impl ExactEq for Wide {
    fn exact_eq(&self, other: &Wide) -> (r: bool) {
        *self == *other
    }
}

impl ExactEq for (VPtr, VPtr) {
    fn exact_eq(&self, other: &(VPtr, VPtr)) -> (r: bool) {
        self.0 == other.0 && self.1 == other.1
    }
}

impl ExactEq for (VPtr, VPtr, VPtr) {
    fn exact_eq(&self, other: &(VPtr, VPtr, VPtr)) -> (r: bool) {
        self.0 == other.0 && self.1 == other.1 && self.2 == other.2
    }
}

/// Why a snapshot could not be taken.
#[derive(Clone, Copy, Debug, PartialEq, Eq, Structural)]
pub enum ExportError {
    /// Two rows of a relation give one address two different values.
    Conflict,
}

/// No two rows give one key two different values.
pub open spec fn no_conflict<K, V>(rows: Seq<(K, V)>) -> bool {
    forall|i: int, j: int|
        0 <= i < rows.len() && 0 <= j < rows.len() && (#[trigger] rows[i]).0 == (#[trigger] rows[j]).0
            ==> rows[i].1 == rows[j].1
}

/// No key occurs twice.
pub open spec fn keys_unique<K, V>(rows: Seq<(K, V)>) -> bool {
    forall|i: int, j: int|
        0 <= i < rows.len() && 0 <= j < rows.len() && i != j ==> (#[trigger] rows[i]).0 != (
        #[trigger] rows[j]).0
}

/// Every row of `a` is a row of `b`.
pub open spec fn rows_within<K, V>(a: Seq<(K, V)>, b: Seq<(K, V)>) -> bool {
    forall|i: int| #![trigger a[i]] 0 <= i < a.len() ==> exists|j: int| 0 <= j < b.len() && b[j] == a[i]
}

/// The keys of the rows.
pub open spec fn key_set<K, V>(rows: Seq<(K, V)>) -> Set<K> {
    Set::new(|k: K| exists|i: int| 0 <= i < rows.len() && (#[trigger] rows[i]).0 == k)
}

/// The mapping a conflict-free list of rows describes.
pub open spec fn rows_map<K, V>(rows: Seq<(K, V)>) -> Map<K, V> {
    Map::new(
        |k: K| key_set(rows).contains(k),
        |k: K| rows[choose|i: int| 0 <= i < rows.len() && (#[trigger] rows[i]).0 == k].1,
    )
}

/// The position of the row whose key is `key`, if any.
fn find_key<V>(rows: &Vec<(VPtr, V)>, key: &VPtr) -> (r: Option<usize>)
    ensures
        r matches Some(j) ==> j < rows@.len() && rows@[j as int].0 == *key,
        r is None ==> forall|k: int| 0 <= k < rows@.len() ==> (#[trigger] rows@[k]).0 != *key,
{
    let mut j: usize = 0;
    while j < rows.len()
        invariant
            j <= rows@.len(),
            forall|k: int| 0 <= k < j ==> (#[trigger] rows@[k]).0 != *key,
        decreases rows@.len() - j,
    {
        if rows[j].0 == *key {
            return Some(j);
        }
        j += 1;
    }
    None
}

/// The rows with one row per key, in order of first occurrence; fails if two rows
/// give one key different values.
pub fn collect_unique<V: ExactEq + Copy>(rows: &Vec<(VPtr, V)>) -> (r: Result<Vec<(VPtr, V)>, ExportError>)
    ensures
        r is Ok <==> no_conflict(rows@),
        r matches Ok(out) ==> keys_unique(out@) && rows_within(out@, rows@) && rows_within(rows@, out@),
{
    let mut out: Vec<(VPtr, V)> = Vec::new();
    let mut i: usize = 0;
    while i < rows.len()
        invariant
            i <= rows@.len(),
            keys_unique(out@),
            rows_within(out@, rows@.take(i as int)),
            rows_within(rows@.take(i as int), out@),
            no_conflict(rows@.take(i as int)),
        decreases rows@.len() - i,
    {
        let row = rows[i];
        let ghost prefix = rows@.take(i as int);
        let ghost next = rows@.take(i as int + 1);
        assert(next == prefix.push(row));
        let pos = find_key(&out, &row.0);
        if let Some(j) = pos {
            if !out[j].1.exact_eq(&row.1) {
                proof {
                    let k = choose|k: int| 0 <= k < prefix.len() && prefix[k] == #[trigger] out@[j as int];
                    assert(rows@[k] == prefix[k]);
                }
                return Err(ExportError::Conflict);
            }
        }
        if let Some(j) = pos {
            proof {
                assert(out@[j as int] == row);
                assert forall|a: int| 0 <= a < out@.len() implies exists|b: int|
                    0 <= b < next.len() && next[b] == #[trigger] out@[a] by {
                    let b = choose|b: int| 0 <= b < prefix.len() && prefix[b] == #[trigger] out@[a];
                    assert(next[b] == prefix[b]);
                }
                assert forall|a: int| 0 <= a < next.len() implies exists|b: int|
                    0 <= b < out@.len() && out@[b] == #[trigger] next[a] by {
                    if a < prefix.len() {
                        assert(next[a] == prefix[a]);
                    } else {
                        assert(out@[j as int] == next[a]);
                    }
                }
                assert forall|a: int, b: int|
                    0 <= a < next.len() && 0 <= b < next.len() && (#[trigger] next[a]).0 == (
                    #[trigger] next[b]).0 implies next[a].1 == next[b].1 by {
                    if a < prefix.len() {
                        assert(next[a] == prefix[a]);
                    }
                    if b < prefix.len() {
                        assert(next[b] == prefix[b]);
                    }
                    if a < prefix.len() && b == prefix.len() {
                        let c = choose|c: int| 0 <= c < out@.len() && out@[c] == #[trigger] prefix[a];
                        assert(out@[c].0 == row.0);
                    }
                    if b < prefix.len() && a == prefix.len() {
                        let c = choose|c: int| 0 <= c < out@.len() && out@[c] == #[trigger] prefix[b];
                        assert(out@[c].0 == row.0);
                    }
                }
            }
        } else {
            let ghost before = out@;
            out.push(row);
            proof {
                let now = out@;
                assert(now[before.len() as int] == row);
                assert forall|a: int, b: int|
                    0 <= a < now.len() && 0 <= b < now.len() && a != b implies (#[trigger] now[a]).0
                        != (#[trigger] now[b]).0 by {
                    if a < before.len() {
                        assert(now[a] == before[a]);
                    }
                    if b < before.len() {
                        assert(now[b] == before[b]);
                    }
                }
                assert forall|a: int| 0 <= a < now.len() implies exists|b: int|
                    0 <= b < next.len() && next[b] == #[trigger] now[a] by {
                    if a < before.len() {
                        assert(now[a] == before[a]);
                        let b = choose|b: int| 0 <= b < prefix.len() && prefix[b] == #[trigger] before[a];
                        assert(next[b] == prefix[b]);
                    } else {
                        assert(next[prefix.len() as int] == now[a]);
                    }
                }
                assert forall|a: int| 0 <= a < next.len() implies exists|b: int|
                    0 <= b < now.len() && now[b] == #[trigger] next[a] by {
                    if a < prefix.len() {
                        assert(next[a] == prefix[a]);
                        let b = choose|b: int| 0 <= b < before.len() && before[b] == #[trigger] prefix[a];
                        assert(now[b] == before[b]);
                    } else {
                        assert(now[before.len() as int] == next[a]);
                    }
                }
                assert forall|a: int, b: int|
                    0 <= a < next.len() && 0 <= b < next.len() && (#[trigger] next[a]).0 == (
                    #[trigger] next[b]).0 implies next[a].1 == next[b].1 by {
                    if a < prefix.len() {
                        assert(next[a] == prefix[a]);
                        let c = choose|c: int| 0 <= c < before.len() && before[c] == #[trigger] prefix[a];
                    }
                    if b < prefix.len() {
                        assert(next[b] == prefix[b]);
                        let c = choose|c: int| 0 <= c < before.len() && before[c] == #[trigger] prefix[b];
                    }
                }
            }
        }
        i += 1;
    }
    assert(rows@.take(rows@.len() as int) =~= rows@);
    Ok(out)
}

} // verus!

verus! {

/// A deduplicated list of rows has exactly as many rows as the source has distinct
/// keys.
pub proof fn lemma_unique_rows_size<K, V>(out: Seq<(K, V)>, rows: Seq<(K, V)>)
    requires
        keys_unique(out),
        rows_within(out, rows),
        rows_within(rows, out),
    ensures
        out.len() == key_set(rows).len(),
        key_set(out) == key_set(rows),
        key_set(rows).finite(),
{
    let ks = out.map_values(|r: (K, V)| r.0);
    assert(ks.no_duplicates()) by {
        assert forall|i: int, j: int| 0 <= i < ks.len() && 0 <= j < ks.len() && i != j implies ks[i]
            != ks[j] by {
            assert(ks[i] == out[i].0);
            assert(ks[j] == out[j].0);
        }
    }
    ks.unique_seq_to_set();
    assert(ks.to_set() =~= key_set(rows)) by {
        assert forall|k: K| ks.to_set().contains(k) implies key_set(rows).contains(k) by {
            let i = choose|i: int| 0 <= i < ks.len() && ks[i] == k;
            assert(ks[i] == out[i].0);
            let j = choose|j: int| 0 <= j < rows.len() && rows[j] == #[trigger] out[i];
            assert(rows[j].0 == k);
        }
        assert forall|k: K| key_set(rows).contains(k) implies ks.to_set().contains(k) by {
            let i = choose|i: int| 0 <= i < rows.len() && (#[trigger] rows[i]).0 == k;
            let j = choose|j: int| 0 <= j < out.len() && out[j] == #[trigger] rows[i];
            assert(ks[j] == out[j].0);
        }
    }
    assert(key_set(out) =~= key_set(rows)) by {
        assert forall|k: K| key_set(out).contains(k) implies key_set(rows).contains(k) by {
            let i = choose|i: int| 0 <= i < out.len() && (#[trigger] out[i]).0 == k;
            let j = choose|j: int| 0 <= j < rows.len() && rows[j] == #[trigger] out[i];
            assert(rows[j].0 == k);
        }
        assert forall|k: K| key_set(rows).contains(k) implies key_set(out).contains(k) by {
            let i = choose|i: int| 0 <= i < rows.len() && (#[trigger] rows[i]).0 == k;
            let j = choose|j: int| 0 <= j < out.len() && out[j] == #[trigger] rows[i];
            assert(out[j].0 == k);
        }
    }
}

} // verus!

verus! {

/// An address-indexed snapshot of the program relations: each map is a list of
/// (key, value) rows with distinct keys.
pub struct VirtualMemory {
    pub ptr_value: Vec<(VPtr, Wide)>,
    pub cons_mem: Vec<(VPtr, (VPtr, VPtr))>,
    pub fun_mem: Vec<(VPtr, (VPtr, VPtr, VPtr))>,
    pub thunk_mem: Vec<(VPtr, (VPtr, VPtr))>,
}

/// The structural relations of a program.
pub struct Relations {
    /// (pointer, digest)
    pub ptr_value: Vec<(Ptr, Wide)>,
    /// (car, cdr, cons)
    pub cons_rel: Vec<(Ptr, Ptr, Ptr)>,
    /// (args, body, closed_env, fun)
    pub fun_rel: Vec<(Ptr, Ptr, Ptr, Ptr)>,
    /// (body, closed_env, thunk)
    pub thunk_rel: Vec<(Ptr, Ptr, Ptr)>,
}

pub open spec fn value_row(r: (Ptr, Wide)) -> (VPtr, Wide) {
    (VPtr(r.0), r.1)
}

pub open spec fn cons_row(r: (Ptr, Ptr, Ptr)) -> (VPtr, (VPtr, VPtr)) {
    (VPtr(r.2), (VPtr(r.0), VPtr(r.1)))
}

pub open spec fn fun_row(r: (Ptr, Ptr, Ptr, Ptr)) -> (VPtr, (VPtr, VPtr, VPtr)) {
    (VPtr(r.3), (VPtr(r.0), VPtr(r.1), VPtr(r.2)))
}

pub open spec fn thunk_row(r: (Ptr, Ptr, Ptr)) -> (VPtr, (VPtr, VPtr)) {
    (VPtr(r.2), (VPtr(r.0), VPtr(r.1)))
}

/// The relations keyed by address, one row per source row.
pub open spec fn value_rows(s: Seq<(Ptr, Wide)>) -> Seq<(VPtr, Wide)> {
    s.map_values(|r: (Ptr, Wide)| value_row(r))
}

pub open spec fn cons_rows(s: Seq<(Ptr, Ptr, Ptr)>) -> Seq<(VPtr, (VPtr, VPtr))> {
    s.map_values(|r: (Ptr, Ptr, Ptr)| cons_row(r))
}

pub open spec fn fun_rows(s: Seq<(Ptr, Ptr, Ptr, Ptr)>) -> Seq<(VPtr, (VPtr, VPtr, VPtr))> {
    s.map_values(|r: (Ptr, Ptr, Ptr, Ptr)| fun_row(r))
}

pub open spec fn thunk_rows(s: Seq<(Ptr, Ptr, Ptr)>) -> Seq<(VPtr, (VPtr, VPtr))> {
    s.map_values(|r: (Ptr, Ptr, Ptr)| thunk_row(r))
}

/// `out` holds the rows of `rows`, one per key.
pub open spec fn dedup_of<K, V>(out: Seq<(K, V)>, rows: Seq<(K, V)>) -> bool {
    keys_unique(out) && rows_within(out, rows) && rows_within(rows, out)
}

impl Relations {
    pub fn new() -> (r: Relations)
        ensures
            r.ptr_value@.len() == 0,
            r.cons_rel@.len() == 0,
            r.fun_rel@.len() == 0,
            r.thunk_rel@.len() == 0,
    {
        Relations { ptr_value: Vec::new(), cons_rel: Vec::new(), fun_rel: Vec::new(), thunk_rel: Vec::new() }
    }

    /// No relation gives one address two different values.
    pub open spec fn consistent(&self) -> bool {
        no_conflict(value_rows(self.ptr_value@)) && no_conflict(cons_rows(self.cons_rel@))
            && no_conflict(fun_rows(self.fun_rel@)) && no_conflict(thunk_rows(self.thunk_rel@))
    }

    /// The snapshot of the relations keyed by address. Fails if some relation gives
    /// one address two different values.
    pub fn export_memory(&self) -> (r: Result<VirtualMemory, ExportError>)
        ensures
            r is Ok <==> self.consistent(),
            r matches Ok(vm) ==> dedup_of(vm.ptr_value@, value_rows(self.ptr_value@)) && dedup_of(
                vm.cons_mem@,
                cons_rows(self.cons_rel@),
            ) && dedup_of(vm.fun_mem@, fun_rows(self.fun_rel@)) && dedup_of(
                vm.thunk_mem@,
                thunk_rows(self.thunk_rel@),
            ),
    {
        let mut values: Vec<(VPtr, Wide)> = Vec::new();
        let mut i: usize = 0;
        while i < self.ptr_value.len()
            invariant
                i <= self.ptr_value@.len(),
                values@ == value_rows(self.ptr_value@.take(i as int)),
            decreases self.ptr_value@.len() - i,
        {
            let (p, w) = self.ptr_value[i];
            values.push((VPtr(p), w));
            i += 1;
            assert(value_rows(self.ptr_value@.take(i as int)) =~= value_rows(self.ptr_value@.take(i - 1)).push(
                value_row(self.ptr_value@[i - 1]),
            ));
        }
        assert(self.ptr_value@.take(i as int) =~= self.ptr_value@);
        let mut conses: Vec<(VPtr, (VPtr, VPtr))> = Vec::new();
        let mut i: usize = 0;
        while i < self.cons_rel.len()
            invariant
                i <= self.cons_rel@.len(),
                conses@ == cons_rows(self.cons_rel@.take(i as int)),
            decreases self.cons_rel@.len() - i,
        {
            let (car, cdr, cons) = self.cons_rel[i];
            conses.push((VPtr(cons), (VPtr(car), VPtr(cdr))));
            i += 1;
            assert(cons_rows(self.cons_rel@.take(i as int)) =~= cons_rows(self.cons_rel@.take(i - 1)).push(
                cons_row(self.cons_rel@[i - 1]),
            ));
        }
        assert(self.cons_rel@.take(i as int) =~= self.cons_rel@);
        let mut funs: Vec<(VPtr, (VPtr, VPtr, VPtr))> = Vec::new();
        let mut i: usize = 0;
        while i < self.fun_rel.len()
            invariant
                i <= self.fun_rel@.len(),
                funs@ == fun_rows(self.fun_rel@.take(i as int)),
            decreases self.fun_rel@.len() - i,
        {
            let (args, body, env, fun) = self.fun_rel[i];
            funs.push((VPtr(fun), (VPtr(args), VPtr(body), VPtr(env))));
            i += 1;
            assert(fun_rows(self.fun_rel@.take(i as int)) =~= fun_rows(self.fun_rel@.take(i - 1)).push(
                fun_row(self.fun_rel@[i - 1]),
            ));
        }
        assert(self.fun_rel@.take(i as int) =~= self.fun_rel@);
        let mut thunks: Vec<(VPtr, (VPtr, VPtr))> = Vec::new();
        let mut i: usize = 0;
        while i < self.thunk_rel.len()
            invariant
                i <= self.thunk_rel@.len(),
                thunks@ == thunk_rows(self.thunk_rel@.take(i as int)),
            decreases self.thunk_rel@.len() - i,
        {
            let (body, env, thunk) = self.thunk_rel[i];
            thunks.push((VPtr(thunk), (VPtr(body), VPtr(env))));
            i += 1;
            assert(thunk_rows(self.thunk_rel@.take(i as int)) =~= thunk_rows(self.thunk_rel@.take(i - 1)).push(
                thunk_row(self.thunk_rel@[i - 1]),
            ));
        }
        assert(self.thunk_rel@.take(i as int) =~= self.thunk_rel@);
        let ptr_value = collect_unique(&values)?;
        let cons_mem = collect_unique(&conses)?;
        let fun_mem = collect_unique(&funs)?;
        let thunk_mem = collect_unique(&thunks)?;
        Ok(VirtualMemory { ptr_value, cons_mem, fun_mem, thunk_mem })
    }
}

/// A deduplicated list of rows, read as a mapping, gives every source row's key that
/// row's value, and has exactly as many rows as the source has distinct keys.
pub proof fn lemma_dedup_map<K, V>(out: Seq<(K, V)>, rows: Seq<(K, V)>)
    requires
        dedup_of(out, rows),
    ensures
        out.len() == key_set(rows).len(),
        rows_map(out).dom() == key_set(rows),
        forall|i: int| #![trigger rows[i]] 0 <= i < rows.len() ==> rows_map(out).contains_key(rows[i].0)
            && rows_map(out)[rows[i].0] == rows[i].1,
{
    lemma_unique_rows_size(out, rows);
    assert(rows_map(out).dom() =~= key_set(rows));
    assert forall|i: int| #![trigger rows[i]] 0 <= i < rows.len() implies rows_map(out).contains_key(rows[i].0)
        && rows_map(out)[rows[i].0] == rows[i].1 by {
        let j = choose|j: int| 0 <= j < out.len() && out[j] == rows[i];
        assert(key_set(out).contains(rows[i].0));
        let c = choose|c: int| 0 <= c < out.len() && (#[trigger] out[c]).0 == rows[i].0;
        assert(c == j);
    }
}

/// A snapshot taken from consistent relations, read as mappings, has one entry per
/// distinct address of each relation, and gives every source row's address that
/// row's value.
pub proof fn lemma_export_fidelity(rels: Relations, vm: VirtualMemory)
    requires
        dedup_of(vm.ptr_value@, value_rows(rels.ptr_value@)),
        dedup_of(vm.cons_mem@, cons_rows(rels.cons_rel@)),
        dedup_of(vm.fun_mem@, fun_rows(rels.fun_rel@)),
        dedup_of(vm.thunk_mem@, thunk_rows(rels.thunk_rel@)),
    ensures
        vm.ptr_value@.len() == key_set(value_rows(rels.ptr_value@)).len(),
        vm.cons_mem@.len() == key_set(cons_rows(rels.cons_rel@)).len(),
        vm.fun_mem@.len() == key_set(fun_rows(rels.fun_rel@)).len(),
        vm.thunk_mem@.len() == key_set(thunk_rows(rels.thunk_rel@)).len(),
        forall|i: int| 0 <= i < rels.ptr_value@.len() ==> rows_map(vm.ptr_value@)[VPtr(
            (#[trigger] rels.ptr_value@[i]).0,
        )] == rels.ptr_value@[i].1,
        forall|i: int| 0 <= i < rels.cons_rel@.len() ==> rows_map(vm.cons_mem@)[VPtr(
            (#[trigger] rels.cons_rel@[i]).2,
        )] == (VPtr(rels.cons_rel@[i].0), VPtr(rels.cons_rel@[i].1)),
        forall|i: int| 0 <= i < rels.fun_rel@.len() ==> rows_map(vm.fun_mem@)[VPtr(
            (#[trigger] rels.fun_rel@[i]).3,
        )] == (VPtr(rels.fun_rel@[i].0), VPtr(rels.fun_rel@[i].1), VPtr(rels.fun_rel@[i].2)),
        forall|i: int| 0 <= i < rels.thunk_rel@.len() ==> rows_map(vm.thunk_mem@)[VPtr(
            (#[trigger] rels.thunk_rel@[i]).2,
        )] == (VPtr(rels.thunk_rel@[i].0), VPtr(rels.thunk_rel@[i].1)),
{
    let (a, b, c, d) = (
        value_rows(rels.ptr_value@),
        cons_rows(rels.cons_rel@),
        fun_rows(rels.fun_rel@),
        thunk_rows(rels.thunk_rel@),
    );
    lemma_dedup_map(vm.ptr_value@, a);
    lemma_dedup_map(vm.cons_mem@, b);
    lemma_dedup_map(vm.fun_mem@, c);
    lemma_dedup_map(vm.thunk_mem@, d);
    assert forall|i: int| 0 <= i < rels.ptr_value@.len() implies rows_map(vm.ptr_value@)[VPtr(
        (#[trigger] rels.ptr_value@[i]).0,
    )] == rels.ptr_value@[i].1 by {
        assert(a[i] == value_row(rels.ptr_value@[i]));
    }
    assert forall|i: int| 0 <= i < rels.cons_rel@.len() implies rows_map(vm.cons_mem@)[VPtr(
        (#[trigger] rels.cons_rel@[i]).2,
    )] == (VPtr(rels.cons_rel@[i].0), VPtr(rels.cons_rel@[i].1)) by {
        assert(b[i] == cons_row(rels.cons_rel@[i]));
    }
    assert forall|i: int| 0 <= i < rels.fun_rel@.len() implies rows_map(vm.fun_mem@)[VPtr(
        (#[trigger] rels.fun_rel@[i]).3,
    )] == (VPtr(rels.fun_rel@[i].0), VPtr(rels.fun_rel@[i].1), VPtr(rels.fun_rel@[i].2)) by {
        assert(c[i] == fun_row(rels.fun_rel@[i]));
    }
    assert forall|i: int| 0 <= i < rels.thunk_rel@.len() implies rows_map(vm.thunk_mem@)[VPtr(
        (#[trigger] rels.thunk_rel@[i]).2,
    )] == (VPtr(rels.thunk_rel@[i].0), VPtr(rels.thunk_rel@[i].1)) by {
        assert(d[i] == thunk_row(rels.thunk_rel@[i]));
    }
}

} // verus!

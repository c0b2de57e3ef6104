use crate::field::{Elt, PRIME};
use crate::wide::Wide;
use vstd::prelude::*;

verus! {

/// Why an allocator operation could not be carried out.
#[derive(Clone, Copy, Debug, PartialEq, Eq, Structural)]
pub enum AllocError {
    /// The digest was never produced by hashing nor imported.
    UnknownDigest,
    /// An imported entry disagrees with one already memoized.
    InconsistentImport,
    /// The hash primitive gave a digest already memoized for another preimage.
    DigestCollision,
    /// A freshly allocated address already denotes another value of its tag.
    AddressInUse,
    /// A pointer already has another digest.
    ValueConflict,
}

/// The digest memoized for `pre`, if any.
pub open spec fn memo_lookup<P>(entries: Seq<(P, Wide)>, pre: P) -> Option<Wide> {
    if exists|i: int| 0 <= i < entries.len() && (#[trigger] entries[i]).0 == pre {
        Some(entries[choose|i: int| 0 <= i < entries.len() && (#[trigger] entries[i]).0 == pre].1)
    } else {
        None
    }
}

/// The preimage memoized for digest `d`, if any.
pub open spec fn memo_unlookup<P>(entries: Seq<(P, Wide)>, d: Wide) -> Option<P> {
    if exists|i: int| 0 <= i < entries.len() && (#[trigger] entries[i]).1 == d {
        Some(entries[choose|i: int| 0 <= i < entries.len() && (#[trigger] entries[i]).1 == d].0)
    } else {
        None
    }
}

/// No preimage and no digest occurs twice: the memo is a bijection.
pub open spec fn memo_wf<P>(entries: Seq<(P, Wide)>) -> bool {
    forall|i: int, j: int|
        0 <= i < entries.len() && 0 <= j < entries.len() && i != j ==> (#[trigger] entries[i]).0
            != (#[trigger] entries[j]).0 && entries[i].1 != entries[j].1
}

/// The last address handed out for `tag`, if any.
pub open spec fn addr_lookup(entries: Seq<(Elt, Elt)>, tag: Elt) -> Option<Elt> {
    if exists|i: int| 0 <= i < entries.len() && (#[trigger] entries[i]).0 == tag {
        Some(entries[choose|i: int| 0 <= i < entries.len() && (#[trigger] entries[i]).0 == tag].1)
    } else {
        None
    }
}

pub open spec fn addr_wf(entries: Seq<(Elt, Elt)>) -> bool {
    forall|i: int, j: int|
        0 <= i < entries.len() && 0 <= j < entries.len() && i != j ==> (#[trigger] entries[i]).0
            != (#[trigger] entries[j]).0
}

/// Hashing then unhashing through a well-formed memo gives back the preimage, and
/// unhashing then hashing gives back the digest.
pub proof fn lemma_memo_round_trip<P>(entries: Seq<(P, Wide)>, pre: P, d: Wide)
    requires
        memo_wf(entries),
    ensures
        memo_lookup(entries, pre) == Some(d) ==> memo_unlookup(entries, d) == Some(pre),
        memo_unlookup(entries, d) == Some(pre) ==> memo_lookup(entries, pre) == Some(d),
{
    if memo_lookup(entries, pre) == Some(d) {
        let i = choose|i: int| 0 <= i < entries.len() && (#[trigger] entries[i]).0 == pre;
        assert(entries[i].1 == d);
    }
    if memo_unlookup(entries, d) == Some(pre) {
        let i = choose|i: int| 0 <= i < entries.len() && (#[trigger] entries[i]).1 == d;
        assert(entries[i].0 == pre);
    }
}

proof fn lemma_memo_at<P>(entries: Seq<(P, Wide)>, i: int)
    requires
        memo_wf(entries),
        0 <= i < entries.len(),
    ensures
        memo_lookup(entries, entries[i].0) == Some(entries[i].1),
        memo_unlookup(entries, entries[i].1) == Some(entries[i].0),
{
}

proof fn lemma_memo_push<P>(entries: Seq<(P, Wide)>, pre: P, d: Wide)
    requires
        memo_wf(entries),
        memo_lookup(entries, pre) is None,
        memo_unlookup(entries, d) is None,
    ensures
        memo_wf(entries.push((pre, d))),
        memo_lookup(entries.push((pre, d)), pre) == Some(d),
        memo_unlookup(entries.push((pre, d)), d) == Some(pre),
        forall|q: P| q != pre ==> memo_lookup(entries.push((pre, d)), q) == memo_lookup(entries, q),
        forall|e: Wide| e != d ==> memo_unlookup(entries.push((pre, d)), e) == memo_unlookup(entries, e),
{
    let n = entries.push((pre, d));
    assert(n[entries.len() as int] == (pre, d));
    lemma_memo_at(n, entries.len() as int);
    assert forall|q: P| q != pre implies memo_lookup(n, q) == memo_lookup(entries, q) by {
        if exists|i: int| 0 <= i < entries.len() && (#[trigger] entries[i]).0 == q {
            let i = choose|i: int| 0 <= i < entries.len() && (#[trigger] entries[i]).0 == q;
            assert(n[i] == entries[i]);
            lemma_memo_at(entries, i);
            lemma_memo_at(n, i);
        } else {
            assert forall|i: int| 0 <= i < n.len() implies (#[trigger] n[i]).0 != q by {
                if i < entries.len() {
                    assert(n[i] == entries[i]);
                }
            }
        }
    }
    assert forall|e: Wide| e != d implies memo_unlookup(n, e) == memo_unlookup(entries, e) by {
        if exists|i: int| 0 <= i < entries.len() && (#[trigger] entries[i]).1 == e {
            let i = choose|i: int| 0 <= i < entries.len() && (#[trigger] entries[i]).1 == e;
            assert(n[i] == entries[i]);
            lemma_memo_at(entries, i);
            lemma_memo_at(n, i);
        } else {
            assert forall|i: int| 0 <= i < n.len() implies (#[trigger] n[i]).1 != e by {
                if i < entries.len() {
                    assert(n[i] == entries[i]);
                }
            }
        }
    }
}

/// Whether two arrays of digests are equal.
fn wides_eq<const N: usize>(a: &[Wide; N], b: &[Wide; N]) -> (r: bool)
    ensures
        r == (*a == *b),
{
    let mut i: usize = 0;
    while i < N
        invariant
            i <= N,
            forall|j: int| 0 <= j < i ==> a[j] == b[j],
        decreases N - i,
    {
        if a[i] != b[i] {
            return false;
        }
        i += 1;
    }
    assert(*a =~= *b);
    true
}

/// Finds the entry whose preimage is `pre`.
fn find_pre<const N: usize>(entries: &Vec<([Wide; N], Wide)>, pre: &[Wide; N]) -> (r: Option<
    Wide,
>)
    requires
        memo_wf(entries@),
    ensures
        r == memo_lookup(entries@, *pre),
{
    let mut i: usize = 0;
    while i < entries.len()
        invariant
            memo_wf(entries@),
            i <= entries@.len(),
            forall|j: int| 0 <= j < i ==> (#[trigger] entries@[j]).0 != *pre,
        decreases entries@.len() - i,
    {
        if wides_eq(&entries[i].0, pre) {
            proof {
                lemma_memo_at(entries@, i as int);
            }
            return Some(entries[i].1);
        }
        i += 1;
    }
    None
}

/// Finds the entry whose digest is `d`.
fn find_digest<const N: usize>(entries: &Vec<([Wide; N], Wide)>, d: &Wide) -> (r: Option<
    [Wide; N],
>)
    requires
        memo_wf(entries@),
    ensures
        r == memo_unlookup(entries@, *d),
{
    let mut i: usize = 0;
    while i < entries.len()
        invariant
            memo_wf(entries@),
            i <= entries@.len(),
            forall|j: int| 0 <= j < i ==> (#[trigger] entries@[j]).1 != *d,
        decreases entries@.len() - i,
    {
        if entries[i].1 == *d {
            proof {
                lemma_memo_at(entries@, i as int);
            }
            return Some(entries[i].0);
        }
        i += 1;
    }
    None
}

/// Records `pre ↦ d`. Succeeds, changing nothing, if the pair is already there; fails
/// if either side is memoized with another partner.
fn record<const N: usize>(entries: &mut Vec<([Wide; N], Wide)>, pre: [Wide; N], d: Wide) -> (r:
    Result<(), AllocError>)
    requires
        memo_wf(old(entries)@),
    ensures
        memo_wf(final(entries)@),
        r is Ok <==> (memo_lookup(old(entries)@, pre) is None && memo_unlookup(old(entries)@, d) is None)
            || memo_lookup(old(entries)@, pre) == Some(d),
        r is Ok && memo_lookup(old(entries)@, pre) is None ==> final(entries)@ == old(entries)@.push((pre, d)),
        r is Ok ==> memo_lookup(final(entries)@, pre) == Some(d),
        r is Ok ==> memo_unlookup(final(entries)@, d) == Some(pre),
        r matches Err(e) ==> e == AllocError::InconsistentImport && final(entries)@ == old(entries)@,
        memo_lookup(old(entries)@, pre) is Some ==> final(entries)@ == old(entries)@,
        forall|q: [Wide; N]| #[trigger] memo_lookup(old(entries)@, q) is Some ==> memo_lookup(final(entries)@, q)
            == memo_lookup(old(entries)@, q),
        forall|e: Wide| #[trigger] memo_unlookup(old(entries)@, e) is Some ==> memo_unlookup(final(entries)@, e)
            == memo_unlookup(old(entries)@, e),
{
    match find_pre(entries, &pre) {
        Some(found) => {
            if found == d {
                proof {
                    lemma_memo_round_trip(entries@, pre, d);
                }
                Ok(())
            } else {
                Err(AllocError::InconsistentImport)
            }
        },
        None => {
            match find_digest(entries, &d) {
                Some(_) => Err(AllocError::InconsistentImport),
                None => {
                    proof {
                        lemma_memo_push(entries@, pre, d);
                    }
                    entries.push((pre, d));
                    Ok(())
                },
            }
        },
    }
}

/// Records each entry in turn, stopping at the first that conflicts.
fn import_into<const N: usize>(entries: &mut Vec<([Wide; N], Wide)>, import: &Vec<([Wide; N], Wide)>) -> (r:
    Result<(), AllocError>)
    requires
        memo_wf(old(entries)@),
    ensures
        memo_wf(final(entries)@),
        forall|q: [Wide; N]| #[trigger] memo_lookup(old(entries)@, q) is Some ==> memo_lookup(final(entries)@, q)
            == memo_lookup(old(entries)@, q),
        r is Ok ==> forall|k: int| 0 <= k < import@.len() ==> memo_lookup(final(entries)@, (#[trigger] import@[k]).0)
            == Some(import@[k].1),
        r matches Err(e) ==> e == AllocError::InconsistentImport && exists|k: int| 0 <= k < import@.len()
            && memo_conflicts(final(entries)@, #[trigger] import@[k]),
{
    let mut i: usize = 0;
    while i < import.len()
        invariant
            i <= import@.len(),
            memo_wf(entries@),
            forall|q: [Wide; N]| #[trigger] memo_lookup(old(entries)@, q) is Some ==> memo_lookup(entries@, q)
                == memo_lookup(old(entries)@, q),
            forall|k: int| 0 <= k < i ==> memo_lookup(entries@, (#[trigger] import@[k]).0) == Some(import@[k].1),
        decreases import@.len() - i,
    {
        let (pre, d) = import[i];
        let ghost before = entries@;
        match record(entries, pre, d) {
            Ok(()) => {},
            Err(e) => {
                assert(memo_conflicts(entries@, import@[i as int]));
                return Err(e);
            },
        }
        assert forall|k: int| 0 <= k < i + 1 implies memo_lookup(entries@, (#[trigger] import@[k]).0) == Some(import@[k].1) by {
            if k < i {
                assert(memo_lookup(before, import@[k].0) is Some);
            }
        }
        i += 1;
    }
    Ok(())
}

/// An entry that disagrees with a memo: its preimage or its digest is memoized with
/// another partner.
pub open spec fn memo_conflicts<P>(entries: Seq<(P, Wide)>, entry: (P, Wide)) -> bool {
    (memo_lookup(entries, entry.0) is Some && memo_lookup(entries, entry.0) != Some(entry.1)) || (
    memo_lookup(entries, entry.0) is None && memo_unlookup(entries, entry.1) is Some)
}

proof fn lemma_addr_at(entries: Seq<(Elt, Elt)>, i: int)
    requires
        addr_wf(entries),
        0 <= i < entries.len(),
    ensures
        addr_lookup(entries, entries[i].0) == Some(entries[i].1),
{
}

/// The address that `alloc_addr` hands out for `tag` when the last one was `last`.
pub open spec fn next_addr(last: Option<Elt>, initial_addr: Elt) -> Elt {
    match last {
        Some(a) => Elt(((a.0 + 1) % (PRIME as int)) as u32),
        None => initial_addr,
    }
}

/// The memoized digest of `pre`, or else a fresh one from `hasher`, recorded.
fn hash_memo<const N: usize, F: Fn(&[Wide; N]) -> Wide>(
    entries: &mut Vec<([Wide; N], Wide)>,
    pre: [Wide; N],
    hasher: &F,
) -> (r: Result<Wide, AllocError>)
    requires
        memo_wf(old(entries)@),
        forall|p: &[Wide; N]| #[trigger] hasher.requires((p,)),
    ensures
        memo_wf(final(entries)@),
        memo_lookup(old(entries)@, pre) matches Some(d) ==> r == Ok::<Wide, AllocError>(d)
            && final(entries)@ == old(entries)@,
        memo_lookup(old(entries)@, pre) is None ==> match r {
            Ok(d) => hasher.ensures((&pre,), d) && memo_unlookup(old(entries)@, d) is None
                && final(entries)@ == old(entries)@.push((pre, d)),
            Err(e) => e == AllocError::DigestCollision && final(entries)@ == old(entries)@
                && exists|d: Wide| hasher.ensures((&pre,), d) && memo_unlookup(old(entries)@, d) is Some,
        },
        r matches Ok(d) ==> memo_lookup(final(entries)@, pre) == Some(d) && memo_unlookup(
            final(entries)@,
            d,
        ) == Some(pre),
        forall|q: [Wide; N]| #[trigger] memo_lookup(old(entries)@, q) is Some ==> memo_lookup(final(entries)@, q)
            == memo_lookup(old(entries)@, q),
{
    match find_pre(entries, &pre) {
        Some(d) => {
            proof {
                lemma_memo_round_trip(entries@, pre, d);
            }
            Ok(d)
        },
        None => {
            let d = hasher(&pre);
            match find_digest(entries, &d) {
                Some(_) => Err(AllocError::DigestCollision),
                None => {
                    proof {
                        lemma_memo_push(entries@, pre, d);
                    }
                    entries.push((pre, d));
                    Ok(d)
                },
            }
        },
    }
}

/// Assigns addresses per tag and memoizes structural hashing in both directions.
pub struct Allocator {
    addrs: Vec<(Elt, Elt)>,
    memo4: Vec<([Wide; 4], Wide)>,
    memo5: Vec<([Wide; 5], Wide)>,
}

impl Allocator {
    /// For each tag, the last address handed out.
    pub closed spec fn addr_entries(&self) -> Seq<(Elt, Elt)> {
        self.addrs@
    }

    /// The memoized four-slot hashes, as (preimage, digest) pairs.
    pub closed spec fn memo4_entries(&self) -> Seq<([Wide; 4], Wide)> {
        self.memo4@
    }

    /// The memoized five-slot hashes, as (preimage, digest) pairs.
    pub closed spec fn memo5_entries(&self) -> Seq<([Wide; 5], Wide)> {
        self.memo5@
    }

    pub open spec fn wf(&self) -> bool {
        addr_wf(self.addr_entries()) && memo_wf(self.memo4_entries()) && memo_wf(self.memo5_entries())
    }

    pub fn new() -> (r: Allocator)
        ensures
            r.wf(),
            r.addr_entries().len() == 0,
            r.memo4_entries().len() == 0,
            r.memo5_entries().len() == 0,
    {
        Allocator { addrs: Vec::new(), memo4: Vec::new(), memo5: Vec::new() }
    }

    /// Hands out an address for `tag`: `initial_addr` the first time, then each time
    /// the successor of the last address handed out for that tag.
    pub fn alloc_addr(&mut self, tag: Elt, initial_addr: Elt) -> (r: Elt)
        requires
            old(self).wf(),
        ensures
            final(self).wf(),
            r == next_addr(addr_lookup(old(self).addr_entries(), tag), initial_addr),
            addr_lookup(final(self).addr_entries(), tag) == Some(r),
            forall|t: Elt| t != tag ==> #[trigger] addr_lookup(final(self).addr_entries(), t)
                == addr_lookup(old(self).addr_entries(), t),
            final(self).memo4_entries() == old(self).memo4_entries(),
            final(self).memo5_entries() == old(self).memo5_entries(),
    {
        let ghost old_entries = self.addrs@;
        let mut i: usize = 0;
        while i < self.addrs.len()
            invariant
                self.addrs@ == old_entries,
                self.memo4 == old(self).memo4,
                self.memo5 == old(self).memo5,
                old(self).wf(),
                old_entries == old(self).addrs@,
                i <= old_entries.len(),
                forall|j: int| 0 <= j < i ==> (#[trigger] old_entries[j]).0 != tag,
            decreases old_entries.len() - i,
        {
            if self.addrs[i].0 == tag {
                proof {
                    lemma_addr_at(old_entries, i as int);
                }
                let last = self.addrs[i].1;
                let next = last.add(Elt::one());
                assert(next == next_addr(Some(last), initial_addr));
                self.addrs.set(i, (tag, next));
                proof {
                    let n = self.addrs@;
                    assert forall|a: int, b: int|
                        0 <= a < n.len() && 0 <= b < n.len() && a != b implies (#[trigger] n[a]).0
                            != (#[trigger] n[b]).0 by {
                        if a != i {
                            assert(n[a] == old_entries[a]);
                        }
                        if b != i {
                            assert(n[b] == old_entries[b]);
                        }
                    }
                    lemma_addr_at(n, i as int);
                    assert forall|t: Elt| t != tag implies #[trigger] addr_lookup(n, t)
                        == addr_lookup(old_entries, t) by {
                        if exists|j: int| 0 <= j < old_entries.len() && (#[trigger] old_entries[j]).0 == t {
                            let j = choose|j: int| 0 <= j < old_entries.len() && (#[trigger] old_entries[j]).0 == t;
                            lemma_addr_at(old_entries, j);
                            lemma_addr_at(n, j);
                        } else {
                            assert forall|j: int| 0 <= j < n.len() implies (#[trigger] n[j]).0 != t by {
                                if j != i {
                                    assert(n[j] == old_entries[j]);
                                }
                            }
                        }
                    }
                }
                return next;
            }
            i += 1;
        }
        self.addrs.push((tag, initial_addr));
        proof {
            let n = self.addrs@;
            assert(n[old_entries.len() as int] == (tag, initial_addr));
            assert forall|a: int, b: int|
                0 <= a < n.len() && 0 <= b < n.len() && a != b implies (#[trigger] n[a]).0
                    != (#[trigger] n[b]).0 by {
                if a < old_entries.len() {
                    assert(n[a] == old_entries[a]);
                }
                if b < old_entries.len() {
                    assert(n[b] == old_entries[b]);
                }
            }
            lemma_addr_at(n, old_entries.len() as int);
            assert forall|t: Elt| t != tag implies #[trigger] addr_lookup(n, t)
                == addr_lookup(old_entries, t) by {
                if exists|j: int| 0 <= j < old_entries.len() && (#[trigger] old_entries[j]).0 == t {
                    let j = choose|j: int| 0 <= j < old_entries.len() && (#[trigger] old_entries[j]).0 == t;
                    lemma_addr_at(old_entries, j);
                    lemma_addr_at(n, j);
                } else {
                    assert forall|j: int| 0 <= j < n.len() implies (#[trigger] n[j]).0 != t by {
                        if j < old_entries.len() {
                            assert(n[j] == old_entries[j]);
                        }
                    }
                }
            }
        }
        initial_addr
    }

    /// The digest of four child digests: the memoized one if these children were
    /// hashed or imported before, else the one `hasher` computes, which is then
    /// memoized. Fails, changing nothing, if that digest is already memoized for other
    /// children.
    pub fn hash4<F: Fn(&[Wide; 4]) -> Wide>(&mut self, a: Wide, b: Wide, c: Wide, d: Wide, hasher: &F) -> (r:
        Result<Wide, AllocError>)
        requires
            old(self).wf(),
            forall|p: &[Wide; 4]| #[trigger] hasher.requires((p,)),
        ensures
            final(self).wf(),
            final(self).addr_entries() == old(self).addr_entries(),
            final(self).memo5_entries() == old(self).memo5_entries(),
            memo_lookup(old(self).memo4_entries(), [a, b, c, d]) matches Some(x) ==> r == Ok::<Wide, AllocError>(x)
                && final(self).memo4_entries() == old(self).memo4_entries(),
            memo_lookup(old(self).memo4_entries(), [a, b, c, d]) is None ==> match r {
                Ok(x) => hasher.ensures((&[a, b, c, d],), x) && memo_unlookup(old(self).memo4_entries(), x) is None
                    && final(self).memo4_entries() == old(self).memo4_entries().push(([a, b, c, d], x)),
                Err(e) => e == AllocError::DigestCollision && final(self).memo4_entries() == old(self).memo4_entries()
                    && exists|x: Wide| hasher.ensures((&[a, b, c, d],), x) && memo_unlookup(old(self).memo4_entries(), x) is Some,
            },
            r matches Ok(x) ==> memo_lookup(final(self).memo4_entries(), [a, b, c, d]) == Some(x)
                && memo_unlookup(final(self).memo4_entries(), x) == Some([a, b, c, d]),
    {
        hash_memo(&mut self.memo4, [a, b, c, d], hasher)
    }

    /// The digest of five child digests, memoized in the same way as `hash4`.
    pub fn hash5<F: Fn(&[Wide; 5]) -> Wide>(&mut self, a: Wide, b: Wide, c: Wide, d: Wide, e: Wide, hasher: &F) -> (r:
        Result<Wide, AllocError>)
        requires
            old(self).wf(),
            forall|p: &[Wide; 5]| #[trigger] hasher.requires((p,)),
        ensures
            final(self).wf(),
            final(self).addr_entries() == old(self).addr_entries(),
            final(self).memo4_entries() == old(self).memo4_entries(),
            memo_lookup(old(self).memo5_entries(), [a, b, c, d, e]) matches Some(x) ==> r == Ok::<Wide, AllocError>(x)
                && final(self).memo5_entries() == old(self).memo5_entries(),
            memo_lookup(old(self).memo5_entries(), [a, b, c, d, e]) is None ==> match r {
                Ok(x) => hasher.ensures((&[a, b, c, d, e],), x) && memo_unlookup(old(self).memo5_entries(), x) is None
                    && final(self).memo5_entries() == old(self).memo5_entries().push(([a, b, c, d, e], x)),
                Err(err) => err == AllocError::DigestCollision && final(self).memo5_entries() == old(self).memo5_entries()
                    && exists|x: Wide| hasher.ensures((&[a, b, c, d, e],), x) && memo_unlookup(old(self).memo5_entries(), x) is Some,
            },
            r matches Ok(x) ==> memo_lookup(final(self).memo5_entries(), [a, b, c, d, e]) == Some(x)
                && memo_unlookup(final(self).memo5_entries(), x) == Some([a, b, c, d, e]),
    {
        hash_memo(&mut self.memo5, [a, b, c, d, e], hasher)
    }

    /// The four children that were hashed, or imported, to `digest`.
    pub fn unhash4(&self, digest: &Wide) -> (r: Result<[Wide; 4], AllocError>)
        requires
            self.wf(),
        ensures
            match memo_unlookup(self.memo4_entries(), *digest) {
                Some(p) => r == Ok::<[Wide; 4], AllocError>(p),
                None => r == Err::<[Wide; 4], AllocError>(AllocError::UnknownDigest),
            },
    {
        match find_digest(&self.memo4, digest) {
            Some(p) => Ok(p),
            None => Err(AllocError::UnknownDigest),
        }
    }

    /// The five children that were hashed, or imported, to `digest`.
    pub fn unhash5(&self, digest: &Wide) -> (r: Result<[Wide; 5], AllocError>)
        requires
            self.wf(),
        ensures
            match memo_unlookup(self.memo5_entries(), *digest) {
                Some(p) => r == Ok::<[Wide; 5], AllocError>(p),
                None => r == Err::<[Wide; 5], AllocError>(AllocError::UnknownDigest),
            },
    {
        match find_digest(&self.memo5, digest) {
            Some(p) => Ok(p),
            None => Err(AllocError::UnknownDigest),
        }
    }

    /// Seeds the memos with the hashes of a content store. Entries already memoized
    /// are kept; fails at the first imported entry that disagrees with the memo.
    pub fn import_zstore(&mut self, store: &ZStoreHashes) -> (r: Result<(), AllocError>)
        requires
            old(self).wf(),
        ensures
            final(self).wf(),
            final(self).addr_entries() == old(self).addr_entries(),
            forall|q: [Wide; 4]| #[trigger] memo_lookup(old(self).memo4_entries(), q) is Some
                ==> memo_lookup(final(self).memo4_entries(), q) == memo_lookup(old(self).memo4_entries(), q),
            forall|q: [Wide; 5]| #[trigger] memo_lookup(old(self).memo5_entries(), q) is Some
                ==> memo_lookup(final(self).memo5_entries(), q) == memo_lookup(old(self).memo5_entries(), q),
            r is Ok ==> forall|k: int| 0 <= k < store.hashes4@.len() ==> memo_lookup(
                final(self).memo4_entries(),
                (#[trigger] store.hashes4@[k]).0,
            ) == Some(store.hashes4@[k].1),
            r is Ok ==> forall|k: int| 0 <= k < store.hashes5@.len() ==> memo_lookup(
                final(self).memo5_entries(),
                (#[trigger] store.hashes5@[k]).0,
            ) == Some(store.hashes5@[k].1),
            r matches Err(e) ==> e == AllocError::InconsistentImport && ((exists|k: int|
                0 <= k < store.hashes4@.len() && memo_conflicts(
                    final(self).memo4_entries(),
                    #[trigger] store.hashes4@[k],
                )) || (exists|k: int|
                0 <= k < store.hashes5@.len() && memo_conflicts(
                    final(self).memo5_entries(),
                    #[trigger] store.hashes5@[k],
                ))),
    {
        import_into(&mut self.memo4, &store.hashes4)?;
        import_into(&mut self.memo5, &store.hashes5)
    }
}

/// The structural hashes held by a content store, as (preimage, digest) pairs.
pub struct ZStoreHashes {
    pub hashes4: Vec<([Wide; 4], Wide)>,
    pub hashes5: Vec<([Wide; 5], Wide)>,
}

} // verus!

//! String and identifier interning.
//!
//! The interner owns a deduplicating, insertion-ordered set of byte strings;
//! the index handed out for a string is stable for the interner's lifetime and
//! is never reused while it lives. The set itself is `indexmap`'s `IndexSet`,
//! trusted through the small wrappers below; everything layered on top of the
//! wrappers is verified.

use indexmap::IndexSet;
use std::collections::hash_map::RandomState;
use vstd::prelude::*;

verus! {

#[verifier::external_type_specification]
#[verifier::external_body]
#[verifier::reject_recursive_types(T)]
#[verifier::reject_recursive_types(S)]
pub struct ExIndexSet<T, S>(IndexSet<T, S>);

/// The byte strings an `IndexSet` holds, in insertion order.
pub uninterp spec fn iset_contents(s: IndexSet<Vec<u8>, RandomState>) -> Seq<Seq<u8>>;

/// Relies on `indexmap::IndexSet::new`: a newly created set is empty.
#[verifier::external_body]
fn iset_new() -> (s: IndexSet<Vec<u8>, RandomState>)
    ensures
        iset_contents(s) == Seq::<Seq<u8>>::empty(),
{
    IndexSet::new()
}

/// Relies on `indexmap::IndexSet::insert_full`: an item equal to one already
/// present leaves the set unchanged and yields the present item's index; any
/// other item is appended at the end and its new index is yielded.
#[verifier::external_body]
fn iset_insert_full(s: &mut IndexSet<Vec<u8>, RandomState>, item: &[u8]) -> (i: usize)
    ensures
        ({
            let c = iset_contents(*old(s));
            let d = iset_contents(*final(s));
            if exists|j: int| 0 <= j < c.len() && c[j] == item@ {
                d == c && i < c.len() && c[i as int] == item@
            } else {
                d == c.push(item@) && i == c.len()
            }
        }),
{
    s.insert_full(item.to_vec()).0
}

/// Relies on `indexmap::IndexSet::get_index_of`: yields the index of the item
/// equal to the one sought, and nothing when no such item is in the set.
#[verifier::external_body]
fn iset_get_index_of(s: &IndexSet<Vec<u8>, RandomState>, item: &[u8]) -> (r: Option<usize>)
    ensures
        ({
            let c = iset_contents(*s);
            match r {
                Some(i) => i < c.len() && c[i as int] == item@,
                None => forall|j: int| 0 <= j < c.len() ==> c[j] != item@,
            }
        }),
{
    s.get_index_of(item)
}

/// Relies on `indexmap::IndexSet::get_index`: yields the item stored at an
/// in-range index.
#[verifier::external_body]
fn iset_get_index<'a>(s: &'a IndexSet<Vec<u8>, RandomState>, i: usize) -> (r: &'a Vec<u8>)
    requires
        i < iset_contents(*s).len(),
    ensures
        r@ == iset_contents(*s)[i as int],
{
    s.get_index(i).unwrap()
}

/// Relies on `indexmap::IndexSet::clear`: removes every item.
#[verifier::external_body]
fn iset_clear(s: &mut IndexSet<Vec<u8>, RandomState>)
    ensures
        iset_contents(*final(s)) == Seq::<Seq<u8>>::empty(),
{
    s.clear()
}

/// Index of the first entry of `tbl` equal to `s`, or -1 when there is none.
pub open spec fn tbl_find(tbl: Seq<Seq<u8>>, s: Seq<u8>) -> int
    decreases tbl.len(),
{
    if tbl.len() == 0 {
        -1
    } else if tbl[0] == s {
        0
    } else {
        let r = tbl_find(tbl.drop_first(), s);
        if r < 0 {
            -1
        } else {
            r + 1
        }
    }
}

/// The index interning `s` into a table with contents `tbl` yields.
pub open spec fn intern_index(tbl: Seq<Seq<u8>>, s: Seq<u8>) -> int {
    if tbl_find(tbl, s) >= 0 {
        tbl_find(tbl, s)
    } else {
        tbl.len() as int
    }
}

/// The table contents after interning `s` into a table with contents `tbl`.
pub open spec fn intern_table(tbl: Seq<Seq<u8>>, s: Seq<u8>) -> Seq<Seq<u8>> {
    if tbl_find(tbl, s) >= 0 {
        tbl
    } else {
        tbl.push(s)
    }
}

pub proof fn lemma_tbl_find(tbl: Seq<Seq<u8>>, s: Seq<u8>)
    ensures
        tbl_find(tbl, s) == -1 || 0 <= tbl_find(tbl, s) < tbl.len(),
        (tbl_find(tbl, s) >= 0) <==> (exists|j: int| 0 <= j < tbl.len() && tbl[j] == s),
        tbl_find(tbl, s) >= 0 ==> tbl[tbl_find(tbl, s)] == s,
        forall|j: int| 0 <= j < tbl.len() && tbl[j] == s ==> tbl_find(tbl, s) <= j,
    decreases tbl.len(),
{
    if tbl.len() > 0 && tbl[0] != s {
        lemma_tbl_find(tbl.drop_first(), s);
        let sub = tbl.drop_first();
        if tbl_find(sub, s) >= 0 {
            assert(tbl[tbl_find(sub, s) + 1] == sub[tbl_find(sub, s)]);
        }
        assert forall|j: int| 0 <= j < tbl.len() && tbl[j] == s implies tbl_find(tbl, s) <= j by {
            assert(j > 0);
            assert(sub[j - 1] == tbl[j]);
        }
        if exists|j: int| 0 <= j < tbl.len() && tbl[j] == s {
            let j = choose|j: int| 0 <= j < tbl.len() && tbl[j] == s;
            assert(sub[j - 1] == s);
        }
    }
}

pub proof fn lemma_tbl_find_push(tbl: Seq<Seq<u8>>, s: Seq<u8>)
    requires
        tbl_find(tbl, s) < 0,
    ensures
        tbl_find(tbl.push(s), s) == tbl.len(),
    decreases tbl.len(),
{
    if tbl.len() == 0 {
        assert(tbl.push(s)[0] == s);
    } else {
        assert(tbl.push(s)[0] == tbl[0]);
        assert(tbl.push(s).drop_first() =~= tbl.drop_first().push(s));
        lemma_tbl_find_push(tbl.drop_first(), s);
    }
}

/// Interning is idempotent: interning a text and then interning it again
/// yields the same index both times, the second interning leaves the table
/// unchanged, and the index resolves to exactly the interned text.
pub proof fn lemma_intern_idempotent(tbl: Seq<Seq<u8>>, s: Seq<u8>)
    ensures
        ({
            let i1 = intern_index(tbl, s);
            let t1 = intern_table(tbl, s);
            intern_index(t1, s) == i1 && intern_table(t1, s) == t1 && 0 <= i1 < t1.len()
                && t1[i1] == s
        }),
{
    lemma_tbl_find(tbl, s);
    if tbl_find(tbl, s) < 0 {
        lemma_tbl_find_push(tbl, s);
        lemma_tbl_find(tbl.push(s), s);
        assert(tbl.push(s)[tbl.len() as int] == s);
    }
}

/// Points to an entry in the string interner.
#[derive(Debug, Clone, Copy, PartialEq, Eq, Hash, Structural)]
pub struct StringIndex(pub usize);

/// Ties a [`StringIndex`] to the interner that issued it, allowing operations
/// on the contents behind the index without a global table. Handles must not
/// be mixed across interner instances: resolving one against another interner
/// is a caller contract violation, surfacing at worst as an out-of-range
/// index.
#[derive(Debug, Clone, Copy, PartialEq, Eq, Hash, Structural)]
pub struct StringHandle {
    pub index: StringIndex,
}

/// A deduplicating, insertion-ordered string table mapping byte strings to
/// stable small indices.
pub struct Interner {
    set: IndexSet<Vec<u8>, RandomState>,
}

impl View for Interner {
    type V = Seq<Seq<u8>>;

    closed spec fn view(&self) -> Seq<Seq<u8>> {
        iset_contents(self.set)
    }
}

impl Interner {
    /// The interner's invariant: no string is stored twice.
    pub open spec fn wf(&self) -> bool {
        forall|i: int, j: int| 0 <= i < j < self@.len() ==> self@[i] != self@[j]
    }

    pub fn new() -> (r: Self)
        ensures
            r@ == Seq::<Seq<u8>>::empty(),
            r.wf(),
    {
        Interner { set: iset_new() }
    }

    /// Look `string` up; on a miss insert it at the end. Either way the index
    /// now holding `string` is returned.
    pub fn add(&mut self, string: &[u8]) -> (r: StringIndex)
        requires
            old(self).wf(),
        ensures
            final(self).wf(),
            r.0 == intern_index(old(self)@, string@),
            final(self)@ == intern_table(old(self)@, string@),
    {
        proof {
            lemma_tbl_find(self@, string@);
        }
        let i = iset_insert_full(&mut self.set, string);
        proof {
            if tbl_find(old(self)@, string@) >= 0 {
                assert(old(self)@[i as int] == string@);
                assert(i as int == tbl_find(old(self)@, string@)) by {
                    let f = tbl_find(old(self)@, string@);
                    assert(old(self)@[f] == string@);
                }
            } else {
                assert forall|a: int, b: int| 0 <= a < b < self@.len() implies self@[a]
                    != self@[b] by {
                    if b < old(self)@.len() {
                    } else {
                        assert(self@[b] == string@);
                        assert(self@[a] == old(self)@[a]);
                    }
                }
            }
        }
        StringIndex(i)
    }

    /// The stored text behind an index this interner issued.
    pub fn get(&self, index: StringIndex) -> (r: &Vec<u8>)
        requires
            index.0 < self@.len(),
        ensures
            r@ == self@[index.0 as int],
    {
        iset_get_index(&self.set, index.0)
    }

    /// The index holding `string`, if it has been interned already.
    pub fn try_lookup(&self, string: &[u8]) -> (r: Option<StringIndex>)
        requires
            self.wf(),
        ensures
            match r {
                Some(ix) => tbl_find(self@, string@) == ix.0,
                None => tbl_find(self@, string@) == -1,
            },
    {
        proof {
            lemma_tbl_find(self@, string@);
        }
        match iset_get_index_of(&self.set, string) {
            Some(i) => {
                proof {
                    let f = tbl_find(self@, string@);
                    assert(self@[f] == string@);
                }
                Some(StringIndex(i))
            },
            None => None,
        }
    }

    /// Look `string` up and return a handle for it, inserting it first when it
    /// is not yet present. Idempotent: repeated interning of equal text yields
    /// equal handles resolving to the same stored string.
    pub fn intern(&mut self, string: &[u8]) -> (h: StringHandle)
        requires
            old(self).wf(),
        ensures
            final(self).wf(),
            h.index.0 == intern_index(old(self)@, string@),
            final(self)@ == intern_table(old(self)@, string@),
    {
        match self.try_lookup(string) {
            Some(ix) => StringHandle { index: ix },
            None => StringHandle { index: self.add(string) },
        }
    }

    /// As [`Interner::intern`], but yielding the bare index.
    pub fn _lookup(&mut self, string: &[u8]) -> (r: StringIndex)
        requires
            old(self).wf(),
        ensures
            final(self).wf(),
            r.0 == intern_index(old(self)@, string@),
            final(self)@ == intern_table(old(self)@, string@),
    {
        match self.try_lookup(string) {
            Some(ix) => ix,
            None => self.add(string),
        }
    }

    /// Forget every stored string. Indices handed out before this point must
    /// not be resolved afterwards.
    pub fn _clear(&mut self)
        ensures
            final(self)@ == Seq::<Seq<u8>>::empty(),
            final(self).wf(),
    {
        iset_clear(&mut self.set)
    }
}

impl Default for Interner {
    fn default() -> (r: Self)
        ensures
            r@ == Seq::<Seq<u8>>::empty(),
            r.wf(),
    {
        Interner::new()
    }
}

} // verus!

//! A model of a PDF document's object graph, and the verified page-merge
//! algorithm that appends a newly scanned one-page document to the running
//! output document.
//!
//! Objects are keyed by integer identifiers; references between objects are
//! identifiers, not pointers. The merge only interprets the handful of
//! dictionary shapes it rearranges (catalogs, page-tree roots, pages and the
//! entries it rewrites in them); every other object, and every dictionary
//! value it does not touch, is carried through as an opaque payload of type
//! `P`, so a caller can thread the objects of any concrete PDF library
//! through the algorithm.

use vstd::pervasive::VecAdditionalExecFns;
use vstd::prelude::*;
use vstd::string::*;

use crate::scannererror::{ErrorCode, ScannerError};
use crate::strutil::str_eq;

verus! {

/// The identifier of one indirect object: object number and generation.
#[derive(Clone, Copy, Debug, PartialEq, Eq, Structural)]
pub struct PdfId {
    pub num: u32,
    pub gen: u16,
}

/// Identifier order: by object number, then by generation.
pub open spec fn id_lt(a: PdfId, b: PdfId) -> bool {
    a.num < b.num || (a.num == b.num && a.gen < b.gen)
}

/// Compares two identifiers in [`id_lt`] order.
pub fn id_less(a: PdfId, b: PdfId) -> (r: bool)
    ensures
        r == id_lt(a, b),
{
    a.num < b.num || (a.num == b.num && a.gen < b.gen)
}

/// One dictionary value the merge can interpret, or an opaque payload.
#[derive(Debug)]
pub enum PdfValue<P> {
    /// A reference to another object.
    Reference(PdfId),
    /// An integer.
    Integer(i64),
    /// A name, such as the value of a `Type` entry.
    Name(String),
    /// An array holding only references.
    RefArray(Vec<PdfId>),
    /// Any other value, carried through untouched.
    Opaque(P),
}

/// One dictionary entry.
#[derive(Debug)]
pub struct PdfEntry<P> {
    pub key: String,
    pub value: PdfValue<P>,
}

/// A dictionary: an ordered list of keyed entries.
#[derive(Debug)]
pub struct PdfDict<P> {
    pub entries: Vec<PdfEntry<P>>,
}

/// One indirect object: a dictionary the merge may interpret, or an opaque
/// payload (a stream, an array, a scalar) carried through untouched.
#[derive(Debug)]
pub enum PdfObject<P> {
    Dict(PdfDict<P>),
    Opaque(P),
}

/// One slot of the object table: an identifier and the object it names.
#[derive(Debug)]
pub struct PdfSlot<P> {
    pub id: PdfId,
    pub object: PdfObject<P>,
}

/// A loaded document: its object table in ascending identifier order, and
/// the identifiers of its page objects.
#[derive(Debug)]
pub struct PdfDocumentModel<P> {
    pub objects: Vec<PdfSlot<P>>,
    pub page_ids: Vec<PdfId>,
}

/// The result of a merge: the merged object table in ascending identifier
/// order, the trailer's root (the kept catalog) and the kept page-tree root.
#[derive(Debug)]
pub struct MergedPdf<P> {
    pub objects: Vec<PdfSlot<P>>,
    pub trailer_root: PdfId,
    pub pages_root: PdfId,
}

/// The declared type of an object, read from its dictionary's `Type` entry.
#[derive(Clone, Copy, Debug, PartialEq, Eq, Structural)]
pub enum PdfKind {
    Catalog,
    Pages,
    Page,
    Outlines,
    Outline,
    Other,
}

/// No two entries of the dictionary share a key.
pub open spec fn dict_keys_unique<P>(d: PdfDict<P>) -> bool {
    forall|i: int, j: int|
        0 <= i < j < d.entries@.len() ==> d.entries@[i].key@ != d.entries@[j].key@
}

/// Some entry of `d` has this key.
pub open spec fn dict_has_key<P>(d: PdfDict<P>, key: Seq<char>) -> bool {
    exists|i: int| 0 <= i < d.entries@.len() && d.entries@[i].key@ == key
}

/// The index of an entry with this key.
pub open spec fn dict_key_index<P>(d: PdfDict<P>, key: Seq<char>) -> int {
    choose|i: int| 0 <= i < d.entries@.len() && d.entries@[i].key@ == key
}

/// What `d` binds `key` to. On a dictionary with unique keys this is the
/// binding of its one entry with this key.
pub open spec fn dict_get<P>(d: PdfDict<P>, key: Seq<char>) -> Option<PdfValue<P>> {
    if dict_has_key(d, key) {
        Some(d.entries@[dict_key_index(d, key)].value)
    } else {
        None
    }
}

/// The declared type a `Type` binding names.
pub open spec fn kind_of_type_value<P>(v: Option<PdfValue<P>>) -> PdfKind {
    match v {
        Some(PdfValue::Name(n)) => {
            if n@ == "Catalog"@ {
                PdfKind::Catalog
            } else if n@ == "Pages"@ {
                PdfKind::Pages
            } else if n@ == "Page"@ {
                PdfKind::Page
            } else if n@ == "Outlines"@ {
                PdfKind::Outlines
            } else if n@ == "Outline"@ {
                PdfKind::Outline
            } else {
                PdfKind::Other
            }
        },
        _ => PdfKind::Other,
    }
}

/// The declared type of a dictionary: what its `Type` entry names, `Other`
/// when there is no such entry or it is not one of the five recognized
/// names. Kept opaque: most proofs compare declared types as atoms, and
/// reveal the definition only where a `Type` entry is read.
#[verifier::opaque]
pub open spec fn dict_kind<P>(d: PdfDict<P>) -> PdfKind {
    kind_of_type_value(dict_get(d, "Type"@))
}

/// The declared type of an object; opaque payloads count as `Other`.
pub open spec fn object_kind<P>(o: PdfObject<P>) -> PdfKind {
    match o {
        PdfObject::Dict(d) => dict_kind(d),
        PdfObject::Opaque(_) => PdfKind::Other,
    }
}

/// A dictionary object with unique keys; opaque payloads pass trivially.
pub open spec fn object_keys_unique<P>(o: PdfObject<P>) -> bool {
    match o {
        PdfObject::Dict(d) => dict_keys_unique(d),
        PdfObject::Opaque(_) => true,
    }
}

/// On a dictionary with unique keys, any entry whose key matches is the
/// entry [`dict_get`] reads.
pub proof fn lemma_dict_get_at<P>(d: PdfDict<P>, i: int)
    requires
        dict_keys_unique(d),
        0 <= i < d.entries@.len(),
    ensures
        dict_get(d, d.entries@[i].key@) == Some(d.entries@[i].value),
{
    assert(dict_has_key(d, d.entries@[i].key@));
    let j = dict_key_index(d, d.entries@[i].key@);
    assert(j == i);
}

/// Finds the first entry with this key.
fn dict_find<P>(d: &PdfDict<P>, key: &str) -> (r: Option<usize>)
    ensures
        match r {
            Some(i) => {
                &&& i < d.entries@.len()
                &&& d.entries@[i as int].key@ == key@
                &&& forall|j: int| 0 <= j < i ==> d.entries@[j].key@ != key@
            },
            None => !dict_has_key(*d, key@),
        },
{
    let mut i: usize = 0;
    while i < d.entries.len()
        invariant
            i <= d.entries@.len(),
            forall|j: int| 0 <= j < i ==> d.entries@[j].key@ != key@,
        decreases d.entries@.len() - i,
    {
        if str_eq(d.entries[i].key.as_str(), key) {
            return Some(i);
        }
        i += 1;
    }
    None
}

/// Checks that no two entries share a key.
fn dict_unique_check<P>(d: &PdfDict<P>) -> (r: bool)
    ensures
        r == dict_keys_unique(*d),
{
    let n: usize = d.entries.len();
    let mut i: usize = 0;
    while i < n
        invariant
            n == d.entries@.len(),
            i <= n,
            forall|p: int, q: int| 0 <= p < q < d.entries@.len() && p < i ==> d.entries@[p].key@
                != d.entries@[q].key@,
        decreases n - i,
    {
        let mut j: usize = i + 1;
        while j < n
            invariant
                n == d.entries@.len(),
                i < n,
                i + 1 <= j <= n,
                forall|q: int| i < q < j ==> d.entries@[i as int].key@ != d.entries@[q].key@,
            decreases n - j,
        {
            if str_eq(d.entries[i].key.as_str(), d.entries[j].key.as_str()) {
                return false;
            }
            j += 1;
        }
        i += 1;
    }
    true
}

/// Reads the declared type of an object.
fn classify<P>(o: &PdfObject<P>) -> (r: PdfKind)
    requires
        object_keys_unique(*o),
    ensures
        r == object_kind(*o),
{
    proof {
        reveal(dict_kind);
    }
    match o {
        PdfObject::Opaque(_) => PdfKind::Other,
        PdfObject::Dict(d) => {
            match dict_find(d, "Type") {
                None => PdfKind::Other,
                Some(i) => {
                    proof {
                        lemma_dict_get_at(*d, i as int);
                    }
                    match &d.entries[i].value {
                        PdfValue::Name(n) => {
                            if str_eq(n.as_str(), "Catalog") {
                                PdfKind::Catalog
                            } else if str_eq(n.as_str(), "Pages") {
                                PdfKind::Pages
                            } else if str_eq(n.as_str(), "Page") {
                                PdfKind::Page
                            } else if str_eq(n.as_str(), "Outlines") {
                                PdfKind::Outlines
                            } else if str_eq(n.as_str(), "Outline") {
                                PdfKind::Outline
                            } else {
                                PdfKind::Other
                            }
                        },
                        _ => PdfKind::Other,
                    }
                },
            }
        },
    }
}

/// Binds `key` to `v` in `d`: replaces the value of the entry with this key,
/// or appends a new entry. Every other binding is untouched.
fn dict_set<P>(d: &mut PdfDict<P>, key: &str, v: PdfValue<P>)
    requires
        dict_keys_unique(*old(d)),
    ensures
        dict_keys_unique(*final(d)),
        dict_get(*final(d), key@) == Some(v),
        forall|k: Seq<char>| k != key@ ==> dict_get(*final(d), k) == dict_get(*old(d), k),
{
    match dict_find(d, key) {
        Some(i) => {
            let ghost before = *d;
            let kept_key = d.entries[i].key.clone();
            d.entries.set(i, PdfEntry { key: kept_key, value: v });
            proof {
                assert(forall|j: int|
                    0 <= j < d.entries@.len() ==> d.entries@[j].key@ == before.entries@[j].key@);
                lemma_dict_get_at(*d, i as int);
                assert forall|k: Seq<char>| k != key@ implies dict_get(*d, k) == dict_get(
                    before,
                    k,
                ) by {
                    if dict_has_key(*d, k) {
                        let j = dict_key_index(*d, k);
                        assert(before.entries@[j].key@ == k);
                        assert(dict_has_key(before, k));
                        let j2 = dict_key_index(before, k);
                        assert(j2 == j);
                        assert(j != i);
                    } else {
                        if dict_has_key(before, k) {
                            let j2 = dict_key_index(before, k);
                            assert(d.entries@[j2].key@ == k);
                            assert(dict_has_key(*d, k));
                        }
                    }
                }
            }
        },
        None => {
            let ghost before = *d;
            d.entries.push(PdfEntry { key: String::from_str(key), value: v });
            proof {
                let last = d.entries@.len() - 1;
                assert(d.entries@[last].key@ == key@);
                assert forall|p: int, q: int| 0 <= p < q < d.entries@.len() implies d.entries@[
                    p
                ].key@ != d.entries@[q].key@ by {
                    if q == last {
                        assert(before.entries@[p].key@ != key@);
                    }
                }
                lemma_dict_get_at(*d, last);
                assert forall|k: Seq<char>| k != key@ implies dict_get(*d, k) == dict_get(
                    before,
                    k,
                ) by {
                    if dict_has_key(*d, k) {
                        let j = dict_key_index(*d, k);
                        assert(j != last);
                        assert(before.entries@[j].key@ == k);
                        assert(dict_has_key(before, k));
                        let j2 = dict_key_index(before, k);
                        assert(j2 == j);
                    } else {
                        if dict_has_key(before, k) {
                            let j2 = dict_key_index(before, k);
                            assert(d.entries@[j2].key@ == k);
                        }
                    }
                }
            }
        },
    }
}

/// Removes the binding of `key` from `d`, if any. Every other binding is
/// untouched.
fn dict_remove<P>(d: &mut PdfDict<P>, key: &str)
    requires
        dict_keys_unique(*old(d)),
    ensures
        dict_keys_unique(*final(d)),
        dict_get(*final(d), key@) is None,
        forall|k: Seq<char>| k != key@ ==> dict_get(*final(d), k) == dict_get(*old(d), k),
{
    match dict_find(d, key) {
        Some(i) => {
            let ghost before = *d;
            d.entries.remove(i);
            proof {
                assert forall|j: int| 0 <= j < d.entries@.len() implies d.entries@[j] == (if j < i {
                    before.entries@[j]
                } else {
                    before.entries@[j + 1]
                }) by {}
                assert forall|p: int, q: int| 0 <= p < q < d.entries@.len() implies d.entries@[
                    p
                ].key@ != d.entries@[q].key@ by {}
                if dict_has_key(*d, key@) {
                    let j = dict_key_index(*d, key@);
                    if j < i {
                        assert(before.entries@[j].key@ == key@);
                        assert(false);
                    } else {
                        assert(before.entries@[j + 1].key@ == key@);
                        assert(false);
                    }
                }
                assert forall|k: Seq<char>| k != key@ implies dict_get(*d, k) == dict_get(
                    before,
                    k,
                ) by {
                    if dict_has_key(*d, k) {
                        let j = dict_key_index(*d, k);
                        let jb: int = if j < i {
                            j
                        } else {
                            j + 1
                        };
                        assert(before.entries@[jb].key@ == k);
                        assert(dict_has_key(before, k));
                        let j2 = dict_key_index(before, k);
                        assert(j2 == jb);
                    } else {
                        if dict_has_key(before, k) {
                            let j2 = dict_key_index(before, k);
                            assert(j2 != i);
                            let jn: int = if j2 < i {
                                j2
                            } else {
                                j2 - 1
                            };
                            assert(d.entries@[jn].key@ == k);
                            assert(dict_has_key(*d, k));
                        }
                    }
                }
            }
        },
        None => {},
    }
}

/// The first binding of `key` among the entries `s[0..upto]`.
pub open spec fn entries_first_get<P>(s: Seq<PdfEntry<P>>, upto: int, key: Seq<char>) -> Option<
    PdfValue<P>,
>
    decreases upto,
{
    if upto <= 0 {
        None
    } else if entries_first_get(s, upto - 1, key) is Some {
        entries_first_get(s, upto - 1, key)
    } else if s[upto - 1].key@ == key {
        Some(s[upto - 1].value)
    } else {
        None
    }
}

/// On the entries of a dictionary with unique keys, the first binding among
/// a prefix agrees with [`dict_get`] wherever the prefix holds the key.
pub proof fn lemma_entries_first_get<P>(d: PdfDict<P>, key: Seq<char>, upto: int)
    requires
        dict_keys_unique(d),
        0 <= upto <= d.entries@.len(),
    ensures
        entries_first_get(d.entries@, upto, key) == (if exists|i: int|
            0 <= i < upto && d.entries@[i].key@ == key {
            dict_get(d, key)
        } else {
            None::<PdfValue<P>>
        }),
    decreases upto,
{
    if upto > 0 {
        lemma_entries_first_get(d, key, upto - 1);
        if d.entries@[upto - 1].key@ == key {
            lemma_dict_get_at(d, upto - 1);
        } else {
            if exists|i: int| 0 <= i < upto && d.entries@[i].key@ == key {
                let i = choose|i: int| 0 <= i < upto && d.entries@[i].key@ == key;
                assert(i < upto - 1);
            }
        }
    }
}

/// The field union of two dictionaries: every binding of `first`, plus the
/// bindings of `second` whose keys `first` does not have. First-seen keys
/// win.
fn dict_union<P>(first: PdfDict<P>, second: PdfDict<P>) -> (r: PdfDict<P>)
    requires
        dict_keys_unique(first),
        dict_keys_unique(second),
    ensures
        dict_keys_unique(r),
        forall|k: Seq<char>|
            dict_get(r, k) == (if dict_get(first, k) is Some {
                dict_get(first, k)
            } else {
                dict_get(second, k)
            }),
{
    let ghost first_snap = first;
    let ghost second_entries = second.entries@;
    let mut r = first;
    let mut rest = second.entries;
    let mut done: usize = 0;
    let total: usize = rest.len();
    proof {
        assert(rest@ =~= second_entries.subrange(0, second_entries.len() as int));
    }
    while rest.len() > 0
        invariant
            dict_keys_unique(first_snap),
            dict_keys_unique(r),
            forall|p: int, q: int| 0 <= p < q < second_entries.len() ==> second_entries[p].key@
                != second_entries[q].key@,
            done + rest@.len() == second_entries.len(),
            second_entries.len() == total,
            rest@ == second_entries.subrange(done as int, second_entries.len() as int),
            forall|k: Seq<char>|
                dict_get(r, k) == (if dict_get(first_snap, k) is Some {
                    dict_get(first_snap, k)
                } else {
                    entries_first_get(second_entries, done as int, k)
                }),
        decreases rest@.len(),
    {
        let ghost r_before = r;
        let ghost done_before = done as int;
        let e = rest.remove(0);
        proof {
            assert(e == second_entries[done as int]);
            assert(rest@ =~= second_entries.subrange(done + 1, second_entries.len() as int));
        }
        let found = dict_find(&r, e.key.as_str());
        let ghost ekey = e.key@;
        match found {
            None => {
                proof {
                    assert(dict_get(first_snap, ekey) is None);
                    assert(entries_first_get(second_entries, done_before, ekey) is None);
                }
                r.entries.push(e);
                proof {
                    let last = r.entries@.len() - 1;
                    assert forall|p: int, q: int| 0 <= p < q < r.entries@.len() implies r.entries@[
                        p
                    ].key@ != r.entries@[q].key@ by {
                        if q == last {
                            assert(!dict_has_key(r_before, ekey));
                            assert(r_before.entries@[p].key@ != ekey);
                        }
                    }
                    lemma_dict_get_at(r, last);
                    assert forall|k: Seq<char>| k != ekey implies dict_get(r, k) == dict_get(
                        r_before,
                        k,
                    ) by {
                        if dict_has_key(r, k) {
                            let j = dict_key_index(r, k);
                            assert(j != last);
                            assert(r_before.entries@[j].key@ == k);
                            assert(dict_has_key(r_before, k));
                            let j2 = dict_key_index(r_before, k);
                            assert(j2 == j);
                        } else {
                            if dict_has_key(r_before, k) {
                                let j2 = dict_key_index(r_before, k);
                                assert(r.entries@[j2].key@ == k);
                            }
                        }
                    }
                }
            },
            Some(_) => {
                proof {
                    assert(dict_has_key(r, ekey));
                    assert(dict_get(r, ekey) is Some);
                }
            },
        }
        done += 1;
        proof {
            assert forall|k: Seq<char>| dict_get(r, k) == (if dict_get(first_snap, k) is Some {
                dict_get(first_snap, k)
            } else {
                entries_first_get(second_entries, done as int, k)
            }) by {
                if k != ekey {
                    assert(entries_first_get(second_entries, done as int, k)
                        == entries_first_get(second_entries, done_before, k));
                } else {
                    assert(entries_first_get(second_entries, done as int, k) == (
                    if entries_first_get(second_entries, done_before, k) is Some {
                        entries_first_get(second_entries, done_before, k)
                    } else {
                        Some(e.value)
                    }));
                }
            }
        }
    }
    proof {
        assert forall|k: Seq<char>| dict_get(r, k) == (if dict_get(first_snap, k) is Some {
            dict_get(first_snap, k)
        } else {
            dict_get(second, k)
        }) by {
            lemma_entries_first_get(second, k, second_entries.len() as int);
            if dict_has_key(second, k) {
                let j = dict_key_index(second, k);
                assert(0 <= j < second_entries.len() && second.entries@[j].key@ == k);
            }
        }
    }
    r
}

} // verus!

verus! {

/// The slots stand in strictly ascending identifier order (so identifiers
/// are unique).
pub open spec fn slots_ascending<P>(s: Seq<PdfSlot<P>>) -> bool {
    forall|i: int, j: int| 0 <= i < j < s.len() ==> id_lt(s[i].id, s[j].id)
}

/// Some slot carries this identifier.
pub open spec fn contains_slot_id<P>(s: Seq<PdfSlot<P>>, id: PdfId) -> bool {
    exists|i: int| 0 <= i < s.len() && s[i].id == id
}

/// The index of the slot carrying this identifier.
pub open spec fn slot_index_of<P>(s: Seq<PdfSlot<P>>, id: PdfId) -> int {
    choose|i: int| 0 <= i < s.len() && s[i].id == id
}

/// The object stored under this identifier.
pub open spec fn slot_object<P>(s: Seq<PdfSlot<P>>, id: PdfId) -> PdfObject<P> {
    s[slot_index_of(s, id)].object
}

/// The dictionary of an object known to be one.
pub open spec fn object_dict<P>(o: PdfObject<P>) -> PdfDict<P> {
    match o {
        PdfObject::Dict(d) => d,
        PdfObject::Opaque(_) => arbitrary(),
    }
}

/// Every dictionary object of the table has unique keys.
pub open spec fn slots_dicts_unique<P>(s: Seq<PdfSlot<P>>) -> bool {
    forall|i: int| 0 <= i < s.len() ==> object_keys_unique(#[trigger] s[i].object)
}

/// Some slot of the table holds an object of this declared type.
pub open spec fn has_kind<P>(s: Seq<PdfSlot<P>>, kind: PdfKind) -> bool {
    exists|i: int| 0 <= i < s.len() && object_kind(s[i].object) == kind
}

/// The first index holding an object of this declared type. Kept opaque:
/// proofs identify it through [`lemma_first_kind_index_is`].
#[verifier::opaque]
pub open spec fn first_kind_index<P>(s: Seq<PdfSlot<P>>, kind: PdfKind) -> int {
    choose|i: int|
        0 <= i < s.len() && object_kind(s[i].object) == kind && forall|j: int|
            0 <= j < i ==> object_kind(#[trigger] s[j].object) != kind
}

/// The last index holding an object of this declared type. Kept opaque:
/// proofs identify it through [`lemma_last_kind_index_is`].
#[verifier::opaque]
pub open spec fn last_kind_index<P>(s: Seq<PdfSlot<P>>, kind: PdfKind) -> int {
    choose|i: int|
        0 <= i < s.len() && object_kind(s[i].object) == kind && forall|j: int|
            i < j < s.len() ==> object_kind(#[trigger] s[j].object) != kind
}

/// An index with this declared type, none of it earlier, is the first.
pub proof fn lemma_first_kind_index_is<P>(u: Seq<PdfSlot<P>>, kind: PdfKind, c: int)
    requires
        0 <= c < u.len(),
        object_kind(u[c].object) == kind,
        forall|j: int| 0 <= j < c ==> object_kind(#[trigger] u[j].object) != kind,
    ensures
        first_kind_index(u, kind) == c,
{
    reveal(first_kind_index);
    let w = first_kind_index(u, kind);
    assert(0 <= w < u.len() && object_kind(u[w].object) == kind && forall|j: int|
        0 <= j < w ==> object_kind(#[trigger] u[j].object) != kind);
    if w < c {
        assert(object_kind(u[w].object) != kind);
    } else if w > c {
        assert(object_kind(u[c].object) != kind);
    }
}

/// An index with this declared type, none of it later, is the last.
pub proof fn lemma_last_kind_index_is<P>(u: Seq<PdfSlot<P>>, kind: PdfKind, c: int)
    requires
        0 <= c < u.len(),
        object_kind(u[c].object) == kind,
        forall|j: int| c < j < u.len() ==> object_kind(#[trigger] u[j].object) != kind,
    ensures
        last_kind_index(u, kind) == c,
{
    reveal(last_kind_index);
    let w = last_kind_index(u, kind);
    assert(0 <= w < u.len() && object_kind(u[w].object) == kind && forall|j: int|
        w < j < u.len() ==> object_kind(#[trigger] u[j].object) != kind);
    if w < c {
        assert(object_kind(u[c].object) != kind);
    } else if w > c {
        assert(object_kind(u[w].object) != kind);
    }
}

/// The identifier of the kept catalog: the first catalog of the union.
pub open spec fn catalog_root_id<P>(u: Seq<PdfSlot<P>>) -> PdfId {
    u[first_kind_index(u, PdfKind::Catalog)].id
}

/// The identifier of the kept page-tree root: the first of the union.
pub open spec fn pages_root_id<P>(u: Seq<PdfSlot<P>>) -> PdfId {
    u[first_kind_index(u, PdfKind::Pages)].id
}

/// The dictionary of the last catalog of the union, whose fields the kept
/// catalog receives.
pub open spec fn last_catalog_dict<P>(u: Seq<PdfSlot<P>>) -> PdfDict<P> {
    object_dict(u[last_kind_index(u, PdfKind::Catalog)].object)
}

/// What the field union of the page-tree-root dictionaries among
/// `u[0..upto]` binds `key` to; first-seen keys win.
pub open spec fn pages_union_get_upto<P>(u: Seq<PdfSlot<P>>, upto: int, key: Seq<char>) -> Option<
    PdfValue<P>,
>
    decreases upto,
{
    if upto <= 0 {
        None
    } else if pages_union_get_upto(u, upto - 1, key) is Some {
        pages_union_get_upto(u, upto - 1, key)
    } else if object_kind(u[upto - 1].object) == PdfKind::Pages {
        dict_get(object_dict(u[upto - 1].object), key)
    } else {
        None
    }
}

/// What the field union of all page-tree-root dictionaries of the union
/// binds `key` to.
pub open spec fn pages_union_get<P>(u: Seq<PdfSlot<P>>, key: Seq<char>) -> Option<PdfValue<P>> {
    pages_union_get_upto(u, u.len() as int, key)
}

/// Before the first page-tree root, the field union binds nothing.
pub proof fn lemma_pages_union_empty<P>(u: Seq<PdfSlot<P>>, upto: int, key: Seq<char>)
    requires
        forall|j: int| 0 <= j < upto ==> object_kind(#[trigger] u[j].object) != PdfKind::Pages,
    ensures
        pages_union_get_upto(u, upto, key) is None,
    decreases upto,
{
    if upto > 0 {
        lemma_pages_union_empty(u, upto - 1, key);
    }
}

/// The deferred pages among `u[0..upto]`, in table (identifier) order:
/// the identifiers that the page set contains.
pub open spec fn kept_page_ids_upto<P>(u: Seq<PdfSlot<P>>, pids: Seq<PdfId>, upto: int) -> Seq<
    PdfId,
>
    decreases upto,
{
    if upto <= 0 {
        Seq::empty()
    } else if pids.contains(u[upto - 1].id) {
        kept_page_ids_upto(u, pids, upto - 1).push(u[upto - 1].id)
    } else {
        kept_page_ids_upto(u, pids, upto - 1)
    }
}

/// The merged document's page order: the page identifiers of the union, in
/// ascending identifier order.
pub open spec fn merged_page_order<P>(u: Seq<PdfSlot<P>>, pids: Seq<PdfId>) -> Seq<PdfId> {
    kept_page_ids_upto(u, pids, u.len() as int)
}

/// The deferred-page list never outgrows the prefix it was collected from.
pub proof fn lemma_kept_page_ids_len<P>(u: Seq<PdfSlot<P>>, pids: Seq<PdfId>, upto: int)
    requires
        0 <= upto <= u.len(),
    ensures
        kept_page_ids_upto(u, pids, upto).len() <= upto,
    decreases upto,
{
    if upto > 0 {
        lemma_kept_page_ids_len(u, pids, upto - 1);
    }
}

/// What a merge can work on: the union of the two tables is in strictly
/// ascending identifier order (the incoming document was renumbered above
/// the existing one), every dictionary has unique keys, every listed page
/// identifier names a page object of the union, the union holds a page-tree
/// root and a catalog, and the table is small enough to count pages in an
/// integer entry.
pub open spec fn valid_merge_input<P>(a: PdfDocumentModel<P>, b: PdfDocumentModel<P>) -> bool {
    let u = a.objects@ + b.objects@;
    let pids = a.page_ids@ + b.page_ids@;
    &&& slots_ascending(u)
    &&& slots_dicts_unique(u)
    &&& forall|t: int|
        0 <= t < pids.len() ==> contains_slot_id(u, #[trigger] pids[t]) && object_kind(
            slot_object(u, pids[t]),
        ) == PdfKind::Page
    &&& has_kind(u, PdfKind::Pages)
    &&& has_kind(u, PdfKind::Catalog)
    &&& u.len() <= i64::MAX
}

/// An identifier of the union that survives the merge: the kept catalog, the
/// kept page-tree root, a deferred page, or an object of any other declared
/// type. Later catalogs and page-tree roots, outline objects and unlisted
/// page objects are dropped.
pub open spec fn kept_id<P>(u: Seq<PdfSlot<P>>, pids: Seq<PdfId>, id: PdfId) -> bool {
    contains_slot_id(u, id) && (id == catalog_root_id(u) || id == pages_root_id(u)
        || pids.contains(id) || object_kind(slot_object(u, id)) == PdfKind::Other)
}

/// A page dictionary rewritten to point at the kept page-tree root: its
/// `Parent` entry is the root, every other binding is the source's.
pub open spec fn page_reparented<P>(
    source: PdfDict<P>,
    pgs_id: PdfId,
    result: PdfObject<P>,
) -> bool {
    match result {
        PdfObject::Dict(pg) => {
            &&& dict_keys_unique(pg)
            &&& dict_get(pg, "Parent"@) == Some(PdfValue::<P>::Reference(pgs_id))
            &&& forall|k: Seq<char>| k != "Parent"@ ==> dict_get(pg, k) == dict_get(source, k)
        },
        PdfObject::Opaque(_) => false,
    }
}

/// What the merge guarantees of one slot of its result, given the union
/// `u` and the deferred page set `pids` it worked on.
pub open spec fn merged_slot_ok<P>(u: Seq<PdfSlot<P>>, pids: Seq<PdfId>, slot: PdfSlot<P>) -> bool {
    if slot.id == catalog_root_id(u) {
        match slot.object {
            PdfObject::Dict(cd) => {
                &&& dict_keys_unique(cd)
                &&& dict_get(cd, "Pages"@) == Some(PdfValue::<P>::Reference(pages_root_id(u)))
                &&& dict_get(cd, "Outlines"@) is None
                &&& forall|k: Seq<char>|
                    k != "Pages"@ && k != "Outlines"@ ==> dict_get(cd, k) == dict_get(
                        last_catalog_dict(u),
                        k,
                    )
            },
            PdfObject::Opaque(_) => false,
        }
    } else if slot.id == pages_root_id(u) {
        match slot.object {
            PdfObject::Dict(pd) => {
                &&& dict_keys_unique(pd)
                &&& dict_get(pd, "Count"@) == Some(
                    PdfValue::<P>::Integer(merged_page_order(u, pids).len() as i64),
                )
                &&& match dict_get(pd, "Kids"@) {
                    Some(PdfValue::RefArray(v)) => v@ == merged_page_order(u, pids),
                    _ => false,
                }
                &&& forall|k: Seq<char>|
                    k != "Count"@ && k != "Kids"@ ==> dict_get(pd, k) == pages_union_get(u, k)
            },
            PdfObject::Opaque(_) => false,
        }
    } else if pids.contains(slot.id) {
        page_reparented(object_dict(slot_object(u, slot.id)), pages_root_id(u), slot.object)
    } else {
        slot.object == slot_object(u, slot.id)
    }
}

/// In an ascending table the identifier at an index is found back at that
/// index.
pub proof fn lemma_slot_index<P>(s: Seq<PdfSlot<P>>, k: int)
    requires
        slots_ascending(s),
        0 <= k < s.len(),
    ensures
        contains_slot_id(s, s[k].id),
        slot_index_of(s, s[k].id) == k,
{
    assert(contains_slot_id(s, s[k].id));
    let j = slot_index_of(s, s[k].id);
    if j < k {
        assert(id_lt(s[j].id, s[k].id));
        assert(false);
    } else if j > k {
        assert(id_lt(s[k].id, s[j].id));
        assert(false);
    }
}

/// Checks whether this identifier is listed.
fn id_in(ids: &Vec<PdfId>, id: PdfId) -> (r: bool)
    ensures
        r == ids@.contains(id),
{
    let mut t: usize = 0;
    while t < ids.len()
        invariant
            t <= ids@.len(),
            forall|j: int| 0 <= j < t ==> ids@[j] != id,
        decreases ids@.len() - t,
    {
        if ids[t] == id {
            return true;
        }
        t += 1;
    }
    false
}

/// Finds the slot carrying this identifier.
fn slot_find<P>(s: &Vec<PdfSlot<P>>, id: PdfId) -> (r: Option<usize>)
    ensures
        match r {
            Some(i) => i < s@.len() && s@[i as int].id == id,
            None => !contains_slot_id(s@, id),
        },
{
    let mut i: usize = 0;
    while i < s.len()
        invariant
            i <= s@.len(),
            forall|j: int| 0 <= j < i ==> s@[j].id != id,
        decreases s@.len() - i,
    {
        if s[i].id == id {
            return Some(i);
        }
        i += 1;
    }
    None
}

/// The six dictionary keys the merge rewrites or reads are pairwise
/// distinct.
pub proof fn lemma_key_literals()
    ensures
        "Type"@ != "Count"@,
        "Type"@ != "Kids"@,
        "Type"@ != "Pages"@,
        "Type"@ != "Outlines"@,
        "Type"@ != "Parent"@,
        "Count"@ != "Kids"@,
        "Count"@ != "Pages"@,
        "Kids"@ != "Pages"@,
        "Pages"@ != "Outlines"@,
        "Pages"@ != "Parent"@,
        "Outlines"@ != "Parent"@,
{
    reveal_strlit("Type");
    reveal_strlit("Count");
    reveal_strlit("Kids");
    reveal_strlit("Pages");
    reveal_strlit("Outlines");
    reveal_strlit("Parent");
    assert("Type"@.len() != "Count"@.len());
    assert("Type"@[0] != "Kids"@[0]);
    assert("Type"@.len() != "Pages"@.len());
    assert("Type"@.len() != "Outlines"@.len());
    assert("Type"@.len() != "Parent"@.len());
    assert("Count"@[0] != "Kids"@[0]);
    assert("Count"@[0] != "Pages"@[0]);
    assert("Kids"@.len() != "Pages"@.len());
    assert("Pages"@.len() != "Outlines"@.len());
    assert("Pages"@.len() != "Parent"@.len());
    assert("Outlines"@.len() != "Parent"@.len());
}

/// Checks that the table's identifiers ascend strictly.
fn check_ascending<P>(s: &Vec<PdfSlot<P>>) -> (r: bool)
    ensures
        r == slots_ascending(s@),
{
    let n: usize = s.len();
    let mut i: usize = 1;
    while i < n
        invariant
            1 <= i,
            n == s@.len(),
            forall|p: int, q: int| 0 <= p < q < i ==> id_lt(s@[p].id, s@[q].id),
        decreases n - i,
    {
        if !id_less(s[i - 1].id, s[i].id) {
            assert(!slots_ascending(s@));
            return false;
        }
        proof {
            assert forall|p: int| 0 <= p < i implies id_lt(s@[p].id, s@[i as int].id) by {
                if p < i - 1 {
                    assert(id_lt(s@[p].id, s@[i - 1].id));
                }
            }
        }
        i += 1;
    }
    true
}

/// Checks that every dictionary object of the table has unique keys.
fn check_dicts_unique<P>(s: &Vec<PdfSlot<P>>) -> (r: bool)
    ensures
        r == slots_dicts_unique(s@),
{
    let n: usize = s.len();
    let mut i: usize = 0;
    while i < n
        invariant
            n == s@.len(),
            i <= n,
            forall|p: int| 0 <= p < i ==> object_keys_unique(#[trigger] s@[p].object),
        decreases n - i,
    {
        let ok = match &s[i].object {
            PdfObject::Dict(d) => dict_unique_check(d),
            PdfObject::Opaque(_) => true,
        };
        if !ok {
            return false;
        }
        i += 1;
    }
    true
}

/// Checks that every listed page identifier names a page object of the
/// table.
fn check_page_ids<P>(s: &Vec<PdfSlot<P>>, page_list: &Vec<PdfId>) -> (r: bool)
    requires
        slots_ascending(s@),
        slots_dicts_unique(s@),
    ensures
        r == (forall|t: int|
            0 <= t < page_list@.len() ==> contains_slot_id(s@, #[trigger] page_list@[t])
                && object_kind(slot_object(s@, page_list@[t])) == PdfKind::Page),
{
    let mut t: usize = 0;
    while t < page_list.len()
        invariant
            slots_ascending(s@),
            slots_dicts_unique(s@),
            t <= page_list@.len(),
            forall|q: int|
                0 <= q < t ==> contains_slot_id(s@, #[trigger] page_list@[q]) && object_kind(
                    slot_object(s@, page_list@[q]),
                ) == PdfKind::Page,
        decreases page_list@.len() - t,
    {
        let pid = page_list[t];
        match slot_find(s, pid) {
            None => {
                return false;
            },
            Some(at) => {
                proof {
                    lemma_slot_index(s@, at as int);
                }
                let kind = classify(&s[at].object);
                if !(kind == PdfKind::Page) {
                    return false;
                }
            },
        }
        t += 1;
    }
    true
}

/// The roots and deferred pages found by one ascending scan of the union.
struct ScanOutcome {
    /// The deferred pages, in ascending identifier order.
    kids: Vec<PdfId>,
    /// The index of the first catalog, if any.
    cat_first: Option<usize>,
    /// The index of the last catalog, if any.
    cat_last: Option<usize>,
    /// The index of the first page-tree root, if any.
    pgs_first: Option<usize>,
}

/// Scans the union for the kept catalog and page-tree root, the last
/// catalog, and the deferred pages in ascending identifier order.
fn scan_structure<P>(s: &Vec<PdfSlot<P>>, page_list: &Vec<PdfId>) -> (r: ScanOutcome)
    requires
        slots_dicts_unique(s@),
    ensures
        r.kids@ == merged_page_order(s@, page_list@),
        match r.cat_first {
            Some(c) => c < s@.len() && object_kind(s@[c as int].object) == PdfKind::Catalog
                && forall|j: int|
                0 <= j < c ==> object_kind(#[trigger] s@[j].object) != PdfKind::Catalog,
            None => !has_kind(s@, PdfKind::Catalog),
        },
        match r.cat_last {
            Some(c) => c < s@.len() && object_kind(s@[c as int].object) == PdfKind::Catalog
                && forall|j: int|
                c < j < s@.len() ==> object_kind(#[trigger] s@[j].object) != PdfKind::Catalog,
            None => !has_kind(s@, PdfKind::Catalog),
        },
        r.cat_first is Some <==> r.cat_last is Some,
        match r.pgs_first {
            Some(c) => c < s@.len() && object_kind(s@[c as int].object) == PdfKind::Pages && forall|
                j: int,
            |
                0 <= j < c ==> object_kind(#[trigger] s@[j].object) != PdfKind::Pages,
            None => !has_kind(s@, PdfKind::Pages),
        },
{
    let n: usize = s.len();
    let mut cat_first: Option<usize> = None;
    let mut cat_last: Option<usize> = None;
    let mut pgs_first: Option<usize> = None;
    let mut kids: Vec<PdfId> = Vec::new();
    let mut i: usize = 0;
    while i < n
        invariant
            n == s@.len(),
            i <= n,
            slots_dicts_unique(s@),
            kids@ == kept_page_ids_upto(s@, page_list@, i as int),
            match cat_first {
                Some(c) => c < i && object_kind(s@[c as int].object) == PdfKind::Catalog && forall|
                    j: int,
                |
                    0 <= j < c ==> object_kind(#[trigger] s@[j].object) != PdfKind::Catalog,
                None => forall|j: int|
                    0 <= j < i ==> object_kind(#[trigger] s@[j].object) != PdfKind::Catalog,
            },
            match cat_last {
                Some(c) => c < i && object_kind(s@[c as int].object) == PdfKind::Catalog && forall|
                    j: int,
                |
                    c < j < i ==> object_kind(#[trigger] s@[j].object) != PdfKind::Catalog,
                None => forall|j: int|
                    0 <= j < i ==> object_kind(#[trigger] s@[j].object) != PdfKind::Catalog,
            },
            cat_first is Some <==> cat_last is Some,
            match pgs_first {
                Some(c) => c < i && object_kind(s@[c as int].object) == PdfKind::Pages && forall|
                    j: int,
                |
                    0 <= j < c ==> object_kind(#[trigger] s@[j].object) != PdfKind::Pages,
                None => forall|j: int|
                    0 <= j < i ==> object_kind(#[trigger] s@[j].object) != PdfKind::Pages,
            },
        decreases n - i,
    {
        let kind = classify(&s[i].object);
        if kind == PdfKind::Catalog {
            if cat_first.is_none() {
                cat_first = Some(i);
            }
            cat_last = Some(i);
        } else if kind == PdfKind::Pages {
            if pgs_first.is_none() {
                pgs_first = Some(i);
            }
        }
        if id_in(page_list, s[i].id) {
            kids.push(s[i].id);
        }
        i += 1;
    }
    ScanOutcome { kids, cat_first, cat_last, pgs_first }
}

} // verus!

verus! {

/// A slot that is not a page-tree root contributes nothing to the field
/// union.
pub proof fn lemma_pages_union_skip<P>(u: Seq<PdfSlot<P>>, idx: int)
    requires
        0 <= idx < u.len(),
        object_kind(u[idx].object) != PdfKind::Pages,
    ensures
        forall|key: Seq<char>|
            pages_union_get_upto(u, idx + 1, key) == pages_union_get_upto(u, idx, key),
{
    assert forall|key: Seq<char>| pages_union_get_upto(u, idx + 1, key) == pages_union_get_upto(
        u,
        idx,
        key,
    ) by {
        if pages_union_get_upto(u, idx, key) is Some {
        }
    }
}

/// Once the field union binds a key, scanning further slots does not change
/// the binding: first-seen keys win.
pub proof fn lemma_pages_union_grows<P>(u: Seq<PdfSlot<P>>, from: int, to: int, key: Seq<char>)
    requires
        0 <= from <= to,
        pages_union_get_upto(u, from, key) is Some,
    ensures
        pages_union_get_upto(u, to, key) == pages_union_get_upto(u, from, key),
    decreases to - from,
{
    if from < to {
        lemma_pages_union_grows(u, from, to - 1, key);
    }
}

} // verus!

verus! {

/// What one slot of the merge result looks like while the two root slots
/// still hold their placeholders: only the roots' identifiers are pinned,
/// every other kept slot is already in final form.
pub open spec fn pass_slot_ok<P>(
    u: Seq<PdfSlot<P>>,
    pids: Seq<PdfId>,
    cat_first: int,
    pgs_first: int,
    slot: PdfSlot<P>,
    k: int,
) -> bool {
    &&& 0 <= k < u.len()
    &&& slot.id == u[k].id
    &&& if k == cat_first || k == pgs_first {
        true
    } else if pids.contains(u[k].id) {
        page_reparented(object_dict(u[k].object), u[pgs_first].id, slot.object)
    } else {
        slot.object == u[k].object
    }
}

/// An index of the union that survives the merge.
pub open spec fn kept_at<P>(
    u: Seq<PdfSlot<P>>,
    pids: Seq<PdfId>,
    cat_first: int,
    pgs_first: int,
    k: int,
) -> bool {
    k == cat_first || k == pgs_first || pids.contains(u[k].id) || object_kind(u[k].object)
        == PdfKind::Other
}

} // verus!

verus! {

} // verus!


verus! {

/// Merges a newly scanned one-page document into the running output
/// document, by object-graph surgery on the union of the two tables:
///
/// - the first catalog and the first page-tree root are kept, by
///   identifier; the kept catalog receives the fields of the last catalog,
///   the kept page-tree root the field union of all page-tree roots
///   (first-seen keys win);
/// - every listed page is re-parented onto the kept root; the root's
///   `Count` and `Kids` entries are rebuilt from the pages in ascending
///   identifier order, the catalog's `Pages` entry points at the root again
///   and its `Outlines` entry is dropped, as are all outline objects;
/// - every object of any other declared type is carried over untouched, and
///   the trailer root becomes the kept catalog.
///
/// The merge succeeds exactly on [`valid_merge_input`]; a union without a
/// catalog or without a page-tree root is rejected as an error rather than
/// silently dropping the new page.
#[verifier::rlimit(100)]
pub fn merge_documents<P>(existing: PdfDocumentModel<P>, incoming: PdfDocumentModel<P>) -> (r:
    Result<MergedPdf<P>, ScannerError>)
    ensures
        r is Ok <==> valid_merge_input(existing, incoming),
        r matches Err(e) ==> e.code == ErrorCode::PdfError,
        r matches Ok(m) ==> {
            let u = existing.objects@ + incoming.objects@;
            let pids = existing.page_ids@ + incoming.page_ids@;
            &&& m.trailer_root == catalog_root_id(u)
            &&& m.pages_root == pages_root_id(u)
            &&& slots_ascending(m.objects@)
            &&& forall|id: PdfId| contains_slot_id(m.objects@, id) <==> kept_id(u, pids, id)
            &&& forall|p: int|
                0 <= p < m.objects@.len() ==> merged_slot_ok(u, pids, #[trigger] m.objects@[p])
            &&& forall|p: int|
                0 <= p < m.objects@.len() ==> (object_kind(#[trigger] m.objects@[p].object)
                    == PdfKind::Catalog <==> m.objects@[p].id == m.trailer_root)
            &&& forall|p: int|
                0 <= p < m.objects@.len() ==> (object_kind(#[trigger] m.objects@[p].object)
                    == PdfKind::Pages <==> m.objects@[p].id == m.pages_root)
        },
{
    // The union of the two tables, and the union of the two page lists.
    let mut union_slots: Vec<PdfSlot<P>> = existing.objects;
    let mut more_slots: Vec<PdfSlot<P>> = incoming.objects;
    union_slots.append(&mut more_slots);
    let mut page_list: Vec<PdfId> = existing.page_ids;
    let mut more_pages: Vec<PdfId> = incoming.page_ids;
    page_list.append(&mut more_pages);

    let ghost u = union_slots@;
    let ghost pids = page_list@;
    let n: usize = union_slots.len();

    if (n as u64) > (i64::MAX as u64) {
        return Err(ScannerError {
            code: ErrorCode::PdfError,
            message: String::from_str("too many objects"),
        });
    }
    if !check_ascending(&union_slots) {
        return Err(ScannerError {
            code: ErrorCode::PdfError,
            message: String::from_str("object identifiers out of order"),
        });
    }
    if !check_dicts_unique(&union_slots) {
        return Err(ScannerError {
            code: ErrorCode::PdfError,
            message: String::from_str("dictionary with repeated keys"),
        });
    }
    if !check_page_ids(&union_slots, &page_list) {
        return Err(ScannerError {
            code: ErrorCode::PdfError,
            message: String::from_str("page identifier names no page object"),
        });
    }

    let scan = scan_structure(&union_slots, &page_list);
    let kids: Vec<PdfId> = scan.kids;
    let pgs_first: usize = match scan.pgs_first {
        Some(c) => c,
        None => {
            return Err(ScannerError {
                code: ErrorCode::PdfError,
                message: String::from_str("Pages root not found."),
            });
        },
    };
    let (cat_first, cat_last): (usize, usize) = match (scan.cat_first, scan.cat_last) {
        (Some(c), Some(l)) => (c, l),
        _ => {
            return Err(ScannerError {
                code: ErrorCode::PdfError,
                message: String::from_str("Catalog root not found."),
            });
        },
    };

    assert(valid_merge_input(existing, incoming));
    proof {
        lemma_first_kind_index_is(u, PdfKind::Catalog, cat_first as int);
        lemma_last_kind_index_is(u, PdfKind::Catalog, cat_last as int);
        lemma_first_kind_index_is(u, PdfKind::Pages, pgs_first as int);
    }
    let cat_id: PdfId = union_slots[cat_first].id;
    let pgs_id: PdfId = union_slots[pgs_first].id;
    assert(cat_id == catalog_root_id(u));
    assert(pgs_id == pages_root_id(u));

    // Second pass: consume the union in ascending order, carrying objects
    // over, re-parenting pages, folding the page-tree roots and catalogs,
    // and leaving placeholders where the two kept roots stand.
    let mut out: Vec<PdfSlot<P>> = Vec::new();
    let ghost mut src_of: Seq<int> = Seq::empty();
    let mut acc_pages: Option<PdfDict<P>> = None;
    let mut cat_dict: Option<PdfDict<P>> = None;
    let mut pos_pages: usize = 0;
    let mut pos_catalog: usize = 0;
    let mut idx: usize = 0;
    let mut remaining: Vec<PdfSlot<P>> = union_slots;
    while remaining.len() > 0
        invariant
            u == existing.objects@ + incoming.objects@,
            pids == existing.page_ids@ + incoming.page_ids@,
            pids == page_list@,
            n == u.len(),
            slots_ascending(u),
            slots_dicts_unique(u),
            forall|t: int|
                0 <= t < pids.len() ==> contains_slot_id(u, #[trigger] pids[t]) && object_kind(
                    slot_object(u, pids[t]),
                ) == PdfKind::Page,
            cat_first < n && object_kind(u[cat_first as int].object) == PdfKind::Catalog,
            forall|j: int| 0 <= j < cat_first ==> object_kind(#[trigger] u[j].object) != PdfKind::Catalog,
            cat_last < n && object_kind(u[cat_last as int].object) == PdfKind::Catalog,
            forall|j: int| cat_last < j < n ==> object_kind(#[trigger] u[j].object) != PdfKind::Catalog,
            pgs_first < n && object_kind(u[pgs_first as int].object) == PdfKind::Pages,
            forall|j: int| 0 <= j < pgs_first ==> object_kind(#[trigger] u[j].object) != PdfKind::Pages,
            cat_id == u[cat_first as int].id,
            pgs_id == u[pgs_first as int].id,
            idx + remaining@.len() == n,
            remaining@ == u.subrange(idx as int, n as int),
            src_of.len() == out@.len(),
            forall|p: int, q: int| 0 <= p < q < src_of.len() ==> src_of[p] < src_of[q],
            forall|p: int| 0 <= p < src_of.len() ==> 0 <= #[trigger] src_of[p] < idx,
            forall|p: int|
                0 <= p < out@.len() ==> pass_slot_ok(
                    u,
                    pids,
                    cat_first as int,
                    pgs_first as int,
                    #[trigger] out@[p],
                    src_of[p],
                ),
            forall|k: int|
                0 <= k < idx ==> (kept_at(u, pids, cat_first as int, pgs_first as int, k)
                    <==> src_of.contains(k)),
            pgs_first < idx ==> pos_pages < out@.len() && src_of[pos_pages as int]
                == pgs_first as int,
            cat_first < idx ==> pos_catalog < out@.len() && src_of[pos_catalog as int]
                == cat_first as int,
            match acc_pages {
                Some(d) => {
                    &&& pgs_first < idx
                    &&& dict_keys_unique(d)
                    &&& forall|k: Seq<char>|
                        dict_get(d, k) == pages_union_get_upto(u, idx as int, k)
                },
                None => pgs_first >= idx,
            },
            match cat_dict {
                Some(d) => {
                    &&& cat_first < idx
                    &&& dict_keys_unique(d)
                    &&& exists|j: int|
                        0 <= j < idx && object_kind(#[trigger] u[j].object) == PdfKind::Catalog
                            && d == object_dict(u[j].object) && forall|j2: int|
                            j < j2 < idx ==> object_kind(#[trigger] u[j2].object)
                                != PdfKind::Catalog
                },
                None => cat_first >= idx,
            },
        decreases remaining@.len(),
    {
        let ghost k = idx as int;
        let ghost src_of_before = src_of;
        let ghost out_before = out@;
        let slot = remaining.remove(0);
        proof {
            assert(slot == u[k]);
            assert(remaining@ =~= u.subrange(k + 1, n as int));
        }
        let PdfSlot { id, object } = slot;
        let kind = classify(&object);
        let is_kept_page = kind == PdfKind::Page && id_in(&page_list, id);
        proof {
            if pids.contains(u[k].id) {
                lemma_slot_index(u, k);
                assert(object_kind(slot_object(u, u[k].id)) == PdfKind::Page);
            }
        }
        match object {
            PdfObject::Opaque(payload) => {
                out.push(PdfSlot { id, object: PdfObject::Opaque(payload) });
                proof {
                    src_of = src_of.push(k);
                    assert(kept_at(u, pids, cat_first as int, pgs_first as int, k));
                    assert(pass_slot_ok(
                        u,
                        pids,
                        cat_first as int,
                        pgs_first as int,
                        out@[out@.len() - 1],
                        k,
                    ));
                    lemma_pages_union_skip(u, k);
                }
            },
            PdfObject::Dict(d) => {
                if is_kept_page {
                    let ghost d_snap = d;
                    let mut pg = d;
                    dict_set(&mut pg, "Parent", PdfValue::Reference(pgs_id));
                    out.push(PdfSlot { id, object: PdfObject::Dict(pg) });
                    proof {
                        src_of = src_of.push(k);
                        assert(id == u[k].id);
                        assert(pids.contains(u[k].id));
                        assert(kept_at(u, pids, cat_first as int, pgs_first as int, k));
                        assert(d_snap == object_dict(u[k].object));
                        assert(page_reparented(d_snap, pgs_id, PdfObject::Dict(pg)));
                        assert(k != cat_first as int && k != pgs_first as int);
                        assert(pass_slot_ok(
                            u,
                            pids,
                            cat_first as int,
                            pgs_first as int,
                            out@[out@.len() - 1],
                            k,
                        ));
                        lemma_pages_union_skip(u, k);
                    }
                } else if kind == PdfKind::Page {
                    // A page object nobody listed is dropped.
                    proof {
                        assert(id == u[k].id);
                        assert(!pids.contains(u[k].id));
                        assert(!kept_at(u, pids, cat_first as int, pgs_first as int, k));
                        lemma_pages_union_skip(u, k);
                    }
                } else if kind == PdfKind::Pages {
                    if idx == pgs_first {
                        pos_pages = out.len();
                        out.push(
                            PdfSlot {
                                id,
                                object: PdfObject::Dict(PdfDict { entries: Vec::new() }),
                            },
                        );
                        let ghost d_snap = d;
                        acc_pages = Some(d);
                        proof {
                            src_of = src_of.push(k);
                            assert(kept_at(u, pids, cat_first as int, pgs_first as int, k));
                            assert(pass_slot_ok(
                                u,
                                pids,
                                cat_first as int,
                                pgs_first as int,
                                out@[out@.len() - 1],
                                k,
                            ));
                            assert(d_snap == object_dict(u[k].object));
                            assert forall|key: Seq<char>| dict_get(d_snap, key)
                                == pages_union_get_upto(u, k + 1, key) by {
                                lemma_pages_union_empty(u, k, key);
                            }
                        }
                    } else {
                        let prev = match acc_pages {
                            Some(p) => p,
                            None => {
                                proof {
                                    assert(false);
                                }
                                PdfDict { entries: Vec::new() }
                            },
                        };
                        let ghost prev_snap = prev;
                        let ghost d_snap = d;
                        let folded = dict_union(prev, d);
                        acc_pages = Some(folded);
                        proof {
                            assert(k != pgs_first as int && k != cat_first as int);
                            assert(!pids.contains(u[k].id));
                            assert(!kept_at(u, pids, cat_first as int, pgs_first as int, k));
                            assert(d_snap == object_dict(u[k].object));
                            assert forall|key: Seq<char>| dict_get(folded, key)
                                == pages_union_get_upto(u, k + 1, key) by {
                                assert(dict_get(prev_snap, key) == pages_union_get_upto(u, k, key));
                            }
                        }
                    }
                } else if kind == PdfKind::Catalog {
                    if idx == cat_first {
                        pos_catalog = out.len();
                        out.push(
                            PdfSlot {
                                id,
                                object: PdfObject::Dict(PdfDict { entries: Vec::new() }),
                            },
                        );
                        proof {
                            src_of = src_of.push(k);
                            assert(kept_at(u, pids, cat_first as int, pgs_first as int, k));
                            assert(pass_slot_ok(
                                u,
                                pids,
                                cat_first as int,
                                pgs_first as int,
                                out@[out@.len() - 1],
                                k,
                            ));
                        }
                    } else {
                        proof {
                            assert(k != pgs_first as int && k != cat_first as int);
                            assert(!pids.contains(u[k].id));
                            assert(!kept_at(u, pids, cat_first as int, pgs_first as int, k));
                        }
                    }
                    let ghost d_snap = d;
                    cat_dict = Some(d);
                    proof {
                        assert(d_snap == object_dict(u[k].object));
                        assert(object_kind(u[k].object) == PdfKind::Catalog && d_snap
                            == object_dict(u[k].object) && forall|j2: int|
                            k < j2 < k + 1 ==> object_kind(#[trigger] u[j2].object)
                                != PdfKind::Catalog);
                        lemma_pages_union_skip(u, k);
                    }
                } else if kind == PdfKind::Outlines || kind == PdfKind::Outline {
                    // Outline objects are dropped: bookmarks are rebuilt
                    // outside the graph merge.
                    proof {
                        assert(k != pgs_first as int && k != cat_first as int);
                        assert(!pids.contains(u[k].id));
                        assert(!kept_at(u, pids, cat_first as int, pgs_first as int, k));
                        lemma_pages_union_skip(u, k);
                    }
                } else {
                    out.push(PdfSlot { id, object: PdfObject::Dict(d) });
                    proof {
                        src_of = src_of.push(k);
                        assert(kept_at(u, pids, cat_first as int, pgs_first as int, k));
                        assert(k != cat_first as int && k != pgs_first as int);
                        assert(!pids.contains(u[k].id));
                        assert(pass_slot_ok(
                            u,
                            pids,
                            cat_first as int,
                            pgs_first as int,
                            out@[out@.len() - 1],
                            k,
                        ));
                        lemma_pages_union_skip(u, k);
                    }
                }
            },
        }
        idx += 1;
        proof {
            assert forall|p: int| 0 <= p < out@.len() implies pass_slot_ok(
                u,
                pids,
                cat_first as int,
                pgs_first as int,
                #[trigger] out@[p],
                src_of[p],
            ) by {
                if p < out_before.len() {
                    assert(out@[p] == out_before[p]);
                    assert(src_of[p] == src_of_before[p]);
                }
            }
            assert forall|k2: int| 0 <= k2 < idx implies (kept_at(
                u,
                pids,
                cat_first as int,
                pgs_first as int,
                k2,
            ) <==> src_of.contains(k2)) by {
                if k2 < k {
                    assert(kept_at(u, pids, cat_first as int, pgs_first as int, k2)
                        <==> src_of_before.contains(k2));
                    if src_of_before.contains(k2) {
                        let p = choose|p: int|
                            0 <= p < src_of_before.len() && src_of_before[p] == k2;
                        assert(src_of[p] == k2);
                    }
                    if src_of.contains(k2) {
                        let p = choose|p: int| 0 <= p < src_of.len() && src_of[p] == k2;
                        assert(p < src_of_before.len());
                        assert(src_of_before[p] == k2);
                    }
                } else {
                    assert(k2 == k);
                    if src_of.contains(k2) {
                        let p = choose|p: int| 0 <= p < src_of.len() && src_of[p] == k2;
                        assert(p == src_of.len() - 1);
                    }
                    if kept_at(u, pids, cat_first as int, pgs_first as int, k2) {
                        assert(src_of[src_of.len() - 1] == k2);
                    }
                }
            }
        }
    }

    proof {
        assert(idx == n);
        assert(u.subrange(0, n as int) =~= u);
    }

    // Fix up the two kept roots: the page-tree root receives the rebuilt
    // page count and child list, the catalog the root reference, and its
    // outline reference is dropped.
    proof {
        lemma_kept_page_ids_len(u, pids, n as int);
        lemma_key_literals();
    }
    let count: i64 = kids.len() as i64;
    let ghost kids_snap = kids@;
    let mut pd = match acc_pages {
        Some(d) => d,
        None => {
            proof {
                assert(false);
            }
            PdfDict { entries: Vec::new() }
        },
    };
    dict_set(&mut pd, "Count", PdfValue::Integer(count));
    dict_set(&mut pd, "Kids", PdfValue::RefArray(kids));
    let ghost pd_snap = pd;
    let ghost out_loop = out@;
    out.set(pos_pages, PdfSlot { id: pgs_id, object: PdfObject::Dict(pd) });
    let mut cd = match cat_dict {
        Some(d) => d,
        None => {
            proof {
                assert(false);
            }
            PdfDict { entries: Vec::new() }
        },
    };
    proof {
        let j = choose|j: int|
            0 <= j < n && object_kind(#[trigger] u[j].object) == PdfKind::Catalog && cd
                == object_dict(u[j].object) && forall|j2: int|
                j < j2 < n ==> object_kind(#[trigger] u[j2].object) != PdfKind::Catalog;
        assert(j == cat_last as int) by {
            if j < cat_last {
                assert(object_kind(u[cat_last as int].object) != PdfKind::Catalog);
            } else if j > cat_last {
                assert(object_kind(u[j].object) != PdfKind::Catalog);
            }
        }
        assert(cd == last_catalog_dict(u));
    }
    dict_set(&mut cd, "Pages", PdfValue::Reference(pgs_id));
    dict_remove(&mut cd, "Outlines");
    let ghost cd_snap = cd;
    out.set(pos_catalog, PdfSlot { id: cat_id, object: PdfObject::Dict(cd) });

    let result = MergedPdf { objects: out, trailer_root: cat_id, pages_root: pgs_id };
    proof {
        let m = result.objects@;
        assert(m == out_loop.update(
            pos_pages as int,
            PdfSlot { id: pgs_id, object: PdfObject::<P>::Dict(pd_snap) },
        ).update(pos_catalog as int, PdfSlot { id: cat_id, object: PdfObject::<P>::Dict(cd_snap) }));
        assert(kids_snap == merged_page_order(u, pids));
        assert(kids_snap.len() <= i64::MAX);
        assert(dict_get(pd_snap, "Count"@) == Some(
            PdfValue::<P>::Integer(kids_snap.len() as i64),
        ));
        assert(match dict_get(pd_snap, "Kids"@) {
            Some(PdfValue::RefArray(v)) => v@ == kids_snap,
            _ => false,
        });
        assert forall|k: Seq<char>| k != "Count"@ && k != "Kids"@ implies dict_get(pd_snap, k)
            == pages_union_get(u, k) by {}
        assert forall|k: Seq<char>| k != "Pages"@ && k != "Outlines"@ implies dict_get(cd_snap, k)
            == dict_get(last_catalog_dict(u), k) by {}
        crate::pdfproof::lemma_finalize_ids(
            u,
            pids,
            m,
            out_loop,
            src_of,
            cat_first as int,
            pgs_first as int,
            pos_pages as int,
            pos_catalog as int,
            pd_snap,
            cd_snap,
            cat_id,
            pgs_id,
        );
        crate::pdfproof::lemma_finalize_slots(
            u,
            pids,
            m,
            out_loop,
            src_of,
            cat_first as int,
            pgs_first as int,
            pos_pages as int,
            pos_catalog as int,
            pd_snap,
            cd_snap,
            kids_snap,
            cat_id,
            pgs_id,
        );
        crate::pdfproof::lemma_finalize_kinds(
            u,
            pids,
            m,
            out_loop,
            src_of,
            cat_first as int,
            cat_last as int,
            pgs_first as int,
            pos_pages as int,
            pos_catalog as int,
            pd_snap,
            cd_snap,
            cat_id,
            pgs_id,
        );
    }
    Ok(result)
}

} // verus!

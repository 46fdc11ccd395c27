//! Proof support for the page-merge algorithm.

use vstd::prelude::*;

use crate::pdf::{
    catalog_root_id, contains_slot_id, dict_get, dict_keys_unique, first_kind_index, id_lt,
    kept_at, kept_id, last_catalog_dict, last_kind_index, lemma_slot_index, merged_page_order,
    merged_slot_ok, object_dict, object_kind, page_reparented, pages_root_id, pages_union_get,
    lemma_key_literals, lemma_pages_union_empty, lemma_pages_union_grows, pages_union_get_upto,
    dict_kind, pass_slot_ok, slot_index_of, slot_object, slots_ascending, slots_dicts_unique, PdfDict,
    kept_page_ids_upto, PdfDocumentModel, PdfId, PdfKind, PdfObject, PdfSlot, PdfValue,
};

verus! {

/// After the root fix-ups: identifiers ascend and the surviving
/// identifiers are exactly the kept ones.
#[verifier::rlimit(100)]
pub proof fn lemma_finalize_ids<P>(
    u: Seq<PdfSlot<P>>,
    pids: Seq<PdfId>,
    m: Seq<PdfSlot<P>>,
    out_loop: Seq<PdfSlot<P>>,
    src_of: Seq<int>,
    cat_first: int,
    pgs_first: int,
    pos_pages: int,
    pos_catalog: int,
    pd: PdfDict<P>,
    cd: PdfDict<P>,
    cat_id: PdfId,
    pgs_id: PdfId,
)
    requires
        slots_ascending(u),
        forall|t: int| 0 <= t < pids.len() ==> contains_slot_id(u, #[trigger] pids[t]),
        0 <= cat_first < u.len(),
        0 <= pgs_first < u.len(),
        first_kind_index(u, PdfKind::Catalog) == cat_first,
        first_kind_index(u, PdfKind::Pages) == pgs_first,
        cat_id == u[cat_first].id,
        pgs_id == u[pgs_first].id,
        src_of.len() == out_loop.len(),
        forall|p: int, q: int| 0 <= p < q < src_of.len() ==> src_of[p] < src_of[q],
        forall|p: int| 0 <= p < src_of.len() ==> 0 <= #[trigger] src_of[p] < u.len(),
        forall|p: int| 0 <= p < out_loop.len() ==> #[trigger] out_loop[p].id == u[src_of[p]].id,
        forall|k: int|
            0 <= k < u.len() ==> (kept_at(u, pids, cat_first, pgs_first, k) <==> src_of.contains(
                k,
            )),
        0 <= pos_pages < out_loop.len(),
        0 <= pos_catalog < out_loop.len(),
        src_of[pos_pages] == pgs_first,
        src_of[pos_catalog] == cat_first,
        m == out_loop.update(pos_pages, PdfSlot { id: pgs_id, object: PdfObject::Dict(pd) }).update(
            pos_catalog,
            PdfSlot { id: cat_id, object: PdfObject::Dict(cd) },
        ),
    ensures
        cat_id == catalog_root_id(u),
        pgs_id == pages_root_id(u),
        slots_ascending(m),
        forall|p: int| 0 <= p < m.len() ==> #[trigger] m[p].id == u[src_of[p]].id,
        forall|id: PdfId| contains_slot_id(m, id) <==> kept_id(u, pids, id),
{
    assert forall|p: int| 0 <= p < m.len() implies #[trigger] m[p].id == u[src_of[p]].id by {
        if p != pos_pages && p != pos_catalog {
            assert(m[p] == out_loop[p]);
        }
    }
    assert forall|p: int, q: int| 0 <= p < q < m.len() implies id_lt(m[p].id, m[q].id) by {
        assert(src_of[p] < src_of[q]);
    }
    assert(slots_ascending(m));
    assert forall|id: PdfId| contains_slot_id(m, id) implies kept_id(u, pids, id) by {
        let p = choose|p: int| 0 <= p < m.len() && m[p].id == id;
        let k = src_of[p];
        lemma_slot_index(u, k);
        assert(src_of.contains(k));
        assert(kept_at(u, pids, cat_first, pgs_first, k));
        assert(m[p].id == u[k].id);
        if k == cat_first {
            assert(id == catalog_root_id(u));
        } else if k == pgs_first {
            assert(id == pages_root_id(u));
        }
    }
    assert forall|id: PdfId| kept_id(u, pids, id) implies contains_slot_id(m, id) by {
        let k0 = slot_index_of(u, id);
        assert(0 <= k0 < u.len() && u[k0].id == id);
        if id == catalog_root_id(u) {
            lemma_slot_index(u, cat_first);
            assert(k0 == cat_first);
        } else if id == pages_root_id(u) {
            lemma_slot_index(u, pgs_first);
            assert(k0 == pgs_first);
        } else if pids.contains(id) {
            assert(pids.contains(u[k0].id));
        } else {
            assert(slot_object(u, id) == u[k0].object);
            assert(object_kind(u[k0].object) == PdfKind::Other);
        }
        assert(kept_at(u, pids, cat_first, pgs_first, k0));
        assert(src_of.contains(k0));
        let p = choose|p: int| 0 <= p < src_of.len() && src_of[p] == k0;
        assert(0 <= p < src_of.len() && src_of[p] == k0);
        assert(0 <= p < m.len());
        assert(m[p].id == u[src_of[p]].id);
        assert(m[p].id == id);
        assert(contains_slot_id(m, id));
    }
}

/// After the root fix-ups, every surviving slot has its final shape.
#[verifier::rlimit(100)]
pub proof fn lemma_finalize_slots<P>(
    u: Seq<PdfSlot<P>>,
    pids: Seq<PdfId>,
    m: Seq<PdfSlot<P>>,
    out_loop: Seq<PdfSlot<P>>,
    src_of: Seq<int>,
    cat_first: int,
    pgs_first: int,
    pos_pages: int,
    pos_catalog: int,
    pd: PdfDict<P>,
    cd: PdfDict<P>,
    kids: Seq<PdfId>,
    cat_id: PdfId,
    pgs_id: PdfId,
)
    requires
        slots_ascending(u),
        0 <= cat_first < u.len(),
        0 <= pgs_first < u.len(),
        cat_first != pgs_first,
        catalog_root_id(u) == cat_id,
        pages_root_id(u) == pgs_id,
        cat_id == u[cat_first].id,
        pgs_id == u[pgs_first].id,
        src_of.len() == out_loop.len(),
        forall|p: int, q: int| 0 <= p < q < src_of.len() ==> src_of[p] < src_of[q],
        forall|p: int| 0 <= p < src_of.len() ==> 0 <= #[trigger] src_of[p] < u.len(),
        forall|p: int|
            0 <= p < out_loop.len() ==> pass_slot_ok(
                u,
                pids,
                cat_first,
                pgs_first,
                #[trigger] out_loop[p],
                src_of[p],
            ),
        0 <= pos_pages < out_loop.len(),
        0 <= pos_catalog < out_loop.len(),
        src_of[pos_pages] == pgs_first,
        src_of[pos_catalog] == cat_first,
        m == out_loop.update(pos_pages, PdfSlot { id: pgs_id, object: PdfObject::Dict(pd) }).update(
            pos_catalog,
            PdfSlot { id: cat_id, object: PdfObject::Dict(cd) },
        ),
        dict_keys_unique(pd),
        kids == merged_page_order(u, pids),
        kids.len() <= i64::MAX,
        dict_get(pd, "Count"@) == Some(PdfValue::<P>::Integer(kids.len() as i64)),
        match dict_get(pd, "Kids"@) {
            Some(PdfValue::RefArray(v)) => v@ == kids,
            _ => false,
        },
        forall|k: Seq<char>|
            k != "Count"@ && k != "Kids"@ ==> dict_get(pd, k) == pages_union_get(u, k),
        dict_keys_unique(cd),
        dict_get(cd, "Pages"@) == Some(PdfValue::<P>::Reference(pgs_id)),
        dict_get(cd, "Outlines"@) is None,
        forall|k: Seq<char>|
            k != "Pages"@ && k != "Outlines"@ ==> dict_get(cd, k) == dict_get(
                last_catalog_dict(u),
                k,
            ),
    ensures
        forall|p: int| 0 <= p < m.len() ==> merged_slot_ok(u, pids, #[trigger] m[p]),
{
    assert(cat_id != pgs_id) by {
        assert(id_lt(u[cat_first].id, u[pgs_first].id) || id_lt(u[pgs_first].id, u[cat_first].id));
    }
    assert(pos_pages != pos_catalog);
    assert(m[pos_pages] == PdfSlot { id: pgs_id, object: PdfObject::<P>::Dict(pd) });
    assert(m[pos_catalog] == PdfSlot { id: cat_id, object: PdfObject::<P>::Dict(cd) });
    assert forall|p: int| 0 <= p < m.len() implies merged_slot_ok(u, pids, #[trigger] m[p]) by {
        let k = src_of[p];
        lemma_slot_index(u, k);
        if p == pos_pages {
            assert(m[p].id == pages_root_id(u) && m[p].id != catalog_root_id(u));
        } else if p == pos_catalog {
            assert(m[p].id == catalog_root_id(u));
        } else {
            assert(m[p] == out_loop[p]);
            assert(pass_slot_ok(u, pids, cat_first, pgs_first, m[p], k));
            assert(k != cat_first && k != pgs_first);
            assert(m[p].id != cat_id) by {
                if m[p].id == u[cat_first].id {
                    lemma_slot_index(u, cat_first);
                }
            }
            assert(m[p].id != pgs_id) by {
                if m[p].id == u[pgs_first].id {
                    lemma_slot_index(u, pgs_first);
                }
            }
            if pids.contains(u[k].id) {
                assert(slot_object(u, m[p].id) == u[k].object);
                assert(page_reparented(object_dict(u[k].object), u[pgs_first].id, m[p].object));
            } else {
                assert(m[p].object == u[k].object);
                assert(slot_object(u, m[p].id) == u[k].object);
            }
        }
    }
}

/// After the root fix-ups, exactly one catalog and one page-tree root
/// survive: the trailer root and the kept page-tree root.
#[verifier::rlimit(100)]
pub proof fn lemma_finalize_kinds<P>(
    u: Seq<PdfSlot<P>>,
    pids: Seq<PdfId>,
    m: Seq<PdfSlot<P>>,
    out_loop: Seq<PdfSlot<P>>,
    src_of: Seq<int>,
    cat_first: int,
    cat_last: int,
    pgs_first: int,
    pos_pages: int,
    pos_catalog: int,
    pd: PdfDict<P>,
    cd: PdfDict<P>,
    cat_id: PdfId,
    pgs_id: PdfId,
)
    requires
        slots_ascending(u),
        slots_dicts_unique(u),
        forall|t: int|
            0 <= t < pids.len() ==> contains_slot_id(u, #[trigger] pids[t]) && object_kind(
                slot_object(u, pids[t]),
            ) == PdfKind::Page,
        0 <= cat_first < u.len(),
        0 <= cat_last < u.len(),
        0 <= pgs_first < u.len(),
        cat_first != pgs_first,
        catalog_root_id(u) == cat_id,
        pages_root_id(u) == pgs_id,
        last_kind_index(u, PdfKind::Catalog) == cat_last,
        object_kind(u[cat_last].object) == PdfKind::Catalog,
        object_kind(u[pgs_first].object) == PdfKind::Pages,
        forall|j: int| 0 <= j < pgs_first ==> object_kind(#[trigger] u[j].object) != PdfKind::Pages,
        cat_id == u[cat_first].id,
        pgs_id == u[pgs_first].id,
        src_of.len() == out_loop.len(),
        forall|p: int, q: int| 0 <= p < q < src_of.len() ==> src_of[p] < src_of[q],
        forall|p: int| 0 <= p < src_of.len() ==> 0 <= #[trigger] src_of[p] < u.len(),
        forall|p: int|
            0 <= p < out_loop.len() ==> pass_slot_ok(
                u,
                pids,
                cat_first,
                pgs_first,
                #[trigger] out_loop[p],
                src_of[p],
            ),
        forall|k: int|
            0 <= k < u.len() ==> (kept_at(u, pids, cat_first, pgs_first, k) <==> src_of.contains(
                k,
            )),
        0 <= pos_pages < out_loop.len(),
        0 <= pos_catalog < out_loop.len(),
        src_of[pos_pages] == pgs_first,
        src_of[pos_catalog] == cat_first,
        m == out_loop.update(pos_pages, PdfSlot { id: pgs_id, object: PdfObject::Dict(pd) }).update(
            pos_catalog,
            PdfSlot { id: cat_id, object: PdfObject::Dict(cd) },
        ),
        forall|k: Seq<char>|
            k != "Count"@ && k != "Kids"@ ==> dict_get(pd, k) == pages_union_get(u, k),
        forall|k: Seq<char>|
            k != "Pages"@ && k != "Outlines"@ ==> dict_get(cd, k) == dict_get(
                last_catalog_dict(u),
                k,
            ),
    ensures
        forall|p: int|
            0 <= p < m.len() ==> (object_kind(#[trigger] m[p].object) == PdfKind::Catalog <==> m[
                p
            ].id == cat_id),
        forall|p: int|
            0 <= p < m.len() ==> (object_kind(#[trigger] m[p].object) == PdfKind::Pages <==> m[
                p
            ].id == pgs_id),
{
    lemma_key_literals();
    let n = u.len() as int;
    assert(cat_id != pgs_id) by {
        assert(id_lt(u[cat_first].id, u[pgs_first].id) || id_lt(u[pgs_first].id, u[cat_first].id));
    }
    assert(pos_pages != pos_catalog);
    assert(m[pos_pages] == PdfSlot { id: pgs_id, object: PdfObject::<P>::Dict(pd) });
    assert(m[pos_catalog] == PdfSlot { id: cat_id, object: PdfObject::<P>::Dict(cd) });

    // The fixed catalog keeps the last catalog's declared type.
    assert(dict_kind(last_catalog_dict(u)) == PdfKind::Catalog);
    assert(dict_get(cd, "Type"@) == dict_get(last_catalog_dict(u), "Type"@));
    assert(dict_kind(cd) == PdfKind::Catalog) by {
        reveal(dict_kind);
    }
    // The fixed page-tree root keeps the first root's declared type.
    let d0 = object_dict(u[pgs_first].object);
    assert(dict_kind(d0) == PdfKind::Pages);
    assert(dict_get(d0, "Type"@) is Some) by {
        reveal(dict_kind);
    }
    assert(pages_union_get(u, "Type"@) == dict_get(d0, "Type"@)) by {
        lemma_pages_union_empty(u, pgs_first, "Type"@);
        assert(pages_union_get_upto(u, pgs_first + 1, "Type"@) == dict_get(d0, "Type"@));
        lemma_pages_union_grows(u, pgs_first + 1, n, "Type"@);
    }
    assert(dict_get(pd, "Type"@) == pages_union_get(u, "Type"@));
    assert(dict_kind(pd) == PdfKind::Pages) by {
        reveal(dict_kind);
    }

    assert forall|p: int|
        0 <= p < m.len() && p != pos_pages && p != pos_catalog implies object_kind(m[p].object)
        != PdfKind::Catalog && object_kind(m[p].object) != PdfKind::Pages && m[p].id != cat_id && m[
        p
    ].id != pgs_id by {
        let k = src_of[p];
        lemma_slot_index(u, k);
        assert(m[p] == out_loop[p]);
        assert(pass_slot_ok(u, pids, cat_first, pgs_first, m[p], k));
        assert(k != cat_first && k != pgs_first);
        assert(m[p].id != cat_id) by {
            if m[p].id == u[cat_first].id {
                lemma_slot_index(u, cat_first);
            }
        }
        assert(m[p].id != pgs_id) by {
            if m[p].id == u[pgs_first].id {
                lemma_slot_index(u, pgs_first);
            }
        }
        if pids.contains(u[k].id) {
            assert(object_kind(slot_object(u, u[k].id)) == PdfKind::Page);
            let src = object_dict(u[k].object);
            assert(dict_kind(src) == PdfKind::Page);
            assert(page_reparented(src, u[pgs_first].id, m[p].object));
            match m[p].object {
                PdfObject::Dict(pg) => {
                    assert(dict_get(pg, "Type"@) == dict_get(src, "Type"@));
                    assert(dict_kind(pg) == PdfKind::Page) by {
                        reveal(dict_kind);
                    }
                },
                PdfObject::Opaque(_) => {
                    assert(false);
                },
            }
        } else {
            assert(m[p].object == u[k].object);
            assert(src_of.contains(k));
            assert(kept_at(u, pids, cat_first, pgs_first, k));
            assert(object_kind(m[p].object) == PdfKind::Other);
        }
    }
    assert forall|p: int| 0 <= p < m.len() implies (object_kind(#[trigger] m[p].object)
        == PdfKind::Catalog <==> m[p].id == cat_id) by {
        if p == pos_pages {
            assert(object_kind(m[p].object) == PdfKind::Pages);
        }
    }
    assert forall|p: int| 0 <= p < m.len() implies (object_kind(#[trigger] m[p].object)
        == PdfKind::Pages <==> m[p].id == pgs_id) by {
        if p == pos_catalog {
            assert(object_kind(m[p].object) == PdfKind::Catalog);
        }
    }
}

} // verus!

verus! {

/// Step for the page-order concatenation law, over a prefix of the union.
proof fn lemma_page_order_prefix<P>(
    a_objs: Seq<PdfSlot<P>>,
    b_objs: Seq<PdfSlot<P>>,
    a_pids: Seq<PdfId>,
    b_pids: Seq<PdfId>,
    i: int,
)
    requires
        forall|t: int| 0 <= t < b_pids.len() ==> !contains_slot_id(a_objs, #[trigger] b_pids[t]),
        forall|t: int| 0 <= t < a_pids.len() ==> !contains_slot_id(b_objs, #[trigger] a_pids[t]),
        0 <= i <= a_objs.len() + b_objs.len(),
    ensures
        kept_page_ids_upto(a_objs + b_objs, a_pids + b_pids, i) == (if i <= a_objs.len() {
            kept_page_ids_upto(a_objs, a_pids, i)
        } else {
            kept_page_ids_upto(a_objs, a_pids, a_objs.len() as int) + kept_page_ids_upto(
                b_objs,
                b_pids,
                i - a_objs.len(),
            )
        }),
    decreases i,
{
    let u = a_objs + b_objs;
    let pids = a_pids + b_pids;
    if i == 0 {
        assert(kept_page_ids_upto(a_objs, a_pids, 0) =~= Seq::<PdfId>::empty());
    } else {
        lemma_page_order_prefix(a_objs, b_objs, a_pids, b_pids, i - 1);
        if i - 1 < a_objs.len() {
            assert(u[i - 1] == a_objs[i - 1]);
            assert(pids.contains(u[i - 1].id) == a_pids.contains(u[i - 1].id)) by {
                if pids.contains(u[i - 1].id) {
                    let t = choose|t: int| 0 <= t < pids.len() && pids[t] == u[i - 1].id;
                    if t >= a_pids.len() {
                        assert(b_pids[t - a_pids.len()] == u[i - 1].id);
                        assert(contains_slot_id(a_objs, u[i - 1].id));
                        assert(false);
                    } else {
                        assert(a_pids[t] == u[i - 1].id);
                    }
                }
                if a_pids.contains(u[i - 1].id) {
                    let t = choose|t: int| 0 <= t < a_pids.len() && a_pids[t] == u[i - 1].id;
                    assert(pids[t] == u[i - 1].id);
                }
            }
        } else {
            let j = i - 1 - a_objs.len();
            assert(u[i - 1] == b_objs[j]);
            assert(pids.contains(u[i - 1].id) == b_pids.contains(u[i - 1].id)) by {
                if pids.contains(u[i - 1].id) {
                    let t = choose|t: int| 0 <= t < pids.len() && pids[t] == u[i - 1].id;
                    if t < a_pids.len() {
                        assert(a_pids[t] == u[i - 1].id);
                        assert(contains_slot_id(b_objs, u[i - 1].id));
                        assert(false);
                    } else {
                        assert(b_pids[t - a_pids.len()] == u[i - 1].id);
                    }
                }
                if b_pids.contains(u[i - 1].id) {
                    let t = choose|t: int| 0 <= t < b_pids.len() && b_pids[t] == u[i - 1].id;
                    assert(pids[a_pids.len() + t] == u[i - 1].id);
                }
            }
        }
    }
}

/// The merged document's page order is the existing document's pages
/// followed by the incoming document's pages, in order: merging never
/// drops, duplicates or reorders pages. In particular the rebuilt page
/// count is the sum of the two documents' page counts, so merging a
/// sequence of one-page documents into a running output, one after the
/// other, leaves the output's page tree reporting exactly as many pages as
/// documents were merged, in scan order.
pub proof fn lemma_merge_page_order_concat<P>(a: PdfDocumentModel<P>, b: PdfDocumentModel<P>)
    requires
        forall|t: int|
            0 <= t < b.page_ids@.len() ==> !contains_slot_id(
                a.objects@,
                #[trigger] b.page_ids@[t],
            ),
        forall|t: int|
            0 <= t < a.page_ids@.len() ==> !contains_slot_id(
                b.objects@,
                #[trigger] a.page_ids@[t],
            ),
    ensures
        merged_page_order(a.objects@ + b.objects@, a.page_ids@ + b.page_ids@)
            == merged_page_order(a.objects@, a.page_ids@) + merged_page_order(
            b.objects@,
            b.page_ids@,
        ),
        merged_page_order(a.objects@ + b.objects@, a.page_ids@ + b.page_ids@).len()
            == merged_page_order(a.objects@, a.page_ids@).len() + merged_page_order(
            b.objects@,
            b.page_ids@,
        ).len(),
{
    lemma_page_order_prefix(
        a.objects@,
        b.objects@,
        a.page_ids@,
        b.page_ids@,
        (a.objects@ + b.objects@).len() as int,
    );
}

} // verus!

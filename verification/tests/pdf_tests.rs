use escl_scan::pdf::{
    merge_documents, MergedPdf, PdfDict, PdfDocumentModel, PdfEntry, PdfId, PdfObject, PdfSlot,
    PdfValue,
};
use escl_scan::scannererror::ErrorCode;

type Payload = lopdf::Object;
type Doc = PdfDocumentModel<Payload>;

fn id(num: u32) -> PdfId {
    PdfId { num, gen: 0 }
}

fn name_entry(key: &str, name: &str) -> PdfEntry<Payload> {
    PdfEntry { key: key.to_string(), value: PdfValue::Name(name.to_string()) }
}

fn ref_entry(key: &str, num: u32) -> PdfEntry<Payload> {
    PdfEntry { key: key.to_string(), value: PdfValue::Reference(id(num)) }
}

fn int_entry(key: &str, v: i64) -> PdfEntry<Payload> {
    PdfEntry { key: key.to_string(), value: PdfValue::Integer(v) }
}

fn opaque_entry(key: &str, payload: Payload) -> PdfEntry<Payload> {
    PdfEntry { key: key.to_string(), value: PdfValue::Opaque(payload) }
}

fn dict(entries: Vec<PdfEntry<Payload>>) -> PdfObject<Payload> {
    PdfObject::Dict(PdfDict { entries })
}

fn slot(num: u32, object: PdfObject<Payload>) -> PdfSlot<Payload> {
    PdfSlot { id: id(num), object }
}

/// A one-page document whose object identifiers start at `start`: catalog,
/// page-tree root, one page, and one opaque content object.
fn one_page_doc(start: u32) -> Doc {
    PdfDocumentModel {
        objects: vec![
            slot(start, dict(vec![name_entry("Type", "Catalog"), ref_entry("Pages", start + 1)])),
            slot(
                start + 1,
                dict(vec![
                    name_entry("Type", "Pages"),
                    int_entry("Count", 1),
                    ref_entry("Kids", start + 2),
                ]),
            ),
            slot(
                start + 2,
                dict(vec![
                    name_entry("Type", "Page"),
                    ref_entry("Parent", start + 1),
                    ref_entry("Contents", start + 3),
                ]),
            ),
            slot(start + 3, PdfObject::Opaque(lopdf::Object::Null)),
        ],
        page_ids: vec![id(start + 2)],
    }
}

fn lookup<'a>(m: &'a MergedPdf<Payload>, num: u32) -> Option<&'a PdfObject<Payload>> {
    m.objects.iter().find(|s| s.id == id(num)).map(|s| &s.object)
}

fn dict_value<'a>(o: &'a PdfObject<Payload>, key: &str) -> Option<&'a PdfValue<Payload>> {
    match o {
        PdfObject::Dict(d) => d.entries.iter().find(|e| e.key == key).map(|e| &e.value),
        PdfObject::Opaque(_) => None,
    }
}

#[test]
fn merging_two_one_page_documents_yields_two_pages_in_order() {
    let m = merge_documents(one_page_doc(1), one_page_doc(5)).unwrap();
    assert_eq!(m.trailer_root, id(1));
    assert_eq!(m.pages_root, id(2));
    // Kept: catalog 1, root 2, pages 3 and 7, content 4 and 8.
    // Dropped: the second catalog 5 and the second root 6.
    let kept: Vec<u32> = m.objects.iter().map(|s| s.id.num).collect();
    assert_eq!(kept, vec![1, 2, 3, 4, 7, 8]);
    // The kept root reports both pages, in scan order.
    let root = lookup(&m, 2).unwrap();
    assert!(matches!(dict_value(root, "Count"), Some(PdfValue::Integer(2))));
    match dict_value(root, "Kids") {
        Some(PdfValue::RefArray(kids)) => assert_eq!(kids, &vec![id(3), id(7)]),
        other => panic!("expected a Kids reference array, got {other:?}"),
    }
    // Both pages now point at the kept root.
    for page in [3, 7] {
        match dict_value(lookup(&m, page).unwrap(), "Parent") {
            Some(PdfValue::Reference(parent)) => assert_eq!(*parent, id(2)),
            other => panic!("expected a Parent reference, got {other:?}"),
        }
    }
    // The kept catalog points at the kept root.
    match dict_value(lookup(&m, 1).unwrap(), "Pages") {
        Some(PdfValue::Reference(pages)) => assert_eq!(*pages, id(2)),
        other => panic!("expected a Pages reference, got {other:?}"),
    }
    // Exactly one catalog and one page-tree root are left.
    let catalogs = m
        .objects
        .iter()
        .filter(|s| matches!(dict_value(&s.object, "Type"), Some(PdfValue::Name(n)) if n == "Catalog"))
        .count();
    let roots = m
        .objects
        .iter()
        .filter(|s| matches!(dict_value(&s.object, "Type"), Some(PdfValue::Name(n)) if n == "Pages"))
        .count();
    assert_eq!((catalogs, roots), (1, 1));
}

#[test]
fn merging_k_documents_sequentially_counts_k_pages() {
    // Page merges run one at a time: each output becomes the next input.
    let m1 = merge_documents(one_page_doc(1), one_page_doc(5)).unwrap();
    let running = PdfDocumentModel { objects: m1.objects, page_ids: vec![id(3), id(7)] };
    let m2 = merge_documents(running, one_page_doc(9)).unwrap();
    let root = lookup(&m2, 2).unwrap();
    assert!(matches!(dict_value(root, "Count"), Some(PdfValue::Integer(3))));
    match dict_value(root, "Kids") {
        Some(PdfValue::RefArray(kids)) => assert_eq!(kids, &vec![id(3), id(7), id(11)]),
        other => panic!("expected a Kids reference array, got {other:?}"),
    }
    assert_eq!(m2.trailer_root, id(1));
    assert_eq!(m2.pages_root, id(2));
}

#[test]
fn outline_objects_and_references_are_dropped() {
    let mut first = one_page_doc(1);
    // The existing document carries an outline tree the merge cannot keep.
    match &mut first.objects[0].object {
        PdfObject::Dict(d) => d.entries.push(ref_entry("Outlines", 5)),
        _ => unreachable!(),
    }
    first.objects.push(slot(5, dict(vec![name_entry("Type", "Outlines"), int_entry("Count", 1)])));
    let m = merge_documents(first, one_page_doc(6)).unwrap();
    assert!(lookup(&m, 5).is_none());
    assert!(dict_value(lookup(&m, 1).unwrap(), "Outlines").is_none());
}

#[test]
fn the_page_tree_roots_are_field_unioned_first_seen_wins() {
    let mut first = one_page_doc(1);
    match &mut first.objects[1].object {
        PdfObject::Dict(d) => {
            d.entries.push(opaque_entry("MediaBox", lopdf::Object::Integer(595)))
        },
        _ => unreachable!(),
    }
    let mut second = one_page_doc(5);
    match &mut second.objects[1].object {
        PdfObject::Dict(d) => {
            d.entries.push(opaque_entry("MediaBox", lopdf::Object::Integer(842)));
            d.entries.push(int_entry("Rotate", 90));
        },
        _ => unreachable!(),
    }
    let m = merge_documents(first, second).unwrap();
    let root = lookup(&m, 2).unwrap();
    // The kept (first) root's value wins on the shared key.
    match dict_value(root, "MediaBox") {
        Some(PdfValue::Opaque(v)) => assert_eq!(*v, lopdf::Object::Integer(595)),
        other => panic!("expected the first MediaBox, got {other:?}"),
    }
    // Keys only the later root has are carried over.
    assert!(matches!(dict_value(root, "Rotate"), Some(PdfValue::Integer(90))));
}

#[test]
fn opaque_objects_are_carried_through_untouched() {
    let mut first = one_page_doc(1);
    let payload = lopdf::Object::string_literal("raw page content");
    first.objects[3] = slot(4, PdfObject::Opaque(payload.clone()));
    let m = merge_documents(first, one_page_doc(5)).unwrap();
    match lookup(&m, 4).unwrap() {
        PdfObject::Opaque(p) => assert_eq!(*p, payload),
        other => panic!("expected the opaque payload back, got {other:?}"),
    }
}

#[test]
fn a_union_without_a_catalog_or_root_is_a_merge_error() {
    // Without any page-tree root the merge must not pretend to succeed.
    let no_root = PdfDocumentModel {
        objects: vec![slot(1, dict(vec![name_entry("Type", "Catalog")]))],
        page_ids: vec![],
    };
    let other = PdfDocumentModel {
        objects: vec![slot(2, PdfObject::Opaque(lopdf::Object::Null))],
        page_ids: vec![],
    };
    let e = merge_documents(no_root, other).unwrap_err();
    assert!(matches!(e.code, ErrorCode::PdfError));

    let no_catalog = PdfDocumentModel {
        objects: vec![slot(1, dict(vec![name_entry("Type", "Pages"), int_entry("Count", 0)]))],
        page_ids: vec![],
    };
    let other = PdfDocumentModel { objects: vec![], page_ids: vec![] };
    let e = merge_documents(no_catalog, other).unwrap_err();
    assert!(matches!(e.code, ErrorCode::PdfError));
}

#[test]
fn an_incoming_document_numbered_below_the_existing_one_is_rejected() {
    // The caller renumbers the incoming document above the existing one;
    // a union out of order is refused rather than silently merged.
    let e = merge_documents(one_page_doc(5), one_page_doc(1)).unwrap_err();
    assert!(matches!(e.code, ErrorCode::PdfError));
}

#[test]
fn a_listed_page_identifier_must_name_a_page_object() {
    let mut first = one_page_doc(1);
    // The listed identifier names the content object, not a page.
    first.page_ids = vec![id(4)];
    let e = merge_documents(first, one_page_doc(5)).unwrap_err();
    assert!(matches!(e.code, ErrorCode::PdfError));

    let mut first = one_page_doc(1);
    // The listed identifier names nothing at all.
    first.page_ids = vec![id(40)];
    let e = merge_documents(first, one_page_doc(5)).unwrap_err();
    assert!(matches!(e.code, ErrorCode::PdfError));
}

#[test]
fn a_dictionary_with_repeated_keys_is_rejected() {
    let mut first = one_page_doc(1);
    match &mut first.objects[2].object {
        PdfObject::Dict(d) => d.entries.push(name_entry("Type", "Page")),
        _ => unreachable!(),
    }
    let e = merge_documents(first, one_page_doc(5)).unwrap_err();
    assert!(matches!(e.code, ErrorCode::PdfError));
}

#[test]
fn merged_identifiers_stay_in_ascending_order() {
    let m = merge_documents(one_page_doc(1), one_page_doc(5)).unwrap();
    for pair in m.objects.windows(2) {
        assert!(pair[0].id.num < pair[1].id.num);
    }
}

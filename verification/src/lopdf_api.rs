//! Trusted boundary to the PDF object library.
//!
//! Parsing depends on the input bytes alone (the library is built without
//! its parallel-parsing feature), so parse success, the page list and the
//! page objects of a blob are named functions of the bytes. A document
//! under construction is modeled as a collection: names give its object
//! table, its id counter and its trailer root, and every mutating wrapper
//! says exactly how they change. Object values stay opaque; the handful of
//! constructor results the emitter uses are named, so the shape of a built
//! document is expressible, and one round-trip fact states what the
//! library's own writer and parser do with such a document.

use vstd::prelude::*;

verus! {

#[verifier::external_type_specification]
#[verifier::external_body]
pub struct ExDocument(lopdf::Document);

#[verifier::external_type_specification]
#[verifier::external_body]
pub struct ExObject(lopdf::Object);

#[verifier::external_type_specification]
#[verifier::external_body]
pub struct ExDictionary(lopdf::Dictionary);

#[verifier::external_type_specification]
#[verifier::external_body]
pub struct ExLopdfError(lopdf::Error);

/// Whether the PDF parser accepts this byte blob.
pub uninterp spec fn spec_pdf_parses(bytes: Seq<u8>) -> bool;

/// The page object identifiers, in page-tree traversal order, of the
/// document parsed from this byte blob.
pub uninterp spec fn spec_pdf_page_ids(bytes: Seq<u8>) -> Seq<(u32, u16)>;

/// The dereferenced page objects, in traversal order, of the document
/// parsed from this byte blob.
pub uninterp spec fn spec_pdf_page_objects(bytes: Seq<u8>) -> Seq<lopdf::Object>;

/// Whether every object resolvable in the document parsed from this blob
/// re-serializes cleanly (see `spec_writable`).
pub uninterp spec fn spec_pdf_clean(bytes: Seq<u8>) -> bool;

/// What the page-tree traversal of a document value yields: its page
/// object ids in traversal order.
pub uninterp spec fn spec_doc_page_ids(d: lopdf::Document) -> Seq<(u32, u16)>;

/// The dereferenced page objects of a document value, in traversal order.
pub uninterp spec fn spec_doc_page_objects(d: lopdf::Document) -> Seq<lopdf::Object>;

/// Whether every object resolvable in this document re-serializes cleanly.
pub uninterp spec fn spec_doc_clean(d: lopdf::Document) -> bool;

/// The object table of a document value.
pub uninterp spec fn spec_doc_objects(d: lopdf::Document) -> Map<(u32, u16), lopdf::Object>;

/// The id counter of a document value: the highest object number handed
/// out so far.
pub uninterp spec fn spec_doc_max_id(d: lopdf::Document) -> u32;

/// The Root reference of a document value's trailer.
pub uninterp spec fn spec_doc_root(d: lopdf::Document) -> Option<(u32, u16)>;

/// The bytes the writer produces for a document value.
pub uninterp spec fn spec_saved_bytes(d: lopdf::Document) -> Seq<u8>;

/// Whether an object value is a dereferenced dictionary whose Type entry
/// is the name Page — what the page-tree traversal accepts as a page.
pub uninterp spec fn spec_page_dict(o: lopdf::Object) -> bool;

/// Whether an object value serializes as a token stream the parser reads
/// back as one object of the same kind, with the same dictionary entries
/// and references, consuming exactly what was written. The writer escapes
/// names and records stream lengths, so every value the emitter constructs
/// is of this kind; a value copied from a foreign file need not be (its
/// writer prints reals through their Display form, and an overflowed
/// parsed real prints as text its parser rejects).
pub uninterp spec fn spec_writable(o: lopdf::Object) -> bool;

/// The entries of a dictionary value, in insertion order; keys are unique.
pub uninterp spec fn spec_dict_entries(d: lopdf::Dictionary) -> Seq<(Seq<char>, lopdf::Object)>;

/// The result of the Object::Reference constructor.
pub uninterp spec fn spec_reference_object(id: (u32, u16)) -> lopdf::Object;

/// The result of the Object::Integer constructor.
pub uninterp spec fn spec_integer_object(v: i64) -> lopdf::Object;

/// The result of the Object::Name constructor on the UTF-8 bytes of a
/// string.
pub uninterp spec fn spec_name_object(name: Seq<char>) -> lopdf::Object;

/// The result of the Object::Array constructor.
pub uninterp spec fn spec_array_object(items: Seq<lopdf::Object>) -> lopdf::Object;

/// The result of the Object::Dictionary constructor.
pub uninterp spec fn spec_dictionary_object(d: lopdf::Dictionary) -> lopdf::Object;

/// The result of Stream::new on a dictionary and content bytes (the
/// constructor records the content length in the dictionary).
pub uninterp spec fn spec_stream_object(d: lopdf::Dictionary, content: Seq<u8>) -> lopdf::Object;

/// The result of setting a dictionary entry to an indirect reference; any
/// non-dictionary object is left unchanged.
pub uninterp spec fn spec_with_entry_ref(o: lopdf::Object, key: Seq<char>, target: (u32, u16)) -> lopdf::Object;

/// A document whose object table holds exactly the ids 1..max under
/// generation 0, all clean to write, rooted at a catalog in last position
/// that points at a page tree in second-to-last position whose kids are
/// exactly `kids`: distinct page-typed objects below the tree.
pub open spec fn spec_well_built(d: lopdf::Document, kids: Seq<(u32, u16)>) -> bool {
    let objs = spec_doc_objects(d);
    let n = spec_doc_max_id(d) as int;
    let cat = ((n) as u32, 0u16);
    let tree = ((n - 1) as u32, 0u16);
    &&& n >= 2
    &&& objs.dom() =~= Set::new(|id: (u32, u16)| 1 <= id.0 <= n && id.1 == 0)
    &&& spec_doc_root(d) == Some(cat)
    &&& exists|dc: lopdf::Dictionary|
        #![trigger spec_dictionary_object(dc)]
        objs[cat] == spec_dictionary_object(dc) && spec_dict_entries(dc) =~= seq![
            ("Type"@, spec_name_object("Catalog"@)),
            ("Pages"@, spec_reference_object(tree)),
        ]
    &&& exists|dt: lopdf::Dictionary|
        #![trigger spec_dictionary_object(dt)]
        objs[tree] == spec_dictionary_object(dt) && spec_dict_entries(dt) =~= seq![
            ("Type"@, spec_name_object("Pages"@)),
            ("Count"@, spec_integer_object(kids.len() as i64)),
            ("Kids"@, spec_array_object(kids.map_values(|k: (u32, u16)| spec_reference_object(k)))),
        ]
    &&& forall|j: int|
        0 <= j < kids.len() ==> 1 <= (#[trigger] kids[j]).0 && kids[j].0 <= n - 2 && kids[j].1 == 0
    &&& forall|j1: int, j2: int|
        #![trigger kids[j1], kids[j2]]
        0 <= j1 < j2 < kids.len() ==> kids[j1] != kids[j2]
    &&& forall|j: int| 0 <= j < kids.len() ==> spec_page_dict(objs[#[trigger] kids[j]])
    &&& forall|id: (u32, u16)| objs.dom().contains(id) ==> spec_writable(#[trigger] objs[id])
}

/// Relies on Document::load_mem: with the parallel feature off, parsing
/// depends on the bytes alone, so its success, the loaded document's page
/// list, its page objects and its cleanliness are functions of the input.
#[verifier::external_body]
pub(crate) fn load_pdf(bytes: &[u8]) -> (r: Result<lopdf::Document, lopdf::Error>)
    ensures
        r is Ok <==> spec_pdf_parses(bytes@),
        r matches Ok(d) ==> {
            &&& spec_doc_page_ids(d) == spec_pdf_page_ids(bytes@)
            &&& spec_doc_page_objects(d) == spec_pdf_page_objects(bytes@)
            &&& spec_doc_page_objects(d).len() == spec_doc_page_ids(d).len()
            &&& spec_doc_clean(d) == spec_pdf_clean(bytes@)
        },
{
    lopdf::Document::load_mem(bytes)
}

/// Relies on Document::get_pages: it maps page numbers 1..n to page object
/// ids following page-tree traversal order, so its values in key order are
/// the traversal order.
#[verifier::external_body]
pub(crate) fn page_ids(d: &lopdf::Document) -> (r: Vec<(u32, u16)>)
    ensures
        r@ == spec_doc_page_ids(*d),
{
    d.get_pages().values().cloned().collect()
}

/// What fetching an object yields for an id found on the page list: the
/// page object recorded at that position, a Page-typed dictionary.
pub open spec fn spec_yields_page(d: lopdf::Document, id: (u32, u16), r: Result<
    lopdf::Object,
    lopdf::Error,
>) -> bool {
    forall|k: int|
        0 <= k < spec_doc_page_ids(d).len() && spec_doc_page_ids(d)[k] == id && k
            < spec_doc_page_objects(d).len() ==> (r matches Ok(o) && o == spec_doc_page_objects(
            d,
        )[k] && spec_page_dict(o))
}

/// Relies on Document::get_object: the page-tree traversal only yields ids
/// it has successfully dereferenced to a Page-typed dictionary, so
/// fetching an id from the page list of an unmodified document succeeds
/// and returns that page object. A clean document resolves only clean
/// objects.
#[verifier::external_body]
pub(crate) fn get_object(d: &lopdf::Document, id: (u32, u16)) -> (r: Result<
    lopdf::Object,
    lopdf::Error,
>)
    ensures
        spec_doc_page_ids(*d).contains(id) ==> r is Ok,
        spec_yields_page(*d, id, r),
        r matches Ok(o) ==> (spec_doc_clean(*d) ==> spec_writable(o)),
{
    d.get_object(id).map(|o| o.clone())
}

/// Relies on Object::clone, a derived structural clone.
#[verifier::external_body]
pub(crate) fn clone_object(o: &lopdf::Object) -> (r: lopdf::Object)
    ensures
        r == *o,
{
    o.clone()
}

/// Reads the target of an indirect reference stored under `key`: Some
/// exactly when the object is a dictionary whose entry under this key is a
/// reference. Relies on Dictionary::get; the callers handle both outcomes.
#[verifier::external_body]
pub(crate) fn dict_entry_reference(o: &lopdf::Object, key: &str) -> (r: Option<(u32, u16)>) {
    match o {
        lopdf::Object::Dictionary(d) => match d.get(key.as_bytes()) {
            Ok(lopdf::Object::Reference(id)) => Some(*id),
            _ => None,
        },
        _ => None,
    }
}

/// Rewrites a dictionary entry to an indirect reference when the object is
/// a dictionary; leaves any other object unchanged. Relies on
/// Dictionary::set. Setting any entry other than Type keeps a page
/// dictionary a page dictionary, and a reference entry never spoils
/// serializability.
#[verifier::external_body]
pub(crate) fn set_entry_reference(o: &mut lopdf::Object, key: &str, target: (u32, u16))
    ensures
        *final(o) == spec_with_entry_ref(*old(o), key@, target),
        spec_page_dict(*old(o)) && key@ != "Type"@ ==> spec_page_dict(*final(o)),
        spec_writable(*old(o)) ==> spec_writable(*final(o)),
{
    if let lopdf::Object::Dictionary(d) = o {
        d.set(key.as_bytes().to_vec(), lopdf::Object::Reference(target));
    }
}

/// Relies on Document::with_version: a fresh empty document with an empty
/// trailer and an id counter at zero.
#[verifier::external_body]
pub(crate) fn new_document() -> (r: lopdf::Document)
    ensures
        spec_doc_objects(r).dom() == Set::new(|id: (u32, u16)| false),
        spec_doc_max_id(r) == 0,
        spec_doc_root(r) == None::<(u32, u16)>,
{
    lopdf::Document::with_version("1.5")
}

/// Relies on Document::add_object: bumps the id counter, stores the object
/// under the fresh id with generation 0, and returns that id. The counter
/// increment would wrap at the integer limit, so that value is excluded.
#[verifier::external_body]
pub(crate) fn add_object(d: &mut lopdf::Document, o: lopdf::Object) -> (r: (u32, u16))
    requires
        spec_doc_max_id(*old(d)) < u32::MAX,
    ensures
        r.0 == spec_doc_max_id(*old(d)) + 1 && r.1 == 0,
        spec_doc_max_id(*final(d)) == spec_doc_max_id(*old(d)) + 1,
        spec_doc_objects(*final(d)) == spec_doc_objects(*old(d)).insert(r, o),
        spec_doc_root(*final(d)) == spec_doc_root(*old(d)),
{
    d.add_object(o)
}

/// Rewrites the Parent entry of the page object stored under `page` to
/// refer to `parent`. Relies on Document::get_object_mut to reach the
/// stored dictionary (a page dictionary is stored directly, so no
/// dereferencing happens) and Dictionary::set to write the entry.
#[verifier::external_body]
pub(crate) fn set_parent(d: &mut lopdf::Document, page: (u32, u16), parent: (u32, u16))
    ensures
        spec_doc_objects(*old(d)).dom().contains(page) && spec_page_dict(
            spec_doc_objects(*old(d))[page],
        ) ==> spec_doc_objects(*final(d)) == spec_doc_objects(*old(d)).insert(
            page,
            spec_with_entry_ref(spec_doc_objects(*old(d))[page], "Parent"@, parent),
        ),
        spec_doc_objects(*old(d)).dom().contains(page) && spec_page_dict(
            spec_doc_objects(*old(d))[page],
        ) ==> spec_page_dict(spec_doc_objects(*final(d))[page]),
        spec_doc_objects(*old(d)).dom().contains(page) && spec_page_dict(
            spec_doc_objects(*old(d))[page],
        ) && spec_writable(spec_doc_objects(*old(d))[page]) ==> spec_writable(
            spec_doc_objects(*final(d))[page],
        ),
        spec_doc_max_id(*final(d)) == spec_doc_max_id(*old(d)),
        spec_doc_root(*final(d)) == spec_doc_root(*old(d)),
{
    if let Ok(lopdf::Object::Dictionary(dict)) = d.get_object_mut(page) {
        dict.set("Parent", lopdf::Object::Reference(parent));
    }
}

/// Points the trailer's Root at the catalog. Relies on Dictionary::set on
/// the public trailer field.
#[verifier::external_body]
pub(crate) fn set_root(d: &mut lopdf::Document, catalog: (u32, u16))
    ensures
        spec_doc_objects(*final(d)) == spec_doc_objects(*old(d)),
        spec_doc_max_id(*final(d)) == spec_doc_max_id(*old(d)),
        spec_doc_root(*final(d)) == Some(catalog),
{
    d.trailer.set("Root", lopdf::Object::Reference(catalog));
}

/// Relies on Document::save_to writing into an in-memory buffer, and on
/// the library's own parser reading the result back. The save path does
/// unchecked arithmetic on the id counter (its value plus one sizes the
/// cross-reference table and the trailer, and the cross-reference-stream
/// form first bumps the counter itself), so the two top values — reachable
/// in a loaded document, whose counter comes from file content — are
/// excluded. Within that bound a memory buffer cannot raise a write error,
/// so saving succeeds, and the writer is deterministic, so the bytes are a
/// function of the document value. For a well-built document the written
/// file parses back with exactly the tree's kids as its page list: the
/// traversal reads the trailer root, the catalog's Pages entry, the tree's
/// Kids array in order, and accepts each kid as its stored Page-typed
/// dictionary — which, every object being clean to write, reads back as
/// the very dictionary value that was stored.
#[verifier::external_body]
pub(crate) fn save_document(d: &mut lopdf::Document) -> (r: Result<Vec<u8>, lopdf::Error>)
    requires
        spec_doc_max_id(*old(d)) < u32::MAX - 1,
    ensures
        r is Ok,
        r matches Ok(b) ==> b@ == spec_saved_bytes(*old(d)),
        forall|kids: Seq<(u32, u16)>|
            #[trigger] spec_well_built(*old(d), kids) ==> (spec_pdf_parses(
                spec_saved_bytes(*old(d)),
            ) && spec_pdf_page_ids(spec_saved_bytes(*old(d))) == kids && spec_pdf_clean(
                spec_saved_bytes(*old(d)),
            ) && spec_pdf_page_objects(spec_saved_bytes(*old(d))) == Seq::new(
                kids.len(),
                |j: int| spec_doc_objects(*old(d))[kids[j]],
            )),
{
    let mut out: Vec<u8> = Vec::new();
    d.save_to(&mut std::io::Cursor::new(&mut out))?;
    Ok(out)
}

/// Relies on the Object::Reference constructor; a reference always
/// serializes cleanly.
#[verifier::external_body]
pub(crate) fn reference_object(id: (u32, u16)) -> (r: lopdf::Object)
    ensures
        r == spec_reference_object(id),
        spec_writable(r),
{
    lopdf::Object::Reference(id)
}

/// Relies on the Object::Integer constructor; an integer always
/// serializes cleanly.
#[verifier::external_body]
pub(crate) fn integer_object(v: i64) -> (r: lopdf::Object)
    ensures
        r == spec_integer_object(v),
        spec_writable(r),
{
    lopdf::Object::Integer(v)
}

/// Relies on the Object::Name constructor; PDF names are byte strings and
/// the writer escapes every special byte, so a name always serializes
/// cleanly.
#[verifier::external_body]
pub(crate) fn name_object(name: &str) -> (r: lopdf::Object)
    ensures
        r == spec_name_object(name@),
        spec_writable(r),
{
    lopdf::Object::Name(name.as_bytes().to_vec())
}

/// Relies on the Object::Array constructor; an array of cleanly
/// serializing items serializes cleanly.
#[verifier::external_body]
pub(crate) fn array_object(items: Vec<lopdf::Object>) -> (r: lopdf::Object)
    ensures
        r == spec_array_object(items@),
        (forall|i: int| 0 <= i < items@.len() ==> spec_writable(#[trigger] items@[i]))
            ==> spec_writable(r),
{
    lopdf::Object::Array(items)
}

/// Relies on the Object::Dictionary constructor. A dictionary of cleanly
/// serializing values serializes cleanly, and one whose Type entry is the
/// name Page is what the page-tree traversal accepts as a page.
#[verifier::external_body]
pub(crate) fn dictionary_object(d: lopdf::Dictionary) -> (r: lopdf::Object)
    ensures
        r == spec_dictionary_object(d),
        (forall|i: int|
            0 <= i < spec_dict_entries(d).len() ==> spec_writable(
                (#[trigger] spec_dict_entries(d)[i]).1,
            )) ==> spec_writable(r),
        spec_dict_entries(d).contains(("Type"@, spec_name_object("Page"@))) ==> spec_page_dict(r),
{
    lopdf::Object::Dictionary(d)
}

/// Relies on Stream::new, which records the content length in the stream
/// dictionary and keeps the content verbatim. The writer emits the content
/// bytes between stream markers and the parser reads exactly the recorded
/// length back, so a stream over a cleanly serializing dictionary
/// serializes cleanly for any content.
#[verifier::external_body]
pub(crate) fn stream_object(dict: lopdf::Dictionary, content: Vec<u8>) -> (r: lopdf::Object)
    ensures
        r == spec_stream_object(dict, content@),
        (forall|i: int|
            0 <= i < spec_dict_entries(dict).len() ==> spec_writable(
                (#[trigger] spec_dict_entries(dict)[i]).1,
            )) ==> spec_writable(r),
{
    lopdf::Object::Stream(lopdf::Stream::new(dict, content))
}

/// Relies on Dictionary::new.
#[verifier::external_body]
pub(crate) fn new_dictionary() -> (r: lopdf::Dictionary)
    ensures
        spec_dict_entries(r) == Seq::<(Seq<char>, lopdf::Object)>::empty(),
{
    lopdf::Dictionary::new()
}

/// Entry insertion as the dictionary's index map performs it: a present
/// key has its value replaced in place, an absent key is appended.
pub open spec fn spec_dict_upsert(
    s: Seq<(Seq<char>, lopdf::Object)>,
    k: Seq<char>,
    v: lopdf::Object,
) -> Seq<(Seq<char>, lopdf::Object)>
    decreases s.len(),
{
    if s.len() == 0 {
        seq![(k, v)]
    } else if s.first().0 == k {
        seq![(k, v)] + s.drop_first()
    } else {
        seq![s.first()] + spec_dict_upsert(s.drop_first(), k, v)
    }
}

/// The inserted pair is among the entries afterwards.
pub proof fn lemma_upsert_contains(s: Seq<(Seq<char>, lopdf::Object)>, k: Seq<char>, v: lopdf::Object)
    ensures
        spec_dict_upsert(s, k, v).contains((k, v)),
    decreases s.len(),
{
    if s.len() == 0 {
        assert(spec_dict_upsert(s, k, v)[0] == (k, v));
    } else if s.first().0 == k {
        assert(spec_dict_upsert(s, k, v)[0] == (k, v));
    } else {
        lemma_upsert_contains(s.drop_first(), k, v);
        let sub = spec_dict_upsert(s.drop_first(), k, v);
        let w = choose|w: int| 0 <= w < sub.len() && sub[w] == (k, v);
        assert(spec_dict_upsert(s, k, v)[w + 1] == (k, v));
    }
}

/// Inserting a value for which a property holds keeps the property of all
/// values, here taken as serializability.
pub proof fn lemma_upsert_writable(s: Seq<(Seq<char>, lopdf::Object)>, k: Seq<char>, v: lopdf::Object)
    requires
        forall|i: int| 0 <= i < s.len() ==> spec_writable((#[trigger] s[i]).1),
        spec_writable(v),
    ensures
        forall|i: int|
            0 <= i < spec_dict_upsert(s, k, v).len() ==> spec_writable(
                (#[trigger] spec_dict_upsert(s, k, v)[i]).1,
            ),
    decreases s.len(),
{
    let out = spec_dict_upsert(s, k, v);
    if s.len() == 0 {
    } else if s.first().0 == k {
        assert forall|i: int| 0 <= i < out.len() implies spec_writable((#[trigger] out[i]).1) by {
            if i > 0 {
                assert(out[i] == s[i]);
            }
        }
    } else {
        lemma_upsert_writable(s.drop_first(), k, v);
        let sub = spec_dict_upsert(s.drop_first(), k, v);
        assert forall|i: int| 0 <= i < out.len() implies spec_writable((#[trigger] out[i]).1) by {
            if i == 0 {
                assert(out[0] == s.first());
                assert(s[0].1 == s.first().1);
            } else {
                assert(out[i] == sub[i - 1]);
            }
        }
    }
}

/// Inserting under a key not yet present appends the entry.
pub proof fn lemma_upsert_fresh(s: Seq<(Seq<char>, lopdf::Object)>, k: Seq<char>, v: lopdf::Object)
    requires
        forall|i: int| 0 <= i < s.len() ==> (#[trigger] s[i]).0 != k,
    ensures
        spec_dict_upsert(s, k, v) == s.push((k, v)),
    decreases s.len(),
{
    if s.len() == 0 {
        assert(spec_dict_upsert(s, k, v) =~= s.push((k, v)));
    } else {
        assert(s[0].0 != k);
        assert(s.first().0 != k);
        lemma_upsert_fresh(s.drop_first(), k, v);
        assert(spec_dict_upsert(s, k, v) =~= s.push((k, v)));
    }
}

/// Relies on Dictionary::set: the underlying index map replaces a present
/// key's value in place and appends an absent key.
#[verifier::external_body]
pub(crate) fn dict_set(d: &mut lopdf::Dictionary, key: &str, value: lopdf::Object)
    ensures
        spec_dict_entries(*final(d)) == spec_dict_upsert(spec_dict_entries(*old(d)), key@, value),
{
    d.set(key.as_bytes().to_vec(), value);
}

/// Relies on lopdf::Error's Display implementation for diagnostic text.
#[verifier::external_body]
pub(crate) fn pdf_error_message(e: &lopdf::Error) -> (r: String) {
    e.to_string()
}

} // verus!

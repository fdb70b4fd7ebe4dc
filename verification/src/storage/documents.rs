//! Automerge documents: what they hold, and how they are read and written.

use automerge::transaction::Transactable;
use automerge::ReadDoc;
use vstd::prelude::*;
use vstd::string::*;

use crate::json;
use crate::text;

verus! {

/// An Automerge document.
#[verifier::external_type_specification]
#[verifier::external_body]
pub struct ExAutomerge(automerge::Automerge);

/// A transaction on a document.
#[verifier::external_type_specification]
#[verifier::external_body]
pub struct ExTransaction<'a>(automerge::transaction::Transaction<'a>);

/// The ID of an object in a document.
#[verifier::external_type_specification]
#[verifier::external_body]
pub struct ExObjId(automerge::ObjId);

/// A value in a document that is no object.
#[verifier::external_type_specification]
#[verifier::external_body]
pub struct ExScalarValue(automerge::ScalarValue);

/// An object of a document.
pub enum ObjRef {
    /// The map that every document is.
    Root,
    /// An object in it.
    Node(automerge::ObjId),
}

/// A value that is no object.
#[verifier::ext_equal]
pub enum ScalarView {
    Null,
    Bool(bool),
    Int(i64),
    Uint(u64),
    /// A double-precision number, by its IEEE 754 bits.
    Double(u64),
    Text(Seq<char>),
    Timestamp(i64),
    /// Bytes, a counter, or something else.
    Other,
}

/// What stands in a place of an object.
#[verifier::ext_equal]
pub enum EntryView {
    Scalar(ScalarView),
    Object(ObjRef),
}

/// What an object holds.
#[verifier::ext_equal]
pub enum ObjectView {
    /// A map.
    Fields(Map<Seq<char>, EntryView>),
    /// A list.
    Items(Seq<EntryView>),
    /// A text or a table.
    Other,
}

/// The objects of a document.
pub uninterp spec fn doc_objects(doc: automerge::Automerge) -> Map<ObjRef, ObjectView>;

/// The hashes of the changes that a document is made of: its history.
pub uninterp spec fn doc_changes(doc: automerge::Automerge) -> Set<Seq<u8>>;

/// Whether a history goes on from another: nothing of that is lost, and at most one
/// change is new.
pub open spec fn goes_on_from(changes: Set<Seq<u8>>, earlier: Set<Seq<u8>>) -> bool {
    &&& earlier.subset_of(changes)
    &&& changes == earlier || exists|hash: Seq<u8>| changes == #[trigger] earlier.insert(hash)
}

/// How deep the objects below an object are nested.
pub uninterp spec fn doc_height(doc: automerge::Automerge, obj: ObjRef) -> nat;

/// The objects of the document that a transaction changes.
pub uninterp spec fn tx_objects(tx: automerge::transaction::Transaction<'_>) -> Map<ObjRef, ObjectView>;

/// What a value in a document is.
pub uninterp spec fn scalar_content(value: automerge::ScalarValue) -> ScalarView;

/// What was found in a place of an object.
pub enum Found {
    Scalar(automerge::ScalarValue),
    Fields,
    Items,
    Other,
}

/// A value that is no object.
#[derive(Debug)]
pub enum Scalar {
    Null,
    Bool(bool),
    Int(i64),
    Uint(u64),
    /// A double-precision number, by its IEEE 754 bits.
    Double(u64),
    Text(String),
    Timestamp(i64),
    /// Bytes, a counter, or something else.
    Other,
}

impl View for Scalar {
    type V = ScalarView;

    open spec fn view(&self) -> ScalarView {
        match self {
            Scalar::Null => ScalarView::Null,
            Scalar::Bool(b) => ScalarView::Bool(*b),
            Scalar::Int(i) => ScalarView::Int(*i),
            Scalar::Uint(u) => ScalarView::Uint(*u),
            Scalar::Double(bits) => ScalarView::Double(*bits),
            Scalar::Text(t) => ScalarView::Text(t@),
            Scalar::Timestamp(t) => ScalarView::Timestamp(*t),
            Scalar::Other => ScalarView::Other,
        }
    }
}

/// A kind of object that can be created.
#[derive(Clone, Copy, Debug, PartialEq, Eq, Structural)]
pub enum NewObject {
    Fields,
    Items,
}

/// What a new object holds.
pub open spec fn empty_object(kind: NewObject) -> ObjectView {
    match kind {
        NewObject::Fields => ObjectView::Fields(Map::empty()),
        NewObject::Items => ObjectView::Items(Seq::empty()),
    }
}

/// Whether an object is a map.
pub open spec fn has_fields(objects: Map<ObjRef, ObjectView>, obj: ObjRef) -> bool {
    objects.contains_key(obj) && objects[obj] is Fields
}

/// Whether an object is a list.
pub open spec fn has_items(objects: Map<ObjRef, ObjectView>, obj: ObjRef) -> bool {
    objects.contains_key(obj) && objects[obj] is Items
}

/// The fields of a map.
pub open spec fn fields_of(objects: Map<ObjRef, ObjectView>, obj: ObjRef) -> Map<Seq<char>, EntryView> {
    objects[obj]->Fields_0
}

/// The items of a list.
pub open spec fn items_of(objects: Map<ObjRef, ObjectView>, obj: ObjRef) -> Seq<EntryView> {
    objects[obj]->Items_0
}

/// Whether `keys` are the keys of an object, each once. The root has keys.
pub open spec fn lists_keys(objects: Map<ObjRef, ObjectView>, obj: ObjRef, keys: Seq<Seq<char>>) -> bool {
    &&& obj is Root ==> has_fields(objects, obj)
    &&& has_fields(objects, obj) ==> keys.no_duplicates() && keys.to_set() == fields_of(objects, obj).dom()
}

/// Whether what was found is what stands in a place of an object.
pub open spec fn is_entry(objects: Map<ObjRef, ObjectView>, entry: EntryView, found: (Found, ObjRef)) -> bool {
    match entry {
        EntryView::Scalar(s) => found.0 matches Found::Scalar(v) && scalar_content(v) == s,
        EntryView::Object(o) => {
            &&& found.1 == o
            &&& match found.0 {
                Found::Scalar(_) => false,
                Found::Fields => has_fields(objects, o),
                Found::Items => has_items(objects, o),
                Found::Other => !has_fields(objects, o) && !has_items(objects, o),
            }
        },
    }
}

/// Whether a document holds nothing.
pub open spec fn is_blank(objects: Map<ObjRef, ObjectView>) -> bool {
    has_fields(objects, ObjRef::Root) && fields_of(objects, ObjRef::Root) == Map::<Seq<char>, EntryView>::empty()
}

/// Whether two values count as the same: an automerge document takes 0 and -0 for one
/// value.
pub open spec fn same_scalar(a: ScalarView, b: ScalarView) -> bool {
    match (a, b) {
        (ScalarView::Double(x), ScalarView::Double(y)) => x == y || (x % 0x8000_0000_0000_0000 == 0 && y
            % 0x8000_0000_0000_0000 == 0),
        _ => a == b,
    }
}

/// Calls `automerge::Automerge::new`: a document whose root map is empty and which has
/// no history.
#[verifier::external_body]
pub(crate) fn new_document() -> (r: automerge::Automerge)
    ensures
        is_blank(doc_objects(r)),
        doc_changes(r) == Set::<Seq<u8>>::empty(),
{
    automerge::Automerge::new()
}

/// Calls `automerge::Automerge::fork`: the fork holds what the document holds, and has
/// its history.
#[verifier::external_body]
pub(crate) fn fork_document(doc: &automerge::Automerge) -> (r: automerge::Automerge)
    ensures
        doc_objects(r) == doc_objects(*doc),
        doc_changes(r) == doc_changes(*doc),
{
    doc.fork()
}

/// Calls `automerge::ReadDoc::keys`: the keys of a map, each once. The root is a map.
#[verifier::external_body]
pub(crate) fn document_keys(doc: &automerge::Automerge, obj: &ObjRef) -> (r: Vec<String>)
    ensures
        lists_keys(doc_objects(*doc), *obj, text::texts(r@)),
{
    match obj {
        ObjRef::Root => doc.keys(automerge::ROOT).collect(),
        ObjRef::Node(id) => doc.keys(id).collect(),
    }
}

/// Calls `automerge::ReadDoc::length`: the number of items of a list.
#[verifier::external_body]
pub(crate) fn document_length(doc: &automerge::Automerge, obj: &ObjRef) -> (r: usize)
    ensures
        has_items(doc_objects(*doc), *obj) ==> r == items_of(doc_objects(*doc), *obj).len(),
{
    match obj {
        ObjRef::Root => doc.length(automerge::ROOT),
        ObjRef::Node(id) => doc.length(id),
    }
}

/// Calls `automerge::ReadDoc::get` for a key: what a map holds under the key. Objects
/// nest finitely, so those found lie less deep than the map.
#[verifier::external_body]
pub(crate) fn document_field(doc: &automerge::Automerge, obj: &ObjRef, key: &str) -> (r: Option<(Found, ObjRef)>)
    ensures
        has_fields(doc_objects(*doc), *obj) ==> match r {
            Some(found) => fields_of(doc_objects(*doc), *obj).contains_key(key@) && is_entry(
                doc_objects(*doc),
                fields_of(doc_objects(*doc), *obj)[key@],
                found,
            ),
            None => !fields_of(doc_objects(*doc), *obj).contains_key(key@),
        },
        r matches Some(found) ==> found.0 is Scalar || doc_height(*doc, found.1) < doc_height(*doc, *obj),
{
    let found = match obj {
        ObjRef::Root => doc.get(automerge::ROOT, key),
        ObjRef::Node(id) => doc.get(id, key),
    };
    let (value, child) = found.ok()??;
    let value = match value {
        automerge::Value::Scalar(s) => Found::Scalar(s.into_owned()),
        automerge::Value::Object(automerge::ObjType::Map) => Found::Fields,
        automerge::Value::Object(automerge::ObjType::List) => Found::Items,
        automerge::Value::Object(_) => Found::Other,
    };
    Some((value, ObjRef::Node(child)))
}

/// Calls `automerge::ReadDoc::get` for an index: what a list holds at the index. Objects
/// nest finitely, so those found lie less deep than the list.
#[verifier::external_body]
pub(crate) fn document_item(doc: &automerge::Automerge, obj: &ObjRef, index: usize) -> (r: Option<(Found, ObjRef)>)
    ensures
        has_items(doc_objects(*doc), *obj) ==> match r {
            Some(found) => index < items_of(doc_objects(*doc), *obj).len() && is_entry(
                doc_objects(*doc),
                items_of(doc_objects(*doc), *obj)[index as int],
                found,
            ),
            None => index >= items_of(doc_objects(*doc), *obj).len(),
        },
        r matches Some(found) ==> found.0 is Scalar || doc_height(*doc, found.1) < doc_height(*doc, *obj),
{
    let found = match obj {
        ObjRef::Root => doc.get(automerge::ROOT, index),
        ObjRef::Node(id) => doc.get(id, index),
    };
    let (value, child) = found.ok()??;
    let value = match value {
        automerge::Value::Scalar(s) => Found::Scalar(s.into_owned()),
        automerge::Value::Object(automerge::ObjType::Map) => Found::Fields,
        automerge::Value::Object(automerge::ObjType::List) => Found::Items,
        automerge::Value::Object(_) => Found::Other,
    };
    Some((value, ObjRef::Node(child)))
}

/// Opens an `automerge::ScalarValue`: one variant for each of its variants that have a
/// counterpart in JSON, and one for the rest.
#[verifier::external_body]
pub(crate) fn open_scalar(value: automerge::ScalarValue) -> (r: Scalar)
    ensures
        r@ == scalar_content(value),
{
    match value {
        automerge::ScalarValue::Null => Scalar::Null,
        automerge::ScalarValue::Boolean(b) => Scalar::Bool(b),
        automerge::ScalarValue::Int(i) => Scalar::Int(i),
        automerge::ScalarValue::Uint(u) => Scalar::Uint(u),
        automerge::ScalarValue::F64(f) => Scalar::Double(f.to_bits()),
        automerge::ScalarValue::Str(s) => Scalar::Text(s.to_string()),
        automerge::ScalarValue::Timestamp(t) => Scalar::Timestamp(t),
        _ => Scalar::Other,
    }
}

/// A value that can be written. Doubles are made by the caller.
#[derive(Debug)]
pub enum Written {
    Null,
    Bool(bool),
    Int(i64),
    Text(String),
}

impl View for Written {
    type V = ScalarView;

    open spec fn view(&self) -> ScalarView {
        match self {
            Written::Null => ScalarView::Null,
            Written::Bool(b) => ScalarView::Bool(*b),
            Written::Int(i) => ScalarView::Int(*i),
            Written::Text(t) => ScalarView::Text(t@),
        }
    }
}

/// Makes an `automerge::ScalarValue`: one variant for each kind of value that is
/// written.
#[verifier::external_body]
pub(crate) fn automerge_scalar(value: Written) -> (r: automerge::ScalarValue)
    ensures
        scalar_content(r) == value@,
{
    match value {
        Written::Null => automerge::ScalarValue::Null,
        Written::Bool(b) => automerge::ScalarValue::Boolean(b),
        Written::Int(i) => automerge::ScalarValue::Int(i),
        Written::Text(t) => automerge::ScalarValue::Str(t.into()),
    }
}

/// Whether the only change is that a map holds an entry under a key.
pub open spec fn field_set(
    before: Map<ObjRef, ObjectView>,
    after: Map<ObjRef, ObjectView>,
    obj: ObjRef,
    key: Seq<char>,
    entry: EntryView,
) -> bool {
    after == before.insert(obj, ObjectView::Fields(fields_of(before, obj).insert(key, entry)))
}

/// Whether the only change is that a map holds a value under a key. What stood there
/// stays where it counts as the same.
pub open spec fn scalar_put(
    before: Map<ObjRef, ObjectView>,
    after: Map<ObjRef, ObjectView>,
    obj: ObjRef,
    key: Seq<char>,
    value: ScalarView,
) -> bool {
    ||| field_set(before, after, obj, key, EntryView::Scalar(value))
    ||| after == before && stands_already(fields_of(before, obj), key, value)
}

/// Whether a map holds a value that counts as the same under a key.
pub open spec fn stands_already(fields: Map<Seq<char>, EntryView>, key: Seq<char>, value: ScalarView) -> bool {
    fields.contains_key(key) && (fields[key] matches EntryView::Scalar(kept) && same_scalar(kept, value))
}

/// Whether the only change is that an entry stands in front of the item at an index of
/// a list.
pub open spec fn item_inserted(
    before: Map<ObjRef, ObjectView>,
    after: Map<ObjRef, ObjectView>,
    obj: ObjRef,
    index: int,
    entry: EntryView,
) -> bool {
    after == before.insert(obj, ObjectView::Items(items_of(before, obj).insert(index, entry)))
}

/// Whether the only changes are that there is a new object and that a map holds it
/// under a key.
pub open spec fn object_put(
    before: Map<ObjRef, ObjectView>,
    after: Map<ObjRef, ObjectView>,
    obj: ObjRef,
    key: Seq<char>,
    kind: NewObject,
    new: ObjRef,
) -> bool {
    !before.contains_key(new) && field_set(
        before.insert(new, empty_object(kind)),
        after,
        obj,
        key,
        EntryView::Object(new),
    )
}

/// Whether the only changes are that there is a new object and that a list holds it at
/// an index.
pub open spec fn object_inserted(
    before: Map<ObjRef, ObjectView>,
    after: Map<ObjRef, ObjectView>,
    obj: ObjRef,
    index: int,
    kind: NewObject,
    new: ObjRef,
) -> bool {
    !before.contains_key(new) && item_inserted(
        before.insert(new, empty_object(kind)),
        after,
        obj,
        index,
        EntryView::Object(new),
    )
}

/// Calls `put` of `automerge::transaction::Transactable`, which fails only where the
/// object is no map of the document: the map holds the value under the key. Where it
/// held an equal value already, that one stays.
#[verifier::external_body]
pub(crate) fn put_scalar(
    tx: &mut automerge::transaction::Transaction<'_>,
    obj: &ObjRef,
    key: &str,
    value: automerge::ScalarValue,
)
    requires
        has_fields(tx_objects(*old(tx)), *obj),
    ensures
        scalar_put(tx_objects(*old(tx)), tx_objects(*final(tx)), *obj, key@, scalar_content(value)),
{
    let done = match obj {
        ObjRef::Root => tx.put(automerge::ROOT, key, value),
        ObjRef::Node(id) => tx.put(id, key, value),
    };
    done.expect("the object is a map of the document");
}

/// Calls `put_object` of `automerge::transaction::Transactable`, which fails only where
/// the object is no map of the document: the map holds a new empty object under the
/// key.
#[verifier::external_body]
pub(crate) fn put_object(
    tx: &mut automerge::transaction::Transaction<'_>,
    obj: &ObjRef,
    key: &str,
    kind: NewObject,
) -> (r: ObjRef)
    requires
        has_fields(tx_objects(*old(tx)), *obj),
    ensures
        object_put(tx_objects(*old(tx)), tx_objects(*final(tx)), *obj, key@, kind, r),
{
    let kind = match kind {
        NewObject::Fields => automerge::ObjType::Map,
        NewObject::Items => automerge::ObjType::List,
    };
    let done = match obj {
        ObjRef::Root => tx.put_object(automerge::ROOT, key, kind),
        ObjRef::Node(id) => tx.put_object(id, key, kind),
    };
    ObjRef::Node(done.expect("the object is a map of the document"))
}

/// Calls `insert` of `automerge::transaction::Transactable`, which fails only where the
/// object is no list of the document or the index lies behind its end: the list holds
/// the value at the index.
#[verifier::external_body]
pub(crate) fn insert_scalar(
    tx: &mut automerge::transaction::Transaction<'_>,
    obj: &ObjRef,
    index: usize,
    value: automerge::ScalarValue,
)
    requires
        has_items(tx_objects(*old(tx)), *obj),
        index <= items_of(tx_objects(*old(tx)), *obj).len(),
    ensures
        item_inserted(
            tx_objects(*old(tx)),
            tx_objects(*final(tx)),
            *obj,
            index as int,
            EntryView::Scalar(scalar_content(value)),
        ),
{
    let done = match obj {
        ObjRef::Root => tx.insert(automerge::ROOT, index, value),
        ObjRef::Node(id) => tx.insert(id, index, value),
    };
    done.expect("the object is a list of the document");
}

/// Calls `insert_object` of `automerge::transaction::Transactable`, which fails only
/// where the object is no list of the document or the index lies behind its end: the
/// list holds a new empty object at the index.
#[verifier::external_body]
pub(crate) fn insert_object(
    tx: &mut automerge::transaction::Transaction<'_>,
    obj: &ObjRef,
    index: usize,
    kind: NewObject,
) -> (r: ObjRef)
    requires
        has_items(tx_objects(*old(tx)), *obj),
        index <= items_of(tx_objects(*old(tx)), *obj).len(),
    ensures
        object_inserted(tx_objects(*old(tx)), tx_objects(*final(tx)), *obj, index as int, kind, r),
{
    let kind = match kind {
        NewObject::Fields => automerge::ObjType::Map,
        NewObject::Items => automerge::ObjType::List,
    };
    let done = match obj {
        ObjRef::Root => tx.insert_object(automerge::ROOT, index, kind),
        ObjRef::Node(id) => tx.insert_object(id, index, kind),
    };
    ObjRef::Node(done.expect("the object is a list of the document"))
}

/// Calls `delete` of `automerge::transaction::Transactable` for the key of a map, which
/// fails only where the object is no object of the document: the map no longer has the
/// key.
#[verifier::external_body]
pub(crate) fn delete_field(tx: &mut automerge::transaction::Transaction<'_>, obj: &ObjRef, key: &str)
    requires
        has_fields(tx_objects(*old(tx)), *obj),
    ensures
        tx_objects(*final(tx)) == tx_objects(*old(tx)).insert(
            *obj,
            ObjectView::Fields(fields_of(tx_objects(*old(tx)), *obj).remove(key@)),
        ),
{
    let done = match obj {
        ObjRef::Root => tx.delete(automerge::ROOT, key),
        ObjRef::Node(id) => tx.delete(id, key),
    };
    done.expect("the object is a map of the document");
}

} // verus!

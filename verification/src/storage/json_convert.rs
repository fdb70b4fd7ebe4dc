//! Conversion between Automerge documents and JSON.

use vstd::prelude::*;
use vstd::string::*;

use crate::json;
use crate::json::{object_get, object_insert, Json, JsonView, Number};
use crate::storage::documents;
use crate::storage::documents::{
    automerge_scalar, delete_field, document_field, document_item, document_keys, document_length, fork_document,
    insert_object, insert_scalar, new_document, open_scalar, put_object, put_scalar, EntryView, Found, NewObject,
    ObjRef, ObjectView, Scalar, ScalarView, Written,
};
use crate::text;

verus! {

/// Whether bits stand for a finite number.
pub open spec fn is_finite(bits: u64) -> bool {
    bits % 0x8000_0000_0000_0000 < 0x7FF0_0000_0000_0000
}

/// The number for a signed integer.
pub open spec fn signed_number(i: i64) -> Number {
    if i >= 0 {
        Number::Unsigned(i as u64)
    } else {
        Number::Negative(i)
    }
}

/// A value of a document as JSON; what JSON cannot hold is null.
pub open spec fn scalar_json(s: ScalarView) -> JsonView {
    match s {
        ScalarView::Null => JsonView::Null,
        ScalarView::Bool(b) => JsonView::Bool(b),
        ScalarView::Int(i) => JsonView::Number(signed_number(i)),
        ScalarView::Uint(u) => JsonView::Number(Number::Unsigned(u)),
        ScalarView::Double(bits) => if is_finite(bits) {
            JsonView::Number(Number::Double(bits))
        } else {
            JsonView::Null
        },
        ScalarView::Text(t) => JsonView::Text(t),
        ScalarView::Timestamp(t) => JsonView::Number(signed_number(t)),
        ScalarView::Other => JsonView::Null,
    }
}

/// Whether an entry of an object reads as a JSON value.
pub open spec fn reads_as(objects: Map<ObjRef, ObjectView>, entry: EntryView, j: JsonView) -> bool
    decreases j, 1nat,
{
    match entry {
        EntryView::Scalar(s) => j == scalar_json(s),
        EntryView::Object(o) => reads_object(objects, o, j),
    }
}

/// Whether an object reads as a JSON value: a map as an object, a list as an array, and
/// anything else as null.
pub open spec fn reads_object(objects: Map<ObjRef, ObjectView>, obj: ObjRef, j: JsonView) -> bool
    decreases j, 0nat,
{
    if documents::has_fields(objects, obj) {
        match j {
            JsonView::Object(entries) => {
                let fields = documents::fields_of(objects, obj);
                &&& json::keys_sorted(entries)
                &&& forall|k: Seq<char>| #[trigger] fields.contains_key(k) <==> json::has_key(entries, k)
                &&& forall|i: int|
                    #![trigger entries[i]]
                    0 <= i < entries.len() ==> reads_as(objects, fields[entries[i].0], entries[i].1)
            },
            _ => false,
        }
    } else if documents::has_items(objects, obj) {
        match j {
            JsonView::Array(items) => {
                let stored = documents::items_of(objects, obj);
                &&& items.len() == stored.len()
                &&& forall|i: int|
                    #![trigger items[i]]
                    0 <= i < items.len() ==> reads_as(objects, stored[i], items[i])
            },
            _ => false,
        }
    } else {
        j == JsonView::Null
    }
}

/// Convert a value of a document to JSON.
pub fn scalar_to_json(scalar: Scalar) -> (r: Json)
    ensures
        r@ == scalar_json(scalar@),
{
    match scalar {
        Scalar::Null => Json::Null,
        Scalar::Bool(b) => Json::Bool(b),
        Scalar::Int(i) => Json::Number(Number::from_i64(i)),
        Scalar::Uint(u) => Json::Number(Number::Unsigned(u)),
        Scalar::Double(bits) => {
            if bits % 0x8000_0000_0000_0000 < 0x7FF0_0000_0000_0000 {
                Json::Number(Number::Double(bits))
            } else {
                Json::Null
            }
        },
        Scalar::Text(t) => Json::Text(t),
        Scalar::Timestamp(t) => Json::Number(Number::from_i64(t)),
        Scalar::Other => Json::Null,
    }
}

/// How deep what was found is nested.
spec fn found_depth(doc: automerge::Automerge, found: (Found, ObjRef)) -> nat {
    if found.0 is Scalar {
        0
    } else {
        documents::doc_height(doc, found.1) + 1
    }
}

/// Convert what was found in a document to JSON.
fn am_value_to_json(doc: &automerge::Automerge, found: (Found, ObjRef)) -> (r: Json)
    ensures
        forall|entry: EntryView| #[trigger]
            documents::is_entry(documents::doc_objects(*doc), entry, found) ==> reads_as(
                documents::doc_objects(*doc),
                entry,
                r@,
            ),
    decreases found_depth(*doc, found), 2nat,
{
    match found.0 {
        Found::Scalar(value) => scalar_to_json(open_scalar(value)),
        Found::Fields => map_to_json(doc, &found.1),
        Found::Items => list_to_json(doc, &found.1),
        Found::Other => Json::Null,
    }
}

/// Convert a map of a document to a JSON object.
fn map_to_json(doc: &automerge::Automerge, obj: &ObjRef) -> (r: Json)
    ensures
        *obj is Root ==> documents::has_fields(documents::doc_objects(*doc), *obj),
        documents::has_fields(documents::doc_objects(*doc), *obj) ==> reads_object(
            documents::doc_objects(*doc),
            *obj,
            r@,
        ),
    decreases documents::doc_height(*doc, *obj) + 1, 1nat,
{
    let ghost objects = documents::doc_objects(*doc);
    let ghost fields = documents::fields_of(objects, *obj);
    let keys = document_keys(doc, obj);
    let ghost names = text::texts(keys@);
    let mut map: Vec<(String, Json)> = Vec::new();
    let mut i: usize = 0;
    while i < keys.len()
        invariant
            i <= keys@.len(),
            names == text::texts(keys@),
            objects == documents::doc_objects(*doc),
            fields == documents::fields_of(objects, *obj),
            documents::lists_keys(objects, *obj, names),
            documents::has_fields(objects, *obj) ==> is_read(
                objects,
                fields,
                names.take(i as int),
                json::object_view(map@),
            ),
        decreases keys@.len() - i,
    {
        let ghost before = json::object_view(map@);
        let ghost name = names[i as int];
        assert(name == keys@[i as int]@);
        match document_field(doc, obj, keys[i].as_str()) {
            Some(found) => {
                let value = am_value_to_json(doc, found);
                let ghost told = value@;
                object_insert(&mut map, keys[i].clone(), value);
                proof {
                    if documents::has_fields(objects, *obj) {
                        assert(reads_as(objects, fields[name], told));
                        assert(names.take(i + 1) =~= names.take(i as int).push(name));
                        lemma_read_one_more(objects, fields, names.take(i as int), before, name, told);
                    }
                }
            },
            None => {
                proof {
                    if documents::has_fields(objects, *obj) {
                        assert(names.contains(name));
                        assert(names.to_set().contains(name));
                    }
                }
            },
        }
        i = i + 1;
    }
    proof {
        if documents::has_fields(objects, *obj) {
            assert(names.take(i as int) =~= names);
            lemma_all_read(objects, fields, names, json::object_view(map@));
        }
    }
    Json::Object(map)
}

/// Whether entries hold what was read of some keys.
spec fn is_read(
    objects: Map<ObjRef, ObjectView>,
    fields: Map<Seq<char>, EntryView>,
    names: Seq<Seq<char>>,
    entries: Seq<(Seq<char>, JsonView)>,
) -> bool {
    &&& json::keys_sorted(entries)
    &&& forall|k: Seq<char>| #[trigger] names.contains(k) <==> json::lookup(entries, k) is Some
    &&& forall|k: Seq<char>| #[trigger]
        names.contains(k) ==> reads_as(objects, fields[k], json::lookup(entries, k)->Some_0)
}

proof fn lemma_read_one_more(
    objects: Map<ObjRef, ObjectView>,
    fields: Map<Seq<char>, EntryView>,
    names: Seq<Seq<char>>,
    entries: Seq<(Seq<char>, JsonView)>,
    name: Seq<char>,
    value: JsonView,
)
    requires
        is_read(objects, fields, names, entries),
        reads_as(objects, fields[name], value),
    ensures
        is_read(objects, fields, names.push(name), json::inserted(entries, name, value)),
{
    let after = json::inserted(entries, name, value);
    let more = names.push(name);
    json::law_insert_then_lookup(entries, name, value, name);
    assert forall|k: Seq<char>| #[trigger] more.contains(k) <==> json::lookup(after, k) is Some by {
        json::law_insert_then_lookup(entries, name, value, k);
        lemma_push_contains(names, name, k);
    }
    assert forall|k: Seq<char>| #[trigger] more.contains(k) implies reads_as(
        objects,
        fields[k],
        json::lookup(after, k)->Some_0,
    ) by {
        json::law_insert_then_lookup(entries, name, value, k);
        lemma_push_contains(names, name, k);
    }
}

proof fn lemma_push_contains(names: Seq<Seq<char>>, name: Seq<char>, k: Seq<char>)
    ensures
        names.push(name).contains(k) <==> names.contains(k) || k == name,
{
    let more = names.push(name);
    if names.contains(k) {
        let i = choose|i: int| 0 <= i < names.len() && names[i] == k;
        assert(more[i] == k);
    }
    assert(more[names.len() as int] == name);
    if more.contains(k) {
        let i = choose|i: int| 0 <= i < more.len() && more[i] == k;
        if i < names.len() {
            assert(names[i] == k);
        }
    }
}

proof fn lemma_all_read(
    objects: Map<ObjRef, ObjectView>,
    fields: Map<Seq<char>, EntryView>,
    names: Seq<Seq<char>>,
    entries: Seq<(Seq<char>, JsonView)>,
)
    requires
        is_read(objects, fields, names, entries),
        names.to_set() == fields.dom(),
    ensures
        forall|k: Seq<char>| #[trigger] fields.contains_key(k) <==> json::has_key(entries, k),
        forall|i: int|
            #![trigger entries[i]]
            0 <= i < entries.len() ==> reads_as(objects, fields[entries[i].0], entries[i].1),
{
    assert forall|k: Seq<char>| #[trigger] fields.contains_key(k) <==> json::has_key(entries, k) by {
        json::lemma_has_key(entries, k);
        assert(fields.dom().contains(k) <==> names.to_set().contains(k));
        assert(names.contains(k) <==> json::lookup(entries, k) is Some);
    }
    assert forall|i: int| #![trigger entries[i]] 0 <= i < entries.len() implies reads_as(
        objects,
        fields[entries[i].0],
        entries[i].1,
    ) by {
        json::lemma_lookup_sorted(entries, i);
        assert(names.contains(entries[i].0));
    }
}

/// Convert a list of a document to a JSON array.
fn list_to_json(doc: &automerge::Automerge, obj: &ObjRef) -> (r: Json)
    ensures
        documents::has_items(documents::doc_objects(*doc), *obj) ==> reads_object(
            documents::doc_objects(*doc),
            *obj,
            r@,
        ),
    decreases documents::doc_height(*doc, *obj) + 1, 1nat,
{
    let ghost objects = documents::doc_objects(*doc);
    let ghost stored = documents::items_of(objects, *obj);
    let len: usize = document_length(doc, obj);
    let mut arr: Vec<Json> = Vec::new();
    let mut i: usize = 0;
    while i < len
        invariant
            i <= len,
            objects == documents::doc_objects(*doc),
            stored == documents::items_of(objects, *obj),
            documents::has_items(objects, *obj) ==> len == stored.len() && arr@.len() == i && forall|k: int|
                0 <= k < i ==> reads_as(objects, stored[k], (#[trigger] arr@[k])@),
        decreases len - i,
    {
        match document_item(doc, obj, i) {
            Some(found) => {
                let value = am_value_to_json(doc, found);
                arr.push(value);
            },
            None => {},
        }
        i = i + 1;
    }
    proof {
        json::lemma_array_view(arr@);
        if documents::has_items(objects, *obj) {
            let items = json::array_view(arr@);
            assert forall|k: int| #![trigger items[k]] 0 <= k < items.len() implies reads_as(
                objects,
                stored[k],
                items[k],
            ) by {
                assert(items[k] == arr@[k]@);
            }
        }
    }
    Json::Array(arr)
}

/// Convert the root map of a document to JSON.
pub fn automerge_to_json(doc: &automerge::Automerge) -> (r: Json)
    ensures
        r@ is Object,
        reads_object(documents::doc_objects(*doc), ObjRef::Root, r@),
{
    map_to_json(doc, &ObjRef::Root)
}

/// An object reads as one JSON value only.
pub proof fn law_reading_is_unique(objects: Map<ObjRef, ObjectView>, entry: EntryView, a: JsonView, b: JsonView)
    requires
        reads_as(objects, entry, a),
        reads_as(objects, entry, b),
    ensures
        a == b,
    decreases a,
{
    if let EntryView::Object(o) = entry {
        if documents::has_fields(objects, o) {
            let x = a->Object_0;
            let y = b->Object_0;
            let fields = documents::fields_of(objects, o);
            assert forall|k: Seq<char>| json::has_key(x, k) <==> json::has_key(y, k) by {
                assert(fields.contains_key(k) <==> json::has_key(x, k));
                assert(fields.contains_key(k) <==> json::has_key(y, k));
            }
            assert forall|i: int, j: int| 0 <= i < x.len() && 0 <= j < y.len() && x[i].0 == y[j].0 implies x[i] == y[j] by {
                law_reading_is_unique(objects, fields[x[i].0], x[i].1, y[j].1);
            }
            lemma_same_entries(x, y);
        } else if documents::has_items(objects, o) {
            let x = a->Array_0;
            let y = b->Array_0;
            let stored = documents::items_of(objects, o);
            assert forall|i: int| 0 <= i < x.len() implies x[i] == y[i] by {
                law_reading_is_unique(objects, stored[i], x[i], y[i]);
            }
            assert(x =~= y);
        }
    }
}

/// Entries in order with the same keys and the same values under them are the same.
proof fn lemma_same_entries(x: Seq<(Seq<char>, JsonView)>, y: Seq<(Seq<char>, JsonView)>)
    requires
        json::keys_sorted(x),
        json::keys_sorted(y),
        forall|k: Seq<char>| json::has_key(x, k) <==> json::has_key(y, k),
        forall|i: int, j: int|
            0 <= i < x.len() && 0 <= j < y.len() && (#[trigger] x[i]).0 == (#[trigger] y[j]).0 ==> x[i] == y[j],
    ensures
        x == y,
    decreases x.len(),
{
    if x.len() == 0 {
        if y.len() > 0 {
            assert(json::has_key(y, y[0].0));
            assert(json::has_key(x, y[0].0));
        }
        assert(x =~= y);
    } else {
        assert(json::has_key(x, x[0].0));
        assert(json::has_key(y, x[0].0));
        let j = choose|j: int| 0 <= j < y.len() && (#[trigger] y[j]).0 == x[0].0;
        assert(json::has_key(y, y[0].0));
        assert(json::has_key(x, y[0].0));
        let i = choose|i: int| 0 <= i < x.len() && (#[trigger] x[i]).0 == y[0].0;
        if i > 0 {
            assert(json::text_order(x[0].0, x[i].0) == json::Order::Less);
            if j > 0 {
                assert(json::text_order(y[0].0, y[j].0) == json::Order::Less);
                json::law_text_order(x[0].0, y[0].0, x[0].0);
            } else {
                json::law_text_order(x[0].0, x[0].0, x[0].0);
            }
        }
        assert(x[0].0 == y[0].0);
        assert(x[0] == y[0]);
        let xr = x.skip(1);
        let yr = y.skip(1);
        assert forall|k: Seq<char>| json::has_key(xr, k) <==> json::has_key(yr, k) by {
            lemma_rest_keys(x, k);
            lemma_rest_keys(y, k);
        }
        assert forall|a: int, b: int| 0 <= a < xr.len() && 0 <= b < yr.len() && (#[trigger] xr[a]).0 == (#[trigger] yr[b]).0 implies xr[a]
            == yr[b] by {
            assert(x[a + 1] == y[b + 1]);
        }
        lemma_same_entries(xr, yr);
        assert(x =~= seq![x[0]] + xr);
        assert(y =~= seq![y[0]] + yr);
    }
}

proof fn lemma_rest_keys(x: Seq<(Seq<char>, JsonView)>, k: Seq<char>)
    requires
        json::keys_sorted(x),
        x.len() > 0,
    ensures
        json::has_key(x.skip(1), k) <==> json::has_key(x, k) && k != x[0].0,
{
    let rest = x.skip(1);
    if json::has_key(rest, k) {
        let i = choose|i: int| 0 <= i < rest.len() && (#[trigger] rest[i]).0 == k;
        assert(x[i + 1].0 == k);
        assert(json::text_order(x[0].0, x[i + 1].0) == json::Order::Less);
        json::law_text_order(x[0].0, k, k);
    }
    if json::has_key(x, k) && k != x[0].0 {
        let i = choose|i: int| 0 <= i < x.len() && (#[trigger] x[i]).0 == k;
        assert(rest[i - 1].0 == k);
    }
}

/// Whether the entries of a value and of the values in it are in order.
pub open spec fn is_proper(j: JsonView) -> bool
    decreases j,
{
    match j {
        JsonView::Array(items) => forall|i: int| #![trigger items[i]] 0 <= i < items.len() ==> is_proper(items[i]),
        JsonView::Object(entries) => json::keys_sorted(entries) && forall|i: int|
            #![trigger entries[i]]
            0 <= i < entries.len() ==> is_proper(entries[i].1),
        _ => true,
    }
}

/// How a number is written: as a signed integer where it is one, else as a double.
pub open spec fn number_scalar(n: Number) -> ScalarView {
    match n {
        Number::Unsigned(u) => if u <= i64::MAX {
            ScalarView::Int(u as i64)
        } else {
            ScalarView::Double(json::double_bits(n) as u64)
        },
        Number::Negative(i) => ScalarView::Int(i),
        Number::Double(bits) => ScalarView::Double(bits),
    }
}

/// How a value that is neither an array nor an object is written.
pub open spec fn json_scalar(j: JsonView) -> ScalarView {
    match j {
        JsonView::Bool(b) => ScalarView::Bool(b),
        JsonView::Number(n) => number_scalar(n),
        JsonView::Text(t) => ScalarView::Text(t),
        _ => ScalarView::Null,
    }
}

/// Whether an entry of an object is a JSON value, written into objects that are not
/// among others.
pub open spec fn holds(objects: Map<ObjRef, ObjectView>, entry: EntryView, j: JsonView, others: Set<ObjRef>) -> bool
    decreases j,
{
    match j {
        JsonView::Array(items) => match entry {
            EntryView::Object(o) => {
                &&& !others.contains(o)
                &&& documents::has_items(objects, o)
                &&& documents::items_of(objects, o).len() == items.len()
                &&& forall|i: int|
                    #![trigger items[i]]
                    0 <= i < items.len() ==> holds(objects, documents::items_of(objects, o)[i], items[i], others)
            },
            EntryView::Scalar(_) => false,
        },
        JsonView::Object(entries) => match entry {
            EntryView::Object(o) => {
                &&& !others.contains(o)
                &&& documents::has_fields(objects, o)
                &&& forall|k: Seq<char>| #[trigger]
                    documents::fields_of(objects, o).contains_key(k) <==> json::has_key(entries, k)
                &&& forall|i: int|
                    #![trigger entries[i]]
                    0 <= i < entries.len() ==> holds(
                        objects,
                        documents::fields_of(objects, o)[entries[i].0],
                        entries[i].1,
                        others,
                    )
            },
            EntryView::Scalar(_) => false,
        },
        _ => entry == EntryView::Scalar(json_scalar(j)),
    }
}

/// Whether every object but one is as it was.
pub open spec fn others_kept(before: Map<ObjRef, ObjectView>, after: Map<ObjRef, ObjectView>, obj: ObjRef) -> bool {
    forall|o: ObjRef| #[trigger]
        before.contains_key(o) ==> after.contains_key(o) && (o != obj ==> after[o] == before[o])
}

proof fn lemma_holds_kept(
    before: Map<ObjRef, ObjectView>,
    after: Map<ObjRef, ObjectView>,
    entry: EntryView,
    j: JsonView,
    others: Set<ObjRef>,
    fewer: Set<ObjRef>,
)
    requires
        holds(before, entry, j, others),
        forall|o: ObjRef| #[trigger]
            before.contains_key(o) && !others.contains(o) ==> after.contains_key(o) && after[o] == before[o],
        fewer.subset_of(others),
    ensures
        holds(after, entry, j, fewer),
    decreases j,
{
    match j {
        JsonView::Array(items) => {
            let o = entry->Object_0;
            assert(before.contains_key(o));
            assert forall|i: int| #![trigger items[i]] 0 <= i < items.len() implies holds(
                after,
                documents::items_of(after, o)[i],
                items[i],
                fewer,
            ) by {
                lemma_holds_kept(before, after, documents::items_of(before, o)[i], items[i], others, fewer);
            }
        },
        JsonView::Object(entries) => {
            let o = entry->Object_0;
            assert(before.contains_key(o));
            assert forall|i: int| #![trigger entries[i]] 0 <= i < entries.len() implies holds(
                after,
                documents::fields_of(after, o)[entries[i].0],
                entries[i].1,
                fewer,
            ) by {
                lemma_holds_kept(
                    before,
                    after,
                    documents::fields_of(before, o)[entries[i].0],
                    entries[i].1,
                    others,
                    fewer,
                );
            }
        },
        _ => {},
    }
}

/// Whether a function makes the double of each bit pattern.
pub open spec fn makes_doubles<F: Fn(u64) -> automerge::ScalarValue>(doubles: F) -> bool {
    &&& forall|bits: u64| #[trigger] doubles.requires((bits,))
    &&& forall|bits: u64, value: automerge::ScalarValue| #[trigger]
        doubles.ensures((bits,), value) ==> documents::scalar_content(value) == ScalarView::Double(bits)
}

/// Whether every number in a JSON value is a signed 64-bit integer.
pub open spec fn is_integral(j: JsonView) -> bool
    decreases j,
{
    match j {
        JsonView::Number(n) => number_scalar(n) is Int,
        JsonView::Array(items) => forall|i: int| #![trigger items[i]] 0 <= i < items.len() ==> is_integral(items[i]),
        JsonView::Object(entries) => forall|i: int|
            #![trigger entries[i]]
            0 <= i < entries.len() ==> is_integral(entries[i].1),
        _ => true,
    }
}

/// Whether a JSON value can be written: the keys of its objects are in order, and a
/// function makes the doubles where there are any.
pub open spec fn is_writable<F: Fn(u64) -> automerge::ScalarValue>(j: JsonView, doubles: F) -> bool {
    is_proper(j) && (is_integral(j) || makes_doubles(doubles))
}

/// Makes the value of a document for a JSON value that is neither an array nor an
/// object.
fn scalar_of_json<F: Fn(u64) -> automerge::ScalarValue>(value: &Json, doubles: &F) -> (r: automerge::ScalarValue)
    requires
        !(value@ is Array),
        !(value@ is Object),
        is_writable(value@, *doubles),
    ensures
        documents::scalar_content(r) == json_scalar(value@),
{
    match value {
        Json::Bool(b) => automerge_scalar(Written::Bool(*b)),
        Json::Text(t) => automerge_scalar(Written::Text(t.clone())),
        Json::Number(n) => match n {
            Number::Unsigned(u) => {
                if *u <= 0x7FFF_FFFF_FFFF_FFFF {
                    automerge_scalar(Written::Int(*u as i64))
                } else {
                    let bits: u64 = n.to_double_bits();
                    doubles(bits)
                }
            },
            Number::Negative(i) => automerge_scalar(Written::Int(*i)),
            Number::Double(bits) => doubles(*bits),
        },
        _ => automerge_scalar(Written::Null),
    }
}

/// Whether an entry is what a map held under a key before, and counts as the JSON value.
pub open spec fn is_left(
    earlier: Map<Seq<char>, EntryView>,
    entry: EntryView,
    key: Seq<char>,
    j: JsonView,
) -> bool {
    &&& !(j is Array)
    &&& !(j is Object)
    &&& documents::stands_already(earlier, key, json_scalar(j))
    &&& entry == earlier[key]
}

/// Whether the only change is that a map holds a JSON value under a key, written into
/// new objects.
pub open spec fn value_put(
    before: Map<ObjRef, ObjectView>,
    after: Map<ObjRef, ObjectView>,
    obj: ObjRef,
    key: Seq<char>,
    j: JsonView,
) -> bool {
    &&& documents::has_fields(after, obj)
    &&& documents::fields_of(after, obj).contains_key(key)
    &&& documents::fields_of(after, obj).remove(key) == documents::fields_of(before, obj).remove(key)
    &&& {
        ||| holds(after, documents::fields_of(after, obj)[key], j, before.dom())
        ||| is_left(documents::fields_of(before, obj), documents::fields_of(after, obj)[key], key, j)
    }
    &&& others_kept(before, after, obj)
}

/// Whether the only change is that a list holds one more JSON value, written into new
/// objects.
pub open spec fn value_appended(
    before: Map<ObjRef, ObjectView>,
    after: Map<ObjRef, ObjectView>,
    obj: ObjRef,
    j: JsonView,
) -> bool {
    &&& documents::has_items(after, obj)
    &&& documents::items_of(after, obj).len() == documents::items_of(before, obj).len() + 1
    &&& documents::items_of(after, obj).drop_last() == documents::items_of(before, obj)
    &&& holds(after, documents::items_of(after, obj).last(), j, before.dom())
    &&& others_kept(before, after, obj)
}

/// Whether a list of a document holds the first JSON values of an array.
spec fn items_written(objects: Map<ObjRef, ObjectView>, list: ObjRef, values: Seq<Json>, n: int, others: Set<ObjRef>) -> bool {
    &&& documents::has_items(objects, list)
    &&& documents::items_of(objects, list).len() == n
    &&& forall|i: int|
        #![trigger values[i]]
        0 <= i < n ==> holds(objects, documents::items_of(objects, list)[i], values[i]@, others)
}

/// Whether a map of a document holds the first JSON values of an object.
spec fn fields_written(
    objects: Map<ObjRef, ObjectView>,
    map: ObjRef,
    values: Seq<(String, Json)>,
    n: int,
    others: Set<ObjRef>,
) -> bool {
    &&& documents::has_fields(objects, map)
    &&& forall|k: Seq<char>| #[trigger]
        documents::fields_of(objects, map).contains_key(k) <==> named_before(values, n, k)
    &&& forall|i: int|
        #![trigger values[i]]
        0 <= i < n ==> holds(objects, documents::fields_of(objects, map)[values[i].0@], values[i].1@, others)
}

/// Whether one of the first entries has a key.
spec fn named_before(values: Seq<(String, Json)>, n: int, key: Seq<char>) -> bool {
    exists|i: int| 0 <= i < n && (#[trigger] values[i]).0@ == key
}

/// Writes the values of an array into an empty list of a document.
fn fill_list<F: Fn(u64) -> automerge::ScalarValue>(
    tx: &mut automerge::transaction::Transaction<'_>,
    list: &ObjRef,
    arr: &Vec<Json>,
    doubles: &F,
)
    requires
        documents::has_items(documents::tx_objects(*old(tx)), *list),
        documents::items_of(documents::tx_objects(*old(tx)), *list).len() == 0,
        forall|i: int| 0 <= i < arr@.len() ==> is_writable((#[trigger] arr@[i])@, *doubles),
    ensures
        items_written(
            documents::tx_objects(*final(tx)),
            *list,
            arr@,
            arr@.len() as int,
            documents::tx_objects(*old(tx)).dom(),
        ),
        others_kept(documents::tx_objects(*old(tx)), documents::tx_objects(*final(tx)), *list),
    decreases arr@,
{
    let ghost start = documents::tx_objects(*tx);
    let mut i: usize = 0;
    while i < arr.len()
        invariant
            i <= arr@.len(),
            forall|k: int| 0 <= k < arr@.len() ==> is_writable((#[trigger] arr@[k])@, *doubles),
            items_written(documents::tx_objects(*tx), *list, arr@, i as int, start.dom()),
            others_kept(start, documents::tx_objects(*tx), *list),
            start.contains_key(*list),
        decreases arr@.len() - i,
    {
        let ghost before = documents::tx_objects(*tx);
        assert(is_writable(arr@[i as int]@, *doubles));
        write_json_list_item(tx, list, i, &arr[i], doubles);
        proof {
            let after = documents::tx_objects(*tx);
            let items = documents::items_of(after, *list);
            assert forall|k: int| #![trigger arr@[k]] 0 <= k < i + 1 implies holds(
                after,
                items[k],
                arr@[k]@,
                start.dom(),
            ) by {
                if k < i {
                    assert(items[k] == items.drop_last()[k]);
                    lemma_holds_kept(before, after, items[k], arr@[k]@, start.dom(), start.dom());
                } else {
                    assert(start.dom().subset_of(before.dom()));
                    lemma_holds_kept(after, after, items[k], arr@[k]@, before.dom(), start.dom());
                }
            }
        }
        i = i + 1;
    }
}

/// Writes the values of an object into an empty map of a document.
fn fill_map<F: Fn(u64) -> automerge::ScalarValue>(
    tx: &mut automerge::transaction::Transaction<'_>,
    map: &ObjRef,
    entries: &Vec<(String, Json)>,
    doubles: &F,
)
    requires
        documents::has_fields(documents::tx_objects(*old(tx)), *map),
        documents::fields_of(documents::tx_objects(*old(tx)), *map) == Map::<Seq<char>, EntryView>::empty(),
        json::keys_sorted(json::object_view(entries@)),
        forall|i: int| 0 <= i < entries@.len() ==> is_writable((#[trigger] entries@[i]).1@, *doubles),
    ensures
        fields_written(
            documents::tx_objects(*final(tx)),
            *map,
            entries@,
            entries@.len() as int,
            documents::tx_objects(*old(tx)).dom(),
        ),
        others_kept(documents::tx_objects(*old(tx)), documents::tx_objects(*final(tx)), *map),
    decreases entries@,
{
    let ghost start = documents::tx_objects(*tx);
    let mut i: usize = 0;
    while i < entries.len()
        invariant
            i <= entries@.len(),
            json::keys_sorted(json::object_view(entries@)),
            forall|k: int| 0 <= k < entries@.len() ==> is_writable((#[trigger] entries@[k]).1@, *doubles),
            fields_written(documents::tx_objects(*tx), *map, entries@, i as int, start.dom()),
            others_kept(start, documents::tx_objects(*tx), *map),
            start.contains_key(*map),
        decreases entries@.len() - i,
    {
        let ghost before = documents::tx_objects(*tx);
        assert(is_writable(entries@[i as int].1@, *doubles));
        write_json_value(tx, map, entries[i].0.as_str(), &entries[i].1, doubles);
        proof {
            lemma_field_written(before, documents::tx_objects(*tx), *map, entries@, i as int, start.dom());
        }
        i = i + 1;
    }
}

proof fn lemma_distinct_keys(entries: Seq<(String, Json)>, i: int, k: int)
    requires
        json::keys_sorted(json::object_view(entries)),
        0 <= i < k < entries.len(),
    ensures
        entries[i].0@ != entries[k].0@,
{
    let view = json::object_view(entries);
    json::lemma_object_view(entries);
    lemma_sorted_pair(view, i, k);
}

proof fn lemma_sorted_pair(view: Seq<(Seq<char>, JsonView)>, i: int, k: int)
    requires
        json::keys_sorted(view),
        0 <= i < k < view.len(),
    ensures
        view[i].0 != view[k].0,
    decreases view.len(),
{
    if i == 0 {
        assert(json::text_order(view[0].0, view[k].0) == json::Order::Less);
        json::law_text_order(view[0].0, view[k].0, view[k].0);
    } else {
        let rest = view.skip(1);
        lemma_sorted_pair(rest, i - 1, k - 1);
        assert(rest[i - 1] == view[i]);
        assert(rest[k - 1] == view[k]);
    }
}

/// One more value of an object is written.
proof fn lemma_field_written(
    before: Map<ObjRef, ObjectView>,
    after: Map<ObjRef, ObjectView>,
    map: ObjRef,
    entries: Seq<(String, Json)>,
    i: int,
    others: Set<ObjRef>,
)
    requires
        0 <= i < entries.len(),
        json::keys_sorted(json::object_view(entries)),
        fields_written(before, map, entries, i, others),
        value_put(before, after, map, entries[i].0@, entries[i].1@),
        others.contains(map),
        others.subset_of(before.dom()),
    ensures
        fields_written(after, map, entries, i + 1, others),
{
    let old_fields = documents::fields_of(before, map);
    let fields = documents::fields_of(after, map);
    let key = entries[i].0@;
    assert forall|k: Seq<char>| #[trigger] fields.contains_key(k) <==> named_before(entries, i + 1, k) by {
        if k == key {
            assert(entries[i].0@ == k);
        } else {
            assert(fields.remove(key).contains_key(k) <==> old_fields.remove(key).contains_key(k));
            assert(old_fields.contains_key(k) <==> named_before(entries, i, k));
            if named_before(entries, i, k) {
                let t = choose|t: int| 0 <= t < i && (#[trigger] entries[t]).0@ == k;
                assert(entries[t].0@ == k);
            }
            if named_before(entries, i + 1, k) {
                let t = choose|t: int| 0 <= t < i + 1 && (#[trigger] entries[t]).0@ == k;
                assert(entries[t].0@ == k);
            }
        }
    }
    assert forall|t: int| #![trigger entries[t]] 0 <= t < i + 1 implies holds(
        after,
        fields[entries[t].0@],
        entries[t].1@,
        others,
    ) by {
        if t < i {
            lemma_distinct_keys(entries, t, i);
            let name = entries[t].0@;
            assert(named_before(entries, i, name));
            assert(old_fields.contains_key(name));
            assert(fields.remove(key)[name] == old_fields.remove(key)[name]);
            lemma_holds_kept(before, after, old_fields[name], entries[t].1@, others, others);
        } else {
            if old_fields.contains_key(key) {
                let n = choose|n: int| 0 <= n < i && (#[trigger] entries[n]).0@ == key;
                lemma_distinct_keys(entries, n, i);
            }
            lemma_holds_kept(after, after, fields[key], entries[t].1@, before.dom(), others);
        }
    }
}

/// A list that was filled is the array.
proof fn lemma_list_holds(
    objects: Map<ObjRef, ObjectView>,
    list: ObjRef,
    arr: Seq<Json>,
    others: Set<ObjRef>,
    fewer: Set<ObjRef>,
)
    requires
        items_written(objects, list, arr, arr.len() as int, others),
        fewer.subset_of(others),
        !fewer.contains(list),
    ensures
        holds(objects, EntryView::Object(list), JsonView::Array(json::array_view(arr)), fewer),
{
    json::lemma_array_view(arr);
    let items = json::array_view(arr);
    let stored = documents::items_of(objects, list);
    assert forall|i: int| #![trigger items[i]] 0 <= i < items.len() implies holds(
        objects,
        stored[i],
        items[i],
        fewer,
    ) by {
        assert(items[i] == arr[i]@);
        lemma_holds_kept(objects, objects, stored[i], arr[i]@, others, fewer);
    }
}

/// A map that was filled is the object.
proof fn lemma_map_holds(
    objects: Map<ObjRef, ObjectView>,
    map: ObjRef,
    entries: Seq<(String, Json)>,
    others: Set<ObjRef>,
    fewer: Set<ObjRef>,
)
    requires
        fields_written(objects, map, entries, entries.len() as int, others),
        fewer.subset_of(others),
        !fewer.contains(map),
    ensures
        holds(objects, EntryView::Object(map), JsonView::Object(json::object_view(entries)), fewer),
{
    json::lemma_object_view(entries);
    let view = json::object_view(entries);
    let fields = documents::fields_of(objects, map);
    assert forall|k: Seq<char>| #[trigger] fields.contains_key(k) <==> json::has_key(view, k) by {
        lemma_named(entries, k);
    }
    assert forall|i: int| #![trigger view[i]] 0 <= i < view.len() implies holds(
        objects,
        fields[view[i].0],
        view[i].1,
        fewer,
    ) by {
        assert(view[i] == (entries[i].0@, entries[i].1@));
        lemma_holds_kept(objects, objects, fields[entries[i].0@], entries[i].1@, others, fewer);
    }
}

proof fn lemma_named(entries: Seq<(String, Json)>, k: Seq<char>)
    ensures
        named_before(entries, entries.len() as int, k) <==> json::has_key(json::object_view(entries), k),
{
    json::lemma_object_view(entries);
    let view = json::object_view(entries);
    if named_before(entries, entries.len() as int, k) {
        let t = choose|t: int| 0 <= t < entries.len() && (#[trigger] entries[t]).0@ == k;
        assert(view[t].0 == k);
    }
    if json::has_key(view, k) {
        let t = choose|t: int| 0 <= t < view.len() && (#[trigger] view[t]).0 == k;
        assert(entries[t].0@ == k);
    }
}

proof fn lemma_writable_parts<F: Fn(u64) -> automerge::ScalarValue>(value: Json, doubles: F)
    requires
        is_writable(value@, doubles),
    ensures
        value matches Json::Array(arr) ==> forall|i: int|
            0 <= i < arr@.len() ==> is_writable((#[trigger] arr@[i])@, doubles),
        value matches Json::Object(entries) ==> json::keys_sorted(json::object_view(entries@)) && forall|i: int|
            0 <= i < entries@.len() ==> is_writable((#[trigger] entries@[i]).1@, doubles),
{
    match value {
        Json::Array(arr) => {
            json::lemma_array_view(arr@);
            let items = json::array_view(arr@);
            assert(is_writable(JsonView::Array(items), doubles));
            assert forall|i: int| 0 <= i < arr@.len() implies is_writable((#[trigger] arr@[i])@, doubles) by {
                assert(items[i] == arr@[i]@);
            }
        },
        Json::Object(entries) => {
            json::lemma_object_view(entries@);
            let view = json::object_view(entries@);
            assert(is_writable(JsonView::Object(view), doubles));
            assert forall|i: int| 0 <= i < entries@.len() implies is_writable((#[trigger] entries@[i]).1@, doubles) by {
                assert(view[i] == (entries@[i].0@, entries@[i].1@));
            }
        },
        _ => {},
    }
}

/// Write a JSON value into a map of a document under a key.
fn write_json_value<F: Fn(u64) -> automerge::ScalarValue>(
    tx: &mut automerge::transaction::Transaction<'_>,
    obj: &ObjRef,
    key: &str,
    value: &Json,
    doubles: &F,
)
    requires
        documents::has_fields(documents::tx_objects(*old(tx)), *obj),
        is_writable(value@, *doubles),
    ensures
        value_put(documents::tx_objects(*old(tx)), documents::tx_objects(*final(tx)), *obj, key@, value@),
    decreases *value,
{
    let ghost before = documents::tx_objects(*tx);
    let ghost old_fields = documents::fields_of(before, *obj);
    proof {
        lemma_writable_parts(*value, *doubles);
    }
    match value {
        Json::Array(arr) => {
            let list_id = put_object(tx, obj, key, NewObject::Items);
            let ghost between = documents::tx_objects(*tx);
            fill_list(tx, &list_id, arr, doubles);
            proof {
                let after = documents::tx_objects(*tx);
                assert(between.contains_key(*obj) && list_id != *obj);
                assert(old_fields.insert(key@, EntryView::Object(list_id)).remove(key@) =~= old_fields.remove(key@));
                assert(before.dom().subset_of(between.dom()));
                lemma_list_holds(after, list_id, arr@, between.dom(), before.dom());
                lemma_kept_through(before, between, after, *obj, list_id);
            }
        },
        Json::Object(map) => {
            let map_id = put_object(tx, obj, key, NewObject::Fields);
            let ghost between = documents::tx_objects(*tx);
            fill_map(tx, &map_id, map, doubles);
            proof {
                let after = documents::tx_objects(*tx);
                assert(between.contains_key(*obj) && map_id != *obj);
                assert(old_fields.insert(key@, EntryView::Object(map_id)).remove(key@) =~= old_fields.remove(key@));
                assert(before.dom().subset_of(between.dom()));
                lemma_map_holds(after, map_id, map@, between.dom(), before.dom());
                lemma_kept_through(before, between, after, *obj, map_id);
            }
        },
        _ => {
            let scalar = scalar_of_json(value, doubles);
            put_scalar(tx, obj, key, scalar);
            proof {
                let entry = EntryView::Scalar(json_scalar(value@));
                assert(old_fields.insert(key@, entry).remove(key@) =~= old_fields.remove(key@));
            }
        },
    }
}

proof fn lemma_kept_through(
    before: Map<ObjRef, ObjectView>,
    between: Map<ObjRef, ObjectView>,
    after: Map<ObjRef, ObjectView>,
    obj: ObjRef,
    new: ObjRef,
)
    requires
        others_kept(before, between, obj),
        others_kept(between, after, new),
        !before.contains_key(new),
    ensures
        others_kept(before, after, obj),
{
}

/// Write a JSON value at the end of a list of a document.
fn write_json_list_item<F: Fn(u64) -> automerge::ScalarValue>(
    tx: &mut automerge::transaction::Transaction<'_>,
    list: &ObjRef,
    index: usize,
    value: &Json,
    doubles: &F,
)
    requires
        documents::has_items(documents::tx_objects(*old(tx)), *list),
        index == documents::items_of(documents::tx_objects(*old(tx)), *list).len(),
        is_writable(value@, *doubles),
    ensures
        value_appended(documents::tx_objects(*old(tx)), documents::tx_objects(*final(tx)), *list, value@),
    decreases *value,
{
    let ghost before = documents::tx_objects(*tx);
    let ghost old_items = documents::items_of(before, *list);
    proof {
        lemma_writable_parts(*value, *doubles);
    }
    match value {
        Json::Array(arr) => {
            let nested_list = insert_object(tx, list, index, NewObject::Items);
            let ghost between = documents::tx_objects(*tx);
            assert(documents::items_of(between, *list).drop_last() =~= old_items);
            fill_list(tx, &nested_list, arr, doubles);
            proof {
                let after = documents::tx_objects(*tx);
                assert(between.contains_key(*list) && nested_list != *list);
                assert(before.dom().subset_of(between.dom()));
                lemma_list_holds(after, nested_list, arr@, between.dom(), before.dom());
                lemma_kept_through(before, between, after, *list, nested_list);
            }
        },
        Json::Object(map) => {
            let nested_map = insert_object(tx, list, index, NewObject::Fields);
            let ghost between = documents::tx_objects(*tx);
            assert(documents::items_of(between, *list).drop_last() =~= old_items);
            fill_map(tx, &nested_map, map, doubles);
            proof {
                let after = documents::tx_objects(*tx);
                assert(between.contains_key(*list) && nested_map != *list);
                assert(before.dom().subset_of(between.dom()));
                lemma_map_holds(after, nested_map, map@, between.dom(), before.dom());
                lemma_kept_through(before, between, after, *list, nested_map);
            }
        },
        _ => {
            let scalar = scalar_of_json(value, doubles);
            insert_scalar(tx, list, index, scalar);
            assert(documents::items_of(documents::tx_objects(*tx), *list).drop_last() =~= old_items);
        },
    }
}

/// Whether the root map of a document holds the entries of a JSON object and nothing
/// else. What it held before stays where it counts as the value under its key.
pub open spec fn root_holds(
    earlier: Map<Seq<char>, EntryView>,
    objects: Map<ObjRef, ObjectView>,
    entries: Seq<(Seq<char>, JsonView)>,
) -> bool {
    let fields = documents::fields_of(objects, ObjRef::Root);
    &&& documents::has_fields(objects, ObjRef::Root)
    &&& forall|k: Seq<char>| #[trigger] fields.contains_key(k) <==> json::has_key(entries, k)
    &&& forall|i: int|
        #![trigger entries[i]]
        0 <= i < entries.len() ==> root_entry(earlier, objects, entries[i].0, entries[i].1)
}

/// Whether the root map of a document holds a JSON value under a key.
pub open spec fn root_entry(
    earlier: Map<Seq<char>, EntryView>,
    objects: Map<ObjRef, ObjectView>,
    key: Seq<char>,
    j: JsonView,
) -> bool {
    let entry = documents::fields_of(objects, ObjRef::Root)[key];
    holds(objects, entry, j, set![ObjRef::Root]) || is_left(earlier, entry, key, j)
}

/// Whether the first entries of an object are written over the fields of the root map.
spec fn root_upto(
    earlier: Map<Seq<char>, EntryView>,
    objects: Map<ObjRef, ObjectView>,
    entries: Seq<(String, Json)>,
    n: int,
) -> bool {
    let fields = documents::fields_of(objects, ObjRef::Root);
    &&& documents::has_fields(objects, ObjRef::Root)
    &&& forall|k: Seq<char>| #[trigger]
        fields.contains_key(k) <==> (earlier.contains_key(k) || named_before(entries, n, k))
    &&& forall|k: Seq<char>| #[trigger]
        fields.contains_key(k) && !named_before(entries, n, k) ==> fields[k] == earlier[k]
    &&& forall|i: int|
        #![trigger entries[i]]
        0 <= i < n ==> root_entry(earlier, objects, entries[i].0@, entries[i].1@)
}

proof fn lemma_root_entry_kept(
    earlier: Map<Seq<char>, EntryView>,
    before: Map<ObjRef, ObjectView>,
    after: Map<ObjRef, ObjectView>,
    key: Seq<char>,
    j: JsonView,
)
    requires
        root_entry(earlier, before, key, j),
        others_kept(before, after, ObjRef::Root),
        documents::fields_of(after, ObjRef::Root)[key] == documents::fields_of(before, ObjRef::Root)[key],
    ensures
        root_entry(earlier, after, key, j),
{
    let entry = documents::fields_of(before, ObjRef::Root)[key];
    let root = set![ObjRef::Root];
    if holds(before, entry, j, root) {
        lemma_holds_kept(before, after, entry, j, root, root);
    }
}

proof fn lemma_root_written(
    earlier: Map<Seq<char>, EntryView>,
    before: Map<ObjRef, ObjectView>,
    after: Map<ObjRef, ObjectView>,
    entries: Seq<(String, Json)>,
    i: int,
)
    requires
        0 <= i < entries.len(),
        json::keys_sorted(json::object_view(entries)),
        root_upto(earlier, before, entries, i),
        value_put(before, after, ObjRef::Root, entries[i].0@, entries[i].1@),
    ensures
        root_upto(earlier, after, entries, i + 1),
{
    let old_fields = documents::fields_of(before, ObjRef::Root);
    let fields = documents::fields_of(after, ObjRef::Root);
    let key = entries[i].0@;
    if named_before(entries, i, key) {
        let n = choose|n: int| 0 <= n < i && (#[trigger] entries[n]).0@ == key;
        lemma_distinct_keys(entries, n, i);
    }
    assert forall|k: Seq<char>| named_before(entries, i + 1, k) <==> (k == key || named_before(entries, i, k)) by {
        if k == key {
            assert(entries[i].0@ == k);
        }
        if named_before(entries, i, k) {
            let t = choose|t: int| 0 <= t < i && (#[trigger] entries[t]).0@ == k;
            assert(entries[t].0@ == k);
        }
    }
    assert forall|k: Seq<char>| k != key implies (#[trigger] fields.contains_key(k) <==> old_fields.contains_key(k)) && (
    fields.contains_key(k) ==> fields[k] == old_fields[k]) by {
        assert(fields.remove(key).contains_key(k) <==> old_fields.remove(key).contains_key(k));
        assert(fields.remove(key)[k] == old_fields.remove(key)[k]);
    }
    assert forall|t: int| #![trigger entries[t]] 0 <= t < i + 1 implies root_entry(
        earlier,
        after,
        entries[t].0@,
        entries[t].1@,
    ) by {
        if t < i {
            lemma_distinct_keys(entries, t, i);
            let name = entries[t].0@;
            assert(named_before(entries, i, name));
            assert(old_fields.contains_key(name));
            assert(fields.contains_key(name) <==> old_fields.contains_key(name));
            lemma_root_entry_kept(earlier, before, after, name, entries[t].1@);
        } else if holds(after, fields[key], entries[i].1@, before.dom()) {
            assert(set![ObjRef::Root].subset_of(before.dom()));
            lemma_holds_kept(after, after, fields[key], entries[i].1@, before.dom(), set![ObjRef::Root]);
        } else {
            assert(old_fields.contains_key(key));
        }
    }
}

/// Writes the entries of an object into the root map of a document, and deletes the
/// other keys that it had.
fn write_root<F: Fn(u64) -> automerge::ScalarValue>(
    tx: &mut automerge::transaction::Transaction<'_>,
    entries: &Vec<(String, Json)>,
    existing_keys: &Vec<String>,
    doubles: &F,
)
    requires
        documents::lists_keys(documents::tx_objects(*old(tx)), ObjRef::Root, text::texts(existing_keys@)),
        is_writable(JsonView::Object(json::object_view(entries@)), *doubles),
    ensures
        root_holds(
            documents::fields_of(documents::tx_objects(*old(tx)), ObjRef::Root),
            documents::tx_objects(*final(tx)),
            json::object_view(entries@),
        ),
{
    let ghost view = json::object_view(entries@);
    let ghost earlier = documents::fields_of(documents::tx_objects(*tx), ObjRef::Root);
    proof {
        json::lemma_object_view(entries@);
        assert forall|i: int| 0 <= i < entries@.len() implies is_writable((#[trigger] entries@[i]).1@, *doubles) by {
            assert(view[i] == (entries@[i].0@, entries@[i].1@));
        }
    }
    let mut i: usize = 0;
    while i < entries.len()
        invariant
            i <= entries@.len(),
            json::keys_sorted(json::object_view(entries@)),
            forall|k: int| 0 <= k < entries@.len() ==> is_writable((#[trigger] entries@[k]).1@, *doubles),
            root_upto(earlier, documents::tx_objects(*tx), entries@, i as int),
        decreases entries@.len() - i,
    {
        let ghost before = documents::tx_objects(*tx);
        assert(is_writable(entries@[i as int].1@, *doubles));
        write_json_value(tx, &ObjRef::Root, entries[i].0.as_str(), &entries[i].1, doubles);
        proof {
            lemma_root_written(earlier, before, documents::tx_objects(*tx), entries@, i as int);
        }
        i = i + 1;
    }
    let ghost names = text::texts(existing_keys@);
    proof {
        let fields = documents::fields_of(documents::tx_objects(*tx), ObjRef::Root);
        assert(names.take(0) =~= Seq::empty());
        assert forall|t: int| #![trigger view[t]] 0 <= t < view.len() implies fields.contains_key(view[t].0) && root_entry(
            earlier,
            documents::tx_objects(*tx),
            view[t].0,
            view[t].1,
        ) by {
            assert(view[t] == (entries@[t].0@, entries@[t].1@));
            assert(named_before(entries@, entries@.len() as int, entries@[t].0@));
        }
        assert forall|k: Seq<char>| #[trigger] fields.contains_key(k) && !json::has_key(view, k) implies earlier.contains_key(k) by {
            lemma_named(entries@, k);
        }
    }
    let mut n: usize = 0;
    while n < existing_keys.len()
        invariant
            n <= existing_keys@.len(),
            names == text::texts(existing_keys@),
            view == json::object_view(entries@),
            documents::has_fields(documents::tx_objects(*tx), ObjRef::Root),
            forall|t: int|
                #![trigger view[t]]
                0 <= t < view.len() ==> documents::fields_of(documents::tx_objects(*tx), ObjRef::Root).contains_key(
                    view[t].0,
                ) && root_entry(earlier, documents::tx_objects(*tx), view[t].0, view[t].1),
            forall|k: Seq<char>| #[trigger]
                documents::fields_of(documents::tx_objects(*tx), ObjRef::Root).contains_key(k) && !json::has_key(view, k)
                    ==> earlier.contains_key(k) && !names.take(n as int).contains(k),
        decreases existing_keys@.len() - n,
    {
        let ghost before = documents::tx_objects(*tx);
        let key: &str = existing_keys[n].as_str();
        proof {
            json::lemma_has_key(view, key@);
            assert(names.take(n + 1) =~= names.take(n as int).push(key@));
        }
        if object_get(entries, key).is_none() {
            delete_field(tx, &ObjRef::Root, key);
            proof {
                let after = documents::tx_objects(*tx);
                assert forall|t: int| #![trigger view[t]] 0 <= t < view.len() implies documents::fields_of(
                    after,
                    ObjRef::Root,
                ).contains_key(view[t].0) && root_entry(earlier, after, view[t].0, view[t].1) by {
                    assert(json::has_key(view, view[t].0));
                    lemma_root_entry_kept(earlier, before, after, view[t].0, view[t].1);
                }
            }
        }
        proof {
            assert forall|k: Seq<char>| names.take(n + 1).contains(k) implies k == key@ || names.take(n as int).contains(k) by {
                let taken = names.take(n + 1);
                let at = choose|at: int| 0 <= at < taken.len() && taken[at] == k;
                if at < n {
                    assert(names.take(n as int)[at] == k);
                }
            }
        }
        n = n + 1;
    }
    proof {
        let fields = documents::fields_of(documents::tx_objects(*tx), ObjRef::Root);
        assert(names.take(names.len() as int) =~= names);
        assert forall|k: Seq<char>| #[trigger] fields.contains_key(k) <==> json::has_key(view, k) by {
            if fields.contains_key(k) && !json::has_key(view, k) {
                assert(names.to_set().contains(k));
            }
            if json::has_key(view, k) {
                let t = choose|t: int| 0 <= t < view.len() && (#[trigger] view[t]).0 == k;
                assert(fields.contains_key(view[t].0));
            }
        }
    }
}

/// Calls `automerge::Automerge::transact` with `write_root`. The transaction is on what
/// the document holds, and once committed the document holds what was written. The IDs
/// of its objects need not be those of the transaction. A commit adds one change to the
/// history, or none where nothing was written.
#[verifier::external_body]
fn transact_root<F: Fn(u64) -> automerge::ScalarValue>(
    doc: &mut automerge::Automerge,
    entries: &Vec<(String, Json)>,
    existing_keys: &Vec<String>,
    doubles: &F,
) -> (r: Result<(), String>)
    requires
        documents::lists_keys(documents::doc_objects(*old(doc)), ObjRef::Root, text::texts(existing_keys@)),
        is_writable(JsonView::Object(json::object_view(entries@)), *doubles),
    ensures
        r is Ok,
        root_holds(
            documents::fields_of(documents::doc_objects(*old(doc)), ObjRef::Root),
            documents::doc_objects(*final(doc)),
            json::object_view(entries@),
        ),
        documents::goes_on_from(documents::doc_changes(*final(doc)), documents::doc_changes(*old(doc))),
{
    let done = doc.transact::<_, _, automerge::AutomergeError>(|tx| Ok(write_root(tx, entries, existing_keys, doubles)));
    match done {
        Ok(_) => Ok(()),
        Err(failure) => Err(format!("Automerge transaction failed: {:?}", failure)),
    }
}

/// The fields of the root map of a document, where there is one.
pub open spec fn earlier_fields(existing: Option<&automerge::Automerge>) -> Map<Seq<char>, EntryView> {
    match existing {
        Some(doc) => documents::fields_of(documents::doc_objects(*doc), ObjRef::Root),
        None => Map::empty(),
    }
}

/// The history of a document, where there is one.
pub open spec fn earlier_changes(existing: Option<&automerge::Automerge>) -> Set<Seq<u8>> {
    match existing {
        Some(doc) => documents::doc_changes(*doc),
        None => Set::empty(),
    }
}

/// Convert a JSON value into a document.
///
/// Where `existing` is given, the document is its fork (preserving CRDT history), updated
/// with the new JSON fields, and with the keys that the value does not have deleted. The
/// value must be an object.
pub fn json_to_automerge<F: Fn(u64) -> automerge::ScalarValue>(
    value: &Json,
    existing: Option<&automerge::Automerge>,
    doubles: &F,
) -> (r: Result<automerge::Automerge, String>)
    requires
        is_writable(value@, *doubles),
    ensures
        match value@ {
            JsonView::Object(entries) => r matches Ok(doc) && root_holds(
                earlier_fields(existing),
                documents::doc_objects(doc),
                entries,
            ) && documents::goes_on_from(documents::doc_changes(doc), earlier_changes(existing)),
            _ => r matches Err(e) && e@ == "Root value must be a JSON object"@,
        },
{
    match value {
        Json::Object(map) => {
            let mut doc = match existing {
                Some(existing) => fork_document(existing),
                None => new_document(),
            };
            let existing_keys = document_keys(&doc, &ObjRef::Root);
            match transact_root(&mut doc, map, &existing_keys, doubles) {
                Ok(_) => Ok(doc),
                Err(e) => Err(e),
            }
        },
        _ => Err("Root value must be a JSON object".to_string()),
    }
}

/// Whether a JSON value holds only numbers that a document keeps: finite ones, without
/// the integers that are no signed 64-bit integers.
pub open spec fn is_kept(j: JsonView) -> bool
    decreases j,
{
    match j {
        JsonView::Number(n) => match n {
            Number::Unsigned(u) => u <= i64::MAX,
            Number::Negative(i) => i < 0,
            Number::Double(bits) => is_finite(bits),
        },
        JsonView::Array(items) => forall|i: int| #![trigger items[i]] 0 <= i < items.len() ==> is_kept(items[i]),
        JsonView::Object(entries) => forall|i: int|
            #![trigger entries[i]]
            0 <= i < entries.len() ==> is_kept(entries[i].1),
        _ => true,
    }
}

proof fn lemma_reads_what_is_held(
    objects: Map<ObjRef, ObjectView>,
    entry: EntryView,
    j: JsonView,
    others: Set<ObjRef>,
)
    requires
        holds(objects, entry, j, others),
        is_proper(j),
        is_kept(j),
    ensures
        reads_as(objects, entry, j),
    decreases j,
{
    match j {
        JsonView::Array(items) => {
            let stored = documents::items_of(objects, entry->Object_0);
            assert forall|i: int| #![trigger items[i]] 0 <= i < items.len() implies reads_as(
                objects,
                stored[i],
                items[i],
            ) by {
                lemma_reads_what_is_held(objects, stored[i], items[i], others);
            }
        },
        JsonView::Object(entries) => {
            let fields = documents::fields_of(objects, entry->Object_0);
            assert forall|i: int| #![trigger entries[i]] 0 <= i < entries.len() implies reads_as(
                objects,
                fields[entries[i].0],
                entries[i].1,
            ) by {
                lemma_reads_what_is_held(objects, fields[entries[i].0], entries[i].1, others);
            }
        },
        _ => {},
    }
}

/// A document that was made from a JSON object reads as that object, provided that a
/// document keeps its numbers, and that no value that merely counted as the same stood
/// in its place: a document leaves -0.0 where 0.0 is written over it.
pub proof fn law_write_then_read(
    earlier: Map<Seq<char>, EntryView>,
    objects: Map<ObjRef, ObjectView>,
    entries: Seq<(Seq<char>, JsonView)>,
    read: JsonView,
)
    requires
        root_holds(earlier, objects, entries),
        is_proper(JsonView::Object(entries)),
        is_kept(JsonView::Object(entries)),
        forall|i: int|
            #![trigger entries[i]]
            0 <= i < entries.len() && documents::stands_already(earlier, entries[i].0, json_scalar(entries[i].1))
                ==> earlier[entries[i].0] == EntryView::Scalar(json_scalar(entries[i].1)),
    ensures
        reads_object(objects, ObjRef::Root, read) <==> read == JsonView::Object(entries),
{
    let fields = documents::fields_of(objects, ObjRef::Root);
    assert forall|i: int| #![trigger entries[i]] 0 <= i < entries.len() implies reads_as(
        objects,
        fields[entries[i].0],
        entries[i].1,
    ) by {
        let (key, value) = entries[i];
        assert(root_entry(earlier, objects, key, value));
        let others = set![ObjRef::Root];
        lemma_reads_what_is_held(objects, fields[key], value, others);
    }
    assert(reads_object(objects, ObjRef::Root, JsonView::Object(entries)));
    if reads_object(objects, ObjRef::Root, read) {
        law_reading_is_unique(objects, EntryView::Object(ObjRef::Root), read, JsonView::Object(entries));
    }
}

/// A document has no key that the JSON object from which it was made does not have,
/// whatever the document had from which it was forked.
pub proof fn law_stale_keys_are_deleted(
    earlier: Map<Seq<char>, EntryView>,
    objects: Map<ObjRef, ObjectView>,
    entries: Seq<(Seq<char>, JsonView)>,
    read: JsonView,
    key: Seq<char>,
)
    requires
        root_holds(earlier, objects, entries),
        reads_object(objects, ObjRef::Root, read),
    ensures
        read matches JsonView::Object(found) && (json::has_key(found, key) <==> json::has_key(entries, key)),
{
    let fields = documents::fields_of(objects, ObjRef::Root);
    assert(fields.contains_key(key) <==> json::has_key(entries, key));
}

} // verus!

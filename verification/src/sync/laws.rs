//! What queries and the store of documents promise together.

use vstd::arithmetic::power2::*;
use vstd::prelude::*;
use vstd::string::*;
use vstd::utf8::*;

use crate::doubles;
use crate::json;
use crate::json::{JsonView, Number, Order};
use crate::sync::in_memory;
use crate::sync::in_memory::{BackendView, NoticeView};
use crate::sync::query;
use crate::sync::query::{GeoPoint, Query};
use crate::sync::types;
use crate::sync::types::{ChangeView, DeletionPolicy, DocumentView, TombstoneView, TransportType};

verus! {

/// Whether bits of a double stand for a number.
pub open spec fn is_number(bits: nat) -> bool {
    bits % 0x8000_0000_0000_0000 <= 0x7FF0_0000_0000_0000
}

/// The number in a field of a document, by the bits of its double.
pub open spec fn coordinate(doc: DocumentView, field: Seq<char>) -> Option<nat> {
    if doc.fields.contains_key(field) {
        match doc.fields[field] {
            JsonView::Number(n) => Some(json::double_bits(n)),
            _ => None,
        }
    } else {
        None
    }
}

/// A value lies between two others: all are numbers, and it is neither below the one nor
/// above the other.
pub open spec fn lies_between(low: u64, bits: nat, high: u64) -> bool {
    &&& is_number(low as nat) && is_number(bits) && is_number(high as nat)
    &&& doubles::units(low as nat) <= doubles::units(bits) <= doubles::units(high as nat)
}

proof fn lemma_double_bits_bound(n: Number)
    ensures
        json::double_bits(n) <= u64::MAX,
{
    match n {
        Number::Unsigned(u) => doubles::law_double_of_integer(u),
        Number::Negative(i) => doubles::law_double_of_integer(
            if i < 0 {
                (-i) as u64
            } else {
                i as u64
            },
        ),
        Number::Double(b) => {},
    }
}

/// A document lies within bounds exactly if both of its coordinates are numbers and each
/// lies between the bounds for it: a place whose longitude is out of them is not found,
/// whatever its latitude, and no more is one whose latitude is.
pub proof fn law_within_bounds(
    doc: DocumentView,
    min: GeoPoint,
    max: GeoPoint,
    lat_field: Option<String>,
    lon_field: Option<String>,
)
    ensures
        ({
            let lat = coordinate(
                doc,
                match lat_field {
                    Some(f) => f@,
                    None => "lat"@,
                },
            );
            let lon = coordinate(
                doc,
                match lon_field {
                    Some(f) => f@,
                    None => "lon"@,
                },
            );
            query::matches_query(doc, Query::WithinBounds { min, max, lat_field, lon_field }) <==> lat is Some
                && lon is Some && lies_between(min.lat, lat->Some_0, max.lat) && lies_between(
                min.lon,
                lon->Some_0,
                max.lon,
            )
        }),
{
    let lat_key = query::coordinate_field(lat_field, "lat"@);
    let lon_key = query::coordinate_field(lon_field, "lon"@);
    let lat = coordinate(doc, lat_key);
    let lon = coordinate(doc, lon_key);
    if lat is Some && lon is Some {
        lemma_double_bits_bound(doc.fields[lat_key]->Number_0);
        lemma_double_bits_bound(doc.fields[lon_key]->Number_0);
        let y = lat->Some_0 as u64;
        let x = lon->Some_0 as u64;
        doubles::law_double_order(min.lat, y);
        doubles::law_double_order(y, max.lat);
        doubles::law_double_order(min.lon, x);
        doubles::law_double_order(x, max.lon);
    }
}

/// The rectangle that is one point finds the places that stand for that point and no others,
/// a rectangle within another finds no more than it, and one whose bounds are crossed finds
/// nothing.
pub proof fn law_rectangles(at: GeoPoint, min: GeoPoint, max: GeoPoint, inner_min: GeoPoint, inner_max: GeoPoint)
    ensures
        at.is_within(min, min) <==> is_number(at.lat as nat) && is_number(at.lon as nat) && is_number(min.lat as nat)
            && is_number(min.lon as nat) && doubles::units(at.lat as nat) == doubles::units(min.lat as nat)
            && doubles::units(at.lon as nat) == doubles::units(min.lon as nat),
        inner_min.is_within(min, max) && inner_max.is_within(min, max) && at.is_within(inner_min, inner_max)
            ==> at.is_within(min, max),
        doubles::units(min.lat as nat) > doubles::units(max.lat as nat) || doubles::units(min.lon as nat)
            > doubles::units(max.lon as nat) ==> !at.is_within(min, max),
        at.is_within(min, max) ==> min.is_within(min, max) && max.is_within(min, max),
{
    doubles::law_double_order(min.lat, at.lat);
    doubles::law_double_order(at.lat, min.lat);
    doubles::law_double_order(min.lon, at.lon);
    doubles::law_double_order(at.lon, min.lon);
    doubles::law_double_order(at.lat, max.lat);
    doubles::law_double_order(at.lon, max.lon);
}

/// A place is found near enough exactly if it is one of those that were measured so: the
/// latitude and the longitude, each from its own field, must both be numbers.
pub proof fn law_within_radius(doc: DocumentView, q: Query)
    requires
        q is WithinRadius,
    ensures
        ({
            let lat = coordinate(
                doc,
                match q->WithinRadius_lat_field {
                    Some(f) => f@,
                    None => "lat"@,
                },
            );
            let lon = coordinate(
                doc,
                match q->WithinRadius_lon_field {
                    Some(f) => f@,
                    None => "lon"@,
                },
            );
            query::matches_query(doc, q) <==> lat is Some && lon is Some && exists|i: int|
                0 <= i < q->WithinRadius_inside@.len() && (#[trigger] q->WithinRadius_inside@[i]).lat as nat
                    == lat->Some_0 && q->WithinRadius_inside@[i].lon as nat == lon->Some_0
        }),
{
    let lat_key = query::coordinate_field(q->WithinRadius_lat_field, "lat"@);
    let lon_key = query::coordinate_field(q->WithinRadius_lon_field, "lon"@);
    let lat = coordinate(doc, lat_key);
    let lon = coordinate(doc, lon_key);
    let inside = q->WithinRadius_inside@;
    if lat is Some && lon is Some {
        lemma_double_bits_bound(doc.fields[lat_key]->Number_0);
        lemma_double_bits_bound(doc.fields[lon_key]->Number_0);
        let at = GeoPoint { lat: lat->Some_0 as u64, lon: lon->Some_0 as u64 };
        if inside.contains(at) {
            let i = choose|i: int| 0 <= i < inside.len() && inside[i] == at;
            assert(inside[i].lat as nat == lat->Some_0);
        }
        if exists|i: int|
            0 <= i < inside.len() && (#[trigger] inside[i]).lat as nat == lat->Some_0 && inside[i].lon as nat
                == lon->Some_0 {
            let i = choose|i: int|
                0 <= i < inside.len() && (#[trigger] inside[i]).lat as nat == lat->Some_0 && inside[i].lon as nat
                    == lon->Some_0;
            assert(inside[i] == at);
        }
    }
}

/// Whether a number is below another: both as the numbers that their doubles stand for.
pub open spec fn number_below(a: Number, b: Number) -> bool {
    is_number(json::double_bits(a)) && is_number(json::double_bits(b)) && doubles::units(json::double_bits(a))
        < doubles::units(json::double_bits(b))
}

/// A condition on the order holds exactly if the field is there and is a number below or
/// above a number, or a text before or behind a text; what is not of one kind is not in
/// order.
pub proof fn law_order_conditions(doc: DocumentView, below: Query, above: Query)
    requires
        below is Lt,
        above is Gt,
        below->Lt_field@ == above->Gt_field@,
        below->Lt_value@ == above->Gt_value@,
    ensures
        ({
            let name = below->Lt_field@;
            let have = doc.fields[name];
            let bound = below->Lt_value@;
            &&& !doc.fields.contains_key(name) ==> !query::matches_query(doc, below) && !query::matches_query(doc, above)
            &&& doc.fields.contains_key(name) && have is Number && bound is Number ==> {
                &&& query::matches_query(doc, below) <==> number_below(have->Number_0, bound->Number_0)
                &&& query::matches_query(doc, above) <==> number_below(bound->Number_0, have->Number_0)
            }
            &&& doc.fields.contains_key(name) && have is Text && bound is Text ==> {
                &&& query::matches_query(doc, below) <==> before_in_bytes(
                    encode_utf8(have->Text_0),
                    encode_utf8(bound->Text_0),
                )
                &&& query::matches_query(doc, above) <==> before_in_bytes(
                    encode_utf8(bound->Text_0),
                    encode_utf8(have->Text_0),
                )
            }
            &&& !(have is Number && bound is Number) && !(have is Text && bound is Text) ==> !query::matches_query(
                doc,
                below,
            ) && !query::matches_query(doc, above)
        }),
{
    let have = doc.fields[below->Lt_field@];
    let bound = below->Lt_value@;
    if have is Number && bound is Number {
        lemma_double_bits_bound(have->Number_0);
        lemma_double_bits_bound(bound->Number_0);
        doubles::law_double_order(
            json::double_bits(have->Number_0) as u64,
            json::double_bits(bound->Number_0) as u64,
        );
    }
    if have is Text && bound is Text {
        lemma_before_in_bytes(encode_utf8(have->Text_0), encode_utf8(bound->Text_0));
        lemma_before_in_bytes(encode_utf8(bound->Text_0), encode_utf8(have->Text_0));
        json::law_text_order(have->Text_0, bound->Text_0, have->Text_0);
        json::law_text_order(bound->Text_0, have->Text_0, have->Text_0);
    }
}

/// Whether bytes come before others as words in a dictionary do: they are a beginning of
/// them, or have the lesser byte where the two first differ.
pub open spec fn before_in_bytes(a: Seq<u8>, b: Seq<u8>) -> bool {
    exists|n: int| #[trigger] differ_first_at(a, b, n)
}

/// Whether `a` and `b` agree up to `n`, where `a` ends or has the lesser byte.
pub open spec fn differ_first_at(a: Seq<u8>, b: Seq<u8>, n: int) -> bool {
    &&& 0 <= n <= a.len()
    &&& n < b.len()
    &&& forall|i: int| 0 <= i < n ==> #[trigger] a[i] == b[i]
    &&& n == a.len() || a[n] < b[n]
}

proof fn lemma_before_in_bytes(a: Seq<u8>, b: Seq<u8>)
    ensures
        json::bytes_order(a, b) == Order::Less <==> before_in_bytes(a, b),
    decreases a.len(),
{
    if a.len() == 0 {
        if b.len() > 0 {
            assert(differ_first_at(a, b, 0));
        }
    } else if b.len() > 0 {
        if a[0] < b[0] {
            assert(differ_first_at(a, b, 0));
        } else if a[0] == b[0] {
            lemma_before_in_bytes(a.skip(1), b.skip(1));
            if before_in_bytes(a.skip(1), b.skip(1)) {
                let n = choose|n: int| #[trigger] differ_first_at(a.skip(1), b.skip(1), n);
                assert forall|i: int| 0 <= i < n + 1 implies #[trigger] a[i] == b[i] by {
                    if i > 0 {
                        assert(a.skip(1)[i - 1] == b.skip(1)[i - 1]);
                    }
                }
                assert(differ_first_at(a, b, n + 1));
            }
            if before_in_bytes(a, b) {
                let n = choose|n: int| #[trigger] differ_first_at(a, b, n);
                assert(n > 0);
                assert forall|i: int| 0 <= i < n - 1 implies #[trigger] a.skip(1)[i] == b.skip(1)[i] by {
                    assert(a[i + 1] == b[i + 1]);
                }
                assert(differ_first_at(a.skip(1), b.skip(1), n - 1));
            }
        } else {
            if before_in_bytes(a, b) {
                let n = choose|n: int| #[trigger] differ_first_at(a, b, n);
                assert(n == 0 || a[0] == b[0]);
            }
        }
    }
}

/// Whole numbers in a field are compared as such, as far as doubles tell them apart.
pub proof fn law_integers_in_order(a: u64, b: u64, c: i64)
    requires
        a <= 0x20_0000_0000_0000,
        b <= 0x20_0000_0000_0000,
        -0x20_0000_0000_0000 <= c < 0,
    ensures
        json::number_order(Number::Unsigned(a), Number::Unsigned(b)) == Some(
            if a < b {
                Order::Less
            } else if a > b {
                Order::Greater
            } else {
                Order::Equal
            },
        ),
        json::number_order(Number::Negative(c), Number::Unsigned(a)) == Some(Order::Less),
{
    doubles::law_double_of_integer(a);
    doubles::law_double_of_integer(b);
    doubles::law_double_of_integer((-c) as u64);
    let x = json::double_of_nat(a as nat) as u64;
    let y = json::double_of_nat(b as nat) as u64;
    let z = json::double_of_nat((-c) as nat);
    doubles::law_double_order(x, y);
    doubles::law_double_order((0x8000_0000_0000_0000 + z) as u64, x);
    lemma_pow2_pos(1074);
    let p = pow2(1074);
    assert(a < b ==> a * p < b * p) by (nonlinear_arith)
        requires
            p > 0,
    ;
    assert(b < a ==> b * p < a * p) by (nonlinear_arith)
        requires
            p > 0,
    ;
    assert((-c) * p > 0) by (nonlinear_arith)
        requires
            p > 0,
            c < 0,
    ;
    assert(a * p >= 0) by (nonlinear_arith)
        requires
            p > 0,
            a >= 0,
    ;
    assert(doubles::units(z) == (-c) * p);
    assert(doubles::units(0x8000_0000_0000_0000 + z) == -doubles::units(z));
}

/// A condition on a value holds exactly if the field is there and has that value: texts,
/// booleans and whole numbers must be the same, numbers of different kinds never are, arrays
/// must agree item by item and objects entry by entry. The ID of a document is not a field.
pub proof fn law_value_conditions(doc: DocumentView, q: Query)
    requires
        q is Eq,
    ensures
        ({
            let name = q->Eq_field@;
            let have = doc.fields[name];
            let want = q->Eq_value@;
            let found = query::matches_query(doc, q);
            &&& name == "id"@ ==> (found <==> match want {
                JsonView::Text(t) => doc.id == Some(t),
                _ => doc.id is None,
            })
            &&& name != "id"@ && !doc.fields.contains_key(name) ==> !found
            &&& name != "id"@ && doc.fields.contains_key(name) ==> {
                &&& want is Null ==> (found <==> have is Null)
                &&& want is Bool ==> (found <==> have == want)
                &&& want is Text ==> (found <==> have == want)
                &&& want is Number && !(want->Number_0 is Double) ==> (found <==> have == want)
                &&& want is Number && want->Number_0 is Double ==> (found <==> have is Number && have->Number_0 is Double
                    && is_number(have->Number_0->Double_0 as nat) && is_number(want->Number_0->Double_0 as nat)
                    && doubles::units(have->Number_0->Double_0 as nat) == doubles::units(
                    want->Number_0->Double_0 as nat,
                ))
                &&& want is Array ==> (found <==> have is Array && have->Array_0.len() == want->Array_0.len() && forall|
                    i: int,
                |
                    0 <= i < want->Array_0.len() ==> json::json_equal(
                        #[trigger] have->Array_0[i],
                        want->Array_0[i],
                    ))
                &&& want is Object ==> (found <==> have is Object && have->Object_0.len() == want->Object_0.len()
                    && forall|i: int|
                    0 <= i < want->Object_0.len() ==> (#[trigger] have->Object_0[i]).0 == want->Object_0[i].0
                        && json::json_equal(have->Object_0[i].1, want->Object_0[i].1))
            }
        }),
{
    let have = doc.fields[q->Eq_field@];
    let want = q->Eq_value@;
    if have is Number && want is Number && have->Number_0 is Double && want->Number_0 is Double {
        doubles::law_double_order(have->Number_0->Double_0, want->Number_0->Double_0);
    }
    if have is Array && want is Array {
        lemma_arrays_equal(have->Array_0, want->Array_0);
    }
    if have is Object && want is Object {
        lemma_objects_equal(have->Object_0, want->Object_0);
    }
}

proof fn lemma_arrays_equal(x: Seq<JsonView>, y: Seq<JsonView>)
    ensures
        json::arrays_equal(x, y) <==> x.len() == y.len() && forall|i: int|
            0 <= i < y.len() ==> json::json_equal(#[trigger] x[i], y[i]),
    decreases x.len(),
{
    if x.len() > 0 && y.len() > 0 {
        let (a, b) = (x.drop_last(), y.drop_last());
        lemma_arrays_equal(a, b);
        assert(x[x.len() - 1] == x.last());
        assert(forall|i: int| 0 <= i < a.len() ==> #[trigger] a[i] == x[i]);
        assert(forall|i: int| 0 <= i < b.len() ==> #[trigger] b[i] == y[i]);
        if json::arrays_equal(x, y) {
            assert forall|i: int| 0 <= i < y.len() implies json::json_equal(#[trigger] x[i], y[i]) by {
                if i < b.len() {
                    assert(json::json_equal(a[i], b[i]));
                }
            }
        }
        if x.len() == y.len() && forall|i: int| 0 <= i < y.len() ==> json::json_equal(#[trigger] x[i], y[i]) {
            assert forall|i: int| 0 <= i < b.len() implies json::json_equal(#[trigger] a[i], b[i]) by {
                assert(json::json_equal(x[i], y[i]));
            }
        }
    }
}

proof fn lemma_objects_equal(x: Seq<(Seq<char>, JsonView)>, y: Seq<(Seq<char>, JsonView)>)
    ensures
        json::objects_equal(x, y) <==> x.len() == y.len() && forall|i: int|
            0 <= i < y.len() ==> (#[trigger] x[i]).0 == y[i].0 && json::json_equal(x[i].1, y[i].1),
    decreases x.len(),
{
    if x.len() > 0 && y.len() > 0 {
        let (a, b) = (x.drop_last(), y.drop_last());
        lemma_objects_equal(a, b);
        assert(x[x.len() - 1] == x.last());
        assert(forall|i: int| 0 <= i < a.len() ==> #[trigger] a[i] == x[i]);
        assert(forall|i: int| 0 <= i < b.len() ==> #[trigger] b[i] == y[i]);
        if json::objects_equal(x, y) {
            assert forall|i: int| 0 <= i < y.len() implies (#[trigger] x[i]).0 == y[i].0 && json::json_equal(
                x[i].1,
                y[i].1,
            ) by {
                if i < b.len() {
                    assert(a[i].0 == b[i].0 && json::json_equal(a[i].1, b[i].1));
                }
            }
        }
        if x.len() == y.len() && forall|i: int|
            0 <= i < y.len() ==> (#[trigger] x[i]).0 == y[i].0 && json::json_equal(x[i].1, y[i].1) {
            assert forall|i: int| 0 <= i < b.len() implies (#[trigger] a[i]).0 == b[i].0 && json::json_equal(
                a[i].1,
                b[i].1,
            ) by {
                assert(x[i].0 == y[i].0 && json::json_equal(x[i].1, y[i].1));
            }
        }
    }
}

/// A negated query matches what the query does not; a list of conditions matches what all of
/// them match and alternatives what one of them does; asking for deleted documents too does
/// not change what matches, and everything else matches all.
pub proof fn law_boolean_conditions(doc: DocumentView, q: Query)
    ensures
        q is Not ==> (query::matches_query(doc, q) <==> !query::matches_query(doc, *q->Not_0)),
        q is And ==> (query::matches_query(doc, q) <==> forall|i: int|
            0 <= i < q->And_0@.len() ==> query::matches_query(doc, #[trigger] q->And_0@[i])),
        q is Or ==> (query::matches_query(doc, q) <==> exists|i: int|
            0 <= i < q->Or_0@.len() && query::matches_query(doc, #[trigger] q->Or_0@[i])),
        q is IncludeDeleted ==> query::matches_query(doc, q) == query::matches_query(doc, *q->IncludeDeleted_0),
        q is IncludeDeleted ==> query::finds(q, doc) == query::matches_query(doc, *q->IncludeDeleted_0),
        q is All || q is Custom ==> query::matches_query(doc, q),
        query::finds(q, doc) ==> query::matches_query(doc, q),
        query::finds(q, doc) && doc.fields.contains_key("_deleted"@) && doc.fields["_deleted"@] == JsonView::Bool(true)
            ==> q is IncludeDeleted || q is DeletedOnly,
        q is DeletedOnly ==> (query::finds(q, doc) <==> doc.fields.contains_key("_deleted"@) && doc.fields["_deleted"@]
            == JsonView::Bool(true)),
{
    if q is And {
        query::law_and_or(doc, q->And_0@);
    }
    if q is Or {
        query::law_and_or(doc, q->Or_0@);
    }
}

/// A document is stored with all its fields, under the ID that it came with or else the new
/// one, and with the time of storing; those who watch its collection are told of what was
/// stored. Nothing else of the store changes.
pub proof fn law_what_is_stored(
    store: BackendView,
    collection: Seq<char>,
    doc: DocumentView,
    new_id: Seq<char>,
    now_ms: u64,
)
    ensures
        ({
            let id = in_memory::id_for(doc, new_id);
            let kept = in_memory::stored(doc, id, now_ms);
            let after = store.with_doc(collection, id, kept);
            &&& doc.id is Some ==> id == doc.id->Some_0
            &&& doc.id is None ==> id == new_id
            &&& kept.fields == doc.fields
            &&& kept.id == Some(id)
            &&& kept.updated_at == now_ms
            &&& after.doc(collection, id) == Some(kept)
            &&& after.tombstones == store.tombstones
            &&& after.peers == store.peers
            &&& after.observers == store.observers
            &&& after.policies == store.policies
            &&& after.initialized == store.initialized
        }),
        forall|event: ChangeView, i: usize|
            #![trigger store.notice(collection, event).observers.contains(i)]
            store.observers.len() <= usize::MAX ==> (store.notice(collection, event).observers.contains(i) <==> i
                < store.observers.len() && store.observers[i as int] == collection),
        forall|event: ChangeView| (#[trigger] store.notice(collection, event)).event == event,
{
    assert forall|event: ChangeView, i: usize|
        #![trigger store.notice(collection, event).observers.contains(i)]
        store.observers.len() <= usize::MAX implies (store.notice(collection, event).observers.contains(i) <==> i
        < store.observers.len() && store.observers[i as int] == collection) by {
        in_memory::law_watchers(store.observers, collection, i);
    }
}

/// What `get` gives is what was stored unless it is marked as deleted; removing a document
/// takes it out and tells so exactly if it was there.
pub proof fn law_get_and_remove(
    store: BackendView,
    collection: Seq<char>,
    id: Seq<char>,
    other_collection: Seq<char>,
    other_id: Seq<char>,
)
    ensures
        ({
            let doc = store.doc(collection, id);
            let deleted = doc is Some && doc->Some_0.fields.contains_key("_deleted"@) && doc->Some_0.fields["_deleted"@]
                == JsonView::Bool(true);
            let after = store.without_doc(collection, id);
            let notice = store.removal_notice(collection, id);
            &&& store.visible(collection, id) == (if deleted {
                None
            } else {
                doc
            })
            &&& after.doc(collection, id) is None
            &&& other_collection != collection || other_id != id ==> after.doc(other_collection, other_id) == store.doc(
                other_collection,
                other_id,
            )
            &&& after.tombstones == store.tombstones && after.observers == store.observers && after.policies
                == store.policies
            &&& notice is Some <==> doc is Some
            &&& notice matches Some(n) ==> n.event == (ChangeView::Removed { collection, doc_id: id })
        }),
{
}

/// A deletion does what the policy of the collection says, softly where none was set. A soft
/// one keeps every other field of the document and tells those who watch of the marked
/// document; with tombstones the document is gone, those who watch are told that it was
/// removed, and the tombstone says what was deleted, when, here and why, and goes when its
/// time is over. The other policies delete nothing and tell no one.
pub proof fn law_deletion_by_policy(
    store: BackendView,
    collection: Seq<char>,
    id: Seq<char>,
    reason: Option<Seq<char>>,
    now_ms: u64,
    field: Seq<char>,
)
    ensures
        ({
            let policy = store.policy(collection);
            let before = store.doc(collection, id);
            let after = store.after_delete(collection, id, reason, now_ms);
            let result = store.delete_result(collection, id, now_ms);
            let notice = store.delete_notice(collection, id, now_ms);
            &&& !store.policies.contains_key(collection) ==> policy == DeletionPolicy::SoftDelete
            &&& store.policies.contains_key(collection) ==> policy == store.policies[collection]
            &&& result.policy == policy
            &&& result.deleted <==> policy != DeletionPolicy::Immutable
            &&& result.expires_at is Some <==> policy is Tombstone
            &&& result.tombstone_id is Some <==> policy is Tombstone
            &&& policy matches DeletionPolicy::Tombstone { tombstone_ttl_ms, .. } ==> {
                let t = after.tombstones[in_memory::tombstone_key(collection, id)];
                &&& result.expires_at == Some((now_ms + tombstone_ttl_ms) as u128)
                &&& result.tombstone_id == Some(id)
                &&& t.document_id == id
                &&& t.collection == collection
                &&& t.deleted_at == now_ms
                &&& t.reason == reason
                &&& t.deleted_by == "local"@
                &&& t.lamport == 1
                &&& notice is Some <==> before is Some
                &&& notice is Some ==> notice->Some_0.event == (ChangeView::Removed { collection, doc_id: id })
            }
            &&& !(policy is Tombstone) && (policy != DeletionPolicy::SoftDelete || before is None) ==> after == store
                && notice is None
            &&& policy == DeletionPolicy::SoftDelete && before is Some ==> {
                let marked = after.doc(collection, id)->Some_0;
                &&& after.doc(collection, id) is Some
                &&& marked.id == before->Some_0.id
                &&& marked.updated_at == now_ms
                &&& marked.fields.contains_key("_deleted"@) && marked.fields["_deleted"@] == JsonView::Bool(true)
                &&& field != "_deleted"@ ==> marked.fields.contains_key(field) == before->Some_0.fields.contains_key(
                    field,
                )
                &&& field != "_deleted"@ && before->Some_0.fields.contains_key(field) ==> marked.fields[field]
                    == before->Some_0.fields[field]
                &&& notice is Some
                &&& notice->Some_0.event == (ChangeView::Updated { collection, document: marked })
            }
            &&& before is None && !(policy is Tombstone) ==> after == store && notice is None
            &&& policy == DeletionPolicy::Immutable || policy == DeletionPolicy::ImplicitTTL ==> after == store
                && notice is None
        }),
{
}

/// Different documents of a collection have different tombstones, and a tombstone is found
/// under its collection and document whatever else is kept.
pub proof fn law_tombstones(store: BackendView, t: TombstoneView, collection: Seq<char>, id: Seq<char>)
    ensures
        in_memory::tombstone_key(t.collection, t.document_id) == in_memory::tombstone_key(t.collection, id)
            <==> t.document_id == id,
        store.with_tombstone(t).tombstones.contains_key(in_memory::tombstone_key(t.collection, t.document_id)),
        store.with_tombstone(t).tombstones[in_memory::tombstone_key(t.collection, t.document_id)] == t,
        t.document_id != id && store.tombstones.contains_key(in_memory::tombstone_key(t.collection, id)) ==> {
            let key = in_memory::tombstone_key(t.collection, id);
            &&& store.with_tombstone(t).tombstones.contains_key(key)
            &&& store.with_tombstone(t).tombstones[key] == store.tombstones[key]
        },
        store.with_tombstone(t).collections == store.collections,
{
    let pre = t.collection + ":"@;
    let a = in_memory::tombstone_key(t.collection, t.document_id);
    let b = in_memory::tombstone_key(t.collection, id);
    assert(a.skip(pre.len() as int) =~= t.document_id);
    assert(b.skip(pre.len() as int) =~= id);
}

/// A peer that was added is connected at its address and was seen just then, and peers at
/// different addresses have different names.
pub proof fn law_new_peers(a: Seq<char>, b: Seq<char>, transport: TransportType, now_ms: u64)
    ensures
        ({
            let p = in_memory::new_peer(a, transport, now_ms);
            &&& p.address == Some(a)
            &&& p.transport == transport
            &&& p.connected
            &&& p.last_seen == now_ms
            &&& p.peer_id == "peer-"@ + a
            &&& p.peer_id == in_memory::new_peer(b, transport, now_ms).peer_id <==> a == b
        }),
{
    let pre = "peer-"@;
    assert((pre + a).skip(pre.len() as int) =~= a);
    assert((pre + b).skip(pre.len() as int) =~= b);
}

/// The answer to a query holds every document that the query finds, and nothing that is not
/// a document of the collection.
pub proof fn law_answers_are_the_found(
    docs: Map<Seq<char>, DocumentView>,
    q: Query,
    results: Seq<DocumentView>,
    id: Seq<char>,
    i: int,
)
    requires
        in_memory::answers(docs, q, results),
    ensures
        docs.contains_key(id) && query::finds(q, docs[id]) ==> results.contains(docs[id]),
        0 <= i < results.len() ==> query::finds(q, results[i]) && exists|k: Seq<char>| #[trigger]
            docs.contains_key(k) && docs[k] == results[i],
{
    let wanted = |d: DocumentView| query::finds(q, d);
    in_memory::law_each_found_once(docs, q, results);
    if docs.contains_key(id) && query::finds(q, docs[id]) {
        assert(in_memory::found_ids(docs, q).contains(id));
    }
    let keys = choose|keys: Seq<Seq<char>>| #[trigger] crate::vec_map::lists(docs, wanted, keys, results);
    assert(crate::vec_map::lists(docs, wanted, keys, results));
    if 0 <= i < results.len() {
        assert(docs.contains_key(keys[i]) && docs[keys[i]] == results[i]);
    }
}

} // verus!

//! Queries on documents.

use vstd::prelude::*;
use vstd::string::*;

use crate::json;
use crate::json::{equal_values, order_bits, order_numbers, order_texts, Json, JsonView, Number, Order};
use crate::sync::types;
use crate::sync::types::{Document, DocumentView};
use crate::text::text_eq;

verus! {

/// A place on the globe: latitude and longitude by their IEEE 754 bits.
#[derive(Clone, Copy, Debug, PartialEq, Eq, Structural)]
pub struct GeoPoint {
    pub lat: u64,
    pub lon: u64,
}

/// Whether both are numbers and `x` is not above `y`.
pub open spec fn at_most(x: u64, y: u64) -> bool {
    !json::is_nan(x as nat) && !json::is_nan(y as nat) && json::double_key(x as nat) <= json::double_key(y as nat)
}

fn is_at_most(x: u64, y: u64) -> (r: bool)
    ensures
        r == at_most(x, y),
{
    match order_bits(x, y) {
        Some(Order::Less) => true,
        Some(Order::Equal) => true,
        _ => false,
    }
}

impl GeoPoint {
    /// Whether the place lies in a rectangle.
    pub open spec fn is_within(self, min: GeoPoint, max: GeoPoint) -> bool {
        at_most(min.lat, self.lat) && at_most(self.lat, max.lat) && at_most(min.lon, self.lon) && at_most(
            self.lon,
            max.lon,
        )
    }

    /// Whether the place lies in a rectangle, its edges included.
    pub fn within_bounds(&self, min: &GeoPoint, max: &GeoPoint) -> (r: bool)
        ensures
            r == self.is_within(*min, *max),
    {
        is_at_most(min.lat, self.lat) && is_at_most(self.lat, max.lat) && is_at_most(min.lon, self.lon) && is_at_most(
            self.lon,
            max.lon,
        )
    }
}

/// A question about a document.
pub enum Query {
    All,
    Eq { field: String, value: Json },
    Lt { field: String, value: Json },
    Gt { field: String, value: Json },
    And(Vec<Query>),
    Or(Vec<Query>),
    Not(Box<Query>),
    /// The document's place lies within a distance of another. The distance is
    /// measured by the caller: `inside` holds the places that were found near enough.
    WithinRadius {
        center: GeoPoint,
        /// The distance in meters, by its IEEE 754 bits.
        radius_meters: u64,
        inside: Vec<GeoPoint>,
        lat_field: Option<String>,
        lon_field: Option<String>,
    },
    WithinBounds { min: GeoPoint, max: GeoPoint, lat_field: Option<String>, lon_field: Option<String> },
    /// Deleted documents are not left out.
    IncludeDeleted(Box<Query>),
    /// Only deleted documents.
    DeletedOnly,
    Custom(String),
}

/// The order of two JSON values: numbers among numbers, texts among texts.
pub open spec fn value_order(a: JsonView, b: JsonView) -> Option<Order> {
    match (a, b) {
        (JsonView::Number(x), JsonView::Number(y)) => json::number_order(x, y),
        (JsonView::Text(x), JsonView::Text(y)) => Some(json::text_order(x, y)),
        _ => None,
    }
}

/// Compare two JSON values for ordering
pub fn compare_values(a: &Json, b: &Json) -> (r: Option<Order>)
    ensures
        r == value_order(a@, b@),
{
    match (a, b) {
        (Json::Number(x), Json::Number(y)) => order_numbers(x, y),
        (Json::Text(x), Json::Text(y)) => Some(order_texts(x.as_str(), y.as_str())),
        _ => None,
    }
}

/// The text of a JSON value that is one.
pub open spec fn text_of(v: JsonView) -> Option<Seq<char>> {
    match v {
        JsonView::Text(t) => Some(t),
        _ => None,
    }
}

/// The name of the field with a coordinate.
pub open spec fn coordinate_field(field: Option<String>, otherwise: Seq<char>) -> Seq<char> {
    match field {
        Some(f) => f@,
        None => otherwise,
    }
}

/// The place that a document's fields give: both must be numbers.
pub open spec fn place(doc: DocumentView, lat_key: Seq<char>, lon_key: Seq<char>) -> Option<GeoPoint> {
    match (doc.field(lat_key), doc.field(lon_key)) {
        (Some(JsonView::Number(lat)), Some(JsonView::Number(lon))) => Some(
            GeoPoint { lat: json::double_bits(lat) as u64, lon: json::double_bits(lon) as u64 },
        ),
        _ => None,
    }
}

/// Whether a document matches a query.
pub open spec fn matches_query(doc: DocumentView, query: Query) -> bool
    decreases query,
{
    match query {
        Query::All => true,
        Query::Eq { field, value } => if field@ == "id"@ {
            doc.id == text_of(value@)
        } else {
            doc.field(field@) is Some && json::json_equal(doc.field(field@)->Some_0, value@)
        },
        Query::Lt { field, value } => doc.field(field@) is Some && value_order(doc.field(field@)->Some_0, value@)
            == Some(Order::Less),
        Query::Gt { field, value } => doc.field(field@) is Some && value_order(doc.field(field@)->Some_0, value@)
            == Some(Order::Greater),
        Query::And(queries) => all_match(doc, queries@),
        Query::Or(queries) => any_matches(doc, queries@),
        Query::Not(inner) => !matches_query(doc, *inner),
        Query::WithinRadius { inside, lat_field, lon_field, .. } => {
            let at = place(doc, coordinate_field(lat_field, "lat"@), coordinate_field(lon_field, "lon"@));
            at is Some && inside@.contains(at->Some_0)
        },
        Query::WithinBounds { min, max, lat_field, lon_field } => {
            let at = place(doc, coordinate_field(lat_field, "lat"@), coordinate_field(lon_field, "lon"@));
            at is Some && at->Some_0.is_within(min, max)
        },
        Query::IncludeDeleted(inner) => matches_query(doc, *inner),
        Query::DeletedOnly => doc.is_deleted(),
        Query::Custom(_) => true,
    }
}

pub open spec fn all_match(doc: DocumentView, queries: Seq<Query>) -> bool
    decreases queries,
{
    if queries.len() == 0 {
        true
    } else {
        all_match(doc, queries.drop_last()) && matches_query(doc, queries.last())
    }
}

pub open spec fn any_matches(doc: DocumentView, queries: Seq<Query>) -> bool
    decreases queries,
{
    if queries.len() == 0 {
        false
    } else {
        any_matches(doc, queries.drop_last()) || matches_query(doc, queries.last())
    }
}

/// A list of conditions holds exactly when each does, and one of a list of
/// alternatives exactly when some does.
pub proof fn law_and_or(doc: DocumentView, queries: Seq<Query>)
    ensures
        all_match(doc, queries) <==> forall|i: int|
            0 <= i < queries.len() ==> matches_query(doc, #[trigger] queries[i]),
        any_matches(doc, queries) <==> exists|i: int|
            0 <= i < queries.len() && matches_query(doc, #[trigger] queries[i]),
    decreases queries.len(),
{
    if queries.len() > 0 {
        let front = queries.drop_last();
        law_and_or(doc, front);
        let last = queries.len() - 1;
        if all_match(doc, queries) {
            assert forall|i: int| 0 <= i < queries.len() implies matches_query(doc, #[trigger] queries[i]) by {
                if i < last {
                    assert(front[i] == queries[i]);
                }
            }
        }
        if forall|i: int| 0 <= i < queries.len() ==> matches_query(doc, #[trigger] queries[i]) {
            assert forall|i: int| 0 <= i < front.len() implies matches_query(doc, #[trigger] front[i]) by {
                assert(front[i] == queries[i]);
            }
            assert(matches_query(doc, queries[last]));
        }
        if any_matches(doc, queries) {
            if any_matches(doc, front) {
                let i = choose|i: int| 0 <= i < front.len() && matches_query(doc, #[trigger] front[i]);
                assert(matches_query(doc, queries[i]));
            } else {
                assert(matches_query(doc, queries[last]));
            }
        }
        if exists|i: int| 0 <= i < queries.len() && matches_query(doc, #[trigger] queries[i]) {
            let i = choose|i: int| 0 <= i < queries.len() && matches_query(doc, #[trigger] queries[i]);
            if i < last {
                assert(matches_query(doc, front[i]));
            }
        }
    }
}

/// Not all hold exactly when the negation of one does.
pub proof fn law_de_morgan(doc: DocumentView, queries: Seq<Query>, negated: Seq<Query>)
    requires
        negated.len() == queries.len(),
        forall|i: int| 0 <= i < queries.len() ==> #[trigger] negated[i] == Query::Not(Box::new(queries[i])),
    ensures
        !all_match(doc, queries) <==> any_matches(doc, negated),
        !any_matches(doc, queries) <==> all_match(doc, negated),
    decreases queries.len(),
{
    if queries.len() > 0 {
        let last = queries.len() - 1;
        assert(negated[last] == Query::Not(Box::new(queries[last])));
        assert(!matches_query(doc, queries.last()) <==> matches_query(doc, negated.last()));
        assert forall|i: int| 0 <= i < queries.drop_last().len() implies #[trigger] negated.drop_last()[i]
            == Query::Not(Box::new(queries.drop_last()[i])) by {
            assert(negated[i] == Query::Not(Box::new(queries[i])));
        }
        law_de_morgan(doc, queries.drop_last(), negated.drop_last());
    }
}

/// Nothing is both below and above a value.
pub proof fn law_below_or_above(a: JsonView, b: JsonView)
    ensures
        value_order(a, b) == Some(Order::Less) <==> value_order(b, a) == Some(Order::Greater),
        value_order(a, b) is None <==> value_order(b, a) is None,
{
    if a is Text && b is Text {
        json::law_text_order(a->Text_0, b->Text_0, a->Text_0);
    }
}

impl Document {
    /// The place that the document's fields give.
    pub fn place(&self, lat_field: &Option<String>, lon_field: &Option<String>) -> (r: Option<GeoPoint>)
        ensures
            r == place(self@, coordinate_field(*lat_field, "lat"@), coordinate_field(*lon_field, "lon"@)),
    {
        let lat_value = match lat_field {
            Some(f) => self.get(f.as_str()),
            None => self.get("lat"),
        };
        let lon_value = match lon_field {
            Some(f) => self.get(f.as_str()),
            None => self.get("lon"),
        };
        match (lat_value, lon_value) {
            (Some(Json::Number(lat)), Some(Json::Number(lon))) => Some(
                GeoPoint { lat: lat.to_double_bits(), lon: lon.to_double_bits() },
            ),
            _ => None,
        }
    }
}

fn contains_point(points: &Vec<GeoPoint>, p: GeoPoint) -> (r: bool)
    ensures
        r == points@.contains(p),
{
    let mut i: usize = 0;
    while i < points.len()
        invariant
            i <= points@.len(),
            forall|j: int| 0 <= j < i ==> #[trigger] points@[j] != p,
        decreases points@.len() - i,
    {
        if points[i] == p {
            return true;
        }
        i = i + 1;
    }
    false
}

/// Evaluate whether a document matches a query
pub fn evaluate_query(doc: &Document, query: &Query) -> (r: bool)
    ensures
        r == matches_query(doc@, *query),
    decreases *query,
{
    match query {
        Query::All => true,
        Query::Eq { field, value } => {
            if text_eq(field.as_str(), "id") {
                match (&doc.id, value.as_text()) {
                    (Some(id), Some(t)) => text_eq(id.as_str(), t),
                    (None, None) => true,
                    _ => false,
                }
            } else {
                match doc.get(field.as_str()) {
                    Some(v) => equal_values(v, value),
                    None => false,
                }
            }
        },
        Query::Lt { field, value } => match doc.get(field.as_str()) {
            Some(v) => match compare_values(v, value) {
                Some(Order::Less) => true,
                _ => false,
            },
            None => false,
        },
        Query::Gt { field, value } => match doc.get(field.as_str()) {
            Some(v) => match compare_values(v, value) {
                Some(Order::Greater) => true,
                _ => false,
            },
            None => false,
        },
        Query::And(queries) => {
            let mut i: usize = 0;
            while i < queries.len()
                invariant
                    i <= queries@.len(),
                    all_match(doc@, queries@.take(i as int)),
                    *query == Query::And(*queries),
                    decreases_to!(*query => queries@),
                decreases queries@.len() - i,
            {
                assert(queries@.take(i + 1).drop_last() =~= queries@.take(i as int));
                if !evaluate_query(doc, &queries[i]) {
                    proof {
                        law_and_or(doc@, queries@);
                        assert(!matches_query(doc@, queries@[i as int]));
                    }
                    return false;
                }
                i = i + 1;
            }
            assert(queries@.take(i as int) =~= queries@);
            true
        },
        Query::Or(queries) => {
            let mut i: usize = 0;
            while i < queries.len()
                invariant
                    i <= queries@.len(),
                    !any_matches(doc@, queries@.take(i as int)),
                    *query == Query::Or(*queries),
                    decreases_to!(*query => queries@),
                decreases queries@.len() - i,
            {
                assert(queries@.take(i + 1).drop_last() =~= queries@.take(i as int));
                if evaluate_query(doc, &queries[i]) {
                    proof {
                        law_and_or(doc@, queries@);
                        assert(matches_query(doc@, queries@[i as int]));
                    }
                    return true;
                }
                i = i + 1;
            }
            assert(queries@.take(i as int) =~= queries@);
            false
        },
        Query::Not(inner) => !evaluate_query(doc, inner),
        Query::WithinRadius { inside, lat_field, lon_field, .. } => match doc.place(lat_field, lon_field) {
            Some(at) => contains_point(inside, at),
            None => false,
        },
        Query::WithinBounds { min, max, lat_field, lon_field } => match doc.place(lat_field, lon_field) {
            Some(at) => at.within_bounds(min, max),
            None => false,
        },
        Query::IncludeDeleted(inner) => evaluate_query(doc, inner),
        Query::DeletedOnly => doc.is_deleted(),
        Query::Custom(_) => true,
    }
}

/// Whether a query asks for documents that are deleted or not as this one.
pub open spec fn wants_deletion_state(query: Query, doc: DocumentView) -> bool {
    match query {
        Query::DeletedOnly => doc.is_deleted(),
        Query::IncludeDeleted(_) => true,
        _ => !doc.is_deleted(),
    }
}

/// The query behind a leading wish for deleted documents.
pub open spec fn inner_of(query: Query) -> Query {
    match query {
        Query::IncludeDeleted(inner) => *inner,
        _ => query,
    }
}

/// Whether a query on a collection finds a document.
pub open spec fn finds(query: Query, doc: DocumentView) -> bool {
    wants_deletion_state(query, doc) && matches_query(doc, inner_of(query))
}

impl Query {
    /// Whether the query asks for documents that are deleted or not as this one.
    pub fn matches_deletion_state(&self, doc: &Document) -> (r: bool)
        ensures
            r == wants_deletion_state(*self, doc@),
    {
        match self {
            Query::DeletedOnly => doc.is_deleted(),
            Query::IncludeDeleted(_) => true,
            _ => !doc.is_deleted(),
        }
    }

    /// The query behind a leading wish for deleted documents.
    pub fn inner_query(&self) -> (r: &Query)
        ensures
            *r == inner_of(*self),
    {
        match self {
            Query::IncludeDeleted(inner) => inner,
            other => other,
        }
    }
}

/// A deleted document is found only by queries that ask for deleted documents, and
/// `DeletedOnly` finds exactly those.
pub proof fn law_deletion_filter(doc: DocumentView, query: Query)
    ensures
        doc.is_deleted() && !(query is IncludeDeleted) && !(query is DeletedOnly) ==> !finds(query, doc),
        finds(Query::DeletedOnly, doc) <==> doc.is_deleted(),
        finds(Query::All, doc) <==> !doc.is_deleted(),
        finds(Query::IncludeDeleted(Box::new(Query::All)), doc),
        !doc.is_deleted() && !(query is IncludeDeleted) ==> (finds(query, doc) <==> matches_query(doc, query)),
{
}

} // verus!

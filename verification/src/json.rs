//! JSON values.

use vstd::arithmetic::power2::*;
use vstd::prelude::*;
use vstd::string::*;
use vstd::utf8::*;

use crate::text::{lemma_encode_injective, text_eq};

verus! {

/// A number of a JSON value.
#[derive(Clone, Copy, Debug)]
pub enum Number {
    /// An integer that is not negative.
    Unsigned(u64),
    /// A negative integer.
    Negative(i64),
    /// A double-precision number, by its IEEE 754 bits.
    Double(u64),
}

/// A JSON value. The entries of an object are in increasing order of their keys.
#[derive(Debug)]
pub enum Json {
    Null,
    Bool(bool),
    Number(Number),
    Text(String),
    Array(Vec<Json>),
    Object(Vec<(String, Json)>),
}

/// A [`Json`] value in terms of sequences.
#[verifier::ext_equal]
pub enum JsonView {
    Null,
    Bool(bool),
    Number(Number),
    Text(Seq<char>),
    Array(Seq<JsonView>),
    Object(Seq<(Seq<char>, JsonView)>),
}

pub open spec fn json_view(j: Json) -> JsonView
    decreases j,
{
    match j {
        Json::Null => JsonView::Null,
        Json::Bool(b) => JsonView::Bool(b),
        Json::Number(n) => JsonView::Number(n),
        Json::Text(s) => JsonView::Text(s@),
        Json::Array(v) => JsonView::Array(array_view(v@)),
        Json::Object(v) => JsonView::Object(object_view(v@)),
    }
}

pub open spec fn array_view(s: Seq<Json>) -> Seq<JsonView>
    decreases s,
{
    if s.len() == 0 {
        Seq::empty()
    } else {
        array_view(s.drop_last()).push(json_view(s.last()))
    }
}

pub open spec fn object_view(s: Seq<(String, Json)>) -> Seq<(Seq<char>, JsonView)>
    decreases s,
{
    if s.len() == 0 {
        Seq::empty()
    } else {
        object_view(s.drop_last()).push((s.last().0@, json_view(s.last().1)))
    }
}

impl View for Json {
    type V = JsonView;

    open spec fn view(&self) -> JsonView {
        json_view(*self)
    }
}

/// The fields of a document by their views.
pub open spec fn fields_view(fields: Map<Seq<char>, Json>) -> Map<Seq<char>, JsonView> {
    fields.map_values(|j: Json| j@)
}

pub proof fn lemma_array_view(s: Seq<Json>)
    ensures
        array_view(s).len() == s.len(),
        forall|i: int| 0 <= i < s.len() ==> (#[trigger] array_view(s)[i]) == s[i]@,
    decreases s.len(),
{
    if s.len() > 0 {
        lemma_array_view(s.drop_last());
    }
}

pub proof fn lemma_object_view(s: Seq<(String, Json)>)
    ensures
        object_view(s).len() == s.len(),
        forall|i: int| 0 <= i < s.len() ==> (#[trigger] object_view(s)[i]) == (s[i].0@, s[i].1@),
    decreases s.len(),
{
    if s.len() > 0 {
        lemma_object_view(s.drop_last());
    }
}

/// How one value stands to another.
#[derive(Clone, Copy, Debug, PartialEq, Eq, Structural)]
pub enum Order {
    Less,
    Equal,
    Greater,
}

/// The order of two byte sequences: that of the first bytes that differ, and a
/// prefix before what it starts.
pub open spec fn bytes_order(a: Seq<u8>, b: Seq<u8>) -> Order
    decreases a.len(),
{
    if a.len() == 0 {
        if b.len() == 0 {
            Order::Equal
        } else {
            Order::Less
        }
    } else if b.len() == 0 {
        Order::Greater
    } else if a[0] < b[0] {
        Order::Less
    } else if a[0] > b[0] {
        Order::Greater
    } else {
        bytes_order(a.skip(1), b.skip(1))
    }
}

/// The order of two texts: that of their UTF-8 bytes.
pub open spec fn text_order(a: Seq<char>, b: Seq<char>) -> Order {
    bytes_order(encode_utf8(a), encode_utf8(b))
}

/// Compares two byte sequences.
pub fn order_bytes(a: &[u8], b: &[u8]) -> (r: Order)
    ensures
        r == bytes_order(a@, b@),
{
    let mut i: usize = 0;
    proof {
        assert(a@.skip(0) =~= a@);
        assert(b@.skip(0) =~= b@);
    }
    while i < a.len() && i < b.len()
        invariant
            i <= a@.len(),
            i <= b@.len(),
            bytes_order(a@, b@) == bytes_order(a@.skip(i as int), b@.skip(i as int)),
        decreases a@.len() - i,
    {
        proof {
            assert(a@.skip(i as int).skip(1) =~= a@.skip(i + 1));
            assert(b@.skip(i as int).skip(1) =~= b@.skip(i + 1));
        }
        if a[i] < b[i] {
            return Order::Less;
        }
        if a[i] > b[i] {
            return Order::Greater;
        }
        i = i + 1;
    }
    if i < b.len() {
        Order::Less
    } else if i < a.len() {
        Order::Greater
    } else {
        Order::Equal
    }
}

/// Compares two texts.
pub fn order_texts(a: &str, b: &str) -> (r: Order)
    ensures
        r == text_order(a@, b@),
{
    order_bytes(a.as_bytes(), b.as_bytes())
}

pub proof fn lemma_bytes_order_equal(a: Seq<u8>, b: Seq<u8>)
    ensures
        bytes_order(a, b) == Order::Equal <==> a == b,
    decreases a.len(),
{
    if a.len() > 0 && b.len() > 0 {
        lemma_bytes_order_equal(a.skip(1), b.skip(1));
        if a[0] == b[0] && a.skip(1) == b.skip(1) {
            assert(a =~= seq![a[0]] + a.skip(1));
            assert(b =~= seq![b[0]] + b.skip(1));
        }
    } else if a.len() == 0 && b.len() == 0 {
        assert(a =~= b);
    }
}

/// The largest `e` with `2^e <= n`.
pub open spec fn floor_log2(n: nat) -> nat
    decreases n,
{
    if n < 2 {
        0
    } else {
        1 + floor_log2(n / 2)
    }
}

/// The IEEE 754 bits of the double-precision number nearest to `n`, the even one
/// of two that are equally near.
pub open spec fn double_of_nat(n: nat) -> nat {
    let e = floor_log2(n);
    if n == 0 {
        0
    } else if e <= 52 {
        ((e + 1022) * 0x10_0000_0000_0000 + n * pow2((52 - e) as nat)) as nat
    } else {
        let unit = pow2((e - 52) as nat);
        let q = n / unit;
        let rem = n % unit;
        let rounded = if 2 * rem > unit || (2 * rem == unit && q % 2 == 1) {
            q + 1
        } else {
            q
        };
        ((e + 1022) * 0x10_0000_0000_0000 + rounded) as nat
    }
}

/// The bits of the double-precision number that stands for a number.
pub open spec fn double_bits(n: Number) -> nat {
    match n {
        Number::Unsigned(u) => double_of_nat(u as nat),
        Number::Negative(i) => if i < 0 {
            0x8000_0000_0000_0000 + double_of_nat((-i) as nat)
        } else {
            double_of_nat(i as nat)
        },
        Number::Double(b) => b as nat,
    }
}

/// Whether the bits stand for no number.
pub open spec fn is_nan(bits: nat) -> bool {
    bits % 0x8000_0000_0000_0000 > 0x7FF0_0000_0000_0000
}

/// An integer by which double-precision numbers are ordered.
pub open spec fn double_key(bits: nat) -> int {
    if bits >= 0x8000_0000_0000_0000 {
        0x8000_0000_0000_0000 - bits
    } else {
        bits as int
    }
}

/// The order of two numbers, taken as double-precision numbers.
pub open spec fn number_order(a: Number, b: Number) -> Option<Order> {
    let x = double_bits(a);
    let y = double_bits(b);
    if is_nan(x) || is_nan(y) {
        None
    } else if double_key(x) < double_key(y) {
        Some(Order::Less)
    } else if double_key(x) > double_key(y) {
        Some(Order::Greater)
    } else {
        Some(Order::Equal)
    }
}

/// Whether two numbers are of the same kind and equal.
pub open spec fn number_equal(a: Number, b: Number) -> bool {
    match (a, b) {
        (Number::Unsigned(x), Number::Unsigned(y)) => x == y,
        (Number::Negative(x), Number::Negative(y)) => x == y,
        (Number::Double(x), Number::Double(y)) => !is_nan(x as nat) && !is_nan(y as nat) && double_key(x as nat)
            == double_key(y as nat),
        _ => false,
    }
}

pub proof fn lemma_floor_log2(n: nat)
    requires
        n > 0,
    ensures
        pow2(floor_log2(n)) <= n < pow2(floor_log2(n) + 1),
    decreases n,
{
    lemma_pow2_unfold(1);
    lemma2_to64();
    if n >= 2 {
        lemma_floor_log2(n / 2);
        let e = floor_log2(n / 2);
        lemma_pow2_unfold(e + 1);
        lemma_pow2_unfold(e + 2);
    }
}

fn power_of_two(e: u64) -> (r: u64)
    requires
        e < 64,
    ensures
        r as nat == pow2(e as nat),
{
    let mut r: u64 = 1;
    let mut i: u64 = 0;
    proof {
        lemma2_to64();
    }
    while i < e
        invariant
            i <= e < 64,
            r as nat == pow2(i as nat),
        decreases e - i,
    {
        proof {
            lemma_pow2_unfold((i + 1) as nat);
            lemma2_to64();
            lemma2_to64_rest();
            if i + 1 < 63 {
                lemma_pow2_strictly_increases((i + 1) as nat, 63);
            }
        }
        r = r * 2;
        i = i + 1;
    }
    r
}

/// The bits of the double-precision number nearest to `n`.
pub fn double_of_u64(n: u64) -> (r: u64)
    ensures
        r as nat == double_of_nat(n as nat),
        r < 0x7FF0_0000_0000_0000,
{
    if n == 0 {
        return 0;
    }
    let mut e: u64 = 0;
    let mut m: u64 = n;
    proof {
        lemma_floor_log2(n as nat);
        lemma2_to64();
        lemma2_to64_rest();
        if floor_log2(n as nat) > 64 {
            lemma_pow2_strictly_increases(64, floor_log2(n as nat));
        }
    }
    while m >= 2
        invariant
            n > 0,
            m > 0,
            e <= 63,
            e + floor_log2(m as nat) == floor_log2(n as nat),
            floor_log2(n as nat) <= 63,
        decreases m,
    {
        m = m / 2;
        e = e + 1;
    }
    proof {
        assert(e == floor_log2(n as nat));
        lemma_floor_log2(n as nat);
        lemma2_to64();
        lemma2_to64_rest();
    }
    if e <= 52 {
        let p: u64 = power_of_two(52 - e);
        proof {
            lemma_pow2_adds(e as nat, (52 - e) as nat);
            lemma_pow2_adds((e + 1) as nat, (52 - e) as nat);
            assert(n * p < pow2((e + 1) as nat) * p) by (nonlinear_arith)
                requires
                    n < pow2((e + 1) as nat),
                    p > 0,
            ;
            assert(pow2(e as nat) * p <= n * p) by (nonlinear_arith)
                requires
                    pow2(e as nat) <= n,
                    p > 0,
            ;
        }
        (e + 1022) * 0x10_0000_0000_0000 + n * p
    } else {
        let unit: u64 = power_of_two(e - 52);
        let q: u64 = n / unit;
        let rem: u64 = n % unit;
        proof {
            lemma_pow2_adds((e - 52) as nat, 52);
            lemma_pow2_adds((e - 52) as nat, 53);
            lemma_pow2_pos((e - 52) as nat);
            assert(q < pow2(53)) by (nonlinear_arith)
                requires
                    q == n / unit,
                    unit > 0,
                    n < unit * pow2(53),
            ;
            if e - 52 < 11 {
                lemma_pow2_strictly_increases((e - 52) as nat, 11);
            }
        }
        let rounded: u64 = if 2 * rem > unit || (2 * rem == unit && q % 2 == 1) {
            q + 1
        } else {
            q
        };
        (e + 1022) * 0x10_0000_0000_0000 + rounded
    }
}

fn number_bits(n: &Number) -> (r: u64)
    ensures
        r as nat == double_bits(*n),
{
    match n {
        Number::Unsigned(u) => double_of_u64(*u),
        Number::Negative(i) => if *i < 0 {
            let magnitude: u64 = (-(*i + 1)) as u64 + 1;
            0x8000_0000_0000_0000 + double_of_u64(magnitude)
        } else {
            double_of_u64(*i as u64)
        },
        Number::Double(b) => *b,
    }
}

fn bits_nan(bits: u64) -> (r: bool)
    ensures
        r == is_nan(bits as nat),
{
    bits % 0x8000_0000_0000_0000 > 0x7FF0_0000_0000_0000
}

/// Compares two numbers that are given by the bits of double-precision numbers.
pub fn order_bits(x: u64, y: u64) -> (r: Option<Order>)
    ensures
        r == number_order(Number::Double(x), Number::Double(y)),
{
    if bits_nan(x) || bits_nan(y) {
        return None;
    }
    let sign: u64 = 0x8000_0000_0000_0000;
    if x >= sign {
        if y >= sign {
            if x > y {
                Some(Order::Less)
            } else if x < y {
                Some(Order::Greater)
            } else {
                Some(Order::Equal)
            }
        } else if x == sign && y == 0 {
            Some(Order::Equal)
        } else {
            Some(Order::Less)
        }
    } else if y >= sign {
        if y == sign && x == 0 {
            Some(Order::Equal)
        } else {
            Some(Order::Greater)
        }
    } else if x < y {
        Some(Order::Less)
    } else if x > y {
        Some(Order::Greater)
    } else {
        Some(Order::Equal)
    }
}

impl Number {
    /// The number for a signed integer.
    pub fn from_i64(i: i64) -> (r: Self)
        ensures
            r == if i < 0 {
                Number::Negative(i)
            } else {
                Number::Unsigned(i as u64)
            },
    {
        if i < 0 {
            Number::Negative(i)
        } else {
            Number::Unsigned(i as u64)
        }
    }

    /// The number as an unsigned integer, where it is one.
    pub fn as_u64(&self) -> (r: Option<u64>)
        ensures
            r == match *self {
                Number::Unsigned(u) => Some(u),
                _ => None,
            },
    {
        match self {
            Number::Unsigned(u) => Some(*u),
            _ => None,
        }
    }

    /// The bits of the double-precision number that stands for the number.
    pub fn to_double_bits(&self) -> (r: u64)
        ensures
            r as nat == double_bits(*self),
    {
        number_bits(self)
    }
}

/// Compares two numbers as double-precision numbers.
pub fn order_numbers(a: &Number, b: &Number) -> (r: Option<Order>)
    ensures
        r == number_order(*a, *b),
{
    order_bits(number_bits(a), number_bits(b))
}

/// Whether two numbers are of the same kind and equal.
pub fn equal_numbers(a: &Number, b: &Number) -> (r: bool)
    ensures
        r == number_equal(*a, *b),
{
    match (a, b) {
        (Number::Unsigned(x), Number::Unsigned(y)) => *x == *y,
        (Number::Negative(x), Number::Negative(y)) => *x == *y,
        (Number::Double(x), Number::Double(y)) => match order_bits(*x, *y) {
            Some(Order::Equal) => true,
            _ => false,
        },
        _ => false,
    }
}

/// Whether two JSON values are equal.
pub open spec fn json_equal(a: JsonView, b: JsonView) -> bool
    decreases a,
{
    match (a, b) {
        (JsonView::Null, JsonView::Null) => true,
        (JsonView::Bool(x), JsonView::Bool(y)) => x == y,
        (JsonView::Number(x), JsonView::Number(y)) => number_equal(x, y),
        (JsonView::Text(x), JsonView::Text(y)) => x == y,
        (JsonView::Array(x), JsonView::Array(y)) => arrays_equal(x, y),
        (JsonView::Object(x), JsonView::Object(y)) => objects_equal(x, y),
        _ => false,
    }
}

pub open spec fn arrays_equal(x: Seq<JsonView>, y: Seq<JsonView>) -> bool
    decreases x,
{
    if x.len() == 0 || y.len() == 0 {
        x.len() == y.len()
    } else {
        arrays_equal(x.drop_last(), y.drop_last()) && json_equal(x.last(), y.last())
    }
}

pub open spec fn objects_equal(x: Seq<(Seq<char>, JsonView)>, y: Seq<(Seq<char>, JsonView)>) -> bool
    decreases x,
{
    if x.len() == 0 || y.len() == 0 {
        x.len() == y.len()
    } else {
        objects_equal(x.drop_last(), y.drop_last()) && x.last().0 == y.last().0 && json_equal(x.last().1, y.last().1)
    }
}

/// Compares two JSON values for equality.
pub fn equal_values(a: &Json, b: &Json) -> (r: bool)
    ensures
        r == json_equal(a@, b@),
    decreases *a,
{
    match (a, b) {
        (Json::Null, Json::Null) => true,
        (Json::Bool(x), Json::Bool(y)) => *x == *y,
        (Json::Number(x), Json::Number(y)) => equal_numbers(x, y),
        (Json::Text(x), Json::Text(y)) => text_eq(x.as_str(), y.as_str()),
        (Json::Array(x), Json::Array(y)) => {
            proof {
                lemma_array_view(x@);
                lemma_array_view(y@);
            }
            if x.len() != y.len() {
                proof {
                    lemma_arrays_unequal_len(array_view(x@), array_view(y@));
                }
                return false;
            }
            let mut i: usize = 0;
            while i < x.len()
                invariant
                    i <= x@.len(),
                    x@.len() == y@.len(),
                    arrays_equal(array_view(x@.take(i as int)), array_view(y@.take(i as int))),
                    decreases_to!(*a => x@),
                    a@ == JsonView::Array(array_view(x@)),
                    b@ == JsonView::Array(array_view(y@)),
                decreases x@.len() - i,
            {
                proof {
                    lemma_array_view(x@);
                    lemma_array_view(y@);
                    lemma_array_view(x@.take(i as int));
                    lemma_array_view(y@.take(i as int));
                    lemma_array_view(x@.take(i + 1));
                    lemma_array_view(y@.take(i + 1));
                    assert(x@.take(i + 1).drop_last() =~= x@.take(i as int));
                    assert(y@.take(i + 1).drop_last() =~= y@.take(i as int));
                    assert(array_view(x@.take(i + 1)).drop_last() =~= array_view(x@.take(i as int)));
                    assert(array_view(y@.take(i + 1)).drop_last() =~= array_view(y@.take(i as int)));
                }
                if !equal_values(&x[i], &y[i]) {
                    proof {
                        assert(array_view(x@).take(i + 1) =~= array_view(x@.take(i + 1)));
                        assert(array_view(y@).take(i + 1) =~= array_view(y@.take(i + 1)));
                        lemma_arrays_unequal_prefix(array_view(x@), array_view(y@), i + 1);
                    }
                    return false;
                }
                i = i + 1;
            }
            proof {
                assert(x@.take(i as int) =~= x@);
                assert(y@.take(i as int) =~= y@);
            }
            true
        },
        (Json::Object(x), Json::Object(y)) => {
            proof {
                lemma_object_view(x@);
                lemma_object_view(y@);
            }
            if x.len() != y.len() {
                proof {
                    lemma_objects_unequal_len(object_view(x@), object_view(y@));
                }
                return false;
            }
            let mut i: usize = 0;
            while i < x.len()
                invariant
                    i <= x@.len(),
                    x@.len() == y@.len(),
                    objects_equal(object_view(x@.take(i as int)), object_view(y@.take(i as int))),
                    decreases_to!(*a => x@),
                    a@ == JsonView::Object(object_view(x@)),
                    b@ == JsonView::Object(object_view(y@)),
                decreases x@.len() - i,
            {
                proof {
                    lemma_object_view(x@);
                    lemma_object_view(y@);
                    lemma_object_view(x@.take(i as int));
                    lemma_object_view(y@.take(i as int));
                    lemma_object_view(x@.take(i + 1));
                    lemma_object_view(y@.take(i + 1));
                    assert(x@.take(i + 1).drop_last() =~= x@.take(i as int));
                    assert(y@.take(i + 1).drop_last() =~= y@.take(i as int));
                    assert(object_view(x@.take(i + 1)).drop_last() =~= object_view(x@.take(i as int)));
                    assert(object_view(y@.take(i + 1)).drop_last() =~= object_view(y@.take(i as int)));
                }
                if !text_eq(x[i].0.as_str(), y[i].0.as_str()) || !equal_values(&x[i].1, &y[i].1) {
                    proof {
                        assert(object_view(x@).take(i + 1) =~= object_view(x@.take(i + 1)));
                        assert(object_view(y@).take(i + 1) =~= object_view(y@.take(i + 1)));
                        lemma_objects_unequal_prefix(object_view(x@), object_view(y@), i + 1);
                    }
                    return false;
                }
                i = i + 1;
            }
            proof {
                assert(x@.take(i as int) =~= x@);
                assert(y@.take(i as int) =~= y@);
            }
            true
        },
        _ => false,
    }
}

proof fn lemma_arrays_unequal_len(x: Seq<JsonView>, y: Seq<JsonView>)
    requires
        x.len() != y.len(),
    ensures
        !arrays_equal(x, y),
    decreases x.len(),
{
    if x.len() > 0 && y.len() > 0 {
        lemma_arrays_unequal_len(x.drop_last(), y.drop_last());
    }
}

proof fn lemma_arrays_unequal_prefix(x: Seq<JsonView>, y: Seq<JsonView>, n: int)
    requires
        0 <= n <= x.len(),
        x.len() == y.len(),
        !arrays_equal(x.take(n), y.take(n)),
    ensures
        !arrays_equal(x, y),
    decreases x.len(),
{
    if n < x.len() {
        assert(x.drop_last().take(n) =~= x.take(n));
        assert(y.drop_last().take(n) =~= y.take(n));
        lemma_arrays_unequal_prefix(x.drop_last(), y.drop_last(), n);
    } else {
        assert(x.take(n) =~= x);
        assert(y.take(n) =~= y);
    }
}

proof fn lemma_objects_unequal_len(x: Seq<(Seq<char>, JsonView)>, y: Seq<(Seq<char>, JsonView)>)
    requires
        x.len() != y.len(),
    ensures
        !objects_equal(x, y),
    decreases x.len(),
{
    if x.len() > 0 && y.len() > 0 {
        lemma_objects_unequal_len(x.drop_last(), y.drop_last());
    }
}

proof fn lemma_objects_unequal_prefix(x: Seq<(Seq<char>, JsonView)>, y: Seq<(Seq<char>, JsonView)>, n: int)
    requires
        0 <= n <= x.len(),
        x.len() == y.len(),
        !objects_equal(x.take(n), y.take(n)),
    ensures
        !objects_equal(x, y),
    decreases x.len(),
{
    if n < x.len() {
        assert(x.drop_last().take(n) =~= x.take(n));
        assert(y.drop_last().take(n) =~= y.take(n));
        lemma_objects_unequal_prefix(x.drop_last(), y.drop_last(), n);
    } else {
        assert(x.take(n) =~= x);
        assert(y.take(n) =~= y);
    }
}

impl Clone for Json {
    fn clone(&self) -> (r: Self)
        ensures
            r@ == self@,
        decreases self,
    {
        match self {
            Json::Null => Json::Null,
            Json::Bool(b) => Json::Bool(*b),
            Json::Number(n) => Json::Number(*n),
            Json::Text(s) => Json::Text(s.clone()),
            Json::Array(v) => {
                let mut out: Vec<Json> = Vec::new();
                let mut i: usize = 0;
                while i < v.len()
                    invariant
                        i <= v@.len(),
                        out@.len() == i,
                        forall|j: int| 0 <= j < i ==> (#[trigger] out@[j])@ == v@[j]@,
                        decreases_to!(self => v@),
                    decreases v@.len() - i,
                {
                    out.push(v[i].clone());
                    i = i + 1;
                }
                proof {
                    lemma_array_view(v@);
                    lemma_array_view(out@);
                    assert(array_view(out@) =~= array_view(v@));
                }
                Json::Array(out)
            },
            Json::Object(v) => {
                let mut out: Vec<(String, Json)> = Vec::new();
                let mut i: usize = 0;
                while i < v.len()
                    invariant
                        i <= v@.len(),
                        out@.len() == i,
                        forall|j: int|
                            0 <= j < i ==> (#[trigger] out@[j]).0@ == v@[j].0@ && out@[j].1@ == v@[j].1@,
                        decreases_to!(self => v@),
                    decreases v@.len() - i,
                {
                    out.push((v[i].0.clone(), v[i].1.clone()));
                    i = i + 1;
                }
                proof {
                    lemma_object_view(v@);
                    lemma_object_view(out@);
                    assert(object_view(out@) =~= object_view(v@));
                }
                Json::Object(out)
            },
        }
    }
}

/// The value under `key` in the entries of an object.
pub open spec fn lookup(entries: Seq<(Seq<char>, JsonView)>, key: Seq<char>) -> Option<JsonView>
    decreases entries.len(),
{
    if entries.len() == 0 {
        None
    } else if entries[0].0 == key {
        Some(entries[0].1)
    } else {
        lookup(entries.skip(1), key)
    }
}

/// The entries of an object with `value` kept under `key`; the order of the keys
/// is kept too.
pub open spec fn inserted(entries: Seq<(Seq<char>, JsonView)>, key: Seq<char>, value: JsonView) -> Seq<
    (Seq<char>, JsonView),
>
    decreases entries.len(),
{
    if entries.len() == 0 {
        seq![(key, value)]
    } else {
        match text_order(key, entries[0].0) {
            Order::Less => seq![(key, value)] + entries,
            Order::Equal => seq![(key, value)] + entries.skip(1),
            Order::Greater => seq![entries[0]] + inserted(entries.skip(1), key, value),
        }
    }
}

/// Finds the value under `key` in the entries of an object.
pub fn object_get<'a>(entries: &'a Vec<(String, Json)>, key: &str) -> (r: Option<&'a Json>)
    ensures
        match r {
            Some(j) => lookup(object_view(entries@), key@) == Some(j@),
            None => lookup(object_view(entries@), key@) is None,
        },
{
    let mut i: usize = 0;
    proof {
        lemma_object_view(entries@);
        assert(object_view(entries@).skip(0) =~= object_view(entries@));
    }
    while i < entries.len()
        invariant
            i <= entries@.len(),
            object_view(entries@).len() == entries@.len(),
            forall|j: int|
                0 <= j < entries@.len() ==> (#[trigger] object_view(entries@)[j]) == (entries@[j].0@, entries@[j].1@),
            lookup(object_view(entries@), key@) == lookup(object_view(entries@).skip(i as int), key@),
        decreases entries@.len() - i,
    {
        proof {
            assert(object_view(entries@).skip(i as int)[0] == object_view(entries@)[i as int]);
            assert(object_view(entries@).skip(i as int).skip(1) =~= object_view(entries@).skip(i + 1));
        }
        if text_eq(entries[i].0.as_str(), key) {
            return Some(&entries[i].1);
        }
        i = i + 1;
    }
    None
}

/// Keeps `value` under `key` in the entries of an object.
pub fn object_insert(entries: &mut Vec<(String, Json)>, key: String, value: Json)
    ensures
        object_view(final(entries)@) == inserted(object_view(old(entries)@), key@, value@),
{
    let ghost before = object_view(entries@);
    let mut i: usize = 0;
    proof {
        lemma_object_view(entries@);
        assert(before.skip(0) =~= before);
        assert(before.take(0) + inserted(before, key@, value@) =~= inserted(before, key@, value@));
    }
    while i < entries.len()
        invariant
            i <= entries@.len(),
            entries@ == old(entries)@,
            before == object_view(entries@),
            before.len() == entries@.len(),
            forall|j: int| 0 <= j < entries@.len() ==> (#[trigger] before[j]) == (entries@[j].0@, entries@[j].1@),
            inserted(before, key@, value@) == before.take(i as int) + inserted(before.skip(i as int), key@, value@),
        decreases entries@.len() - i,
    {
        proof {
            assert(before.skip(i as int)[0] == before[i as int]);
            assert(before.skip(i as int).skip(1) =~= before.skip(i + 1));
        }
        match order_texts(key.as_str(), entries[i].0.as_str()) {
            Order::Less => {
                entries.insert(i, (key, value));
                proof {
                    lemma_object_view(entries@);
                    assert(object_view(entries@) =~= before.take(i as int) + (seq![(key@, value@)] + before.skip(
                        i as int,
                    )));
                }
                return ;
            },
            Order::Equal => {
                entries[i] = (key, value);
                proof {
                    lemma_object_view(entries@);
                    assert(object_view(entries@) =~= before.take(i as int) + (seq![(key@, value@)] + before.skip(
                        i + 1,
                    )));
                }
                return ;
            },
            Order::Greater => {},
        }
        proof {
            assert(before.take(i as int) + (seq![before[i as int]] + inserted(before.skip(i + 1), key@, value@))
                =~= before.take(i + 1) + inserted(before.skip(i + 1), key@, value@));
        }
        i = i + 1;
    }
    entries.push((key, value));
    proof {
        lemma_object_view(entries@);
        assert(before.skip(i as int).len() == 0);
        assert(object_view(entries@) =~= before.take(i as int) + seq![(key@, value@)]);
    }
}

impl Json {
    /// The text, where the value is one.
    pub fn as_text(&self) -> (r: Option<&str>)
        ensures
            match r {
                Some(s) => self@ == JsonView::Text(s@),
                None => !(self@ is Text),
            },
    {
        match self {
            Json::Text(s) => Some(s.as_str()),
            _ => None,
        }
    }

    /// The unsigned integer, where the value is one.
    pub fn as_u64(&self) -> (r: Option<u64>)
        ensures
            r == match self@ {
                JsonView::Number(Number::Unsigned(u)) => Some(u),
                _ => None,
            },
    {
        match self {
            Json::Number(n) => n.as_u64(),
            _ => None,
        }
    }

    /// A text value.
    pub fn text(s: &str) -> (r: Self)
        ensures
            r@ == JsonView::Text(s@),
    {
        Json::Text(s.to_owned())
    }

    /// An unsigned integer value.
    pub fn unsigned(u: u64) -> (r: Self)
        ensures
            r@ == JsonView::Number(Number::Unsigned(u)),
    {
        Json::Number(Number::Unsigned(u))
    }
}

/// The unsigned integer under a key of an object.
pub open spec fn unsigned_under(entries: Seq<(Seq<char>, JsonView)>, key: Seq<char>) -> Option<u64> {
    match lookup(entries, key) {
        Some(JsonView::Number(Number::Unsigned(n))) => Some(n),
        _ => None,
    }
}

/// The text under a key of an object.
pub open spec fn text_under(entries: Seq<(Seq<char>, JsonView)>, key: Seq<char>) -> Option<Seq<char>> {
    match lookup(entries, key) {
        Some(JsonView::Text(t)) => Some(t),
        _ => None,
    }
}

/// Finds the unsigned integer under a key of an object.
pub fn unsigned_field(entries: &Vec<(String, Json)>, key: &str) -> (r: Option<u64>)
    ensures
        r == unsigned_under(object_view(entries@), key@),
{
    match object_get(entries, key) {
        Some(j) => j.as_u64(),
        None => None,
    }
}

/// Finds the text under a key of an object.
pub fn text_field<'a>(entries: &'a Vec<(String, Json)>, key: &str) -> (r: Option<&'a str>)
    ensures
        match r {
            Some(t) => text_under(object_view(entries@), key@) == Some(t@),
            None => text_under(object_view(entries@), key@) is None,
        },
{
    match object_get(entries, key) {
        Some(j) => j.as_text(),
        None => None,
    }
}

/// Whether the keys of entries are in increasing order.
pub open spec fn keys_sorted(entries: Seq<(Seq<char>, JsonView)>) -> bool
    decreases entries.len(),
{
    entries.len() > 0 ==> (forall|i: int|
        1 <= i < entries.len() ==> text_order(entries[0].0, #[trigger] entries[i].0) == Order::Less) && keys_sorted(
        entries.skip(1),
    )
}

proof fn lemma_bytes_order_transitive(a: Seq<u8>, b: Seq<u8>, c: Seq<u8>)
    requires
        bytes_order(a, b) == Order::Less,
        bytes_order(b, c) == Order::Less,
    ensures
        bytes_order(a, c) == Order::Less,
    decreases a.len(),
{
    if a.len() > 0 && b.len() > 0 && c.len() > 0 && a[0] == b[0] && b[0] == c[0] {
        lemma_bytes_order_transitive(a.skip(1), b.skip(1), c.skip(1));
    }
}

proof fn lemma_bytes_order_reversed(a: Seq<u8>, b: Seq<u8>)
    ensures
        bytes_order(a, b) == Order::Less <==> bytes_order(b, a) == Order::Greater,
        bytes_order(a, b) == Order::Equal <==> bytes_order(b, a) == Order::Equal,
    decreases a.len(),
{
    if a.len() > 0 && b.len() > 0 {
        lemma_bytes_order_reversed(a.skip(1), b.skip(1));
    }
}

/// Texts are totally ordered: one of two comes before the other unless they are
/// equal, and the order is transitive.
pub proof fn law_text_order(a: Seq<char>, b: Seq<char>, c: Seq<char>)
    ensures
        text_order(a, b) == Order::Equal <==> a == b,
        text_order(a, b) == Order::Less <==> text_order(b, a) == Order::Greater,
        text_order(a, b) == Order::Less && text_order(b, c) == Order::Less ==> text_order(a, c) == Order::Less,
{
    lemma_bytes_order_equal(encode_utf8(a), encode_utf8(b));
    lemma_encode_injective(a, b);
    lemma_bytes_order_reversed(encode_utf8(a), encode_utf8(b));
    if text_order(a, b) == Order::Less && text_order(b, c) == Order::Less {
        lemma_bytes_order_transitive(encode_utf8(a), encode_utf8(b), encode_utf8(c));
    }
}

/// Keeping a value under a key in ordered entries keeps them ordered, the value
/// is found under the key, and every other key leads where it led.
pub proof fn law_insert_then_lookup(
    entries: Seq<(Seq<char>, JsonView)>,
    key: Seq<char>,
    value: JsonView,
    other: Seq<char>,
)
    requires
        keys_sorted(entries),
    ensures
        keys_sorted(inserted(entries, key, value)),
        lookup(inserted(entries, key, value), key) == Some(value),
        other != key ==> lookup(inserted(entries, key, value), other) == lookup(entries, other),
        forall|k: Seq<char>|
            (forall|i: int| 0 <= i < entries.len() ==> text_order(k, #[trigger] entries[i].0) == Order::Less)
                && text_order(k, key) == Order::Less ==> (forall|i: int|
                0 <= i < inserted(entries, key, value).len() ==> text_order(k, (
                #[trigger] inserted(entries, key, value)[i]).0) == Order::Less),
    decreases entries.len(),
{
    let r = inserted(entries, key, value);
    if entries.len() == 0 {
        assert(r.skip(1) =~= Seq::empty());
        assert(keys_sorted(r.skip(1)));
        if other != key {
            assert(lookup(r, other) == lookup(r.skip(1), other));
        }
    } else {
        let head = entries[0];
        law_text_order(key, head.0, key);
        match text_order(key, head.0) {
            Order::Less => {
                assert(r.skip(1) =~= entries);
                assert(r[0] == (key, value));
                if other != key {
                    assert(lookup(r, other) == lookup(r.skip(1), other));
                }
                assert forall|i: int| 1 <= i < r.len() implies text_order(key, #[trigger] r[i].0) == Order::Less by {
                    assert(r[i] == entries[i - 1]);
                    if i > 1 {
                        law_text_order(key, head.0, entries[i - 1].0);
                    }
                }
            },
            Order::Equal => {
                assert(r.skip(1) =~= entries.skip(1));
                assert(r[0] == (key, value));
                if other != key {
                    assert(lookup(r, other) == lookup(r.skip(1), other));
                    assert(lookup(entries, other) == lookup(entries.skip(1), other));
                }
                assert forall|i: int| 1 <= i < r.len() implies text_order(key, #[trigger] r[i].0) == Order::Less by {
                    assert(r[i] == entries[i]);
                }
            },
            Order::Greater => {
                let rest = entries.skip(1);
                law_insert_then_lookup(rest, key, value, other);
                assert(r.skip(1) =~= inserted(rest, key, value));
                assert(r[0] == head);
                if other != head.0 {
                    assert(lookup(r, other) == lookup(r.skip(1), other));
                    assert(lookup(entries, other) == lookup(rest, other));
                }
                law_text_order(head.0, key, key);
                assert forall|i: int| 0 <= i < rest.len() implies text_order(head.0, #[trigger] rest[i].0)
                    == Order::Less by {
                    assert(rest[i] == entries[i + 1]);
                }
                assert forall|i: int| 1 <= i < r.len() implies text_order(head.0, #[trigger] r[i].0) == Order::Less by {
                    assert(r[i] == inserted(rest, key, value)[i - 1]);
                }
            },
        }
        assert forall|k: Seq<char>|
            (forall|i: int| 0 <= i < entries.len() ==> text_order(k, #[trigger] entries[i].0) == Order::Less)
                && text_order(k, key) == Order::Less implies (forall|i: int|
            0 <= i < r.len() ==> text_order(k, (#[trigger] r[i]).0) == Order::Less) by {
            assert forall|i: int| 0 <= i < r.len() implies text_order(k, (#[trigger] r[i]).0) == Order::Less by {
                match text_order(key, head.0) {
                    Order::Less => {
                        if i > 0 {
                            assert(r[i] == entries[i - 1]);
                        }
                    },
                    Order::Equal => {
                        if i > 0 {
                            assert(r[i] == entries[i]);
                        }
                    },
                    Order::Greater => {
                        let rest = entries.skip(1);
                        assert forall|j: int| 0 <= j < rest.len() implies text_order(k, #[trigger] rest[j].0)
                            == Order::Less by {
                            assert(rest[j] == entries[j + 1]);
                        }
                        if i > 0 {
                            assert(r[i] == inserted(rest, key, value)[i - 1]);
                        } else {
                            assert(r[0] == entries[0]);
                        }
                    },
                }
            }
        }
    }
}

pub proof fn lemma_lookup_sorted(entries: Seq<(Seq<char>, JsonView)>, i: int)
    requires
        keys_sorted(entries),
        0 <= i < entries.len(),
    ensures
        lookup(entries, entries[i].0) == Some(entries[i].1),
    decreases entries.len(),
{
    if i > 0 {
        let rest = entries.skip(1);
        assert(rest[i - 1] == entries[i]);
        lemma_lookup_sorted(rest, i - 1);
        law_text_order(entries[0].0, entries[i].0, entries[i].0);
        assert(text_order(entries[0].0, entries[i].0) == Order::Less);
    }
}

pub proof fn lemma_lookup_found(entries: Seq<(Seq<char>, JsonView)>, key: Seq<char>) -> (i: int)
    requires
        lookup(entries, key) is Some,
    ensures
        0 <= i < entries.len(),
        entries[i].0 == key,
        Some(entries[i].1) == lookup(entries, key),
    decreases entries.len(),
{
    if entries[0].0 == key {
        0
    } else {
        let j = lemma_lookup_found(entries.skip(1), key);
        j + 1
    }
}

/// Whether some entry has a key.
pub open spec fn has_key(entries: Seq<(Seq<char>, JsonView)>, key: Seq<char>) -> bool {
    exists|i: int| 0 <= i < entries.len() && (#[trigger] entries[i]).0 == key
}

pub proof fn lemma_has_key(entries: Seq<(Seq<char>, JsonView)>, key: Seq<char>)
    ensures
        has_key(entries, key) <==> lookup(entries, key) is Some,
    decreases entries.len(),
{
    if lookup(entries, key) is Some {
        let i = lemma_lookup_found(entries, key);
        assert(entries[i].0 == key);
    }
    if has_key(entries, key) {
        let i = choose|i: int| 0 <= i < entries.len() && (#[trigger] entries[i]).0 == key;
        if i > 0 {
            assert(entries.skip(1)[i - 1].0 == key);
            lemma_has_key(entries.skip(1), key);
        }
    }
}

/// Inserting a value that is wanted into wanted values leaves only those.
pub proof fn lemma_inserted_values(
    entries: Seq<(Seq<char>, JsonView)>,
    key: Seq<char>,
    value: JsonView,
    wanted: spec_fn(JsonView) -> bool,
)
    requires
        wanted(value),
        forall|i: int| 0 <= i < entries.len() ==> wanted((#[trigger] entries[i]).1),
    ensures
        forall|i: int|
            0 <= i < inserted(entries, key, value).len() ==> wanted(
                (#[trigger] inserted(entries, key, value)[i]).1,
            ),
    decreases entries.len(),
{
    if entries.len() > 0 {
        let rest = entries.skip(1);
        assert forall|i: int| 0 <= i < rest.len() implies wanted((#[trigger] rest[i]).1) by {
            assert(rest[i] == entries[i + 1]);
        }
        lemma_inserted_values(rest, key, value, wanted);
        let r = inserted(entries, key, value);
        assert forall|i: int| 0 <= i < r.len() implies wanted((#[trigger] r[i]).1) by {
            match text_order(key, entries[0].0) {
                Order::Less => {
                    if i > 0 {
                        assert(r[i] == entries[i - 1]);
                    }
                },
                Order::Equal => {
                    if i > 0 {
                        assert(r[i] == rest[i - 1]);
                    }
                },
                Order::Greater => {
                    if i > 0 {
                        assert(r[i] == inserted(rest, key, value)[i - 1]);
                    } else {
                        assert(r[0] == entries[0]);
                    }
                },
            }
        }
    }
}

/// The entries of an object with these fields, of which the last counts where two have
/// the same key.
pub open spec fn object_of(fields: Seq<(Seq<char>, JsonView)>) -> Seq<(Seq<char>, JsonView)>
    decreases fields.len(),
{
    if fields.len() == 0 {
        Seq::empty()
    } else {
        inserted(object_of(fields.drop_last()), fields.last().0, fields.last().1)
    }
}

/// An object has each of its fields under its key, and its keys are in order.
pub proof fn lemma_object_of(fields: Seq<(Seq<char>, JsonView)>)
    requires
        forall|i: int, k: int| 0 <= i < k < fields.len() ==> (#[trigger] fields[i]).0 != (#[trigger] fields[k]).0,
    ensures
        keys_sorted(object_of(fields)),
        forall|i: int|
            0 <= i < fields.len() ==> lookup(object_of(fields), (#[trigger] fields[i]).0) == Some(fields[i].1),
    decreases fields.len(),
{
    if fields.len() > 0 {
        let front = fields.drop_last();
        let (key, value) = fields.last();
        lemma_object_of(front);
        law_insert_then_lookup(object_of(front), key, value, key);
        assert forall|i: int| 0 <= i < fields.len() implies lookup(object_of(fields), (#[trigger] fields[i]).0) == Some(
            fields[i].1,
        ) by {
            if i < front.len() {
                assert(front[i] == fields[i]);
                law_insert_then_lookup(object_of(front), key, value, fields[i].0);
            }
        }
    }
}

/// An object holds no values but those of its fields.
pub proof fn lemma_object_of_values(fields: Seq<(Seq<char>, JsonView)>, wanted: spec_fn(JsonView) -> bool)
    requires
        forall|i: int| 0 <= i < fields.len() ==> wanted((#[trigger] fields[i]).1),
    ensures
        forall|i: int| 0 <= i < object_of(fields).len() ==> wanted((#[trigger] object_of(fields)[i]).1),
    decreases fields.len(),
{
    if fields.len() > 0 {
        let front = fields.drop_last();
        assert forall|i: int| 0 <= i < front.len() implies wanted((#[trigger] front[i]).1) by {
            assert(front[i] == fields[i]);
        }
        lemma_object_of_values(front, wanted);
        assert(wanted(fields[fields.len() - 1].1));
        lemma_inserted_values(object_of(front), fields.last().0, fields.last().1, wanted);
    }
}

} // verus!

//! Between documents and the primitive CRDTs of lightweight nodes.

use vstd::prelude::*;
use vstd::string::*;
use vstd::utf8::*;

use crate::bytes;
use crate::bytes::{copy_range, push_bytes, push_le, read_le};
use crate::clock;
use crate::json;
use crate::json::{object_insert, text_field, unsigned_field, Json, JsonView, Number};
use crate::text;
use crate::text::{hex8_string, hex_decode, hex_encode, lists_text, parse_hex_u32};
use crate::transport::lite;
use crate::transport::lite::{
    LiteMeshTransport, LiteSyncMode, LiteTransportConfig, TransportError, TransportErrorView, TransportView,
};
use crate::transport::wire;
use crate::transport::wire::{read_u16, read_u32, CrdtType, LiteMessage, MessageType, MessageView};
use crate::vec_map::VecMap;

verus! {

/// Element in an Observed-Remove Set.
#[derive(Debug, Clone, PartialEq, Eq)]
pub struct OrSetElement {
    /// Node that added this element
    pub tag_node_id: u32,
    /// Sequence number of the add operation
    pub tag_seq: u32,
    /// Element value (arbitrary bytes)
    pub value: Vec<u8>,
}

/// An [`OrSetElement`] in terms of sequences.
#[verifier::ext_equal]
pub struct ElementView {
    pub tag_node_id: u32,
    pub tag_seq: u32,
    pub value: Seq<u8>,
}

impl View for OrSetElement {
    type V = ElementView;

    open spec fn view(&self) -> ElementView {
        ElementView { tag_node_id: self.tag_node_id, tag_seq: self.tag_seq, value: self.value@ }
    }
}

/// A list of elements by their views.
pub open spec fn elements_view(v: Seq<OrSetElement>) -> Seq<ElementView> {
    v.map_values(|e: OrSetElement| e@)
}

/// The number of entries that a counter or a set says it has.
pub open spec fn entry_count(d: Seq<u8>) -> nat {
    bytes::le_value(d.subrange(4, 6))
}

/// The integer of four bytes at `p`.
pub open spec fn u32_at(d: Seq<u8>, p: int) -> u32 {
    bytes::le_value(d.subrange(p, p + 4)) as u32
}

/// The integer of eight bytes at `p`.
pub open spec fn u64_at(d: Seq<u8>, p: int) -> u64 {
    bytes::le_value(d.subrange(p, p + 8)) as u64
}

/// Whether a grow-only counter is all there: a node ID, the number of entries,
/// and 12 bytes for each entry.
pub open spec fn is_gcounter(d: Seq<u8>) -> bool {
    d.len() >= 6 && d.len() >= 6 + 12 * entry_count(d)
}

/// The first `n` entries of a grow-only counter.
pub open spec fn gcounter_entries(d: Seq<u8>, n: nat) -> Seq<(u32, u64)> {
    Seq::new(n, |k: int| (u32_at(d, 6 + 12 * k), u64_at(d, 10 + 12 * k)))
}

/// The sum of counts.
pub open spec fn counts_total(counts: Seq<(u32, u64)>) -> nat
    decreases counts.len(),
{
    if counts.len() == 0 {
        0
    } else {
        counts_total(counts.drop_last()) + counts.last().1 as nat
    }
}

/// Whether a positive-negative counter is all there, with 20 bytes for each entry.
pub open spec fn is_pncounter(d: Seq<u8>) -> bool {
    d.len() >= 6 && d.len() >= 6 + 20 * entry_count(d)
}

/// The first `n` entries of a positive-negative counter.
pub open spec fn pncounter_entries(d: Seq<u8>, n: nat) -> Seq<(u32, u64, u64)> {
    Seq::new(n, |k: int| (u32_at(d, 6 + 20 * k), u64_at(d, 10 + 20 * k), u64_at(d, 18 + 20 * k)))
}

/// The signed integer with the same 64 bits.
pub open spec fn as_signed(x: u64) -> int {
    if x < 0x8000_0000_0000_0000 {
        x as int
    } else {
        x - 0x1_0000_0000_0000_0000
    }
}

/// Increments less decrements, each taken as a signed integer.
pub open spec fn net_total(entries: Seq<(u32, u64, u64)>) -> int
    decreases entries.len(),
{
    if entries.len() == 0 {
        0
    } else {
        net_total(entries.drop_last()) + (as_signed(entries.last().1) - as_signed(entries.last().2))
    }
}

/// Whether no step of summing the entries leaves the range of an `i64`.
pub open spec fn net_fits(entries: Seq<(u32, u64, u64)>) -> bool
    decreases entries.len(),
{
    entries.len() == 0 || {
        &&& net_fits(entries.drop_last())
        &&& i64::MIN <= as_signed(entries.last().1) - as_signed(entries.last().2) <= i64::MAX
        &&& i64::MIN <= net_total(entries) <= i64::MAX
    }
}

/// The `n` elements of a set from `p` on, where they are all there.
pub open spec fn orset_elements(d: Seq<u8>, p: int, n: nat) -> Option<Seq<ElementView>>
    decreases n,
{
    if n == 0 {
        Some(Seq::empty())
    } else if d.len() < p + 10 {
        None
    } else {
        let len = bytes::le_value(d.subrange(p + 8, p + 10)) as int;
        if d.len() < p + 10 + len {
            None
        } else {
            match orset_elements(d, p + 10 + len, (n - 1) as nat) {
                Some(rest) => Some(
                    seq![
                        ElementView {
                            tag_node_id: u32_at(d, p),
                            tag_seq: u32_at(d, p + 4),
                            value: d.subrange(p + 10, p + 10 + len),
                        },
                    ] + rest,
                ),
                None => None,
            }
        }
    }
}

/// The set that `d` starts with: the node ID of its sender and its elements.
pub open spec fn parse_orset(d: Seq<u8>) -> Option<(u32, Seq<ElementView>)> {
    if d.len() < 6 {
        None
    } else {
        match orset_elements(d, 6, entry_count(d)) {
            Some(e) => Some((u32_at(d, 0), e)),
            None => None,
        }
    }
}

fn read_u64(data: &[u8], pos: usize) -> (x: u64)
    requires
        pos + 8 <= data@.len(),
    ensures
        x == u64_at(data@, pos as int),
{
    proof {
        bytes::lemma_pow256_values();
        bytes::lemma_le_value_bound(data@.subrange(pos as int, pos + 8));
    }
    read_le(data, pos, 8)
}

fn to_signed(x: u64) -> (r: i64)
    ensures
        r == as_signed(x),
{
    if x < 0x8000_0000_0000_0000 {
        x as i64
    } else {
        -((u64::MAX - x) as i64) - 1
    }
}

/// Connects a transport with documents: translates between primitive CRDTs and
/// document fields, and picks the collections that go each way.
pub struct LiteDocumentBridge {
    pub transport: LiteMeshTransport,
    pub config: LiteTransportConfig,
}

impl LiteDocumentBridge {
    /// The collections that are accepted; if none is listed, all are.
    pub open spec fn inbound(self) -> Seq<Seq<char>> {
        text::texts(self.config.inbound_collections@)
    }

    /// The collections that are sent.
    pub open spec fn outbound(self) -> Seq<Seq<char>> {
        text::texts(self.config.outbound_collections@)
    }

    /// Whether a document of a collection is sent: not where the collection is not
    /// listed, where nothing is sent at all, and where the document is too old.
    pub open spec fn sends(self, collection: Seq<char>, age_secs: u64) -> bool {
        &&& self.outbound().contains(collection)
        &&& self.config.outbound_sync_mode != LiteSyncMode::ReceiveOnly
        &&& self.config.max_document_age_secs == 0 || age_secs <= self.config.max_document_age_secs
    }

    /// Create a new bridge between transport and document store
    pub fn new(transport: LiteMeshTransport, config: LiteTransportConfig) -> (r: Self)
        ensures
            r.transport == transport,
            r.config == config,
    {
        LiteDocumentBridge { transport, config }
    }

    /// Check if a collection should be accepted from lightweight nodes
    pub fn accepts_inbound(&self, collection: &str) -> (r: bool)
        ensures
            r == lite::accepts(self.inbound(), collection@),
    {
        self.config.inbound_collections.len() == 0 || lists_text(&self.config.inbound_collections, collection)
    }

    /// Check if a collection should be sent to lightweight nodes
    pub fn sends_outbound(&self, collection: &str) -> (r: bool)
        ensures
            r == self.outbound().contains(collection@),
    {
        lists_text(&self.config.outbound_collections, collection)
    }

    /// Decode a grow-only counter from wire format and return (node counts, total).
    /// The counts must not sum to more than a `u64` can hold.
    pub fn decode_gcounter(data: &[u8]) -> (r: Option<(Vec<(u32, u64)>, u64)>)
        requires
            is_gcounter(data@) ==> counts_total(gcounter_entries(data@, entry_count(data@))) <= u64::MAX,
        ensures
            r is Some == is_gcounter(data@),
            r is Some ==> r->Some_0.0@ == gcounter_entries(data@, entry_count(data@)),
            r is Some ==> r->Some_0.1 == counts_total(gcounter_entries(data@, entry_count(data@))),
    {
        let len: usize = data.len();
        if len < 6 {
            return None;
        }
        let n: usize = read_u16(data, 4) as usize;
        if len < 6 + n * 12 {
            return None;
        }
        let mut counts: Vec<(u32, u64)> = Vec::new();
        let mut total: u64 = 0;
        let mut k: usize = 0;
        while k < n
            invariant
                k <= n,
                n < 65536,
                n == entry_count(data@),
                6 + n * 12 <= len,
                len == data@.len(),
                counts_total(gcounter_entries(data@, n as nat)) <= u64::MAX,
                counts@ == gcounter_entries(data@, k as nat),
                total == counts_total(counts@),
            decreases n - k,
        {
            let offset: usize = 6 + k * 12;
            let node_id: u32 = read_u32(data, offset);
            let count: u64 = read_u64(data, offset + 4);
            counts.push((node_id, count));
            proof {
                assert(counts@ =~= gcounter_entries(data@, (k + 1) as nat));
                assert(counts@.drop_last() =~= gcounter_entries(data@, k as nat));
                lemma_total_prefix(data@, (k + 1) as nat, n as nat);
            }
            total = total + count;
            k = k + 1;
        }
        Some((counts, total))
    }

    /// Whether the counts of a grow-only counter sum to no more than a `u64` can
    /// hold.
    pub fn gcounter_fits(data: &[u8]) -> (r: bool)
        ensures
            r == (is_gcounter(data@) ==> counts_total(gcounter_entries(data@, entry_count(data@))) <= u64::MAX),
    {
        let len: usize = data.len();
        if len < 6 {
            return true;
        }
        let n: usize = read_u16(data, 4) as usize;
        if len < 6 + n * 12 {
            return true;
        }
        let mut total: u128 = 0;
        let mut k: usize = 0;
        assert(gcounter_entries(data@, 0) =~= Seq::empty());
        while k < n
            invariant
                k <= n,
                n < 65536,
                6 + n * 12 <= len,
                len == data@.len(),
                total <= k * 0xffff_ffff_ffff_ffff,
                total == counts_total(gcounter_entries(data@, k as nat)),
            decreases n - k,
        {
            let count: u64 = read_u64(data, 10 + k * 12);
            proof {
                assert(gcounter_entries(data@, (k + 1) as nat).drop_last() =~= gcounter_entries(data@, k as nat));
                assert((k + 1) * 0xffff_ffff_ffff_ffff == k * 0xffff_ffff_ffff_ffff + 0xffff_ffff_ffff_ffff);
            }
            total = total + count as u128;
            k = k + 1;
        }
        total <= 0xffff_ffff_ffff_ffff
    }

    /// Decode a last-writer-wins register from wire format.
    /// Returns (timestamp, node_id, value_bytes)
    pub fn decode_lww_register(data: &[u8]) -> (r: Option<(u64, u32, Vec<u8>)>)
        ensures
            r is Some == (data@.len() >= 12),
            r is Some ==> r->Some_0.0 == u64_at(data@, 0),
            r is Some ==> r->Some_0.1 == u32_at(data@, 8),
            r is Some ==> r->Some_0.2@ == data@.subrange(12, data@.len() as int),
    {
        if data.len() < 12 {
            return None;
        }
        let timestamp: u64 = read_u64(data, 0);
        let node_id: u32 = read_u32(data, 8);
        let value = copy_range(data, 12, data.len());
        Some((timestamp, node_id, value))
    }

    /// Decode a positive-negative counter from wire format.
    ///
    /// Returns (entries as (node_id, increments, decrements), net value). No step
    /// of the sum may leave the range of an `i64`.
    pub fn decode_pncounter(data: &[u8]) -> (r: Option<(Vec<(u32, u64, u64)>, i64)>)
        requires
            is_pncounter(data@) ==> net_fits(pncounter_entries(data@, entry_count(data@))),
        ensures
            r is Some == is_pncounter(data@),
            r is Some ==> r->Some_0.0@ == pncounter_entries(data@, entry_count(data@)),
            r is Some ==> r->Some_0.1 == net_total(pncounter_entries(data@, entry_count(data@))),
    {
        let len: usize = data.len();
        if len < 6 {
            return None;
        }
        let n: usize = read_u16(data, 4) as usize;
        if len < 6 + n * 20 {
            return None;
        }
        let mut entries: Vec<(u32, u64, u64)> = Vec::new();
        let mut net: i64 = 0;
        let mut k: usize = 0;
        while k < n
            invariant
                k <= n,
                n < 65536,
                n == entry_count(data@),
                6 + n * 20 <= len,
                len == data@.len(),
                net_fits(pncounter_entries(data@, n as nat)),
                entries@ == pncounter_entries(data@, k as nat),
                net == net_total(entries@),
            decreases n - k,
        {
            let offset: usize = 6 + k * 20;
            let node_id: u32 = read_u32(data, offset);
            let increments: u64 = read_u64(data, offset + 4);
            let decrements: u64 = read_u64(data, offset + 12);
            entries.push((node_id, increments, decrements));
            proof {
                assert(entries@ =~= pncounter_entries(data@, (k + 1) as nat));
                assert(entries@.drop_last() =~= pncounter_entries(data@, k as nat));
                lemma_fits_prefix(data@, (k + 1) as nat, n as nat);
            }
            net = net + (to_signed(increments) - to_signed(decrements));
            k = k + 1;
        }
        Some((entries, net))
    }

    /// Whether the sum of a positive-negative counter stays in the range of an
    /// `i64` at every step.
    pub fn pncounter_fits(data: &[u8]) -> (r: bool)
        ensures
            r == (is_pncounter(data@) ==> net_fits(pncounter_entries(data@, entry_count(data@)))),
    {
        let len: usize = data.len();
        if len < 6 {
            return true;
        }
        let n: usize = read_u16(data, 4) as usize;
        if len < 6 + n * 20 {
            return true;
        }
        let mut net: i64 = 0;
        let mut k: usize = 0;
        assert(pncounter_entries(data@, 0) =~= Seq::empty());
        while k < n
            invariant
                k <= n,
                n < 65536,
                n == entry_count(data@),
                6 + n * 20 <= len,
                len == data@.len(),
                is_pncounter(data@),
                net_fits(pncounter_entries(data@, k as nat)),
                net == net_total(pncounter_entries(data@, k as nat)),
            decreases n - k,
        {
            let increments: u64 = read_u64(data, 10 + k * 20);
            let decrements: u64 = read_u64(data, 18 + k * 20);
            let step: i128 = to_signed(increments) as i128 - to_signed(decrements) as i128;
            let next: i128 = net as i128 + step;
            proof {
                assert(pncounter_entries(data@, (k + 1) as nat).drop_last() =~= pncounter_entries(data@, k as nat));
            }
            let low: i128 = -0x8000_0000_0000_0000;
            let high: i128 = 0x7fff_ffff_ffff_ffff;
            if step < low || step > high || next < low || next > high {
                proof {
                    if net_fits(pncounter_entries(data@, n as nat)) {
                        lemma_fits_prefix(data@, (k + 1) as nat, n as nat);
                    }
                }
                return false;
            }
            net = next as i64;
            k = k + 1;
        }
        true
    }

    /// Decode a set from wire format.
    ///
    /// Returns (local_node_id, elements)
    pub fn decode_orset(data: &[u8]) -> (r: Option<(u32, Vec<OrSetElement>)>)
        ensures
            match r {
                Some(set) => parse_orset(data@) == Some((set.0, elements_view(set.1@))),
                None => parse_orset(data@) is None,
            },
    {
        let len: usize = data.len();
        if len < 6 {
            return None;
        }
        let local_node_id: u32 = read_u32(data, 0);
        let n: usize = read_u16(data, 4) as usize;
        let mut elements: Vec<OrSetElement> = Vec::new();
        let mut offset: usize = 6;
        let mut k: usize = 0;
        proof {
            assert(elements_view(elements@) =~= Seq::<ElementView>::empty());
            if orset_elements(data@, 6, n as nat) is Some {
                assert(Seq::<ElementView>::empty() + orset_elements(data@, 6, n as nat)->Some_0 =~= orset_elements(
                    data@,
                    6,
                    n as nat,
                )->Some_0);
            }
        }
        while k < n
            invariant
                k <= n,
                n == entry_count(data@),
                6 <= offset <= len,
                len == data@.len(),
                local_node_id == u32_at(data@, 0),
                orset_elements(data@, 6, n as nat) is Some <==> orset_elements(
                    data@,
                    offset as int,
                    (n - k) as nat,
                ) is Some,
                orset_elements(data@, 6, n as nat) is Some ==> orset_elements(data@, 6, n as nat)->Some_0
                    == elements_view(elements@) + orset_elements(data@, offset as int, (n - k) as nat)->Some_0,
            decreases n - k,
        {
            if len - offset < 10 {
                return None;
            }
            let tag_node_id: u32 = read_u32(data, offset);
            let tag_seq: u32 = read_u32(data, offset + 4);
            let value_len: usize = read_u16(data, offset + 8) as usize;
            if len - offset - 10 < value_len {
                return None;
            }
            let value = copy_range(data, offset + 10, offset + 10 + value_len);
            let ghost before = elements_view(elements@);
            elements.push(OrSetElement { tag_node_id, tag_seq, value });
            proof {
                let e = ElementView {
                    tag_node_id: u32_at(data@, offset as int),
                    tag_seq: u32_at(data@, offset + 4),
                    value: data@.subrange(offset + 10, offset + 10 + value_len),
                };
                assert(elements_view(elements@) =~= before.push(e));
                if orset_elements(data@, offset + 10 + value_len, (n - k - 1) as nat) is Some {
                    let rest = orset_elements(data@, offset + 10 + value_len, (n - k - 1) as nat)->Some_0;
                    assert(before + (seq![e] + rest) =~= before.push(e) + rest);
                }
            }
            offset = offset + 10 + value_len;
            k = k + 1;
        }
        proof {
            assert(elements_view(elements@) + Seq::<ElementView>::empty() =~= elements_view(elements@));
        }
        Some((local_node_id, elements))
    }
}

proof fn lemma_total_prefix(d: Seq<u8>, k: nat, n: nat)
    requires
        k <= n,
    ensures
        counts_total(gcounter_entries(d, k)) <= counts_total(gcounter_entries(d, n)),
    decreases n - k,
{
    if k < n {
        lemma_total_prefix(d, k, (n - 1) as nat);
        assert(gcounter_entries(d, n).drop_last() =~= gcounter_entries(d, (n - 1) as nat));
    }
}

proof fn lemma_fits_prefix(d: Seq<u8>, k: nat, n: nat)
    requires
        k <= n,
        net_fits(pncounter_entries(d, n)),
    ensures
        net_fits(pncounter_entries(d, k)),
    decreases n - k,
{
    if k < n {
        assert(pncounter_entries(d, n).drop_last() =~= pncounter_entries(d, (n - 1) as nat));
        lemma_fits_prefix(d, k, (n - 1) as nat);
    }
}

/// Keeps `value` under `key`.
fn put(fields: &mut VecMap<String, Json>, key: &str, value: Json)
    ensures
        json::fields_view(final(fields)@) == json::fields_view(old(fields)@).insert(key@, value@),
{
    let ghost before = fields@;
    fields.insert(key.to_owned(), value);
    assert(json::fields_view(fields@) =~= json::fields_view(before).insert(key@, value@));
}

fn no_fields() -> (r: VecMap<String, Json>)
    ensures
        json::fields_view(r@) == Map::<Seq<char>, JsonView>::empty(),
{
    let r: VecMap<String, Json> = VecMap::new();
    assert(json::fields_view(r@) =~= Map::<Seq<char>, JsonView>::empty());
    r
}

/// The unsigned integer as a JSON value.
pub open spec fn unsigned(u: u64) -> JsonView {
    JsonView::Number(Number::Unsigned(u))
}

/// The signed integer as a JSON value.
pub open spec fn signed(i: int) -> JsonView {
    JsonView::Number(
        if i < 0 {
            Number::Negative(i as i64)
        } else {
            Number::Unsigned(i as u64)
        },
    )
}

/// The object with a count under the name of each node.
pub open spec fn counts_object(counts: Seq<(u32, u64)>) -> Seq<(Seq<char>, JsonView)>
    decreases counts.len(),
{
    if counts.len() == 0 {
        Seq::empty()
    } else {
        json::inserted(
            counts_object(counts.drop_last()),
            text::hex8(counts.last().0),
            unsigned(counts.last().1),
        )
    }
}

/// The fields of the document for a grow-only counter.
pub open spec fn gcounter_fields(node_id: Seq<char>, counts: Seq<(u32, u64)>, total: u64, now_ms: u64) -> Map<
    Seq<char>,
    JsonView,
> {
    Map::<Seq<char>, JsonView>::empty().insert("type"@, JsonView::Text("gcounter"@)).insert(
        "source_node"@,
        JsonView::Text(node_id),
    ).insert("total"@, unsigned(total)).insert("node_counts"@, JsonView::Object(counts_object(counts))).insert(
        "updated_at"@,
        unsigned(now_ms),
    )
}

/// The signed integer with the same 32 bits.
pub open spec fn as_signed32(x: u32) -> int {
    if x < 0x8000_0000 {
        x as int
    } else {
        x - 0x1_0000_0000
    }
}

/// The fields of the document for a last-writer-wins register. A value of four
/// or eight bytes is told as an integer too.
pub open spec fn lww_fields(node_id: Seq<char>, timestamp: u64, value: Seq<u8>, now_ms: u64) -> Map<Seq<char>, JsonView> {
    let start = Map::<Seq<char>, JsonView>::empty().insert("type"@, JsonView::Text("lww_register"@)).insert(
        "source_node"@,
        JsonView::Text(node_id),
    ).insert("timestamp"@, unsigned(timestamp));
    let told = if value.len() == 4 {
        start.insert("value_i32"@, signed(as_signed32(bytes::le_value(value) as u32)))
    } else if value.len() == 8 {
        start.insert("value_i64"@, signed(as_signed(bytes::le_value(value) as u64)))
    } else {
        start
    };
    told.insert("value_hex"@, JsonView::Text(text::hex_text(value))).insert("updated_at"@, unsigned(now_ms))
}

/// The object for one entry of a positive-negative counter.
pub open spec fn pn_entry(increments: u64, decrements: u64) -> JsonView {
    JsonView::Object(seq![("decrements"@, unsigned(decrements)), ("increments"@, unsigned(increments))])
}

/// The object with an entry under the name of each node.
pub open spec fn pn_object(entries: Seq<(u32, u64, u64)>) -> Seq<(Seq<char>, JsonView)>
    decreases entries.len(),
{
    if entries.len() == 0 {
        Seq::empty()
    } else {
        json::inserted(
            pn_object(entries.drop_last()),
            text::hex8(entries.last().0),
            pn_entry(entries.last().1, entries.last().2),
        )
    }
}

/// The fields of the document for a positive-negative counter.
pub open spec fn pncounter_fields(node_id: Seq<char>, entries: Seq<(u32, u64, u64)>, net_value: i64, now_ms: u64) -> Map<
    Seq<char>,
    JsonView,
> {
    Map::<Seq<char>, JsonView>::empty().insert("type"@, JsonView::Text("pncounter"@)).insert(
        "source_node"@,
        JsonView::Text(node_id),
    ).insert("net_value"@, signed(net_value as int)).insert("node_entries"@, JsonView::Object(pn_object(entries))).insert(
        "updated_at"@,
        unsigned(now_ms),
    )
}

/// The object for one element of a set.
pub open spec fn element_object(e: ElementView) -> JsonView {
    JsonView::Object(
        seq![
            ("tag_node"@, JsonView::Text(text::hex8(e.tag_node_id))),
            ("tag_seq"@, unsigned(e.tag_seq as u64)),
            ("value"@, JsonView::Text(text::hex_text(e.value))),
        ],
    )
}

/// The fields of the document for a set.
pub open spec fn orset_fields(node_id: Seq<char>, elements: Seq<ElementView>, now_ms: u64) -> Map<Seq<char>, JsonView> {
    Map::<Seq<char>, JsonView>::empty().insert("type"@, JsonView::Text("orset"@)).insert(
        "source_node"@,
        JsonView::Text(node_id),
    ).insert("count"@, unsigned(elements.len() as u64)).insert(
        "elements"@,
        JsonView::Array(elements.map_values(|e: ElementView| element_object(e))),
    ).insert("updated_at"@, unsigned(now_ms))
}

fn signed_json(i: i64) -> (r: Json)
    ensures
        r@ == signed(i as int),
{
    Json::Number(Number::from_i64(i))
}

/// An object with two entries, in the order of their keys.
fn object2(k1: &str, v1: Json, k2: &str, v2: Json) -> (r: Json)
    ensures
        r@ == JsonView::Object(seq![(k1@, v1@), (k2@, v2@)]),
{
    let mut entries: Vec<(String, Json)> = Vec::new();
    entries.push((k1.to_owned(), v1));
    entries.push((k2.to_owned(), v2));
    proof {
        json::lemma_object_view(entries@);
        assert(json::object_view(entries@) =~= seq![(k1@, v1@), (k2@, v2@)]);
    }
    Json::Object(entries)
}

/// An object with three entries, in the order of their keys.
fn object3(k1: &str, v1: Json, k2: &str, v2: Json, k3: &str, v3: Json) -> (r: Json)
    ensures
        r@ == JsonView::Object(seq![(k1@, v1@), (k2@, v2@), (k3@, v3@)]),
{
    let mut entries: Vec<(String, Json)> = Vec::new();
    entries.push((k1.to_owned(), v1));
    entries.push((k2.to_owned(), v2));
    entries.push((k3.to_owned(), v3));
    proof {
        json::lemma_object_view(entries@);
        assert(json::object_view(entries@) =~= seq![(k1@, v1@), (k2@, v2@), (k3@, v3@)]);
    }
    Json::Object(entries)
}

impl LiteDocumentBridge {
    /// Convert a grow-only counter to document fields, stamped with the time.
    pub fn gcounter_to_fields(node_id: &str, counts: &[(u32, u64)], total: u64) -> (r: VecMap<String, Json>)
        ensures
            exists|now_ms: u64| json::fields_view(r@) == #[trigger] gcounter_fields(node_id@, counts@, total, now_ms),
    {
        let now: u64 = clock::now_ms();
        Self::gcounter_to_fields_at(node_id, counts, total, now)
    }

    /// Convert a grow-only counter to document fields at `now_ms`.
    pub fn gcounter_to_fields_at(node_id: &str, counts: &[(u32, u64)], total: u64, now_ms: u64) -> (r: VecMap<
        String,
        Json,
    >)
        ensures
            json::fields_view(r@) == gcounter_fields(node_id@, counts@, total, now_ms),
    {
        let mut object: Vec<(String, Json)> = Vec::new();
        let mut i: usize = 0;
        while i < counts.len()
            invariant
                i <= counts@.len(),
                json::object_view(object@) == counts_object(counts@.take(i as int)),
            decreases counts@.len() - i,
        {
            proof {
                assert(counts@.take(i + 1).drop_last() =~= counts@.take(i as int));
                assert(counts@.take(i + 1).last() == counts@[i as int]);
            }
            object_insert(&mut object, hex8_string(counts[i].0), Json::unsigned(counts[i].1));
            i = i + 1;
        }
        assert(counts@.take(i as int) =~= counts@);
        let mut fields = no_fields();
        put(&mut fields, "type", Json::text("gcounter"));
        put(&mut fields, "source_node", Json::text(node_id));
        put(&mut fields, "total", Json::unsigned(total));
        put(&mut fields, "node_counts", Json::Object(object));
        put(&mut fields, "updated_at", Json::unsigned(now_ms));
        fields
    }

    /// Convert a last-writer-wins register to document fields, stamped with the
    /// time.
    pub fn lww_register_to_fields(node_id: &str, timestamp: u64, value: &[u8]) -> (r: VecMap<String, Json>)
        requires
            value@.len() <= usize::MAX / 4,
        ensures
            exists|now_ms: u64| json::fields_view(r@) == #[trigger] lww_fields(node_id@, timestamp, value@, now_ms),
    {
        let now: u64 = clock::now_ms();
        Self::lww_register_to_fields_at(node_id, timestamp, value, now)
    }

    /// Convert a last-writer-wins register to document fields at `now_ms`.
    pub fn lww_register_to_fields_at(node_id: &str, timestamp: u64, value: &[u8], now_ms: u64) -> (r: VecMap<String, Json>)
        requires
            value@.len() <= usize::MAX / 4,
        ensures
            json::fields_view(r@) == lww_fields(node_id@, timestamp, value@, now_ms),
    {
        let mut fields = no_fields();
        put(&mut fields, "type", Json::text("lww_register"));
        put(&mut fields, "source_node", Json::text(node_id));
        put(&mut fields, "timestamp", Json::unsigned(timestamp));
        if value.len() == 4 {
            assert(value@.subrange(0, 4) =~= value@);
            let raw: u32 = read_u32(value, 0);
            let told: i64 = if raw < 0x8000_0000 {
                raw as i64
            } else {
                raw as i64 - 0x1_0000_0000
            };
            put(&mut fields, "value_i32", signed_json(told));
        } else if value.len() == 8 {
            assert(value@.subrange(0, 8) =~= value@);
            let raw: u64 = read_u64(value, 0);
            put(&mut fields, "value_i64", signed_json(to_signed(raw)));
        }
        put(&mut fields, "value_hex", Json::Text(hex_encode(value)));
        put(&mut fields, "updated_at", Json::unsigned(now_ms));
        fields
    }

    /// Convert a positive-negative counter to document fields, stamped with the
    /// time.
    pub fn pncounter_to_fields(node_id: &str, entries: &[(u32, u64, u64)], net_value: i64) -> (r: VecMap<String, Json>)
        ensures
            exists|now_ms: u64| json::fields_view(r@) == #[trigger] pncounter_fields(node_id@, entries@, net_value, now_ms),
    {
        let now: u64 = clock::now_ms();
        Self::pncounter_to_fields_at(node_id, entries, net_value, now)
    }

    /// Convert a positive-negative counter to document fields at `now_ms`.
    pub fn pncounter_to_fields_at(node_id: &str, entries: &[(u32, u64, u64)], net_value: i64, now_ms: u64) -> (r: VecMap<
        String,
        Json,
    >)
        ensures
            json::fields_view(r@) == pncounter_fields(node_id@, entries@, net_value, now_ms),
    {
        let mut object: Vec<(String, Json)> = Vec::new();
        let mut i: usize = 0;
        while i < entries.len()
            invariant
                i <= entries@.len(),
                json::object_view(object@) == pn_object(entries@.take(i as int)),
            decreases entries@.len() - i,
        {
            proof {
                assert(entries@.take(i + 1).drop_last() =~= entries@.take(i as int));
                assert(entries@.take(i + 1).last() == entries@[i as int]);
            }
            let entry = object2(
                "decrements",
                Json::unsigned(entries[i].2),
                "increments",
                Json::unsigned(entries[i].1),
            );
            object_insert(&mut object, hex8_string(entries[i].0), entry);
            i = i + 1;
        }
        assert(entries@.take(i as int) =~= entries@);
        let mut fields = no_fields();
        put(&mut fields, "type", Json::text("pncounter"));
        put(&mut fields, "source_node", Json::text(node_id));
        put(&mut fields, "net_value", signed_json(net_value));
        put(&mut fields, "node_entries", Json::Object(object));
        put(&mut fields, "updated_at", Json::unsigned(now_ms));
        fields
    }

    /// Convert a set to document fields, stamped with the time.
    pub fn orset_to_fields(node_id: &str, elements: &[OrSetElement]) -> (r: VecMap<String, Json>)
        requires
            forall|i: int| 0 <= i < elements@.len() ==> (#[trigger] elements@[i]).value@.len() <= usize::MAX / 4,
        ensures
            exists|now_ms: u64|
                json::fields_view(r@) == #[trigger] orset_fields(node_id@, elements_view(elements@), now_ms),
    {
        let now: u64 = clock::now_ms();
        Self::orset_to_fields_at(node_id, elements, now)
    }

    /// Convert a set to document fields at `now_ms`.
    pub fn orset_to_fields_at(node_id: &str, elements: &[OrSetElement], now_ms: u64) -> (r: VecMap<String, Json>)
        requires
            forall|i: int| 0 <= i < elements@.len() ==> (#[trigger] elements@[i]).value@.len() <= usize::MAX / 4,
        ensures
            json::fields_view(r@) == orset_fields(node_id@, elements_view(elements@), now_ms),
    {
        let mut array: Vec<Json> = Vec::new();
        let mut i: usize = 0;
        while i < elements.len()
            invariant
                i <= elements@.len(),
                array@.len() == i,
                forall|j: int| 0 <= j < elements@.len() ==> (#[trigger] elements@[j]).value@.len() <= usize::MAX / 4,
                forall|j: int| 0 <= j < i ==> (#[trigger] array@[j])@ == element_object(elements@[j]@),
            decreases elements@.len() - i,
        {
            let entry = object3(
                "tag_node",
                Json::Text(hex8_string(elements[i].tag_node_id)),
                "tag_seq",
                Json::unsigned(elements[i].tag_seq as u64),
                "value",
                Json::Text(hex_encode(elements[i].value.as_slice())),
            );
            array.push(entry);
            i = i + 1;
        }
        proof {
            json::lemma_array_view(array@);
            assert(json::array_view(array@) =~= elements_view(elements@).map_values(
                |e: ElementView| element_object(e),
            ));
        }
        let mut fields = no_fields();
        put(&mut fields, "type", Json::text("orset"));
        put(&mut fields, "source_node", Json::text(node_id));
        put(&mut fields, "count", Json::unsigned(elements.len() as u64));
        put(&mut fields, "elements", Json::Array(array));
        put(&mut fields, "updated_at", Json::unsigned(now_ms));
        fields
    }
}

/// The count of one entry of a `node_counts` object, where its key is a
/// hexadecimal node ID and its value an unsigned integer.
pub open spec fn count_entry(e: (Seq<char>, JsonView)) -> Option<(u32, u64)> {
    match (text::hex_u32(encode_utf8(e.0)), e.1) {
        (Some(id), JsonView::Number(Number::Unsigned(n))) => Some((id, n)),
        _ => None,
    }
}

/// The counts of a `node_counts` object; other entries are left out.
pub open spec fn kept_counts(entries: Seq<(Seq<char>, JsonView)>) -> Seq<(u32, u64)>
    decreases entries.len(),
{
    if entries.len() == 0 {
        Seq::empty()
    } else {
        match count_entry(entries.last()) {
            Some(c) => kept_counts(entries.drop_last()).push(c),
            None => kept_counts(entries.drop_last()),
        }
    }
}

/// One entry of a `node_entries` object.
pub open spec fn net_entry(e: (Seq<char>, JsonView)) -> Option<(u32, u64, u64)> {
    match (text::hex_u32(encode_utf8(e.0)), e.1) {
        (Some(id), JsonView::Object(o)) => match (json::unsigned_under(o, "increments"@), json::unsigned_under(o, "decrements"@)) {
            (Some(inc), Some(dec)) => Some((id, inc, dec)),
            _ => None,
        },
        _ => None,
    }
}

/// The entries of a `node_entries` object; malformed ones are left out.
pub open spec fn kept_entries(entries: Seq<(Seq<char>, JsonView)>) -> Seq<(u32, u64, u64)>
    decreases entries.len(),
{
    if entries.len() == 0 {
        Seq::empty()
    } else {
        match net_entry(entries.last()) {
            Some(c) => kept_entries(entries.drop_last()).push(c),
            None => kept_entries(entries.drop_last()),
        }
    }
}

/// One element of an `elements` array. The sequence number wraps at 2^32.
pub open spec fn element_of(j: JsonView) -> Option<ElementView> {
    match j {
        JsonView::Object(o) => match (json::text_under(o, "tag_node"@), json::unsigned_under(o, "tag_seq"@), json::text_under(o, "value"@)) {
            (Some(node), Some(seq), Some(value)) => match text::hex_u32(encode_utf8(node)) {
                Some(id) => if text::is_hex(encode_utf8(value)) {
                    Some(
                        ElementView {
                            tag_node_id: id,
                            tag_seq: (seq % 0x1_0000_0000) as u32,
                            value: text::hex_bytes(encode_utf8(value)),
                        },
                    )
                } else {
                    None
                },
                None => None,
            },
            _ => None,
        },
        _ => None,
    }
}

/// The elements of an `elements` array, where all are well-formed.
pub open spec fn elements_of(array: Seq<JsonView>) -> Option<Seq<ElementView>>
    decreases array.len(),
{
    if array.len() == 0 {
        Some(Seq::empty())
    } else {
        match (elements_of(array.drop_last()), element_of(array.last())) {
            (Some(before), Some(e)) => Some(before.push(e)),
            _ => None,
        }
    }
}

/// The entries of a grow-only counter on the wire.
pub open spec fn counts_bytes(counts: Seq<(u32, u64)>) -> Seq<u8>
    decreases counts.len(),
{
    if counts.len() == 0 {
        Seq::empty()
    } else {
        counts_bytes(counts.drop_last()) + (bytes::le_bytes(counts.last().0 as nat, 4) + bytes::le_bytes(
            counts.last().1 as nat,
            8,
        ))
    }
}

/// The entries of a positive-negative counter on the wire.
pub open spec fn entries_bytes(entries: Seq<(u32, u64, u64)>) -> Seq<u8>
    decreases entries.len(),
{
    if entries.len() == 0 {
        Seq::empty()
    } else {
        entries_bytes(entries.drop_last()) + (bytes::le_bytes(entries.last().0 as nat, 4) + bytes::le_bytes(
            entries.last().1 as nat,
            8,
        ) + bytes::le_bytes(entries.last().2 as nat, 8))
    }
}

/// One element of a set on the wire; the length of its value wraps at 65536.
pub open spec fn element_bytes(e: ElementView) -> Seq<u8> {
    bytes::le_bytes(e.tag_node_id as nat, 4) + bytes::le_bytes(e.tag_seq as nat, 4) + bytes::le_bytes(
        (e.value.len() % 65536) as nat,
        2,
    ) + e.value
}

/// The elements of a set on the wire.
pub open spec fn elements_bytes(elements: Seq<ElementView>) -> Seq<u8>
    decreases elements.len(),
{
    if elements.len() == 0 {
        Seq::empty()
    } else {
        elements_bytes(elements.drop_last()) + element_bytes(elements.last())
    }
}

/// What stands before the entries: the node ID 0 of a full node and the number of
/// entries, which wraps at 65536.
pub open spec fn crdt_header(count: nat) -> Seq<u8> {
    bytes::le_bytes(0, 4) + bytes::le_bytes((count % 65536) as nat, 2)
}

/// The wire format of the counter in a document.
pub open spec fn gcounter_of_doc(fields: Map<Seq<char>, JsonView>) -> Option<Seq<u8>> {
    if fields.contains_key("node_counts"@) && fields["node_counts"@] is Object {
        let counts = kept_counts(fields["node_counts"@]->Object_0);
        Some(crdt_header(counts.len()) + counts_bytes(counts))
    } else {
        None
    }
}

/// The wire format of the positive-negative counter in a document.
pub open spec fn pncounter_of_doc(fields: Map<Seq<char>, JsonView>) -> Option<Seq<u8>> {
    if fields.contains_key("node_entries"@) && fields["node_entries"@] is Object {
        let entries = kept_entries(fields["node_entries"@]->Object_0);
        Some(crdt_header(entries.len()) + entries_bytes(entries))
    } else {
        None
    }
}

/// The wire format of the set in a document.
pub open spec fn orset_of_doc(fields: Map<Seq<char>, JsonView>) -> Option<Seq<u8>> {
    if fields.contains_key("elements"@) && fields["elements"@] is Array {
        match elements_of(fields["elements"@]->Array_0) {
            Some(elements) => Some(crdt_header(elements.len()) + elements_bytes(elements)),
            None => None,
        }
    } else {
        None
    }
}

/// Optional bytes by their view.
pub open spec fn bytes_view(b: Option<Vec<u8>>) -> Option<Seq<u8>> {
    match b {
        Some(v) => Some(v@),
        None => None,
    }
}

fn field<'a>(fields: &'a VecMap<String, Json>, key: &str) -> (r: Option<&'a Json>)
    ensures
        match r {
            Some(j) => json::fields_view(fields@).contains_key(key@) && json::fields_view(fields@)[key@] == j@,
            None => !json::fields_view(fields@).contains_key(key@),
        },
{
    let name = key.to_owned();
    fields.get(&name)
}

fn net_of(entry: &(String, Json)) -> (r: Option<(u32, u64, u64)>)
    ensures
        r == net_entry((entry.0@, entry.1@)),
{
    let id: u32 = match parse_hex_u32(entry.0.as_str()) {
        Some(id) => id,
        None => return None,
    };
    match &entry.1 {
        Json::Object(o) => {
            let inc: u64 = match unsigned_field(o, "increments") {
                Some(n) => n,
                None => return None,
            };
            match unsigned_field(o, "decrements") {
                Some(dec) => Some((id, inc, dec)),
                None => None,
            }
        },
        _ => None,
    }
}

fn parse_element(j: &Json) -> (r: Option<OrSetElement>)
    ensures
        match r {
            Some(e) => element_of(j@) == Some(e@),
            None => element_of(j@) is None,
        },
{
    match j {
        Json::Object(o) => {
            let node = match text_field(o, "tag_node") {
                Some(t) => t,
                None => return None,
            };
            let tag_node_id: u32 = match parse_hex_u32(node) {
                Some(id) => id,
                None => return None,
            };
            let seq: u64 = match unsigned_field(o, "tag_seq") {
                Some(n) => n,
                None => return None,
            };
            let value_hex = match text_field(o, "value") {
                Some(t) => t,
                None => return None,
            };
            match hex_decode(value_hex) {
                Some(value) => Some(OrSetElement { tag_node_id, tag_seq: (seq % 0x1_0000_0000) as u32, value }),
                None => None,
            }
        },
        _ => None,
    }
}

fn push_header(buf: &mut Vec<u8>, count: usize)
    ensures
        final(buf)@ == old(buf)@ + crdt_header(count as nat),
{
    push_le(buf, 0, 4);
    push_le(buf, (count % 65536) as u64, 2);
    assert(buf@ =~= old(buf)@ + crdt_header(count as nat));
}

impl LiteDocumentBridge {
    /// Encode a document as a grow-only counter for lightweight nodes
    pub fn encode_gcounter_from_doc(doc: &VecMap<String, Json>) -> (r: Option<Vec<u8>>)
        ensures
            bytes_view(r) == gcounter_of_doc(json::fields_view(doc@)),
    {
        let object = match field(doc, "node_counts") {
            Some(Json::Object(o)) => o,
            _ => return None,
        };
        let ghost entries = json::object_view(object@);
        let mut counts: Vec<(u32, u64)> = Vec::new();
        let mut i: usize = 0;
        proof {
            json::lemma_object_view(object@);
            assert(entries.take(0) =~= Seq::empty());
        }
        while i < object.len()
            invariant
                i <= object@.len(),
                entries.len() == object@.len(),
                forall|j: int| 0 <= j < object@.len() ==> (#[trigger] entries[j]) == (object@[j].0@, object@[j].1@),
                counts@ == kept_counts(entries.take(i as int)),
            decreases object@.len() - i,
        {
            proof {
                assert(entries.take(i + 1).drop_last() =~= entries.take(i as int));
                assert(entries.take(i + 1).last() == entries[i as int]);
            }
            if let Some(id) = parse_hex_u32(object[i].0.as_str()) {
                if let Some(n) = object[i].1.as_u64() {
                    counts.push((id, n));
                }
            }
            i = i + 1;
        }
        assert(entries.take(i as int) =~= entries);
        let mut buf: Vec<u8> = Vec::new();
        push_header(&mut buf, counts.len());
        let mut k: usize = 0;
        proof {
            assert(counts@.take(0) =~= Seq::empty());
            assert(buf@ =~= crdt_header(counts@.len()) + counts_bytes(counts@.take(0)));
        }
        while k < counts.len()
            invariant
                k <= counts@.len(),
                buf@ == crdt_header(counts@.len()) + counts_bytes(counts@.take(k as int)),
            decreases counts@.len() - k,
        {
            proof {
                assert(counts@.take(k + 1).drop_last() =~= counts@.take(k as int));
                assert(counts@.take(k + 1).last() == counts@[k as int]);
            }
            let ghost before = buf@;
            push_le(&mut buf, counts[k].0 as u64, 4);
            push_le(&mut buf, counts[k].1, 8);
            assert(buf@ =~= crdt_header(counts@.len()) + counts_bytes(counts@.take(k + 1)));
            k = k + 1;
        }
        assert(counts@.take(k as int) =~= counts@);
        Some(buf)
    }

    /// Encode a document as a positive-negative counter for lightweight nodes
    pub fn encode_pncounter_from_doc(doc: &VecMap<String, Json>) -> (r: Option<Vec<u8>>)
        ensures
            bytes_view(r) == pncounter_of_doc(json::fields_view(doc@)),
    {
        let object = match field(doc, "node_entries") {
            Some(Json::Object(o)) => o,
            _ => return None,
        };
        let ghost entries = json::object_view(object@);
        let mut kept: Vec<(u32, u64, u64)> = Vec::new();
        let mut i: usize = 0;
        proof {
            json::lemma_object_view(object@);
            assert(entries.take(0) =~= Seq::empty());
        }
        while i < object.len()
            invariant
                i <= object@.len(),
                entries.len() == object@.len(),
                forall|j: int| 0 <= j < object@.len() ==> (#[trigger] entries[j]) == (object@[j].0@, object@[j].1@),
                kept@ == kept_entries(entries.take(i as int)),
            decreases object@.len() - i,
        {
            proof {
                assert(entries.take(i + 1).drop_last() =~= entries.take(i as int));
                assert(entries.take(i + 1).last() == entries[i as int]);
            }
            if let Some(e) = net_of(&object[i]) {
                kept.push(e);
            }
            i = i + 1;
        }
        assert(entries.take(i as int) =~= entries);
        let mut buf: Vec<u8> = Vec::new();
        push_header(&mut buf, kept.len());
        let mut k: usize = 0;
        proof {
            assert(kept@.take(0) =~= Seq::empty());
            assert(buf@ =~= crdt_header(kept@.len()) + entries_bytes(kept@.take(0)));
        }
        while k < kept.len()
            invariant
                k <= kept@.len(),
                buf@ == crdt_header(kept@.len()) + entries_bytes(kept@.take(k as int)),
            decreases kept@.len() - k,
        {
            proof {
                assert(kept@.take(k + 1).drop_last() =~= kept@.take(k as int));
                assert(kept@.take(k + 1).last() == kept@[k as int]);
            }
            push_le(&mut buf, kept[k].0 as u64, 4);
            push_le(&mut buf, kept[k].1, 8);
            push_le(&mut buf, kept[k].2, 8);
            assert(buf@ =~= crdt_header(kept@.len()) + entries_bytes(kept@.take(k + 1)));
            k = k + 1;
        }
        assert(kept@.take(k as int) =~= kept@);
        Some(buf)
    }

    /// Encode a document as a set for lightweight nodes
    pub fn encode_orset_from_doc(doc: &VecMap<String, Json>) -> (r: Option<Vec<u8>>)
        ensures
            bytes_view(r) == orset_of_doc(json::fields_view(doc@)),
    {
        let array = match field(doc, "elements") {
            Some(Json::Array(a)) => a,
            _ => return None,
        };
        let ghost views = json::array_view(array@);
        let mut elements: Vec<OrSetElement> = Vec::new();
        let mut i: usize = 0;
        proof {
            json::lemma_array_view(array@);
            assert(views.take(0) =~= Seq::empty());
            assert(elements_view(elements@) =~= Seq::<ElementView>::empty());
        }
        while i < array.len()
            invariant
                i <= array@.len(),
                views.len() == array@.len(),
                views == json::array_view(array@),
                forall|j: int| 0 <= j < array@.len() ==> (#[trigger] views[j]) == array@[j]@,
                elements_of(views.take(i as int)) == Some(elements_view(elements@)),
                json::fields_view(doc@).contains_key("elements"@),
                json::fields_view(doc@)["elements"@] == JsonView::Array(views),
            decreases array@.len() - i,
        {
            proof {
                assert(views.take(i + 1).drop_last() =~= views.take(i as int));
                assert(views.take(i + 1).last() == views[i as int]);
            }
            let ghost before = elements_view(elements@);
            match parse_element(&array[i]) {
                Some(e) => {
                    elements.push(e);
                    assert(elements_view(elements@) =~= before.push(e@));
                },
                None => {
                    proof {
                        lemma_elements_prefix(views, i + 1);
                    }
                    return None;
                },
            }
            i = i + 1;
        }
        assert(views.take(i as int) =~= views);
        let mut buf: Vec<u8> = Vec::new();
        push_header(&mut buf, elements.len());
        let mut k: usize = 0;
        let ghost all = elements_view(elements@);
        proof {
            assert(all.take(0) =~= Seq::empty());
            assert(buf@ =~= crdt_header(all.len()) + elements_bytes(all.take(0)));
        }
        while k < elements.len()
            invariant
                k <= elements@.len(),
                all == elements_view(elements@),
                buf@ == crdt_header(all.len()) + elements_bytes(all.take(k as int)),
            decreases elements@.len() - k,
        {
            proof {
                assert(all.take(k + 1).drop_last() =~= all.take(k as int));
                assert(all.take(k + 1).last() == elements@[k as int]@);
            }
            push_le(&mut buf, elements[k].tag_node_id as u64, 4);
            push_le(&mut buf, elements[k].tag_seq as u64, 4);
            push_le(&mut buf, (elements[k].value.len() % 65536) as u64, 2);
            push_bytes(&mut buf, elements[k].value.as_slice());
            assert(buf@ =~= crdt_header(all.len()) + elements_bytes(all.take(k + 1)));
            k = k + 1;
        }
        assert(all.take(k as int) =~= all);
        Some(buf)
    }

    /// Encode the JSON text of a document as the payload of a last-writer-wins
    /// register that `local_node_id` wrote at `timestamp`.
    pub fn encode_lww_from_doc(json: &[u8], timestamp: u64, local_node_id: u32) -> (r: Vec<u8>)
        ensures
            r@ == lww_bytes(json@, timestamp, local_node_id),
    {
        let mut buf: Vec<u8> = Vec::new();
        push_le(&mut buf, timestamp, 8);
        push_le(&mut buf, local_node_id as u64, 4);
        push_bytes(&mut buf, json);
        assert(buf@ =~= lww_bytes(json@, timestamp, local_node_id));
        buf
    }
}

/// The wire format of a last-writer-wins register.
pub open spec fn lww_bytes(value: Seq<u8>, timestamp: u64, node_id: u32) -> Seq<u8> {
    bytes::le_bytes(timestamp as nat, 8) + bytes::le_bytes(node_id as nat, 4) + value
}

proof fn lemma_elements_prefix(array: Seq<JsonView>, k: int)
    requires
        0 <= k <= array.len(),
        elements_of(array.take(k)) is None,
    ensures
        elements_of(array) is None,
    decreases array.len(),
{
    if k < array.len() {
        assert(array.drop_last().take(k) =~= array.take(k));
        lemma_elements_prefix(array.drop_last(), k);
    } else {
        assert(array.take(k) =~= array);
    }
}

/// What a document is sent as, or what failed. The fields decide the kind; a
/// document without the fields of another kind is a register with its JSON text
/// as the value.
pub open spec fn document_payload(
    fields: Map<Seq<char>, JsonView>,
    lww: Option<(Seq<u8>, u64)>,
    local_node_id: u32,
) -> Result<(CrdtType, Seq<u8>), Seq<char>> {
    if fields.contains_key("node_entries"@) {
        match pncounter_of_doc(fields) {
            Some(b) => Ok((CrdtType::PnCounter, b)),
            None => Err("Failed to encode PnCounter"@),
        }
    } else if fields.contains_key("elements"@) {
        match orset_of_doc(fields) {
            Some(b) => Ok((CrdtType::OrSet, b)),
            None => Err("Failed to encode OrSet"@),
        }
    } else if fields.contains_key("node_counts"@) {
        match gcounter_of_doc(fields) {
            Some(b) => Ok((CrdtType::GCounter, b)),
            None => Err("Failed to encode GCounter"@),
        }
    } else {
        match lww {
            Some(w) => Ok((CrdtType::LwwRegister, lww_bytes(w.0, w.1, local_node_id))),
            None => Err("Failed to encode LWW"@),
        }
    }
}

/// The message that brings data of a kind to lightweight nodes.
pub open spec fn document_message(t: TransportView, payload: (CrdtType, Seq<u8>)) -> MessageView {
    MessageView {
        msg_type: MessageType::Data,
        flags: 0,
        node_id: t.local_node_id,
        seq_num: (t.seq_num + 1) as u32,
        payload: seq![payload.0.code()] + payload.1,
    }
}

/// A JSON text and its timestamp by their views.
pub open spec fn lww_view(lww: Option<(Vec<u8>, u64)>) -> Option<(Seq<u8>, u64)> {
    match lww {
        Some(w) => Some((w.0@, w.1)),
        None => None,
    }
}

impl LiteDocumentBridge {
    /// The message that brings a document to lightweight nodes; none where its
    /// collection is not sent, where the bridge only receives, and where the document,
    /// which is `age_secs` old, is over the age limit. `lww` is the document's JSON text
    /// with the time, where they could be had. The message is to be broadcast and sent
    /// to every connected peer.
    pub fn broadcast_document(
        &mut self,
        collection: &str,
        fields: &VecMap<String, Json>,
        age_secs: u64,
        lww: Option<(Vec<u8>, u64)>,
    ) -> (r: Result<Option<LiteMessage>, TransportError>)
        requires
            old(self).sends(collection@, age_secs) ==> old(self).transport@.seq_num < u32::MAX,
        ensures
            ({
                let t = old(self).transport@;
                let payload = document_payload(json::fields_view(fields@), lww_view(lww), t.local_node_id);
                if !old(self).sends(collection@, age_secs) {
                    &&& r matches Ok(m) && m is None
                    &&& *final(self) == *old(self)
                } else if payload is Err {
                    &&& r matches Err(e) && e@ == TransportErrorView::Other(payload->Err_0)
                    &&& *final(self) == *old(self)
                } else {
                    &&& r matches Ok(m) && m matches Some(msg) && msg@ == (MessageView {
                        msg_type: MessageType::Data,
                        flags: 0,
                        node_id: t.local_node_id,
                        seq_num: (t.seq_num + 1) as u32,
                        payload: seq![payload->Ok_0.0.code()] + payload->Ok_0.1,
                    })
                    &&& r->Ok_0->Some_0@ == document_message(t, payload->Ok_0)
                    &&& final(self).transport@ == (TransportView { seq_num: (t.seq_num + 1) as u32, ..t })
                    &&& final(self).transport.settings() == old(self).transport.settings()
                    &&& final(self).config == old(self).config
                }
            }),
    {
        if !self.sends_outbound(collection) {
            return Ok(None);
        }
        if matches!(self.config.outbound_sync_mode, LiteSyncMode::ReceiveOnly) {
            return Ok(None);
        }
        if self.config.max_document_age_secs > 0 && age_secs > self.config.max_document_age_secs {
            return Ok(None);
        }
        let (crdt_type, payload) = if field(fields, "node_entries").is_some() {
            match Self::encode_pncounter_from_doc(fields) {
                Some(b) => (CrdtType::PnCounter, b),
                None => return Err(TransportError::Other("Failed to encode PnCounter".to_owned())),
            }
        } else if field(fields, "elements").is_some() {
            match Self::encode_orset_from_doc(fields) {
                Some(b) => (CrdtType::OrSet, b),
                None => return Err(TransportError::Other("Failed to encode OrSet".to_owned())),
            }
        } else if field(fields, "node_counts").is_some() {
            match Self::encode_gcounter_from_doc(fields) {
                Some(b) => (CrdtType::GCounter, b),
                None => return Err(TransportError::Other("Failed to encode GCounter".to_owned())),
            }
        } else {
            match lww {
                Some(w) => (
                    CrdtType::LwwRegister,
                    Self::encode_lww_from_doc(w.0.as_slice(), w.1, self.transport.local_id()),
                ),
                None => return Err(TransportError::Other("Failed to encode LWW".to_owned())),
            }
        };
        let seq: u32 = self.transport.next_seq();
        Ok(Some(LiteMessage::data(self.transport.local_id(), seq, crdt_type, payload.as_slice())))
    }
}

proof fn lemma_sub_of_prefix(a: Seq<u8>, b: Seq<u8>, i: int, j: int)
    requires
        0 <= i <= j <= a.len(),
    ensures
        (a + b).subrange(i, j) == a.subrange(i, j),
{
    assert((a + b).subrange(i, j) =~= a.subrange(i, j));
}

proof fn lemma_sub_of_suffix(a: Seq<u8>, b: Seq<u8>, i: int, j: int)
    requires
        0 <= i <= j <= b.len(),
    ensures
        (a + b).subrange(a.len() + i, a.len() + j) == b.subrange(i, j),
{
    assert((a + b).subrange(a.len() + i, a.len() + j) =~= b.subrange(i, j));
}

proof fn lemma_header(count: nat, rest: Seq<u8>)
    requires
        count < 65536,
    ensures
        crdt_header(count).len() == 6,
        u32_at(crdt_header(count) + rest, 0) == 0,
        entry_count(crdt_header(count) + rest) == count,
{
    bytes::lemma_le_bytes_len(0, 4);
    bytes::lemma_le_bytes_len(count, 2);
    bytes::lemma_pow256_values();
    bytes::lemma_le_value_of_bytes(0, 4);
    bytes::lemma_le_value_of_bytes(count, 2);
    let d = crdt_header(count) + rest;
    assert(d.subrange(0, 4) =~= bytes::le_bytes(0, 4));
    assert(d.subrange(4, 6) =~= bytes::le_bytes(count, 2));
}

/// The integer of `width` bytes in `d` at `p` is `x`.
spec fn holds_at(d: Seq<u8>, p: int, x: nat, width: nat) -> bool {
    0 <= p && p + width <= d.len() && d.subrange(p, p + width) == bytes::le_bytes(x, width)
}

proof fn lemma_holds_shift(a: Seq<u8>, d: Seq<u8>, p: int, x: nat, width: nat)
    requires
        holds_at(d, p, x, width),
    ensures
        holds_at(a + d, a.len() + p, x, width),
{
    lemma_sub_of_suffix(a, d, p, p + width);
}

proof fn lemma_holds_extend(d: Seq<u8>, b: Seq<u8>, p: int, x: nat, width: nat)
    requires
        holds_at(d, p, x, width),
    ensures
        holds_at(d + b, p, x, width),
{
    lemma_sub_of_prefix(d, b, p, p + width);
}

proof fn lemma_count_at(counts: Seq<(u32, u64)>, k: int)
    requires
        0 <= k < counts.len(),
    ensures
        counts_bytes(counts).len() == 12 * counts.len(),
        holds_at(counts_bytes(counts), 12 * k, counts[k].0 as nat, 4),
        holds_at(counts_bytes(counts), 12 * k + 4, counts[k].1 as nat, 8),
    decreases counts.len(),
{
    let n = counts.len() - 1;
    let head = counts_bytes(counts.drop_last());
    let a = bytes::le_bytes(counts.last().0 as nat, 4);
    let b = bytes::le_bytes(counts.last().1 as nat, 8);
    bytes::lemma_le_bytes_len(counts.last().0 as nat, 4);
    bytes::lemma_le_bytes_len(counts.last().1 as nat, 8);
    lemma_counts_len(counts.drop_last());
    if k < n {
        lemma_count_at(counts.drop_last(), k);
        lemma_holds_extend(head, a + b, 12 * k, counts[k].0 as nat, 4);
        lemma_holds_extend(head, a + b, 12 * k + 4, counts[k].1 as nat, 8);
    } else {
        assert((a + b).subrange(0, 4) =~= a);
        assert((a + b).subrange(4, 12) =~= b);
        lemma_holds_shift(head, a + b, 0, counts[k].0 as nat, 4);
        lemma_holds_shift(head, a + b, 4, counts[k].1 as nat, 8);
    }
}

proof fn lemma_counts_len(counts: Seq<(u32, u64)>)
    ensures
        counts_bytes(counts).len() == 12 * counts.len(),
    decreases counts.len(),
{
    if counts.len() > 0 {
        lemma_counts_len(counts.drop_last());
        bytes::lemma_le_bytes_len(counts.last().0 as nat, 4);
        bytes::lemma_le_bytes_len(counts.last().1 as nat, 8);
    }
}

proof fn lemma_read_back(d: Seq<u8>, p: int, x: u32)
    requires
        holds_at(d, p, x as nat, 4),
    ensures
        u32_at(d, p) == x,
{
    bytes::lemma_pow256_values();
    bytes::lemma_le_value_of_bytes(x as nat, 4);
}

proof fn lemma_read_back8(d: Seq<u8>, p: int, x: u64)
    requires
        holds_at(d, p, x as nat, 8),
    ensures
        u64_at(d, p) == x,
{
    bytes::lemma_pow256_values();
    bytes::lemma_le_value_of_bytes(x as nat, 8);
}

/// Decoding a grow-only counter that was put on the wire gives its counts back.
pub proof fn law_gcounter_wire(counts: Seq<(u32, u64)>)
    requires
        counts.len() < 65536,
    ensures
        is_gcounter(crdt_header(counts.len()) + counts_bytes(counts)),
        gcounter_entries(
            crdt_header(counts.len()) + counts_bytes(counts),
            entry_count(crdt_header(counts.len()) + counts_bytes(counts)),
        ) == counts,
{
    let h = crdt_header(counts.len());
    let d = h + counts_bytes(counts);
    lemma_header(counts.len(), counts_bytes(counts));
    lemma_counts_len(counts);
    assert forall|k: int| 0 <= k < counts.len() implies gcounter_entries(d, counts.len())[k] == counts[k] by {
        lemma_count_at(counts, k);
        lemma_holds_shift(h, counts_bytes(counts), 12 * k, counts[k].0 as nat, 4);
        lemma_holds_shift(h, counts_bytes(counts), 12 * k + 4, counts[k].1 as nat, 8);
        lemma_read_back(d, 6 + 12 * k, counts[k].0);
        lemma_read_back8(d, 10 + 12 * k, counts[k].1);
    }
    assert(gcounter_entries(d, counts.len()) =~= counts);
}

proof fn lemma_entries_len(entries: Seq<(u32, u64, u64)>)
    ensures
        entries_bytes(entries).len() == 20 * entries.len(),
    decreases entries.len(),
{
    if entries.len() > 0 {
        lemma_entries_len(entries.drop_last());
        bytes::lemma_le_bytes_len(entries.last().0 as nat, 4);
        bytes::lemma_le_bytes_len(entries.last().1 as nat, 8);
        bytes::lemma_le_bytes_len(entries.last().2 as nat, 8);
    }
}

proof fn lemma_entry_bytes_at(entries: Seq<(u32, u64, u64)>, k: int)
    requires
        0 <= k < entries.len(),
    ensures
        holds_at(entries_bytes(entries), 20 * k, entries[k].0 as nat, 4),
        holds_at(entries_bytes(entries), 20 * k + 4, entries[k].1 as nat, 8),
        holds_at(entries_bytes(entries), 20 * k + 12, entries[k].2 as nat, 8),
    decreases entries.len(),
{
    let n = entries.len() - 1;
    let head = entries_bytes(entries.drop_last());
    let a = bytes::le_bytes(entries.last().0 as nat, 4);
    let b = bytes::le_bytes(entries.last().1 as nat, 8);
    let c = bytes::le_bytes(entries.last().2 as nat, 8);
    bytes::lemma_le_bytes_len(entries.last().0 as nat, 4);
    bytes::lemma_le_bytes_len(entries.last().1 as nat, 8);
    bytes::lemma_le_bytes_len(entries.last().2 as nat, 8);
    lemma_entries_len(entries.drop_last());
    if k < n {
        lemma_entry_bytes_at(entries.drop_last(), k);
        lemma_holds_extend(head, a + b + c, 20 * k, entries[k].0 as nat, 4);
        lemma_holds_extend(head, a + b + c, 20 * k + 4, entries[k].1 as nat, 8);
        lemma_holds_extend(head, a + b + c, 20 * k + 12, entries[k].2 as nat, 8);
    } else {
        assert((a + b + c).subrange(0, 4) =~= a);
        assert((a + b + c).subrange(4, 12) =~= b);
        assert((a + b + c).subrange(12, 20) =~= c);
        lemma_holds_shift(head, a + b + c, 0, entries[k].0 as nat, 4);
        lemma_holds_shift(head, a + b + c, 4, entries[k].1 as nat, 8);
        lemma_holds_shift(head, a + b + c, 12, entries[k].2 as nat, 8);
    }
}

/// Decoding a positive-negative counter that was put on the wire gives its entries
/// back.
pub proof fn law_pncounter_wire(entries: Seq<(u32, u64, u64)>)
    requires
        entries.len() < 65536,
    ensures
        is_pncounter(crdt_header(entries.len()) + entries_bytes(entries)),
        pncounter_entries(
            crdt_header(entries.len()) + entries_bytes(entries),
            entry_count(crdt_header(entries.len()) + entries_bytes(entries)),
        ) == entries,
{
    let h = crdt_header(entries.len());
    let d = h + entries_bytes(entries);
    lemma_header(entries.len(), entries_bytes(entries));
    lemma_entries_len(entries);
    assert forall|k: int| 0 <= k < entries.len() implies pncounter_entries(d, entries.len())[k] == entries[k] by {
        lemma_entry_bytes_at(entries, k);
        lemma_holds_shift(h, entries_bytes(entries), 20 * k, entries[k].0 as nat, 4);
        lemma_holds_shift(h, entries_bytes(entries), 20 * k + 4, entries[k].1 as nat, 8);
        lemma_holds_shift(h, entries_bytes(entries), 20 * k + 12, entries[k].2 as nat, 8);
        lemma_read_back(d, 6 + 20 * k, entries[k].0);
        lemma_read_back8(d, 10 + 20 * k, entries[k].1);
        lemma_read_back8(d, 18 + 20 * k, entries[k].2);
    }
    assert(pncounter_entries(d, entries.len()) =~= entries);
}

/// Decoding a register that was put on the wire gives its parts back.
pub proof fn law_lww_wire(value: Seq<u8>, timestamp: u64, node_id: u32)
    ensures
        lww_bytes(value, timestamp, node_id).len() == 12 + value.len(),
        u64_at(lww_bytes(value, timestamp, node_id), 0) == timestamp,
        u32_at(lww_bytes(value, timestamp, node_id), 8) == node_id,
        lww_bytes(value, timestamp, node_id).subrange(12, 12 + value.len() as int) == value,
{
    let d = lww_bytes(value, timestamp, node_id);
    bytes::lemma_le_bytes_len(timestamp as nat, 8);
    bytes::lemma_le_bytes_len(node_id as nat, 4);
    assert(d.subrange(0, 8) =~= bytes::le_bytes(timestamp as nat, 8));
    assert(d.subrange(8, 12) =~= bytes::le_bytes(node_id as nat, 4));
    assert(d.subrange(12, 12 + value.len() as int) =~= value);
    lemma_read_back8(d, 0, timestamp);
    lemma_read_back(d, 8, node_id);
}

proof fn lemma_elements_head(elements: Seq<ElementView>)
    requires
        elements.len() > 0,
    ensures
        elements_bytes(elements) == element_bytes(elements[0]) + elements_bytes(elements.skip(1)),
    decreases elements.len(),
{
    let front = elements.drop_last();
    if front.len() == 0 {
        assert(elements.skip(1) =~= Seq::empty());
        assert(elements_bytes(front) =~= Seq::empty());
        assert(elements_bytes(elements) =~= element_bytes(elements[0]) + elements_bytes(elements.skip(1)));
    } else {
        lemma_elements_head(front);
        assert(front.skip(1) =~= elements.skip(1).drop_last());
        assert(elements.skip(1).last() == elements.last());
        assert(elements_bytes(elements) =~= element_bytes(elements[0]) + (elements_bytes(front.skip(1)) + element_bytes(
            elements.last(),
        )));
    }
}

proof fn lemma_element_fields(e: ElementView, rest: Seq<u8>, a: Seq<u8>)
    requires
        e.value.len() < 65536,
    ensures
        ({
            let d = a + (element_bytes(e) + rest);
            let p = a.len() as int;
            let n = e.value.len() as int;
            &&& element_bytes(e).len() == 10 + n
            &&& u32_at(d, p) == e.tag_node_id
            &&& u32_at(d, p + 4) == e.tag_seq
            &&& bytes::le_value(d.subrange(p + 8, p + 10)) == n
            &&& d.subrange(p + 10, p + 10 + n) == e.value
        }),
{
    let d = a + (element_bytes(e) + rest);
    let p = a.len() as int;
    let n = e.value.len();
    bytes::lemma_le_bytes_len(e.tag_node_id as nat, 4);
    bytes::lemma_le_bytes_len(e.tag_seq as nat, 4);
    bytes::lemma_le_bytes_len(n, 2);
    bytes::lemma_pow256_values();
    bytes::lemma_le_value_of_bytes(n, 2);
    let b = element_bytes(e);
    assert(b.subrange(0, 4) =~= bytes::le_bytes(e.tag_node_id as nat, 4));
    assert(b.subrange(4, 8) =~= bytes::le_bytes(e.tag_seq as nat, 4));
    assert(b.subrange(8, 10) =~= bytes::le_bytes(n, 2));
    assert(b.subrange(10, 10 + n as int) =~= e.value);
    lemma_sub_of_prefix(b, rest, 0, 4);
    lemma_sub_of_prefix(b, rest, 4, 8);
    lemma_sub_of_prefix(b, rest, 8, 10);
    lemma_sub_of_prefix(b, rest, 10, 10 + n as int);
    lemma_sub_of_suffix(a, b + rest, 0, 4);
    lemma_sub_of_suffix(a, b + rest, 4, 8);
    lemma_sub_of_suffix(a, b + rest, 8, 10);
    lemma_sub_of_suffix(a, b + rest, 10, 10 + n as int);
    lemma_read_back(d, p, e.tag_node_id);
    lemma_read_back(d, p + 4, e.tag_seq);
}

proof fn lemma_parse_elements(a: Seq<u8>, elements: Seq<ElementView>)
    requires
        forall|i: int| 0 <= i < elements.len() ==> (#[trigger] elements[i]).value.len() < 65536,
    ensures
        orset_elements(a + elements_bytes(elements), a.len() as int, elements.len()) == Some(elements),
    decreases elements.len(),
{
    if elements.len() > 0 {
        let e = elements[0];
        let rest = elements.skip(1);
        lemma_elements_head(elements);
        let b = element_bytes(e);
        let d = a + elements_bytes(elements);
        lemma_element_fields(e, elements_bytes(rest), a);
        assert(d =~= (a + b) + elements_bytes(rest));
        lemma_parse_elements(a + b, rest);
        assert(seq![e] + rest =~= elements);
    }
}

proof fn lemma_short_elements(a: Seq<u8>, elements: Seq<ElementView>, k: int)
    requires
        forall|i: int| 0 <= i < elements.len() ==> (#[trigger] elements[i]).value.len() < 65536,
        a.len() <= k < a.len() + elements_bytes(elements).len(),
    ensures
        orset_elements((a + elements_bytes(elements)).take(k), a.len() as int, elements.len()) is None,
    decreases elements.len(),
{
    if elements.len() > 0 {
        let e = elements[0];
        let rest = elements.skip(1);
        lemma_elements_head(elements);
        let b = element_bytes(e);
        let tail = elements_bytes(rest);
        let p = a.len() as int;
        let d = (a + elements_bytes(elements)).take(k);
        lemma_element_fields(e, tail, a);
        if k < p + b.len() {
            if k >= p + 10 {
                let whole = a + (b + tail);
                assert(d.subrange(p + 8, p + 10) =~= whole.subrange(p + 8, p + 10));
            }
        } else {
            let short = tail.take(k - p - b.len());
            lemma_element_fields(e, short, a);
            assert(d =~= a + (b + short));
            lemma_short_elements(a + b, rest, k);
            assert(((a + b) + tail).take(k) =~= d);
        }
    }
}

/// A set that was cut short on the wire is refused: no strict prefix of it decodes.
pub proof fn law_short_orset_refused(elements: Seq<ElementView>, k: int)
    requires
        elements.len() < 65536,
        forall|i: int| 0 <= i < elements.len() ==> (#[trigger] elements[i]).value.len() < 65536,
        0 <= k < (crdt_header(elements.len()) + elements_bytes(elements)).len(),
    ensures
        parse_orset((crdt_header(elements.len()) + elements_bytes(elements)).take(k)) is None,
{
    let header = crdt_header(elements.len());
    let all = elements_bytes(elements);
    lemma_header(elements.len(), all);
    if k >= 6 {
        let d = (header + all).take(k);
        lemma_header(elements.len(), all.take(k - 6));
        assert(d =~= header + all.take(k - 6));
        lemma_short_elements(header, elements, k);
    }
}

/// Decoding a set that was put on the wire gives its elements back.
pub proof fn law_orset_wire(elements: Seq<ElementView>)
    requires
        elements.len() < 65536,
        forall|i: int| 0 <= i < elements.len() ==> (#[trigger] elements[i]).value.len() < 65536,
    ensures
        parse_orset(crdt_header(elements.len()) + elements_bytes(elements)) == Some((0u32, elements)),
{
    lemma_header(elements.len(), elements_bytes(elements));
    lemma_parse_elements(crdt_header(elements.len()), elements);
}

proof fn lemma_element_object(e: ElementView)
    ensures
        element_of(element_object(e)) == Some(e),
{
    let o = element_object(e)->Object_0;
    reveal_strlit("tag_node");
    reveal_strlit("tag_seq");
    reveal_strlit("value");
    assert("tag_node"@.len() == 8 && "tag_seq"@.len() == 7 && "value"@.len() == 5);
    let o1 = o.skip(1);
    let o2 = o1.skip(1);
    assert(o1[0] == o[1]);
    assert(o2[0] == o[2]);
    assert(json::lookup(o, "tag_node"@) == Some(o[0].1));
    assert(json::lookup(o1, "tag_seq"@) == Some(o[1].1));
    assert(json::lookup(o, "tag_seq"@) == Some(o[1].1));
    assert(json::lookup(o2, "value"@) == Some(o[2].1));
    assert(json::lookup(o1, "value"@) == Some(o[2].1));
    assert(json::lookup(o, "value"@) == Some(o[2].1));
    text::law_hex8_roundtrip(e.tag_node_id);
    text::law_hex_roundtrip(e.value);
}

proof fn lemma_elements_array(elements: Seq<ElementView>)
    ensures
        elements_of(elements.map_values(|e: ElementView| element_object(e))) == Some(elements),
    decreases elements.len(),
{
    let array = elements.map_values(|e: ElementView| element_object(e));
    if elements.len() > 0 {
        let front = elements.drop_last();
        lemma_elements_array(front);
        assert(array.drop_last() =~= front.map_values(|e: ElementView| element_object(e)));
        lemma_element_object(elements.last());
        assert(array.last() == element_object(elements.last()));
        assert(front.push(elements.last()) =~= elements);
    } else {
        assert(elements =~= Seq::empty());
    }
}

/// A set that becomes a document, goes out and is decoded is the set it was.
pub proof fn law_orset_document(node_id: Seq<char>, elements: Seq<ElementView>, now_ms: u64)
    requires
        elements.len() < 65536,
        forall|i: int| 0 <= i < elements.len() ==> (#[trigger] elements[i]).value.len() < 65536,
    ensures
        orset_of_doc(orset_fields(node_id, elements, now_ms)) is Some,
        parse_orset(orset_of_doc(orset_fields(node_id, elements, now_ms))->Some_0) == Some((0u32, elements)),
{
    reveal_strlit("elements");
    reveal_strlit("updated_at");
    assert("elements"@.len() == 8 && "updated_at"@.len() == 10);
    lemma_elements_array(elements);
    law_orset_wire(elements);
}

/// The last count of a node in a list of counts.
pub open spec fn last_count(counts: Seq<(u32, u64)>, id: u32) -> Option<u64>
    decreases counts.len(),
{
    if counts.len() == 0 {
        None
    } else if counts.last().0 == id {
        Some(counts.last().1)
    } else {
        last_count(counts.drop_last(), id)
    }
}

/// Whether every key of an object is the eight digits of a node ID.
spec fn keys_are_ids(entries: Seq<(Seq<char>, JsonView)>) -> bool {
    forall|i: int| 0 <= i < entries.len() ==> exists|id: u32| (#[trigger] entries[i]).0 == #[trigger] text::hex8(id)
}

proof fn lemma_inserted_keys(entries: Seq<(Seq<char>, JsonView)>, id: u32, value: JsonView)
    requires
        keys_are_ids(entries),
    ensures
        keys_are_ids(json::inserted(entries, text::hex8(id), value)),
    decreases entries.len(),
{
    let key = text::hex8(id);
    let r = json::inserted(entries, key, value);
    if entries.len() > 0 {
        let rest = entries.skip(1);
        assert(keys_are_ids(rest)) by {
            assert forall|i: int| 0 <= i < rest.len() implies exists|x: u32|
                (#[trigger] rest[i]).0 == #[trigger] text::hex8(x) by {
                assert(rest[i] == entries[i + 1]);
            }
        }
        if json::text_order(key, entries[0].0) == json::Order::Greater {
            lemma_inserted_keys(rest, id, value);
            let tail = json::inserted(rest, key, value);
            assert forall|i: int| 0 <= i < r.len() implies exists|x: u32| (#[trigger] r[i]).0 == #[trigger] text::hex8(
                x,
            ) by {
                if i == 0 {
                    assert(r[0] == entries[0]);
                } else {
                    assert(r[i] == tail[i - 1]);
                }
            }
        } else {
            assert forall|i: int| 0 <= i < r.len() implies exists|x: u32| (#[trigger] r[i]).0 == #[trigger] text::hex8(
                x,
            ) by {
                if i == 0 {
                    assert(r[0].0 == text::hex8(id));
                } else if json::text_order(key, entries[0].0) == json::Order::Less {
                    assert(r[i] == entries[i - 1]);
                } else {
                    assert(r[i] == entries[i]);
                }
            }
        }
    } else {
        assert forall|i: int| 0 <= i < r.len() implies exists|x: u32| (#[trigger] r[i]).0 == #[trigger] text::hex8(x) by {
            assert(r[i].0 == text::hex8(id));
        }
    }
}

proof fn lemma_hex8_injective(a: u32, b: u32)
    ensures
        text::hex8(a) == text::hex8(b) <==> a == b,
{
    text::law_hex8_roundtrip(a);
    text::law_hex8_roundtrip(b);
}

proof fn lemma_counts_object(counts: Seq<(u32, u64)>, id: u32)
    ensures
        json::keys_sorted(counts_object(counts)),
        keys_are_ids(counts_object(counts)),
        json::lookup(counts_object(counts), text::hex8(id)) == match last_count(counts, id) {
            Some(n) => Some(unsigned(n)),
            None => None,
        },
        forall|i: int| 0 <= i < counts_object(counts).len() ==> (#[trigger] counts_object(counts)[i]).1 is Number
            && counts_object(counts)[i].1->Number_0 is Unsigned,
    decreases counts.len(),
{
    if counts.len() > 0 {
        let front = counts.drop_last();
        lemma_counts_object(front, id);
        let key = text::hex8(counts.last().0);
        let value = unsigned(counts.last().1);
        json::law_insert_then_lookup(counts_object(front), key, value, text::hex8(id));
        lemma_hex8_injective(counts.last().0, id);
        lemma_inserted_keys(counts_object(front), counts.last().0, value);
        json::lemma_inserted_values(
            counts_object(front),
            key,
            value,
            |j: JsonView| j is Number && j->Number_0 is Unsigned,
        );
    }
}

/// Where all keys are node IDs and all values counts, every entry is kept.
proof fn lemma_all_kept(entries: Seq<(Seq<char>, JsonView)>)
    requires
        keys_are_ids(entries),
        forall|i: int| 0 <= i < entries.len() ==> (#[trigger] entries[i]).1 is Number
            && entries[i].1->Number_0 is Unsigned,
    ensures
        kept_counts(entries).len() == entries.len(),
        forall|i: int|
            0 <= i < entries.len() ==> text::hex8((#[trigger] kept_counts(entries)[i]).0) == entries[i].0 && unsigned(
                kept_counts(entries)[i].1,
            ) == entries[i].1,
    decreases entries.len(),
{
    if entries.len() > 0 {
        let front = entries.drop_last();
        assert(keys_are_ids(front)) by {
            assert forall|i: int| 0 <= i < front.len() implies exists|x: u32|
                (#[trigger] front[i]).0 == #[trigger] text::hex8(x) by {
                assert(front[i] == entries[i]);
            }
        }
        lemma_all_kept(front);
        let last = entries.last();
        assert(entries[entries.len() - 1] == last);
        let id = choose|id: u32| last.0 == #[trigger] text::hex8(id);
        text::law_hex8_roundtrip(id);
        assert(count_entry(last) is Some);
        let kept = kept_counts(entries);
        assert forall|i: int| 0 <= i < entries.len() implies text::hex8((#[trigger] kept[i]).0) == entries[i].0
            && unsigned(kept[i].1) == entries[i].1 by {
            if i < front.len() {
                assert(kept[i] == kept_counts(front)[i]);
            }
        }
    }
}

/// A grow-only counter that becomes a document, goes out and is decoded holds for
/// each node the last count that was listed for it, and no other node.
pub proof fn law_gcounter_document(node_id: Seq<char>, counts: Seq<(u32, u64)>, total: u64, now_ms: u64, id: u32, n: u64)
    requires
        counts_object(counts).len() < 65536,
    ensures
        gcounter_of_doc(gcounter_fields(node_id, counts, total, now_ms)) is Some,
        ({
            let d = gcounter_of_doc(gcounter_fields(node_id, counts, total, now_ms))->Some_0;
            &&& is_gcounter(d)
            &&& gcounter_entries(d, entry_count(d)).contains((id, n)) <==> last_count(counts, id) == Some(n)
        }),
{
    reveal_strlit("node_counts");
    reveal_strlit("updated_at");
    assert("node_counts"@.len() == 11 && "updated_at"@.len() == 10);
    let o = counts_object(counts);
    lemma_counts_object(counts, id);
    lemma_all_kept(o);
    let kept = kept_counts(o);
    law_gcounter_wire(kept);
    if kept.contains((id, n)) {
        let i = choose|i: int| 0 <= i < kept.len() && kept[i] == (id, n);
        assert(o[i].0 == text::hex8(id));
        json::lemma_lookup_sorted(o, i);
    }
    if last_count(counts, id) == Some(n) {
        let i = json::lemma_lookup_found(o, text::hex8(id));
        lemma_hex8_injective(kept[i].0, id);
        assert(kept[i] == (id, n));
    }
}

/// The last entry of a node in a list of entries.
pub open spec fn last_entry(entries: Seq<(u32, u64, u64)>, id: u32) -> Option<(u64, u64)>
    decreases entries.len(),
{
    if entries.len() == 0 {
        None
    } else if entries.last().0 == id {
        Some((entries.last().1, entries.last().2))
    } else {
        last_entry(entries.drop_last(), id)
    }
}

/// Whether a value is the object for an entry of a positive-negative counter.
spec fn is_pn_entry(j: JsonView) -> bool {
    exists|inc: u64, dec: u64| j == #[trigger] pn_entry(inc, dec)
}

proof fn lemma_pn_entry(id: u32, inc: u64, dec: u64)
    ensures
        net_entry((text::hex8(id), pn_entry(inc, dec))) == Some((id, inc, dec)),
{
    let o = pn_entry(inc, dec)->Object_0;
    reveal_strlit("decrements");
    reveal_strlit("increments");
    assert("decrements"@[0] == 'd' && "increments"@[0] == 'i');
    assert(o.skip(1)[0] == o[1]);
    assert(json::lookup(o, "decrements"@) == Some(o[0].1));
    assert(json::lookup(o.skip(1), "increments"@) == Some(o[1].1));
    assert(json::lookup(o, "increments"@) == Some(o[1].1));
    text::law_hex8_roundtrip(id);
}

proof fn lemma_pn_object(entries: Seq<(u32, u64, u64)>, id: u32)
    ensures
        json::keys_sorted(pn_object(entries)),
        keys_are_ids(pn_object(entries)),
        json::lookup(pn_object(entries), text::hex8(id)) == match last_entry(entries, id) {
            Some(n) => Some(pn_entry(n.0, n.1)),
            None => None,
        },
        forall|i: int| 0 <= i < pn_object(entries).len() ==> is_pn_entry((#[trigger] pn_object(entries)[i]).1),
    decreases entries.len(),
{
    if entries.len() > 0 {
        let front = entries.drop_last();
        lemma_pn_object(front, id);
        let key = text::hex8(entries.last().0);
        let value = pn_entry(entries.last().1, entries.last().2);
        json::law_insert_then_lookup(pn_object(front), key, value, text::hex8(id));
        lemma_hex8_injective(entries.last().0, id);
        lemma_inserted_keys(pn_object(front), entries.last().0, value);
        json::lemma_inserted_values(pn_object(front), key, value, |j: JsonView| is_pn_entry(j));
    }
}

/// Where all keys are node IDs and all values entries, every entry is kept.
proof fn lemma_all_entries_kept(entries: Seq<(Seq<char>, JsonView)>)
    requires
        keys_are_ids(entries),
        forall|i: int| 0 <= i < entries.len() ==> is_pn_entry((#[trigger] entries[i]).1),
    ensures
        kept_entries(entries).len() == entries.len(),
        forall|i: int|
            0 <= i < entries.len() ==> text::hex8((#[trigger] kept_entries(entries)[i]).0) == entries[i].0 && pn_entry(
                kept_entries(entries)[i].1,
                kept_entries(entries)[i].2,
            ) == entries[i].1,
    decreases entries.len(),
{
    if entries.len() > 0 {
        let front = entries.drop_last();
        assert(keys_are_ids(front)) by {
            assert forall|i: int| 0 <= i < front.len() implies exists|x: u32|
                (#[trigger] front[i]).0 == #[trigger] text::hex8(x) by {
                assert(front[i] == entries[i]);
            }
        }
        lemma_all_entries_kept(front);
        let last = entries.last();
        assert(entries[entries.len() - 1] == last);
        let id = choose|id: u32| last.0 == #[trigger] text::hex8(id);
        let (inc, dec) = choose|inc: u64, dec: u64| last.1 == #[trigger] pn_entry(inc, dec);
        lemma_pn_entry(id, inc, dec);
        let kept = kept_entries(entries);
        assert forall|i: int| 0 <= i < entries.len() implies text::hex8((#[trigger] kept[i]).0) == entries[i].0 && pn_entry(
            kept[i].1,
            kept[i].2,
        ) == entries[i].1 by {
            if i < front.len() {
                assert(kept[i] == kept_entries(front)[i]);
            }
        }
    }
}

/// A positive-negative counter that becomes a document, goes out and is decoded holds
/// for each node the last entry that was listed for it, and no other node.
pub proof fn law_pncounter_document(
    node_id: Seq<char>,
    entries: Seq<(u32, u64, u64)>,
    net_value: i64,
    now_ms: u64,
    id: u32,
    inc: u64,
    dec: u64,
)
    requires
        pn_object(entries).len() < 65536,
    ensures
        pncounter_of_doc(pncounter_fields(node_id, entries, net_value, now_ms)) is Some,
        ({
            let d = pncounter_of_doc(pncounter_fields(node_id, entries, net_value, now_ms))->Some_0;
            &&& is_pncounter(d)
            &&& pncounter_entries(d, entry_count(d)).contains((id, inc, dec)) <==> last_entry(entries, id) == Some(
                (inc, dec),
            )
        }),
{
    reveal_strlit("node_entries");
    reveal_strlit("updated_at");
    assert("node_entries"@.len() == 12 && "updated_at"@.len() == 10);
    let o = pn_object(entries);
    lemma_pn_object(entries, id);
    lemma_all_entries_kept(o);
    let kept = kept_entries(o);
    law_pncounter_wire(kept);
    if kept.contains((id, inc, dec)) {
        let i = choose|i: int| 0 <= i < kept.len() && kept[i] == (id, inc, dec);
        assert(o[i].0 == text::hex8(id));
        json::lemma_lookup_sorted(o, i);
        let found = last_entry(entries, id)->Some_0;
        lemma_pn_entry(id, inc, dec);
        lemma_pn_entry(id, found.0, found.1);
    }
    if last_entry(entries, id) == Some((inc, dec)) {
        let i = json::lemma_lookup_found(o, text::hex8(id));
        lemma_hex8_injective(kept[i].0, id);
        lemma_pn_entry(id, inc, dec);
        lemma_pn_entry(id, kept[i].1, kept[i].2);
        assert(kept[i] == (id, inc, dec));
    }
}

} // verus!

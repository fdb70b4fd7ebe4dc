//! Certificates that are shared through documents.
//!
//! ```text
//! certificates:<subject key in hex>  ->  CertificateEntry
//! revocations:<subject key in hex>   ->  RevocationEntry
//! ```
//!
//! A [`CertificateStore`] writes these documents and keeps its bundle up to date with
//! those that came from peers.

use vstd::prelude::*;
use vstd::string::*;
use vstd::utf8::*;

use crate::base64_text;
use crate::base64_text::{decode_base64, encode_base64};
use crate::clock::now_ms;
use crate::json::JsonView;
use crate::security::bundle;
use crate::security::bundle::{BundleView, CertificateBundle};
use crate::security::certificate;
use crate::security::certificate::{CertificateView, MeshCertificate};
use crate::security::error;
use crate::security::error::{joined, SecurityError, SecurityErrorView};
use crate::storage::automerge_store;
use crate::storage::automerge_store::AutomergeStore;
use crate::storage::documents;
use crate::storage::entry_json;
use crate::storage::json_convert;
use crate::storage::typed_collection;
use crate::storage::typed_collection::{collection_prefix, document_key, TypedCollection};
use crate::text;
use crate::text::{hex_decode, hex_encode, text_eq};

verus! {

/// Collection name for certificates.
pub const CERTIFICATES_COLLECTION: &'static str = "certificates";

/// Collection name for revocations.
pub const REVOCATIONS_COLLECTION: &'static str = "revocations";

/// A certificate as it is kept in a document.
#[derive(Debug)]
pub struct CertificateEntry {
    /// Base64-encoded wire format of the certificate.
    pub cert_data: String,
    /// Node ID for reverse lookup.
    pub node_id: String,
    /// Mesh tier name.
    pub tier: String,
    /// Hex-encoded subject public key.
    pub subject: String,
    /// Hex-encoded issuer public key.
    pub issuer: String,
    /// Permissions byte.
    pub permissions: u8,
    /// Expiration timestamp (0 = no expiration).
    pub expires_at_ms: u64,
    /// Timestamp when this entry was written.
    pub written_at_ms: u64,
}

/// A [`CertificateEntry`] in terms of sequences.
#[verifier::ext_equal]
pub struct EntryView {
    pub cert_data: Seq<char>,
    pub node_id: Seq<char>,
    pub tier: Seq<char>,
    pub subject: Seq<char>,
    pub issuer: Seq<char>,
    pub permissions: u8,
    pub expires_at_ms: u64,
    pub written_at_ms: u64,
}

impl View for CertificateEntry {
    type V = EntryView;

    open spec fn view(&self) -> EntryView {
        EntryView {
            cert_data: self.cert_data@,
            node_id: self.node_id@,
            tier: self.tier@,
            subject: self.subject@,
            issuer: self.issuer@,
            permissions: self.permissions,
            expires_at_ms: self.expires_at_ms,
            written_at_ms: self.written_at_ms,
        }
    }
}

/// The entry for a certificate.
pub open spec fn entry_of(c: CertificateView, now_ms: u64) -> EntryView {
    EntryView {
        cert_data: base64_text::base64_text(c.wire()),
        node_id: c.node_id,
        tier: c.tier.name(),
        subject: text::hex_text(c.subject_public_key),
        issuer: text::hex_text(c.issuer_public_key),
        permissions: c.permissions,
        expires_at_ms: c.expires_at_ms,
        written_at_ms: now_ms,
    }
}

impl EntryView {
    /// The certificate in the entry, or why there is none.
    pub open spec fn certificate(self) -> Result<CertificateView, SecurityErrorView> {
        match base64_text::base64_bytes(self.cert_data) {
            Some(bytes) => certificate::parse_certificate(bytes),
            None => Err(
                SecurityErrorView::SerializationError(
                    "invalid base64: "@ + base64_text::base64_error_text(self.cert_data),
                ),
            ),
        }
    }
}

impl CertificateEntry {
    /// Create from a certificate, written now.
    pub fn from_certificate(cert: &MeshCertificate) -> (r: Self)
        requires
            cert@.wire().len() <= usize::MAX / 4,
        ensures
            exists|now_ms: u64| r@ == #[trigger] entry_of(cert@, now_ms),
    {
        let now: u64 = now_ms();
        Self::from_certificate_at(cert, now)
    }

    /// Create from a certificate, written at `now_ms`.
    pub fn from_certificate_at(cert: &MeshCertificate, now_ms: u64) -> (r: Self)
        requires
            cert@.wire().len() <= usize::MAX / 4,
        ensures
            r@ == entry_of(cert@, now_ms),
    {
        let wire = cert.encode();
        CertificateEntry {
            cert_data: encode_base64(wire.as_slice()),
            node_id: cert.node_id.clone(),
            tier: cert.tier.as_str().to_owned(),
            subject: hex_encode(cert.subject_public_key.as_slice()),
            issuer: hex_encode(cert.issuer_public_key.as_slice()),
            permissions: cert.permissions,
            expires_at_ms: cert.expires_at_ms,
            written_at_ms: now_ms,
        }
    }

    /// Decode back to a certificate.
    pub fn to_certificate(&self) -> (r: Result<MeshCertificate, SecurityError>)
        ensures
            error::outcome(r) == self@.certificate(),
    {
        match decode_base64(self.cert_data.as_str()) {
            Ok(bytes) => {
                proof {
                    base64_text::law_base64_roundtrip(bytes@, self.cert_data@);
                }
                MeshCertificate::decode(bytes.as_slice())
            },
            Err(e) => Err(SecurityError::SerializationError(joined("invalid base64: ", e.as_str()))),
        }
    }
}

/// The certificate comes back from its entry.
pub proof fn law_entry_roundtrip(c: CertificateView, now_ms: u64)
    requires
        c.fits_wire(),
    ensures
        entry_of(c, now_ms).certificate() == Ok::<CertificateView, SecurityErrorView>(c),
{
    base64_text::law_base64_roundtrip(c.wire(), Seq::empty());
    certificate::law_decode_of_encode(c, Seq::empty());
    assert(c.wire() + Seq::<u8>::empty() =~= c.wire());
}

/// A revocation as it is kept in a document.
#[derive(Debug)]
pub struct RevocationEntry {
    /// Hex-encoded subject public key being revoked.
    pub subject: String,
    /// Reason for revocation.
    pub reason: String,
    /// Timestamp of revocation.
    pub timestamp_ms: u64,
}

/// A [`RevocationEntry`] in terms of sequences.
#[verifier::ext_equal]
pub struct RevocationView {
    pub subject: Seq<char>,
    pub reason: Seq<char>,
    pub timestamp_ms: u64,
}

impl View for RevocationEntry {
    type V = RevocationView;

    open spec fn view(&self) -> RevocationView {
        RevocationView { subject: self.subject@, reason: self.reason@, timestamp_ms: self.timestamp_ms }
    }
}

/// The revocation of a key.
pub open spec fn revocation_of(key: Seq<u8>, reason: Seq<char>, now_ms: u64) -> RevocationView {
    RevocationView { subject: text::hex_text(key), reason, timestamp_ms: now_ms }
}

/// The key of the document of a subject's certificate.
pub open spec fn certificate_key(subject: Seq<char>) -> Seq<char> {
    document_key(CERTIFICATES_COLLECTION@, subject)
}

/// The key of the document of a subject's revocation.
pub open spec fn revocation_key(subject: Seq<char>) -> Seq<char> {
    document_key(REVOCATIONS_COLLECTION@, subject)
}

/// The certificate entry in the document under a key.
pub open spec fn entry_at(docs: Map<Seq<char>, automerge::Automerge>, key: Seq<char>) -> Option<EntryView> {
    if docs.contains_key(key) {
        entry_json::entry_in(typed_collection::reading(docs[key]))
    } else {
        None
    }
}

/// The certificate entries in the documents under keys; a document that holds none is
/// passed over.
pub open spec fn entries_at(docs: Map<Seq<char>, automerge::Automerge>, keys: Seq<Seq<char>>) -> Seq<EntryView>
    decreases keys.len(),
{
    if keys.len() == 0 {
        Seq::empty()
    } else {
        match entry_at(docs, keys.last()) {
            Some(e) => entries_at(docs, keys.drop_last()).push(e),
            None => entries_at(docs, keys.drop_last()),
        }
    }
}

/// The revocation in the document under a key.
pub open spec fn revocation_at(docs: Map<Seq<char>, automerge::Automerge>, key: Seq<char>) -> Option<RevocationView> {
    if docs.contains_key(key) {
        entry_json::revocation_in(typed_collection::reading(docs[key]))
    } else {
        None
    }
}

/// Whether a revocation document names a subject.
pub open spec fn names_subject(docs: Map<Seq<char>, automerge::Automerge>, subject: Seq<char>) -> bool {
    exists|key: Seq<char>|
        collection_prefix(REVOCATIONS_COLLECTION@).is_prefix_of(key) && (#[trigger] revocation_at(docs, key) matches Some(
            r,
        ) && r.subject == subject)
}

/// The subjects that revocation documents name.
pub open spec fn revoked_in(docs: Map<Seq<char>, automerge::Automerge>) -> Set<Seq<char>> {
    Set::new(|s: Seq<char>| names_subject(docs, s))
}

/// The certificate that an entry brings into a bundle: it must not be revoked, must
/// decode, and the bundle must accept it.
pub open spec fn admitted(bundle: BundleView, revoked: Set<Seq<char>>, entry: EntryView) -> Option<CertificateView> {
    if revoked.contains(entry.subject) {
        None
    } else {
        match entry.certificate() {
            Ok(c) => if bundle.admission(c) is Ok {
                Some(c)
            } else {
                None
            },
            Err(_) => None,
        }
    }
}

/// The bundle once the certificates of entries were added.
pub open spec fn with_entries(bundle: BundleView, revoked: Set<Seq<char>>, entries: Seq<EntryView>) -> BundleView
    decreases entries.len(),
{
    if entries.len() == 0 {
        bundle
    } else {
        let before = with_entries(bundle, revoked, entries.drop_last());
        match admitted(before, revoked, entries.last()) {
            Some(c) => before.with_certificate(c),
            None => before,
        }
    }
}

/// How many of the entries bring a certificate.
pub open spec fn entries_admitted(bundle: BundleView, revoked: Set<Seq<char>>, entries: Seq<EntryView>) -> nat
    decreases entries.len(),
{
    if entries.len() == 0 {
        0
    } else {
        let before = with_entries(bundle, revoked, entries.drop_last());
        entries_admitted(bundle, revoked, entries.drop_last()) + if admitted(before, revoked, entries.last()) is Some {
            1nat
        } else {
            0nat
        }
    }
}

/// Whether `after` is a bundle with the certificates of the documents added, but for
/// those that are revoked, where `count` were added. The documents come in any order.
pub open spec fn is_load(
    before: BundleView,
    after: BundleView,
    docs: Map<Seq<char>, automerge::Automerge>,
    count: nat,
) -> bool {
    exists|keys: Seq<Seq<char>>|
        #![trigger entries_at(docs, keys)]
        automerge_store::is_scan(docs, collection_prefix(CERTIFICATES_COLLECTION@), keys) && after == with_entries(
            before,
            revoked_in(docs),
            entries_at(docs, keys),
        ) && count == entries_admitted(before, revoked_in(docs), entries_at(docs, keys))
}

/// Whether `after` is the bundle of the documents: it trusts whom `before` trusts, and
/// holds their certificates alone, without those that are revoked.
pub open spec fn is_rebuilt(
    before: BundleView,
    after: BundleView,
    docs: Map<Seq<char>, automerge::Automerge>,
) -> bool {
    exists|count: nat| is_load(before.without_certificates(), after, docs, count)
}

/// Certificate store with a bundle that follows the documents.
pub struct CertificateStore {
    bundle: CertificateBundle,
}

impl View for CertificateStore {
    type V = BundleView;

    closed spec fn view(&self) -> BundleView {
        self.bundle@
    }
}

/// A bundle that trusts authorities.
pub open spec fn trusting(authorities: Seq<[u8; 32]>) -> BundleView
    decreases authorities.len(),
{
    if authorities.len() == 0 {
        bundle::bare_bundle(Seq::empty())
    } else {
        trusting(authorities.drop_last()).with_authority(authorities.last()@)
    }
}

impl CertificateStore {
    /// Create a new certificate store that trusts these authorities (typically just
    /// the genesis authority), whatever documents say.
    pub fn new(trusted_authorities: &[[u8; 32]]) -> (r: Self)
        ensures
            r@ == trusting(trusted_authorities@),
    {
        let mut bundle = CertificateBundle::new();
        let mut i: usize = 0;
        while i < trusted_authorities.len()
            invariant
                i <= trusted_authorities@.len(),
                bundle@ == trusting(trusted_authorities@.take(i as int)),
            decreases trusted_authorities@.len() - i,
        {
            assert(trusted_authorities@.take(i + 1).drop_last() =~= trusted_authorities@.take(i as int));
            bundle.add_authority(trusted_authorities[i]);
            i = i + 1;
        }
        assert(trusted_authorities@.take(i as int) =~= trusted_authorities@);
        CertificateStore { bundle }
    }

    /// The certificate bundle.
    pub fn bundle(&self) -> (r: &CertificateBundle)
        ensures
            r@ == self@,
    {
        &self.bundle
    }

    /// Publish a certificate now: keeps its document, and puts it into the bundle though
    /// its issuer may not be known yet.
    pub fn publish_certificate<F: Fn(u64) -> automerge::ScalarValue>(
        &mut self,
        store: &mut AutomergeStore,
        cert: &MeshCertificate,
        doubles: &F,
    ) -> (r: Result<(), String>)
        requires
            cert@.wire().len() <= usize::MAX / 4,
            json_convert::makes_doubles(*doubles),
        ensures
            r is Ok,
            final(self)@ == old(self)@.with_certificate(cert@),
            exists|now_ms: u64| #[trigger] is_published(old(store)@, final(store)@, cert@, now_ms),
    {
        let now: u64 = now_ms();
        self.publish_certificate_at(store, cert, now, doubles)
    }

    /// Publish a certificate at `now_ms`.
    pub fn publish_certificate_at<F: Fn(u64) -> automerge::ScalarValue>(
        &mut self,
        store: &mut AutomergeStore,
        cert: &MeshCertificate,
        now_ms: u64,
        doubles: &F,
    ) -> (r: Result<(), String>)
        requires
            cert@.wire().len() <= usize::MAX / 4,
            json_convert::makes_doubles(*doubles) || (cert.expires_at_ms <= i64::MAX && now_ms <= i64::MAX),
        ensures
            r is Ok,
            final(self)@ == old(self)@.with_certificate(cert@),
            is_published(old(store)@, final(store)@, cert@, now_ms),
    {
        let subject_hex = hex_encode(cert.subject_public_key.as_slice());
        let entry = CertificateEntry::from_certificate_at(cert, now_ms);
        proof {
            entry_json::law_entry_json(entry@);
            entry_json::lemma_writable(entry_json::entry_object(entry@), *doubles);
        }
        TypedCollection::new(CERTIFICATES_COLLECTION).upsert(store, subject_hex.as_str(), &entry.to_json(), doubles)?;
        if self.bundle.add_certificate(cert.clone()).is_err() {
            self.bundle.add_certificate_unchecked(cert.clone());
        }
        Ok(())
    }

    /// Publish a revocation now.
    pub fn publish_revocation<F: Fn(u64) -> automerge::ScalarValue>(
        &self,
        store: &mut AutomergeStore,
        subject_public_key: &[u8; 32],
        reason: &str,
        doubles: &F,
    ) -> (r: Result<(), String>)
        requires
            json_convert::makes_doubles(*doubles),
        ensures
            r is Ok,
            exists|now_ms: u64| #[trigger]
                is_revoked(old(store)@, final(store)@, subject_public_key@, reason@, now_ms),
    {
        let now: u64 = now_ms();
        self.publish_revocation_at(store, subject_public_key, reason, now, doubles)
    }

    /// Publish a revocation at `now_ms`.
    pub fn publish_revocation_at<F: Fn(u64) -> automerge::ScalarValue>(
        &self,
        store: &mut AutomergeStore,
        subject_public_key: &[u8; 32],
        reason: &str,
        now_ms: u64,
        doubles: &F,
    ) -> (r: Result<(), String>)
        requires
            json_convert::makes_doubles(*doubles) || now_ms <= i64::MAX,
        ensures
            r is Ok,
            is_revoked(old(store)@, final(store)@, subject_public_key@, reason@, now_ms),
    {
        let subject_hex = hex_encode(subject_public_key.as_slice());
        let entry = RevocationEntry { subject: subject_hex.clone(), reason: reason.to_owned(), timestamp_ms: now_ms };
        proof {
            entry_json::law_revocation_json(entry@);
            entry_json::lemma_writable(entry_json::revocation_object(entry@), *doubles);
        }
        TypedCollection::new(REVOCATIONS_COLLECTION).upsert(store, subject_hex.as_str(), &entry.to_json(), doubles)
    }

    /// Load all certificates of the store into the bundle, but for those that are
    /// revoked. Returns how many were loaded.
    pub fn load_all(&mut self, store: &AutomergeStore) -> (count: usize)
        ensures
            is_load(old(self)@, final(self)@, store@, count as nat),
    {
        let (entries, keys) = scan_entries(store);
        let revocations = load_revocation_set(store);
        let ghost all = entries_view(entries@);
        let ghost revoked = revoked_in(store@);
        let mut count: usize = 0;
        let mut i: usize = 0;
        assert(all.take(0) =~= Seq::empty());
        while i < entries.len()
            invariant
                i <= entries@.len(),
                count <= i,
                all == entries_view(entries@),
                revoked == revoked_in(store@),
                forall|s: Seq<char>| #[trigger] names_one(revocations@, s) <==> revoked.contains(s),
                self@ == with_entries(old(self)@, revoked, all.take(i as int)),
                count == entries_admitted(old(self)@, revoked, all.take(i as int)),
            decreases entries@.len() - i,
        {
            proof {
                assert(all.take(i + 1).drop_last() =~= all.take(i as int));
                assert(all.take(i + 1).last() == entries@[i as int]@);
            }
            let entry = &entries[i];
            if !contains_text(&revocations, entry.subject.as_str()) {
                if let Ok(cert) = entry.to_certificate() {
                    if self.bundle.add_certificate(cert).is_ok() {
                        count = count + 1;
                    }
                }
            }
            i = i + 1;
        }
        assert(all.take(i as int) =~= entries_at(store@, keys@));
        count
    }

    /// Handle a change of the certificate document of a subject: its certificate is
    /// added, unless the subject is revoked.
    pub fn handle_cert_change(&mut self, store: &AutomergeStore, subject_hex: &str)
        ensures
            final(self)@ == (match (
                revocation_at(store@, revocation_key(subject_hex@)),
                entry_at(store@, certificate_key(subject_hex@)),
            ) {
                (None, Some(e)) => with_entries(old(self)@, Set::empty(), seq![e]),
                _ => old(self)@,
            }),
    {
        if get_revocation(store, subject_hex).is_some() {
            return ;
        }
        if let Some(entry) = get_entry(store, subject_hex) {
            proof {
                let one = seq![entry@];
                assert(one.drop_last() =~= Seq::empty());
                reveal_with_fuel(with_entries, 2);
            }
            if let Ok(cert) = entry.to_certificate() {
                let _ = self.bundle.add_certificate(cert);
            }
        }
    }

    /// Handle a change of the revocation document of a subject: its certificate is
    /// removed from the bundle by rebuilding it. Returns whether the bundle was rebuilt:
    /// the revocation must name a key.
    pub fn handle_revocation_change(&mut self, store: &AutomergeStore, subject_hex: &str) -> (r: bool)
        ensures
            r == (revocation_at(store@, revocation_key(subject_hex@)) matches Some(e) && names_key(e.subject)),
            r ==> is_rebuilt(old(self)@, final(self)@, store@),
            !r ==> final(self)@ == old(self)@,
    {
        match get_revocation(store, subject_hex) {
            Some(entry) => match hex_decode(entry.subject.as_str()) {
                Some(subject_bytes) => {
                    if subject_bytes.len() == 32 {
                        self.rebuild_bundle(store);
                        true
                    } else {
                        false
                    }
                },
                None => false,
            },
            None => false,
        }
    }

    /// Rebuild the entire bundle from the documents. The authorities stay trusted, and
    /// revoked certificates leave.
    pub fn rebuild_bundle(&mut self, store: &AutomergeStore)
        ensures
            is_rebuilt(old(self)@, final(self)@, store@),
    {
        self.bundle.clear_certificates();
        let count: usize = self.load_all(store);
        assert(is_load(old(self)@.without_certificates(), self@, store@, count as nat));
    }
}

/// Whether the only change is that the document of a certificate holds its entry, with
/// its history kept.
pub open spec fn is_published(
    before: Map<Seq<char>, automerge::Automerge>,
    after: Map<Seq<char>, automerge::Automerge>,
    c: CertificateView,
    now_ms: u64,
) -> bool {
    typed_collection::is_upsert(
        before,
        after,
        certificate_key(text::hex_text(c.subject_public_key)),
        entry_json::entry_object(entry_of(c, now_ms)),
    )
}

/// Whether the only change is that the revocation document of a key holds its
/// revocation, with its history kept.
pub open spec fn is_revoked(
    before: Map<Seq<char>, automerge::Automerge>,
    after: Map<Seq<char>, automerge::Automerge>,
    key: Seq<u8>,
    reason: Seq<char>,
    now_ms: u64,
) -> bool {
    typed_collection::is_upsert(
        before,
        after,
        revocation_key(text::hex_text(key)),
        entry_json::revocation_object(revocation_of(key, reason, now_ms)),
    )
}

/// Entries by their views.
pub open spec fn entries_view(entries: Seq<CertificateEntry>) -> Seq<EntryView> {
    entries.map_values(|e: CertificateEntry| e@)
}

/// Whether one of the texts is `s`.
pub open spec fn names_one(texts: Seq<String>, s: Seq<char>) -> bool {
    exists|i: int| 0 <= i < texts.len() && (#[trigger] texts[i])@ == s
}

fn contains_text(texts: &Vec<String>, s: &str) -> (r: bool)
    ensures
        r == names_one(texts@, s@),
{
    let mut i: usize = 0;
    while i < texts.len()
        invariant
            i <= texts@.len(),
            forall|j: int| 0 <= j < i ==> (#[trigger] texts@[j])@ != s@,
        decreases texts@.len() - i,
    {
        if text_eq(texts[i].as_str(), s) {
            assert(texts@[i as int]@ == s@);
            return true;
        }
        i = i + 1;
    }
    false
}

fn get_entry(store: &AutomergeStore, subject_hex: &str) -> (r: Option<CertificateEntry>)
    ensures
        match r {
            Some(e) => entry_at(store@, certificate_key(subject_hex@)) == Some(e@),
            None => entry_at(store@, certificate_key(subject_hex@)) is None,
        },
{
    match TypedCollection::new(CERTIFICATES_COLLECTION).get_json(store, subject_hex) {
        Some(json) => {
            proof {
                typed_collection::lemma_reading(store@[certificate_key(subject_hex@)], json@);
            }
            CertificateEntry::from_json(&json)
        },
        None => None,
    }
}

fn get_revocation(store: &AutomergeStore, subject_hex: &str) -> (r: Option<RevocationEntry>)
    ensures
        match r {
            Some(e) => revocation_at(store@, revocation_key(subject_hex@)) == Some(e@),
            None => revocation_at(store@, revocation_key(subject_hex@)) is None,
        },
{
    match TypedCollection::new(REVOCATIONS_COLLECTION).get_json(store, subject_hex) {
        Some(json) => {
            proof {
                typed_collection::lemma_reading(store@[revocation_key(subject_hex@)], json@);
            }
            RevocationEntry::from_json(&json)
        },
        None => None,
    }
}

/// The certificate entries of a store, with the keys of the documents in the order in
/// which they were read.
fn scan_entries(store: &AutomergeStore) -> (r: (Vec<CertificateEntry>, Ghost<Seq<Seq<char>>>))
    ensures
        automerge_store::is_scan(store@, collection_prefix(CERTIFICATES_COLLECTION@), r.1@),
        entries_view(r.0@) == entries_at(store@, r.1@),
{
    let found = TypedCollection::new(CERTIFICATES_COLLECTION).scan_json(store);
    let ghost keys = typed_collection::document_keys_of(CERTIFICATES_COLLECTION@, found@);
    let mut entries: Vec<CertificateEntry> = Vec::new();
    let mut i: usize = 0;
    assert(entries_view(entries@) =~= entries_at(store@, keys.take(0)));
    while i < found.len()
        invariant
            i <= found@.len(),
            keys == typed_collection::document_keys_of(CERTIFICATES_COLLECTION@, found@),
            automerge_store::is_scan(store@, collection_prefix(CERTIFICATES_COLLECTION@), keys),
            forall|n: int|
                0 <= n < found@.len() ==> typed_collection::is_reading(
                    store@[document_key(CERTIFICATES_COLLECTION@, (#[trigger] found@[n]).0@)],
                    found@[n].1@,
                ),
            entries_view(entries@) == entries_at(store@, keys.take(i as int)),
        decreases found@.len() - i,
    {
        let ghost key = keys[i as int];
        let ghost before = entries@;
        proof {
            assert(keys.contains(key));
            assert(keys.take(i + 1).drop_last() =~= keys.take(i as int));
            typed_collection::lemma_reading(store@[key], found@[i as int].1@);
        }
        if let Some(entry) = CertificateEntry::from_json(&found[i].1) {
            entries.push(entry);
            assert(entries_view(entries@) =~= entries_view(before).push(entry@));
        }
        i = i + 1;
    }
    assert(keys.take(i as int) =~= keys);
    (entries, Ghost(keys))
}

/// The subjects that are revoked.
fn load_revocation_set(store: &AutomergeStore) -> (r: Vec<String>)
    ensures
        forall|s: Seq<char>| #[trigger] names_one(r@, s) <==> revoked_in(store@).contains(s),
{
    let found = TypedCollection::new(REVOCATIONS_COLLECTION).scan_json(store);
    let ghost prefix = collection_prefix(REVOCATIONS_COLLECTION@);
    let ghost keys = typed_collection::document_keys_of(REVOCATIONS_COLLECTION@, found@);
    let mut subjects: Vec<String> = Vec::new();
    let mut i: usize = 0;
    while i < found.len()
        invariant
            i <= found@.len(),
            prefix == collection_prefix(REVOCATIONS_COLLECTION@),
            keys == typed_collection::document_keys_of(REVOCATIONS_COLLECTION@, found@),
            automerge_store::is_scan(store@, prefix, keys),
            forall|n: int|
                0 <= n < found@.len() ==> typed_collection::is_reading(
                    store@[document_key(REVOCATIONS_COLLECTION@, (#[trigger] found@[n]).0@)],
                    found@[n].1@,
                ),
            forall|n: int| 0 <= n < subjects@.len() ==> names_subject(store@, (#[trigger] subjects@[n])@),
            forall|n: int|
                0 <= n < i ==> (revocation_at(store@, #[trigger] keys[n]) matches Some(e) ==> names_one(
                    subjects@,
                    e.subject,
                )),
        decreases found@.len() - i,
    {
        let ghost key = keys[i as int];
        let ghost before = subjects@;
        proof {
            assert(keys.contains(key));
            typed_collection::lemma_reading(store@[key], found@[i as int].1@);
        }
        if let Some(entry) = RevocationEntry::from_json(&found[i].1) {
            let ghost subject = entry.subject@;
            subjects.push(entry.subject);
            proof {
                assert(revocation_at(store@, key) == Some(entry@));
                assert(subjects@[before.len() as int]@ == subject);
                assert forall|s: Seq<char>| names_one(before, s) implies names_one(subjects@, s) by {
                    let n = choose|n: int| 0 <= n < before.len() && (#[trigger] before[n])@ == s;
                    assert(subjects@[n]@ == s);
                }
            }
        }
        i = i + 1;
    }
    proof {
        assert forall|s: Seq<char>| #[trigger] names_one(subjects@, s) <==> revoked_in(store@).contains(s) by {
            if names_subject(store@, s) {
                let key = choose|key: Seq<char>|
                    prefix.is_prefix_of(key) && (#[trigger] revocation_at(store@, key) matches Some(r) && r.subject == s);
                assert(keys.contains(key));
                let n = choose|n: int| 0 <= n < keys.len() && keys[n] == key;
                assert(revocation_at(store@, keys[n]) is Some);
            }
        }
    }
    subjects
}

/// Whether a text is the hexadecimal numeral of 32 bytes.
pub open spec fn names_key(subject: Seq<char>) -> bool {
    text::is_hex(encode_utf8(subject)) && encode_utf8(subject).len() == 64
}

/// Whether a certificate document holds a certificate of a key, with this entry.
pub open spec fn is_entry_of(
    docs: Map<Seq<char>, automerge::Automerge>,
    name: Seq<char>,
    entry: EntryView,
    key: Seq<u8>,
) -> bool {
    &&& collection_prefix(CERTIFICATES_COLLECTION@).is_prefix_of(name)
    &&& entry_at(docs, name) == Some(entry)
    &&& entry.certificate() matches Ok(c) && c.subject_public_key == key
}

/// A published certificate is read as it was published, provided that its times are
/// signed 64-bit integers.
pub proof fn law_published_is_read(
    before: Map<Seq<char>, automerge::Automerge>,
    after: Map<Seq<char>, automerge::Automerge>,
    c: CertificateView,
    now_ms: u64,
)
    requires
        is_published(before, after, c, now_ms),
        c.expires_at_ms <= i64::MAX,
        now_ms <= i64::MAX,
    ensures
        entry_at(after, certificate_key(text::hex_text(c.subject_public_key))) == Some(entry_of(c, now_ms)),
{
    let key = certificate_key(text::hex_text(c.subject_public_key));
    let object = entry_json::entry_object(entry_of(c, now_ms));
    entry_json::law_entry_json(entry_of(c, now_ms));
    entry_json::lemma_plain_stands(typed_collection::stored_fields(before, key), object);
    typed_collection::law_upsert_then_get(before, after, key, object, JsonView::Object(object));
    typed_collection::lemma_reading(after[key], JsonView::Object(object));
}

/// A key whose revocation was published counts as revoked, provided that the time is a
/// signed 64-bit integer.
pub proof fn law_revocation_is_read(
    before: Map<Seq<char>, automerge::Automerge>,
    after: Map<Seq<char>, automerge::Automerge>,
    key: Seq<u8>,
    reason: Seq<char>,
    now_ms: u64,
)
    requires
        is_revoked(before, after, key, reason, now_ms),
        now_ms <= i64::MAX,
    ensures
        revocation_at(after, revocation_key(text::hex_text(key))) == Some(revocation_of(key, reason, now_ms)),
        revoked_in(after).contains(text::hex_text(key)),
{
    let name = revocation_key(text::hex_text(key));
    let object = entry_json::revocation_object(revocation_of(key, reason, now_ms));
    entry_json::law_revocation_json(revocation_of(key, reason, now_ms));
    entry_json::lemma_plain_stands(typed_collection::stored_fields(before, name), object);
    typed_collection::law_upsert_then_get(before, after, name, object, JsonView::Object(object));
    typed_collection::lemma_reading(after[name], JsonView::Object(object));
    assert(collection_prefix(REVOCATIONS_COLLECTION@).is_prefix_of(name));
}

/// Publishing keeps the history of the document that was there.
pub proof fn law_publishing_keeps_history(
    before: Map<Seq<char>, automerge::Automerge>,
    after: Map<Seq<char>, automerge::Automerge>,
    c: CertificateView,
    reason: Seq<char>,
    now_ms: u64,
)
    ensures
        is_published(before, after, c, now_ms) ==> keeps_history(
            before,
            after,
            certificate_key(text::hex_text(c.subject_public_key)),
        ),
        is_revoked(before, after, c.subject_public_key, reason, now_ms) ==> keeps_history(
            before,
            after,
            revocation_key(text::hex_text(c.subject_public_key)),
        ),
{
    let subject = text::hex_text(c.subject_public_key);
    if is_published(before, after, c, now_ms) {
        typed_collection::law_upsert_keeps_history(
            before,
            after,
            certificate_key(subject),
            entry_json::entry_object(entry_of(c, now_ms)),
        );
    }
    if is_revoked(before, after, c.subject_public_key, reason, now_ms) {
        typed_collection::law_upsert_keeps_history(
            before,
            after,
            revocation_key(subject),
            entry_json::revocation_object(revocation_of(c.subject_public_key, reason, now_ms)),
        );
    }
}

/// Whether there is a document under a key with all the changes that the document had
/// which was there.
pub open spec fn keeps_history(
    before: Map<Seq<char>, automerge::Automerge>,
    after: Map<Seq<char>, automerge::Automerge>,
    key: Seq<char>,
) -> bool {
    after.contains_key(key) && (before.contains_key(key) ==> documents::doc_changes(before[key]).subset_of(
        documents::doc_changes(after[key]),
    ))
}

/// Publishing a certificate revokes nobody, and lifts no revocation.
pub proof fn law_publishing_keeps_revocations(
    before: Map<Seq<char>, automerge::Automerge>,
    after: Map<Seq<char>, automerge::Automerge>,
    c: CertificateView,
    now_ms: u64,
)
    requires
        is_published(before, after, c, now_ms),
    ensures
        revoked_in(after) == revoked_in(before),
{
    let subject = text::hex_text(c.subject_public_key);
    let prefix = collection_prefix(REVOCATIONS_COLLECTION@);
    let object = entry_json::entry_object(entry_of(c, now_ms));
    reveal_strlit("certificates");
    reveal_strlit("revocations");
    typed_collection::law_keys_are_distinct(CERTIFICATES_COLLECTION@, subject, REVOCATIONS_COLLECTION@, subject);
    assert(CERTIFICATES_COLLECTION@[0] != REVOCATIONS_COLLECTION@[0]);
    assert forall|key: Seq<char>| prefix.is_prefix_of(key) implies #[trigger] revocation_at(after, key) == revocation_at(
        before,
        key,
    ) by {
        typed_collection::law_upsert_keeps_others(before, after, certificate_key(subject), object, key);
    }
    assert forall|s: Seq<char>| names_subject(after, s) <==> names_subject(before, s) by {
        if names_subject(after, s) {
            let key = choose|key: Seq<char>|
                prefix.is_prefix_of(key) && (#[trigger] revocation_at(after, key) matches Some(r) && r.subject == s);
            assert(revocation_at(before, key) is Some);
        }
        if names_subject(before, s) {
            let key = choose|key: Seq<char>|
                prefix.is_prefix_of(key) && (#[trigger] revocation_at(before, key) matches Some(r) && r.subject == s);
            assert(revocation_at(after, key) is Some);
        }
    }
    assert(revoked_in(after) =~= revoked_in(before));
}

/// Revoking a key revokes no other, and changes no certificate document.
pub proof fn law_revoking_keeps_the_rest(
    before: Map<Seq<char>, automerge::Automerge>,
    after: Map<Seq<char>, automerge::Automerge>,
    key: Seq<u8>,
    reason: Seq<char>,
    now_ms: u64,
    name: Seq<char>,
    other: Seq<char>,
)
    requires
        is_revoked(before, after, key, reason, now_ms),
        now_ms <= i64::MAX,
        collection_prefix(CERTIFICATES_COLLECTION@).is_prefix_of(name),
        other != text::hex_text(key),
    ensures
        entry_at(after, name) == entry_at(before, name),
        revoked_in(after).contains(other) ==> revoked_in(before).contains(other),
{
    let subject = text::hex_text(key);
    let prefix = collection_prefix(REVOCATIONS_COLLECTION@);
    let object = entry_json::revocation_object(revocation_of(key, reason, now_ms));
    reveal_strlit("certificates");
    reveal_strlit("revocations");
    typed_collection::law_keys_are_distinct(REVOCATIONS_COLLECTION@, subject, CERTIFICATES_COLLECTION@, subject);
    assert(CERTIFICATES_COLLECTION@[0] != REVOCATIONS_COLLECTION@[0]);
    law_revocation_is_read(before, after, key, reason, now_ms);
    typed_collection::law_upsert_keeps_others(before, after, revocation_key(subject), object, name);
    if names_subject(after, other) {
        let at = choose|at: Seq<char>|
            prefix.is_prefix_of(at) && (#[trigger] revocation_at(after, at) matches Some(r) && r.subject == other);
        assert(at != revocation_key(subject));
        typed_collection::law_upsert_keeps_others(before, after, revocation_key(subject), object, at);
        assert(revocation_at(before, at) == revocation_at(after, at));
    }
}

/// A rebuilt bundle does not hold a revoked key, whatever it held before and in whatever
/// order the documents are read, provided that the entries of the key's certificates
/// name it. It does not validate the key, and trusts the same authorities.
pub proof fn law_revoked_stays_out(
    before: BundleView,
    after: BundleView,
    docs: Map<Seq<char>, automerge::Automerge>,
    key: Seq<u8>,
    now_ms: u64,
)
    requires
        is_rebuilt(before, after, docs),
        forall|name: Seq<char>, e: EntryView| #[trigger]
            is_entry_of(docs, name, e, key) ==> revoked_in(docs).contains(e.subject),
    ensures
        !after.certificates.contains_key(key),
        !after.validates(key, now_ms),
        after.authorities == before.authorities,
{
    let bare = before.without_certificates();
    let count = choose|count: nat| is_load(bare, after, docs, count);
    law_revoked_is_not_loaded(bare, after, docs, count, key);
    law_rebuilt_is_trusted(before, after, docs);
}

/// A rebuilt bundle trusts the same authorities as before, and every certificate in it
/// verifies and comes from one of them or is its own issuer.
pub proof fn law_rebuilt_is_trusted(
    before: BundleView,
    after: BundleView,
    docs: Map<Seq<char>, automerge::Automerge>,
)
    requires
        is_rebuilt(before, after, docs),
    ensures
        after.authorities == before.authorities,
        after.all_trusted(),
{
    let bare = before.without_certificates();
    let count = choose|count: nat| is_load(bare, after, docs, count);
    let prefix = collection_prefix(CERTIFICATES_COLLECTION@);
    let keys = choose|keys: Seq<Seq<char>>|
        #![trigger entries_at(docs, keys)]
        automerge_store::is_scan(docs, prefix, keys) && after == with_entries(
            bare,
            revoked_in(docs),
            entries_at(docs, keys),
        ) && count == entries_admitted(bare, revoked_in(docs), entries_at(docs, keys));
    law_loading_keeps_trust(bare, revoked_in(docs), entries_at(docs, keys));
}

/// A stored certificate that is not revoked stands in a rebuilt bundle that accepts it,
/// unless the store holds another certificate of the same key.
pub proof fn law_rebuilt_holds_the_rest(
    before: BundleView,
    after: BundleView,
    docs: Map<Seq<char>, automerge::Automerge>,
    c: CertificateView,
    now_ms: u64,
)
    requires
        is_rebuilt(before, after, docs),
        forall|name: Seq<char>, e: EntryView| #[trigger]
            is_entry_of(docs, name, e, c.subject_public_key) ==> e.certificate()->Ok_0 == c,
        entry_at(docs, certificate_key(text::hex_text(c.subject_public_key))) == Some(entry_of(c, now_ms)),
        c.fits_wire(),
        before.admission(c) is Ok,
        !revoked_in(docs).contains(text::hex_text(c.subject_public_key)),
    ensures
        after.certificates.contains_key(c.subject_public_key),
        after.certificates[c.subject_public_key] == c,
        forall|t: u64| #[trigger] after.validates(c.subject_public_key, t) == c.valid_at(t),
{
    let bare = before.without_certificates();
    law_rebuilt_is_trusted(before, after, docs);
    let count = choose|count: nat| is_load(bare, after, docs, count);
    law_published_is_loaded(bare, after, docs, count, c, now_ms);
}

/// Loading brings no revoked key into a bundle that does not hold it, in whatever order
/// the documents are read, provided that the entries of its certificates name it.
pub proof fn law_revoked_is_not_loaded(
    before: BundleView,
    after: BundleView,
    docs: Map<Seq<char>, automerge::Automerge>,
    count: nat,
    key: Seq<u8>,
)
    requires
        is_load(before, after, docs, count),
        forall|name: Seq<char>, e: EntryView| #[trigger]
            is_entry_of(docs, name, e, key) ==> revoked_in(docs).contains(e.subject),
        !before.certificates.contains_key(key),
    ensures
        !after.certificates.contains_key(key),
{
    let prefix = collection_prefix(CERTIFICATES_COLLECTION@);
    let keys = choose|keys: Seq<Seq<char>>|
        #![trigger entries_at(docs, keys)]
        automerge_store::is_scan(docs, prefix, keys) && after == with_entries(
            before,
            revoked_in(docs),
            entries_at(docs, keys),
        ) && count == entries_admitted(before, revoked_in(docs), entries_at(docs, keys));
    assert forall|i: int| 0 <= i < keys.len() implies prefix.is_prefix_of(#[trigger] keys[i]) by {
        assert(keys.contains(keys[i]));
    }
    lemma_revoked_is_not_loaded(before, revoked_in(docs), docs, keys, key);
}

proof fn lemma_revoked_is_not_loaded(
    bundle: BundleView,
    revoked: Set<Seq<char>>,
    docs: Map<Seq<char>, automerge::Automerge>,
    keys: Seq<Seq<char>>,
    key: Seq<u8>,
)
    requires
        forall|i: int| 0 <= i < keys.len() ==> collection_prefix(CERTIFICATES_COLLECTION@).is_prefix_of(#[trigger] keys[i]),
        forall|name: Seq<char>, e: EntryView| #[trigger]
            is_entry_of(docs, name, e, key) ==> revoked.contains(e.subject),
        !bundle.certificates.contains_key(key),
    ensures
        !with_entries(bundle, revoked, entries_at(docs, keys)).certificates.contains_key(key),
    decreases keys.len(),
{
    if keys.len() > 0 {
        let front = keys.drop_last();
        assert forall|i: int| 0 <= i < front.len() implies collection_prefix(CERTIFICATES_COLLECTION@).is_prefix_of(
            #[trigger] front[i],
        ) by {
            assert(front[i] == keys[i]);
        }
        lemma_revoked_is_not_loaded(bundle, revoked, docs, front, key);
        assert(keys[keys.len() - 1] == keys.last());
        if entry_at(docs, keys.last()) is Some {
            let e = entry_at(docs, keys.last())->Some_0;
            let all = entries_at(docs, keys);
            assert(all.drop_last() =~= entries_at(docs, front));
            assert(all.last() == e);
            if e.certificate() is Ok && e.certificate()->Ok_0.subject_public_key == key {
                assert(is_entry_of(docs, keys.last(), e, key));
            }
        }
    }
}

proof fn lemma_one_is_loaded(
    bundle: BundleView,
    revoked: Set<Seq<char>>,
    docs: Map<Seq<char>, automerge::Automerge>,
    keys: Seq<Seq<char>>,
    c: CertificateView,
    now_ms: u64,
)
    requires
        forall|i: int| 0 <= i < keys.len() ==> collection_prefix(CERTIFICATES_COLLECTION@).is_prefix_of(#[trigger] keys[i]),
        forall|name: Seq<char>, e: EntryView| #[trigger]
            is_entry_of(docs, name, e, c.subject_public_key) ==> e.certificate()->Ok_0 == c,
        entry_at(docs, certificate_key(text::hex_text(c.subject_public_key))) == Some(entry_of(c, now_ms)),
        c.fits_wire(),
        bundle.admission(c) is Ok,
        !revoked.contains(text::hex_text(c.subject_public_key)),
    ensures
        with_entries(bundle, revoked, entries_at(docs, keys)).authorities == bundle.authorities,
        keys.contains(certificate_key(text::hex_text(c.subject_public_key))) ==> {
            let certificates = with_entries(bundle, revoked, entries_at(docs, keys)).certificates;
            certificates.contains_key(c.subject_public_key) && certificates[c.subject_public_key] == c
        },
    decreases keys.len(),
{
    let wanted = certificate_key(text::hex_text(c.subject_public_key));
    if keys.len() > 0 {
        let front = keys.drop_last();
        let key = keys.last();
        assert forall|i: int| 0 <= i < front.len() implies collection_prefix(CERTIFICATES_COLLECTION@).is_prefix_of(
            #[trigger] front[i],
        ) by {
            assert(front[i] == keys[i]);
        }
        lemma_one_is_loaded(bundle, revoked, docs, front, c, now_ms);
        assert(keys[keys.len() - 1] == key);
        if entry_at(docs, key) is Some {
            let e = entry_at(docs, key)->Some_0;
            let all = entries_at(docs, keys);
            assert(all.drop_last() =~= entries_at(docs, front));
            assert(all.last() == e);
            law_entry_roundtrip(c, now_ms);
            if e.certificate() is Ok && e.certificate()->Ok_0.subject_public_key == c.subject_public_key {
                assert(is_entry_of(docs, key, e, c.subject_public_key));
            }
        }
        if keys.contains(wanted) && key != wanted {
            let i = choose|i: int| 0 <= i < keys.len() && keys[i] == wanted;
            assert(front[i] == wanted);
        }
    }
}

/// A certificate that stands in the store comes into every bundle that accepts it, in
/// whatever order the documents are read, unless its subject is revoked or the store
/// holds another certificate of the same key.
pub proof fn law_published_is_loaded(
    before: BundleView,
    after: BundleView,
    docs: Map<Seq<char>, automerge::Automerge>,
    count: nat,
    c: CertificateView,
    now_ms: u64,
)
    requires
        is_load(before, after, docs, count),
        forall|name: Seq<char>, e: EntryView| #[trigger]
            is_entry_of(docs, name, e, c.subject_public_key) ==> e.certificate()->Ok_0 == c,
        entry_at(docs, certificate_key(text::hex_text(c.subject_public_key))) == Some(entry_of(c, now_ms)),
        c.fits_wire(),
        before.admission(c) is Ok,
        !revoked_in(docs).contains(text::hex_text(c.subject_public_key)),
    ensures
        after.certificates.contains_key(c.subject_public_key),
        after.certificates[c.subject_public_key] == c,
{
    let prefix = collection_prefix(CERTIFICATES_COLLECTION@);
    let keys = choose|keys: Seq<Seq<char>>|
        #![trigger entries_at(docs, keys)]
        automerge_store::is_scan(docs, prefix, keys) && after == with_entries(
            before,
            revoked_in(docs),
            entries_at(docs, keys),
        ) && count == entries_admitted(before, revoked_in(docs), entries_at(docs, keys));
    assert forall|i: int| 0 <= i < keys.len() implies prefix.is_prefix_of(#[trigger] keys[i]) by {
        assert(keys.contains(keys[i]));
    }
    let key = certificate_key(text::hex_text(c.subject_public_key));
    assert(prefix.is_prefix_of(key));
    assert(keys.contains(key));
    lemma_one_is_loaded(before, revoked_in(docs), docs, keys, c, now_ms);
}

/// Loading documents adds only certificates that verify and come from a trusted
/// authority, and trusts no new authority.
pub proof fn law_loading_keeps_trust(bundle: BundleView, revoked: Set<Seq<char>>, entries: Seq<EntryView>)
    requires
        bundle.all_trusted(),
    ensures
        with_entries(bundle, revoked, entries).authorities == bundle.authorities,
        with_entries(bundle, revoked, entries).all_trusted(),
    decreases entries.len(),
{
    if entries.len() > 0 {
        law_loading_keeps_trust(bundle, revoked, entries.drop_last());
        let before = with_entries(bundle, revoked, entries.drop_last());
        let after = with_entries(bundle, revoked, entries);
        assert forall|k: Seq<u8>| after.certificates.contains_key(k) implies after.admission(
            #[trigger] after.certificates[k],
        ) is Ok by {
            if before.certificates.contains_key(k) {
                assert(before.admission(before.certificates[k]) is Ok);
            }
        }
    }
}

} // verus!

//! Trusted authority keys and peer certificates.

use vstd::prelude::*;
use vstd::string::*;

use crate::bytes::{bytes_eq, read_array32};
use crate::security::certificate;
use crate::security::certificate::{CertificateView, MeshCertificate, MeshTier};
use crate::security::crypto;
use crate::security::error;
use crate::security::error::{SecurityError, SecurityErrorView};
use crate::vec_map;
use crate::vec_map::VecMap;

verus! {

/// A bundle of trusted authority keys and peer certificates.
///
/// Used to validate peer connections and determine peer tier/permissions.
/// Maintains a dual index: by subject public key and by node_id (hostname).
pub struct CertificateBundle {
    authorities: Vec<[u8; 32]>,
    index: PeerIndex,
}

/// The two indexes of the certificates of a bundle.
struct PeerIndex {
    /// The certificates by subject public key, in the order in which they were filed.
    certificates: VecMap<[u8; 32], MeshCertificate>,
    /// The subject public keys by node name.
    names: VecMap<String, [u8; 32]>,
}

/// What a [`CertificateBundle`] holds.
#[verifier::ext_equal]
pub struct BundleView {
    /// The trusted authority keys, in the order in which they came.
    pub authorities: Seq<Seq<u8>>,
    /// The certificates by subject public key.
    pub certificates: Map<Seq<u8>, CertificateView>,
    /// The subject public keys, in the order in which their certificates were filed.
    pub filed: Seq<Seq<u8>>,
    /// The subject public key that a node name leads to.
    pub names: Map<Seq<char>, Seq<u8>>,
}

/// The bundle that trusts these authorities and holds no certificates.
pub open spec fn bare_bundle(authorities: Seq<Seq<u8>>) -> BundleView {
    BundleView { authorities, certificates: Map::empty(), filed: Seq::empty(), names: Map::empty() }
}

/// What node names lead to: a name that the certificates of several keys carry leads
/// to the one that was filed last.
pub open spec fn names_in(filed: Seq<Seq<u8>>, certificates: Map<Seq<u8>, CertificateView>) -> Map<Seq<char>, Seq<u8>>
    decreases filed.len(),
{
    if filed.len() == 0 {
        Map::empty()
    } else {
        let before = names_in(filed.drop_last(), certificates);
        let name = certificates[filed.last()].node_id;
        if name.len() > 0 {
            before.insert(name, filed.last())
        } else {
            before
        }
    }
}

/// Keys without one of them.
pub open spec fn without_key(filed: Seq<Seq<u8>>, key: Seq<u8>) -> Seq<Seq<u8>> {
    if filed.contains(key) {
        filed.remove(filed.index_of(key))
    } else {
        filed
    }
}

/// Those keys whose certificates have not expired.
pub open spec fn unexpired(filed: Seq<Seq<u8>>, certificates: Map<Seq<u8>, CertificateView>, now_ms: u64) -> Seq<Seq<u8>>
    decreases filed.len(),
{
    if filed.len() == 0 {
        Seq::empty()
    } else {
        let before = unexpired(filed.drop_last(), certificates, now_ms);
        if certificates[filed.last()].expired_at(now_ms) {
            before
        } else {
            before.push(filed.last())
        }
    }
}

impl BundleView {
    /// What every bundle satisfies: certificates are filed under their subjects, and
    /// the two indexes agree. A name leads to a key exactly if the certificate of the
    /// key carries it and no certificate that was filed later does.
    pub open spec fn consistent(self) -> bool {
        &&& self.authorities.no_duplicates()
        &&& self.certificates.dom().finite()
        &&& self.filed.no_duplicates()
        &&& forall|k: Seq<u8>| #[trigger] self.filed.contains(k) <==> self.certificates.contains_key(k)
        &&& forall|k: Seq<u8>|
            self.certificates.contains_key(k) ==> (#[trigger] self.certificates[k]).subject_public_key == k
        &&& forall|n: Seq<char>, k: Seq<u8>|
            #![trigger self.leads(n, k)]
            #![trigger self.holds_name(k, n)]
            self.leads(n, k) <==> self.holds_name(k, n)
        &&& forall|k: Seq<u8>|
            self.certificates.contains_key(k) && (#[trigger] self.certificates[k]).node_id.len() > 0
                ==> self.names.contains_key(self.certificates[k].node_id)
    }

    /// Whether a node name leads to a key.
    pub open spec fn leads(self, node_id: Seq<char>, key: Seq<u8>) -> bool {
        self.names.contains_key(node_id) && self.names[node_id] == key
    }

    /// Whether the certificate of a key carries a name that no certificate that was
    /// filed later carries.
    pub open spec fn holds_name(self, key: Seq<u8>, node_id: Seq<char>) -> bool {
        &&& node_id.len() > 0
        &&& exists|i: int| #[trigger] last_with_name(self.filed, self.certificates, node_id, i) && self.filed[i] == key
    }

    /// The bundle with one more trusted authority.
    pub open spec fn with_authority(self, key: Seq<u8>) -> BundleView {
        if self.authorities.contains(key) {
            self
        } else {
            BundleView { authorities: self.authorities.push(key), ..self }
        }
    }

    /// The bundle with `c` filed in it, in place of what was filed for its subject.
    pub open spec fn with_certificate(self, c: CertificateView) -> BundleView {
        let certificates = self.certificates.insert(c.subject_public_key, c);
        let filed = without_key(self.filed, c.subject_public_key).push(c.subject_public_key);
        BundleView { certificates, filed, names: names_in(filed, certificates), ..self }
    }

    /// The bundle with its authorities alone.
    pub open spec fn without_certificates(self) -> BundleView {
        bare_bundle(self.authorities)
    }

    /// Whether `c` comes from a trusted authority, or is its own issuer.
    pub open spec fn trusts(self, c: CertificateView) -> bool {
        c.is_root() || self.authorities.contains(c.issuer_public_key)
    }

    /// Whether `c` is accepted, or why not.
    pub open spec fn admission(self, c: CertificateView) -> Result<(), SecurityErrorView> {
        if c.verify_outcome() is Err {
            c.verify_outcome()
        } else if !self.trusts(c) {
            Err(SecurityErrorView::CertificateError("issuer not in trusted authorities"@))
        } else {
            Ok(())
        }
    }

    /// Whether `c` is in its validity window, its signature verifies, and it comes from
    /// a trusted authority or is its own issuer.
    pub open spec fn vouches(self, c: CertificateView, now_ms: u64) -> bool {
        &&& c.valid_at(now_ms)
        &&& c.verify_outcome() is Ok
        &&& self.trusts(c)
    }

    /// Whether the certificate under `key` is valid, not expired and signed by a
    /// trusted authority.
    pub open spec fn validates(self, key: Seq<u8>, now_ms: u64) -> bool {
        self.certificates.contains_key(key) && self.vouches(self.certificates[key], now_ms)
    }

    /// The certificate that a node name leads to.
    pub open spec fn named(self, node_id: Seq<char>) -> Option<CertificateView> {
        if self.names.contains_key(node_id) && self.certificates.contains_key(self.names[node_id]) {
            Some(self.certificates[self.names[node_id]])
        } else {
            None
        }
    }

    /// The bundle without the certificates that have expired.
    pub open spec fn without_expired(self, now_ms: u64) -> BundleView {
        let certificates = self.certificates.restrict(
            Set::new(|k: Seq<u8>| self.certificates.contains_key(k) && !self.certificates[k].expired_at(now_ms)),
        );
        let filed = unexpired(self.filed, self.certificates, now_ms);
        BundleView { certificates, filed, names: names_in(filed, certificates), ..self }
    }

    /// Whether every certificate verifies and comes from a trusted authority.
    pub open spec fn all_trusted(self) -> bool {
        forall|k: Seq<u8>|
            self.certificates.contains_key(k) ==> self.admission(#[trigger] self.certificates[k]) is Ok
    }
}

/// Whether the certificate of the key at `i` carries a name and none after it does.
pub open spec fn last_with_name(
    filed: Seq<Seq<u8>>,
    certificates: Map<Seq<u8>, CertificateView>,
    node_id: Seq<char>,
    i: int,
) -> bool {
    &&& 0 <= i < filed.len()
    &&& certificates[filed[i]].node_id == node_id
    &&& forall|j: int| i < j < filed.len() ==> certificates[#[trigger] filed[j]].node_id != node_id
}

/// Names lead where they are carried last.
proof fn lemma_names_in(filed: Seq<Seq<u8>>, certificates: Map<Seq<u8>, CertificateView>, n: Seq<char>)
    ensures
        names_in(filed, certificates).contains_key(n) ==> n.len() > 0 && exists|i: int| #[trigger]
            last_with_name(filed, certificates, n, i) && filed[i] == names_in(filed, certificates)[n],
        forall|i: int|
            #![trigger filed[i]]
            0 <= i < filed.len() && certificates[filed[i]].node_id == n && n.len() > 0 ==> names_in(
                filed,
                certificates,
            ).contains_key(n),
    decreases filed.len(),
{
    if filed.len() > 0 {
        let front = filed.drop_last();
        let last = filed.len() - 1;
        lemma_names_in(front, certificates, n);
        if certificates[filed.last()].node_id == n {
            if n.len() > 0 {
                assert(last_with_name(filed, certificates, n, last));
            }
        } else if names_in(front, certificates).contains_key(n) {
            let i = choose|i: int| #[trigger]
                last_with_name(front, certificates, n, i) && front[i] == names_in(front, certificates)[n];
            assert forall|j: int| i < j < filed.len() implies certificates[#[trigger] filed[j]].node_id != n by {
                if j < last {
                    assert(front[j] == filed[j]);
                }
            }
            assert(last_with_name(filed, certificates, n, i));
        }
        assert forall|i: int|
            #![trigger filed[i]]
            0 <= i < filed.len() && certificates[filed[i]].node_id == n && n.len() > 0 implies names_in(
            filed,
            certificates,
        ).contains_key(n) by {
            if i < last {
                assert(front[i] == filed[i]);
            }
        }
    }
}

/// The indexes agree where names lead where they are carried last.
proof fn lemma_consistent(b: BundleView)
    requires
        b.authorities.no_duplicates(),
        b.certificates.dom().finite(),
        b.filed.no_duplicates(),
        forall|k: Seq<u8>| #[trigger] b.filed.contains(k) <==> b.certificates.contains_key(k),
        forall|k: Seq<u8>|
            b.certificates.contains_key(k) ==> (#[trigger] b.certificates[k]).subject_public_key == k,
        b.names == names_in(b.filed, b.certificates),
    ensures
        b.consistent(),
{
    assert forall|n: Seq<char>, k: Seq<u8>|
        #![trigger b.leads(n, k)]
        #![trigger b.holds_name(k, n)]
        b.leads(n, k) <==> b.holds_name(k, n) by {
        lemma_names_in(b.filed, b.certificates, n);
        if b.holds_name(k, n) {
            let i = choose|i: int| #[trigger] last_with_name(b.filed, b.certificates, n, i) && b.filed[i] == k;
            assert(certificates_at(b, i).node_id == n);
            let j = choose|j: int| #[trigger] last_with_name(b.filed, b.certificates, n, j) && b.filed[j] == b.names[n];
            if i < j {
                assert(b.certificates[b.filed[j]].node_id != n);
            } else if j < i {
                assert(b.certificates[b.filed[i]].node_id != n);
            }
        }
    }
    assert forall|k: Seq<u8>|
        b.certificates.contains_key(k) && (#[trigger] b.certificates[k]).node_id.len() > 0 implies b.names.contains_key(
        b.certificates[k].node_id,
    ) by {
        lemma_names_in(b.filed, b.certificates, b.certificates[k].node_id);
        assert(b.filed.contains(k));
        let i = choose|i: int| 0 <= i < b.filed.len() && b.filed[i] == k;
        assert(certificates_at(b, i).node_id == b.certificates[k].node_id);
    }
}

spec fn certificates_at(b: BundleView, i: int) -> CertificateView {
    b.certificates[b.filed[i]]
}

proof fn lemma_without_key(filed: Seq<Seq<u8>>, key: Seq<u8>)
    requires
        filed.no_duplicates(),
    ensures
        without_key(filed, key).no_duplicates(),
        forall|k: Seq<u8>| #[trigger] without_key(filed, key).contains(k) <==> filed.contains(k) && k != key,
{
    let rest = without_key(filed, key);
    if filed.contains(key) {
        let at = filed.index_of(key);
        assert(0 <= at < filed.len() && filed[at] == key);
        assert forall|i: int| 0 <= i < rest.len() implies #[trigger] rest[i] == filed[if i < at {
            i
        } else {
            i + 1
        }] by {}
        assert forall|k: Seq<u8>| #[trigger] rest.contains(k) <==> filed.contains(k) && k != key by {
            if rest.contains(k) {
                let i = choose|i: int| 0 <= i < rest.len() && rest[i] == k;
                let j = if i < at {
                    i
                } else {
                    i + 1
                };
                assert(filed[j] == k);
            }
            if filed.contains(k) && k != key {
                let j = choose|j: int| 0 <= j < filed.len() && filed[j] == k;
                let i = if j < at {
                    j
                } else {
                    j - 1
                };
                assert(rest[i] == k);
            }
        }
    }
}

proof fn lemma_unexpired(filed: Seq<Seq<u8>>, certificates: Map<Seq<u8>, CertificateView>, now_ms: u64)
    requires
        filed.no_duplicates(),
    ensures
        unexpired(filed, certificates, now_ms).no_duplicates(),
        forall|k: Seq<u8>| #[trigger]
            unexpired(filed, certificates, now_ms).contains(k) <==> filed.contains(k) && !certificates[k].expired_at(
                now_ms,
            ),
    decreases filed.len(),
{
    if filed.len() > 0 {
        let front = filed.drop_last();
        let last = filed.last();
        lemma_unexpired(front, certificates, now_ms);
        let before = unexpired(front, certificates, now_ms);
        let kept = unexpired(filed, certificates, now_ms);
        assert(filed =~= front.push(last));
        assert forall|k: Seq<u8>| #[trigger] filed.contains(k) <==> front.contains(k) || k == last by {
            if front.contains(k) {
                let i = choose|i: int| 0 <= i < front.len() && front[i] == k;
                assert(filed[i] == k);
            }
            assert(filed[filed.len() - 1] == last);
            if filed.contains(k) && k != last {
                let i = choose|i: int| 0 <= i < filed.len() && filed[i] == k;
                assert(front[i] == k);
            }
        }
        assert(!front.contains(last)) by {
            if front.contains(last) {
                let i = choose|i: int| 0 <= i < front.len() && front[i] == last;
                assert(filed[i] == filed[filed.len() - 1]);
            }
        }
        if !certificates[last].expired_at(now_ms) {
            assert(kept =~= before.push(last));
            assert forall|k: Seq<u8>| #[trigger] kept.contains(k) <==> before.contains(k) || k == last by {
                if before.contains(k) {
                    let i = choose|i: int| 0 <= i < before.len() && before[i] == k;
                    assert(kept[i] == k);
                }
                assert(kept[before.len() as int] == last);
                if kept.contains(k) && k != last {
                    let i = choose|i: int| 0 <= i < kept.len() && kept[i] == k;
                    assert(before[i] == k);
                }
            }
            assert forall|i: int, j: int| 0 <= i < kept.len() && 0 <= j < kept.len() && i != j implies kept[i]
                != kept[j] by {
                if i == before.len() {
                    assert(before.contains(before[j]));
                } else if j == before.len() {
                    assert(before.contains(before[i]));
                }
            }
        }
    }
}

/// Which authorities are trusted does not matter to the indexes.
proof fn lemma_with_authorities(b: BundleView, authorities: Seq<Seq<u8>>)
    requires
        b.consistent(),
        authorities.no_duplicates(),
    ensures
        (BundleView { authorities, ..b }).consistent(),
{
    let after = BundleView { authorities, ..b };
    assert forall|n: Seq<char>, k: Seq<u8>|
        #![trigger after.leads(n, k)]
        #![trigger after.holds_name(k, n)]
        after.leads(n, k) <==> after.holds_name(k, n) by {
        assert(after.leads(n, k) == b.leads(n, k));
        if after.holds_name(k, n) {
            let i = choose|i: int| #[trigger]
                last_with_name(after.filed, after.certificates, n, i) && after.filed[i] == k;
            assert(last_with_name(b.filed, b.certificates, n, i));
            assert(b.holds_name(k, n));
        }
        if b.holds_name(k, n) {
            let i = choose|i: int| #[trigger] last_with_name(b.filed, b.certificates, n, i) && b.filed[i] == k;
            assert(last_with_name(after.filed, after.certificates, n, i));
        }
    }
}

/// Filing a certificate keeps a bundle consistent.
pub proof fn lemma_with_certificate(b: BundleView, c: CertificateView)
    requires
        b.consistent(),
    ensures
        b.with_certificate(c).consistent(),
{
    let after = b.with_certificate(c);
    let key = c.subject_public_key;
    let rest = without_key(b.filed, key);
    lemma_without_key(b.filed, key);
    assert forall|k: Seq<u8>| #[trigger] after.filed.contains(k) <==> after.certificates.contains_key(k) by {
        assert(rest.contains(k) <==> b.filed.contains(k) && k != key);
        if rest.contains(k) {
            let i = choose|i: int| 0 <= i < rest.len() && rest[i] == k;
            assert(after.filed[i] == k);
        }
        assert(after.filed[rest.len() as int] == key);
        if after.filed.contains(k) && k != key {
            let i = choose|i: int| 0 <= i < after.filed.len() && after.filed[i] == k;
            assert(rest[i] == k);
        }
    }
    assert forall|i: int, j: int| 0 <= i < after.filed.len() && 0 <= j < after.filed.len() && i != j implies after.filed[i]
        != after.filed[j] by {
        if i == rest.len() {
            assert(rest.contains(rest[j]));
        } else if j == rest.len() {
            assert(rest.contains(rest[i]));
        }
    }
    lemma_consistent(after);
}

/// Purging keeps a bundle consistent.
pub proof fn lemma_without_expired(b: BundleView, now_ms: u64)
    requires
        b.consistent(),
    ensures
        b.without_expired(now_ms).consistent(),
{
    let after = b.without_expired(now_ms);
    lemma_unexpired(b.filed, b.certificates, now_ms);
    assert(after.certificates.dom().subset_of(b.certificates.dom()));
    vstd::set_lib::lemma_set_subset_finite(b.certificates.dom(), after.certificates.dom());
    assert forall|k: Seq<u8>| #[trigger] after.filed.contains(k) <==> after.certificates.contains_key(k) by {
        assert(b.filed.contains(k) <==> b.certificates.contains_key(k));
    }
    lemma_consistent(after);
}

spec fn certificate_views(m: Map<Seq<u8>, MeshCertificate>) -> Map<Seq<u8>, CertificateView> {
    m.map_values(|c: MeshCertificate| c@)
}

spec fn key_views(m: Map<Seq<char>, [u8; 32]>) -> Map<Seq<char>, Seq<u8>> {
    m.map_values(|k: [u8; 32]| k@)
}

impl PeerIndex {
    spec fn certificates_view(self) -> Map<Seq<u8>, CertificateView> {
        certificate_views(self.certificates@)
    }

    spec fn filed_view(self) -> Seq<Seq<u8>> {
        vec_map::entry_keys(self.certificates.items())
    }

    spec fn names_view(self) -> Map<Seq<char>, Seq<u8>> {
        key_views(self.names@)
    }

    fn empty() -> (r: Self)
        ensures
            r.certificates_view() == Map::<Seq<u8>, CertificateView>::empty(),
            r.filed_view() == Seq::<Seq<u8>>::empty(),
            r.names_view() == Map::<Seq<char>, Seq<u8>>::empty(),
    {
        let r = PeerIndex { certificates: VecMap::new(), names: VecMap::new() };
        proof {
            assert(r.certificates_view() =~= Map::<Seq<u8>, CertificateView>::empty());
            assert(r.filed_view() =~= Seq::<Seq<u8>>::empty());
            assert(r.names_view() =~= Map::<Seq<char>, Seq<u8>>::empty());
        }
        r
    }

    /// The index of certificates that were filed in order.
    fn of(certificates: VecMap<[u8; 32], MeshCertificate>) -> (r: Self)
        ensures
            r.certificates_view() == certificate_views(certificates@),
            r.filed_view() == vec_map::entry_keys(certificates.items()),
            r.names_view() == names_in(
                vec_map::entry_keys(certificates.items()),
                certificate_views(certificates@),
            ),
    {
        let ghost filed = vec_map::entry_keys(certificates.items());
        let ghost views = certificate_views(certificates@);
        let mut names: VecMap<String, [u8; 32]> = VecMap::new();
        let count: usize = certificates.len();
        let mut i: usize = 0;
        proof {
            assert(key_views(names@) =~= names_in(filed.take(0), views));
        }
        while i < count
            invariant
                i <= count,
                count == certificates.items().len(),
                filed == vec_map::entry_keys(certificates.items()),
                views == certificate_views(certificates@),
                key_views(names@) == names_in(filed.take(i as int), views),
            decreases count - i,
        {
            let e = certificates.item(i);
            let ghost before = names@;
            proof {
                assert(filed.take(i + 1).drop_last() =~= filed.take(i as int));
                assert(filed.take(i + 1).last() == e.0@);
                assert(views[e.0@] == e.1@);
            }
            if !e.1.node_id.as_str().is_empty() {
                names.insert(e.1.node_id.clone(), e.0);
                proof {
                    assert(key_views(names@) =~= key_views(before).insert(e.1.node_id@, e.0@));
                }
            }
            i = i + 1;
        }
        proof {
            assert(filed.take(count as int) =~= filed);
        }
        PeerIndex { certificates, names }
    }
}

impl View for CertificateBundle {
    type V = BundleView;

    closed spec fn view(&self) -> BundleView {
        BundleView {
            authorities: self.authorities@.map_values(|k: [u8; 32]| k@),
            certificates: self.index.certificates_view(),
            filed: self.index.filed_view(),
            names: self.index.names_view(),
        }
    }
}

impl CertificateBundle {
    #[verifier::type_invariant]
    spec fn wf(self) -> bool {
        self@.consistent()
    }

    /// Create an empty bundle.
    pub fn new() -> (r: Self)
        ensures
            r@ == bare_bundle(Seq::empty()),
            r@.consistent(),
    {
        let authorities: Vec<[u8; 32]> = Vec::new();
        let index = PeerIndex::empty();
        proof {
            assert(authorities@.map_values(|k: [u8; 32]| k@) =~= Seq::<Seq<u8>>::empty());
            lemma_consistent(bare_bundle(Seq::empty()));
        }
        CertificateBundle { authorities, index }
    }

    /// Let all certificates go; the authorities stay trusted.
    pub fn clear_certificates(&mut self)
        ensures
            final(self)@ == old(self)@.without_certificates(),
            final(self)@.consistent(),
    {
        proof {
            use_type_invariant(&*self);
            lemma_consistent(self@.without_certificates());
        }
        self.index = PeerIndex::empty();
    }

    fn is_authority(&self, key: &[u8; 32]) -> (r: bool)
        ensures
            r == self@.authorities.contains(key@),
    {
        let mut i: usize = 0;
        while i < self.authorities.len()
            invariant
                i <= self.authorities@.len(),
                forall|j: int| 0 <= j < i ==> (#[trigger] self.authorities@[j])@ != key@,
            decreases self.authorities@.len() - i,
        {
            if bytes_eq(self.authorities[i].as_slice(), key.as_slice()) {
                assert(self@.authorities[i as int] == key@);
                return true;
            }
            i = i + 1;
        }
        assert forall|j: int| 0 <= j < self@.authorities.len() implies self@.authorities[j] != key@ by {
            assert(self@.authorities[j] == self.authorities@[j]@);
        }
        false
    }

    /// Add a trusted authority public key.
    pub fn add_authority(&mut self, public_key: [u8; 32])
        ensures
            final(self)@ == old(self)@.with_authority(public_key@),
            final(self)@.consistent(),
    {
        proof {
            use_type_invariant(&*self);
        }
        if !self.is_authority(&public_key) {
            let ghost before = self@;
            let mut authorities: Vec<[u8; 32]> = Vec::new();
            proof {
                assert(authorities@.map_values(|k: [u8; 32]| k@) =~= Seq::<Seq<u8>>::empty());
                lemma_with_authorities(before, Seq::empty());
                lemma_with_authorities(before, before.authorities.push(public_key@));
            }
            std::mem::swap(&mut authorities, &mut self.authorities);
            authorities.push(public_key);
            proof {
                assert(authorities@.map_values(|k: [u8; 32]| k@) =~= before.authorities.push(public_key@));
            }
            self.authorities = authorities;
        }
    }

    fn file(&mut self, cert: MeshCertificate)
        ensures
            final(self)@ == old(self)@.with_certificate(cert@),
            final(self)@.consistent(),
    {
        proof {
            use_type_invariant(&*self);
            lemma_consistent(self@.without_certificates());
            lemma_with_certificate(self@, cert@);
        }
        let ghost before = self@;
        let mut index = PeerIndex::empty();
        std::mem::swap(&mut index, &mut self.index);
        let PeerIndex { mut certificates, .. } = index;
        let ghost items = certificates.items();
        let key = cert.subject_public_key;
        let ghost c = cert@;
        let _count: usize = certificates.len();
        let _ = certificates.remove(&key);
        proof {
            lemma_entry_removed(items, key@);
            assert(certificates@.dom().contains(key@) == false);
        }
        let ghost rest = certificates.items();
        certificates.insert(key, cert);
        proof {
            let after = before.with_certificate(c);
            assert(certificate_views(certificates@) =~= after.certificates);
            assert(vec_map::entry_keys(certificates.items()) =~= vec_map::entry_keys(rest).push(key@));
        }
        self.index = PeerIndex::of(certificates);
    }

    /// Add a certificate to the bundle.
    ///
    /// The certificate's signature is verified against the trusted authorities.
    /// Returns an error if the issuer is not trusted or the signature is invalid. A
    /// certificate that is its own issuer needs no authority.
    pub fn add_certificate(&mut self, cert: MeshCertificate) -> (r: Result<(), SecurityError>)
        ensures
            error::outcome(r) == old(self)@.admission(cert@),
            r is Ok ==> final(self)@ == old(self)@.with_certificate(cert@),
            r is Err ==> final(self)@ == old(self)@,
            final(self)@.consistent(),
    {
        proof {
            use_type_invariant(&*self);
        }
        match cert.verify() {
            Ok(()) => {},
            Err(e) => return Err(e),
        }
        if !cert.is_root() && !self.is_authority(&cert.issuer_public_key) {
            return Err(SecurityError::CertificateError("issuer not in trusted authorities".to_owned()));
        }
        self.file(cert);
        Ok(())
    }

    /// Add a certificate without validation (for loading pre-validated bundles).
    pub fn add_certificate_unchecked(&mut self, cert: MeshCertificate)
        ensures
            final(self)@ == old(self)@.with_certificate(cert@),
            final(self)@.consistent(),
    {
        self.file(cert);
    }

    fn vouches_for(&self, cert: &MeshCertificate, now_ms: u64) -> (r: bool)
        ensures
            r == self@.vouches(cert@, now_ms),
    {
        cert.is_valid(now_ms) && cert.verify().is_ok() && (cert.is_root() || self.is_authority(&cert.issuer_public_key))
    }

    /// Validate a peer's public key against the bundle.
    ///
    /// Returns `true` if the peer has a valid, non-expired certificate signed by a
    /// trusted authority, or one that is its own issuer.
    pub fn validate_peer(&self, peer_public_key: &[u8; 32], now_ms: u64) -> (r: bool)
        ensures
            r == self@.validates(peer_public_key@, now_ms),
    {
        match self.index.certificates.get(peer_public_key) {
            Some(cert) => self.vouches_for(cert, now_ms),
            None => false,
        }
    }

    /// Get the tier for a peer, if they have a valid certificate: one whose signature
    /// verifies. [`Self::get_peer_tier_at`] also asks for the time and the issuer.
    pub fn get_peer_tier(&self, peer_public_key: &[u8; 32]) -> (r: Option<MeshTier>)
        ensures
            r == (if self@.certificates.contains_key(peer_public_key@)
                && self@.certificates[peer_public_key@].verify_outcome() is Ok {
                Some(self@.certificates[peer_public_key@].tier)
            } else {
                None
            }),
    {
        match self.index.certificates.get(peer_public_key) {
            Some(cert) => if cert.verify().is_ok() {
                Some(cert.tier)
            } else {
                None
            },
            None => None,
        }
    }

    /// Get the tier for a peer, if the peer is valid at `now_ms`.
    pub fn get_peer_tier_at(&self, peer_public_key: &[u8; 32], now_ms: u64) -> (r: Option<MeshTier>)
        ensures
            r == (if self@.validates(peer_public_key@, now_ms) {
                Some(self@.certificates[peer_public_key@].tier)
            } else {
                None
            }),
    {
        match self.index.certificates.get(peer_public_key) {
            Some(cert) => if self.vouches_for(cert, now_ms) {
                Some(cert.tier)
            } else {
                None
            },
            None => None,
        }
    }

    /// Get the permissions for a peer, if they have a valid certificate: one whose
    /// signature verifies. [`Self::get_peer_permissions_at`] also asks for the time and
    /// the issuer.
    pub fn get_peer_permissions(&self, peer_public_key: &[u8; 32]) -> (r: Option<u8>)
        ensures
            r == (if self@.certificates.contains_key(peer_public_key@)
                && self@.certificates[peer_public_key@].verify_outcome() is Ok {
                Some(self@.certificates[peer_public_key@].permissions)
            } else {
                None
            }),
    {
        match self.index.certificates.get(peer_public_key) {
            Some(cert) => if cert.verify().is_ok() {
                Some(cert.permissions)
            } else {
                None
            },
            None => None,
        }
    }

    /// Get the permissions for a peer, if the peer is valid at `now_ms`.
    pub fn get_peer_permissions_at(&self, peer_public_key: &[u8; 32], now_ms: u64) -> (r: Option<u8>)
        ensures
            r == (if self@.validates(peer_public_key@, now_ms) {
                Some(self@.certificates[peer_public_key@].permissions)
            } else {
                None
            }),
    {
        match self.index.certificates.get(peer_public_key) {
            Some(cert) => if self.vouches_for(cert, now_ms) {
                Some(cert.permissions)
            } else {
                None
            },
            None => None,
        }
    }

    /// Get a certificate by subject public key.
    pub fn get_certificate(&self, public_key: &[u8; 32]) -> (r: Option<&MeshCertificate>)
        ensures
            match r {
                Some(c) => self@.certificates.contains_key(public_key@) && c@ == self@.certificates[public_key@],
                None => !self@.certificates.contains_key(public_key@),
            },
    {
        self.index.certificates.get(public_key)
    }

    /// Get a certificate by node_id (discovery hostname). Where the certificates of
    /// several keys carry the name, it is the one that was filed last.
    pub fn get_certificate_by_node_id(&self, node_id: &str) -> (r: Option<&MeshCertificate>)
        ensures
            match r {
                Some(c) => self@.named(node_id@) == Some(c@),
                None => self@.named(node_id@) is None,
            },
            self@.consistent(),
    {
        proof {
            use_type_invariant(self);
        }
        let name = node_id.to_owned();
        match self.index.names.get(&name) {
            Some(key) => self.index.certificates.get(key),
            None => None,
        }
    }

    /// Validate a peer by node_id (discovery hostname).
    ///
    /// Returns `true` if the node_id maps to a valid, non-expired certificate signed by
    /// a trusted authority, or to one that is its own issuer.
    pub fn validate_node_id(&self, node_id: &str, now_ms: u64) -> (r: bool)
        ensures
            r == match self@.named(node_id@) {
                Some(c) => self@.vouches(c, now_ms),
                None => false,
            },
    {
        match self.get_certificate_by_node_id(node_id) {
            Some(cert) => self.vouches_for(cert, now_ms),
            None => false,
        }
    }

    /// Get the tier for a node_id, if it has a valid certificate: one whose signature
    /// verifies. [`Self::get_node_tier_at`] also asks for the time and the issuer.
    pub fn get_node_tier(&self, node_id: &str) -> (r: Option<MeshTier>)
        ensures
            r == match self@.named(node_id@) {
                Some(c) => if c.verify_outcome() is Ok {
                    Some(c.tier)
                } else {
                    None
                },
                None => None,
            },
    {
        match self.get_certificate_by_node_id(node_id) {
            Some(cert) => if cert.verify().is_ok() {
                Some(cert.tier)
            } else {
                None
            },
            None => None,
        }
    }

    /// Get the tier for a node_id, if it has a certificate that is valid at `now_ms`.
    pub fn get_node_tier_at(&self, node_id: &str, now_ms: u64) -> (r: Option<MeshTier>)
        ensures
            r == match self@.named(node_id@) {
                Some(c) => if self@.vouches(c, now_ms) {
                    Some(c.tier)
                } else {
                    None
                },
                None => None,
            },
    {
        match self.get_certificate_by_node_id(node_id) {
            Some(cert) => if self.vouches_for(cert, now_ms) {
                Some(cert.tier)
            } else {
                None
            },
            None => None,
        }
    }

    /// Number of certificates in the bundle.
    pub fn len(&self) -> (r: usize)
        ensures
            r == self@.certificates.dom().len(),
    {
        proof {
            assert(self@.certificates.dom() =~= self.index.certificates@.dom());
        }
        self.index.certificates.len()
    }

    /// Whether the bundle is empty.
    pub fn is_empty(&self) -> (r: bool)
        ensures
            r == (self@.certificates.dom().len() == 0),
    {
        self.len() == 0
    }

    /// Number of trusted authorities.
    pub fn authority_count(&self) -> (r: usize)
        ensures
            r == self@.authorities.len(),
    {
        self.authorities.len()
    }

    /// Remove expired certificates. Returns the number removed.
    pub fn remove_expired(&mut self, now_ms: u64) -> (removed: usize)
        ensures
            final(self)@ == old(self)@.without_expired(now_ms),
            removed == old(self)@.certificates.dom().len() - final(self)@.certificates.dom().len(),
            final(self)@.consistent(),
    {
        proof {
            use_type_invariant(&*self);
            lemma_without_expired(self@, now_ms);
        }
        let ghost before = self@;
        let ghost filed = before.filed;
        let count: usize = self.index.certificates.len();
        let mut kept: VecMap<[u8; 32], MeshCertificate> = VecMap::new();
        let mut i: usize = 0;
        proof {
            assert(vec_map::entry_keys(kept.items()) =~= unexpired(filed.take(0), before.certificates, now_ms));
            assert(filed.len() == count);
        }
        while i < count
            invariant
                i <= count,
                count == filed.len(),
                self@ == before,
                before.consistent(),
                filed == before.filed,
                count == self.index.certificates.items().len(),
                vec_map::entry_keys(kept.items()) == unexpired(filed.take(i as int), before.certificates, now_ms),
                forall|k: Seq<u8>| #[trigger]
                    kept@.contains_key(k) <==> unexpired(
                        filed.take(i as int),
                        before.certificates,
                        now_ms,
                    ).contains(k),
                forall|k: Seq<u8>| #[trigger] kept@.contains_key(k) ==> kept@[k]@ == before.certificates[k],
            decreases count - i,
        {
            let e = self.index.certificates.item(i);
            let ghost upto = unexpired(filed.take(i as int), before.certificates, now_ms);
            proof {
                let now_upto = filed.take(i + 1);
                assert(now_upto.drop_last() =~= filed.take(i as int));
                assert(now_upto.last() == e.0@);
                assert(before.certificates[e.0@] == e.1@);
                assert(filed.take(i as int).no_duplicates());
                lemma_unexpired(filed.take(i as int), before.certificates, now_ms);
                assert(!filed.take(i as int).contains(e.0@)) by {
                    if filed.take(i as int).contains(e.0@) {
                        let j = choose|j: int| 0 <= j < i && filed.take(i as int)[j] == e.0@;
                        assert(filed[j] == filed[i as int]);
                    }
                }
                assert(!upto.contains(e.0@));
            }
            if !(e.1.expires_at_ms != 0 && e.1.expires_at_ms <= now_ms) {
                let ghost rest = kept.items();
                let ghost m = kept@;
                kept.insert(e.0, e.1.clone());
                proof {
                    assert(!m.contains_key(e.0@));
                    assert(vec_map::entry_keys(kept.items()) =~= vec_map::entry_keys(rest).push(e.0@));
                    let longer = upto.push(e.0@);
                    assert forall|k: Seq<u8>| #[trigger] kept@.contains_key(k) <==> longer.contains(k) by {
                        if upto.contains(k) {
                            let j = choose|j: int| 0 <= j < upto.len() && upto[j] == k;
                            assert(longer[j] == k);
                        }
                        assert(longer[upto.len() as int] == e.0@);
                        if longer.contains(k) && k != e.0@ {
                            let j = choose|j: int| 0 <= j < longer.len() && longer[j] == k;
                            assert(upto[j] == k);
                        }
                        assert(m.contains_key(k) <==> upto.contains(k));
                    }
                    assert forall|k: Seq<u8>| #[trigger] kept@.contains_key(k) implies kept@[k]@
                        == before.certificates[k] by {
                        if k != e.0@ {
                            assert(m.contains_key(k));
                        }
                    }
                }
            }
            i = i + 1;
        }
        let left: usize = kept.len();
        proof {
            let after = before.without_expired(now_ms);
            assert(filed.take(count as int) =~= filed);
            lemma_unexpired(filed, before.certificates, now_ms);
            assert forall|k: Seq<u8>| #[trigger] kept@.contains_key(k) <==> after.certificates.contains_key(k) by {
                assert(after.filed.contains(k) <==> after.certificates.contains_key(k));
            }
            assert(certificate_views(kept@) =~= after.certificates);
            assert(before.certificates.dom() =~= self.index.certificates@.dom());
            assert(after.certificates.dom() =~= kept@.dom());
            assert(after.certificates.dom().subset_of(before.certificates.dom()));
            vstd::set_lib::lemma_len_subset(after.certificates.dom(), before.certificates.dom());
        }
        self.index = PeerIndex::of(kept);
        count - left
    }

    /// Trusts the authority keys in `files`, the contents of the files of a
    /// directory. A file that is no raw 32-byte Ed25519 public key is skipped.
    /// Returns how many files held a key.
    pub fn load_authorities(&mut self, files: &Vec<Vec<u8>>) -> (count: usize)
        ensures
            final(self)@ == with_authority_files(old(self)@, files@),
            count == authority_files(files@),
            final(self)@.consistent(),
    {
        proof {
            use_type_invariant(&*self);
        }
        let mut count: usize = 0;
        let mut i: usize = 0;
        while i < files.len()
            invariant
                i <= files@.len(),
                count <= i,
                self@ == with_authority_files(old(self)@, files@.take(i as int)),
                self@.consistent(),
                count == authority_files(files@.take(i as int)),
            decreases files@.len() - i,
        {
            proof {
                assert(files@.take(i + 1).drop_last() =~= files@.take(i as int));
                assert(files@.take(i + 1).last() == files@[i as int]);
            }
            if files[i].len() == 32 {
                let key = read_array32(files[i].as_slice(), 0);
                assert(key@ =~= files@[i as int]@);
                if crypto::check_public_key(&key).is_none() {
                    self.add_authority(key);
                    count = count + 1;
                }
            }
            i = i + 1;
        }
        assert(files@.take(i as int) =~= files@);
        count
    }

    /// Adds the certificates in `files`, the contents of the files of a
    /// directory. A file that is no certificate on the wire, or whose certificate
    /// is not accepted, is skipped. Returns how many were added.
    pub fn load_certificates(&mut self, files: &Vec<Vec<u8>>) -> (count: usize)
        ensures
            final(self)@ == with_certificate_files(old(self)@, files@),
            count == accepted_files(old(self)@, files@),
            final(self)@.consistent(),
    {
        proof {
            use_type_invariant(&*self);
        }
        let mut count: usize = 0;
        let mut i: usize = 0;
        while i < files.len()
            invariant
                i <= files@.len(),
                count <= i,
                self@ == with_certificate_files(old(self)@, files@.take(i as int)),
                self@.consistent(),
                count == accepted_files(old(self)@, files@.take(i as int)),
            decreases files@.len() - i,
        {
            proof {
                assert(files@.take(i + 1).drop_last() =~= files@.take(i as int));
                assert(files@.take(i + 1).last() == files@[i as int]);
            }
            if let Ok(cert) = MeshCertificate::decode(files[i].as_slice()) {
                if self.add_certificate(cert).is_ok() {
                    count = count + 1;
                }
            }
            i = i + 1;
        }
        assert(files@.take(i as int) =~= files@);
        count
    }
}

/// Whether a file is a raw Ed25519 public key.
pub open spec fn is_authority_file(file: Seq<u8>) -> bool {
    file.len() == 32 && crypto::ed25519_key_error(file) is None
}

pub open spec fn with_authority_files(b: BundleView, files: Seq<Vec<u8>>) -> BundleView
    decreases files.len(),
{
    if files.len() == 0 {
        b
    } else {
        let prior = with_authority_files(b, files.drop_last());
        if is_authority_file(files.last()@) {
            prior.with_authority(files.last()@)
        } else {
            prior
        }
    }
}

pub open spec fn authority_files(files: Seq<Vec<u8>>) -> nat
    decreases files.len(),
{
    if files.len() == 0 {
        0
    } else {
        authority_files(files.drop_last()) + if is_authority_file(files.last()@) { 1nat } else { 0nat }
    }
}

/// The certificate in a file, where the bundle accepts it.
pub open spec fn accepted_file(b: BundleView, file: Seq<u8>) -> Option<CertificateView> {
    match certificate::parse_certificate(file) {
        Ok(c) => if b.admission(c) is Ok {
            Some(c)
        } else {
            None
        },
        Err(_) => None,
    }
}

pub open spec fn with_certificate_files(b: BundleView, files: Seq<Vec<u8>>) -> BundleView
    decreases files.len(),
{
    if files.len() == 0 {
        b
    } else {
        let prior = with_certificate_files(b, files.drop_last());
        match accepted_file(prior, files.last()@) {
            Some(c) => prior.with_certificate(c),
            None => prior,
        }
    }
}

pub open spec fn accepted_files(b: BundleView, files: Seq<Vec<u8>>) -> nat
    decreases files.len(),
{
    if files.len() == 0 {
        0
    } else {
        let prior = with_certificate_files(b, files.drop_last());
        accepted_files(b, files.drop_last()) + if accepted_file(prior, files.last()@) is Some { 1nat } else { 0nat }
    }
}

/// Taking away the entry with a key takes away the key.
proof fn lemma_entry_removed(items: Seq<([u8; 32], MeshCertificate)>, key: Seq<u8>)
    requires
        vec_map::keys_distinct(items),
    ensures
        without_key(vec_map::entry_keys(items), key) == vec_map::entry_keys(
            if vec_map::entries_map(items).contains_key(key) {
                items.remove(vec_map::entry_index(items, key))
            } else {
                items
            },
        ),
{
    let filed = vec_map::entry_keys(items);
    if vec_map::has_entry(items, key) {
        let at = vec_map::entry_index(items, key);
        assert(0 <= at < items.len() && items[at].0@ == key);
        assert(filed[at] == key);
        let i = filed.index_of(key);
        assert(0 <= i < filed.len() && filed[i] == key);
        if i < at {
            assert(items[i].0@ != items[at].0@);
        } else if at < i {
            assert(items[at].0@ != items[i].0@);
        }
        assert(vec_map::entry_keys(items.remove(at)) =~= filed.remove(at));
    } else if filed.contains(key) {
        let i = choose|i: int| 0 <= i < filed.len() && filed[i] == key;
        assert(items[i].0@ == key);
    }
}

/// The two indexes of a bundle agree: the certificate that a name leads to carries the
/// name and is found by its key, and a name that leads nowhere is carried by no
/// certificate. Where the certificates of several keys carry a name, it leads to the one
/// that was filed last.
pub proof fn law_indexes_agree(b: BundleView, node_id: Seq<char>, key: Seq<u8>)
    requires
        b.consistent(),
        node_id.len() > 0,
    ensures
        b.named(node_id) matches Some(c) ==> c.node_id == node_id && b.certificates.contains_key(
            c.subject_public_key,
        ) && b.certificates[c.subject_public_key] == c && b.holds_name(c.subject_public_key, node_id),
        b.named(node_id) is None && b.certificates.contains_key(key) ==> b.certificates[key].node_id != node_id,
{
    if b.names.contains_key(node_id) {
        let k = b.names[node_id];
        assert(b.leads(node_id, k));
        assert(b.holds_name(k, node_id));
        let i = choose|i: int| #[trigger] last_with_name(b.filed, b.certificates, node_id, i) && b.filed[i] == k;
        assert(b.filed.contains(k));
        assert(b.certificates.contains_key(k));
    }
}

/// A bundle stays consistent, and a certificate that is filed under a new name gives
/// its old one up: the old name leads to the certificate of another key, or nowhere.
pub proof fn law_renaming(b: BundleView, c: CertificateView, old_name: Seq<char>)
    requires
        b.consistent(),
        old_name.len() > 0,
        old_name != c.node_id,
    ensures
        b.with_certificate(c).consistent(),
        b.with_certificate(c).named(old_name) matches Some(other) ==> other.subject_public_key
            != c.subject_public_key,
{
    lemma_with_certificate(b, c);
    law_indexes_agree(b.with_certificate(c), old_name, c.subject_public_key);
}

/// A certificate that was accepted is found by its subject and by its node name,
/// and the peer is validated as long as the certificate is in its window.
pub proof fn law_accepted_is_found(b: BundleView, c: CertificateView, now_ms: u64)
    requires
        b.admission(c) is Ok,
    ensures
        b.with_certificate(c).certificates.contains_key(c.subject_public_key),
        b.with_certificate(c).certificates[c.subject_public_key] == c,
        c.node_id.len() > 0 ==> b.with_certificate(c).named(c.node_id) == Some(c),
        b.with_certificate(c).validates(c.subject_public_key, now_ms) == c.valid_at(now_ms),
{
}

/// A certificate whose issuer is neither trusted nor its subject is refused.
pub proof fn law_untrusted_issuer_refused(b: BundleView, c: CertificateView)
    requires
        !c.is_root(),
        !b.authorities.contains(c.issuer_public_key),
    ensures
        b.admission(c) is Err,
{
}

/// A bundle that is grown through checked additions holds trusted certificates
/// only: adding an authority, adding an accepted certificate and purging expired
/// ones keep it so, and a peer that it validates has a certificate from a trusted
/// issuer.
pub proof fn law_trust_is_kept(b: BundleView, authority: Seq<u8>, c: CertificateView, key: Seq<u8>, now_ms: u64)
    requires
        b.all_trusted(),
    ensures
        b.with_authority(authority).all_trusted(),
        b.admission(c) is Ok ==> b.with_certificate(c).all_trusted(),
        b.without_expired(now_ms).all_trusted(),
        b.validates(key, now_ms) ==> b.trusts(b.certificates[key]),
{
    let grown = b.with_authority(authority);
    assert forall|k: Seq<u8>| grown.certificates.contains_key(k) implies grown.admission(
        #[trigger] grown.certificates[k],
    ) is Ok by {
        let cert = b.certificates[k];
        assert(b.admission(cert) is Ok);
        if b.authorities.contains(cert.issuer_public_key) {
            let i = choose|i: int| 0 <= i < b.authorities.len() && b.authorities[i] == cert.issuer_public_key;
            assert(grown.authorities[i] == cert.issuer_public_key);
        }
    }
    if b.admission(c) is Ok {
        let filed = b.with_certificate(c);
        assert forall|k: Seq<u8>| filed.certificates.contains_key(k) implies filed.admission(
            #[trigger] filed.certificates[k],
        ) is Ok by {
            if k != c.subject_public_key {
                assert(b.admission(b.certificates[k]) is Ok);
            }
            assert(b.authorities == filed.authorities);
        }
    }
    let purged = b.without_expired(now_ms);
    assert forall|k: Seq<u8>| purged.certificates.contains_key(k) implies purged.admission(
        #[trigger] purged.certificates[k],
    ) is Ok by {
        assert(b.admission(b.certificates[k]) is Ok);
    }
    if b.validates(key, now_ms) {
        assert(b.admission(b.certificates[key]) is Ok);
    }
}

proof fn lemma_all_unexpired(filed: Seq<Seq<u8>>, certificates: Map<Seq<u8>, CertificateView>, now_ms: u64)
    requires
        forall|i: int| 0 <= i < filed.len() ==> !certificates[#[trigger] filed[i]].expired_at(now_ms),
    ensures
        unexpired(filed, certificates, now_ms) == filed,
    decreases filed.len(),
{
    if filed.len() > 0 {
        let front = filed.drop_last();
        assert forall|i: int| 0 <= i < front.len() implies !certificates[#[trigger] front[i]].expired_at(now_ms) by {
            assert(front[i] == filed[i]);
        }
        lemma_all_unexpired(front, certificates, now_ms);
        assert(filed[filed.len() - 1] == filed.last());
        assert(filed =~= front.push(filed.last()));
    } else {
        assert(filed =~= Seq::empty());
    }
}

/// Purging keeps exactly the certificates that have not expired, so it changes no answer
/// about a peer; a name that a remaining certificate carries still leads to one; and a
/// second purge at the same time finds nothing.
pub proof fn law_purge(b: BundleView, key: Seq<u8>, now_ms: u64)
    requires
        b.consistent(),
    ensures
        b.without_expired(now_ms).certificates.contains_key(key) <==> b.certificates.contains_key(key)
            && !b.certificates[key].expired_at(now_ms),
        b.without_expired(now_ms).certificates.contains_key(key) ==> {
            let c = b.certificates[key];
            &&& b.without_expired(now_ms).certificates[key] == c
            &&& c.node_id.len() > 0 ==> b.without_expired(now_ms).named(c.node_id) is Some
        },
        b.without_expired(now_ms).validates(key, now_ms) == b.validates(key, now_ms),
        b.without_expired(now_ms).without_expired(now_ms) == b.without_expired(now_ms),
{
    let once = b.without_expired(now_ms);
    let twice = once.without_expired(now_ms);
    lemma_without_expired(b, now_ms);
    lemma_unexpired(b.filed, b.certificates, now_ms);
    if once.certificates.contains_key(key) && b.certificates[key].node_id.len() > 0 {
        law_indexes_agree(once, b.certificates[key].node_id, key);
    }
    assert(twice.certificates =~= once.certificates);
    assert forall|i: int| 0 <= i < once.filed.len() implies !once.certificates[#[trigger] once.filed[i]].expired_at(
        now_ms,
    ) by {
        assert(once.filed.contains(once.filed[i]));
    }
    lemma_all_unexpired(once.filed, once.certificates, now_ms);
}

} // verus!

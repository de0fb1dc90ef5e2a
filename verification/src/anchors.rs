//! The trust roots that a handshake is offered.
//!
//! The roots are kept in a `rustls::RootCertStore`, which takes from each
//! certificate the three fields that make a trust anchor. What the store
//! holds, and what it takes from a certificate, is `rustls`'s to say; this
//! module gives both a name and states how `add` changes the store.

use vstd::prelude::*;

verus! {

#[verifier::external_type_specification]
#[verifier::external_body]
pub struct ExRootCertStore(rustls::RootCertStore);

/// A trust anchor: the encoded subject, public key information and name
/// constraints of a certificate.
pub struct AnchorView {
    pub subject: Seq<u8>,
    pub public_key_info: Seq<u8>,
    pub name_constraints: Option<Seq<u8>>,
}

/// The trust anchor that `webpki::anchor_from_trusted_cert` takes from an
/// encoded certificate; `None` where it reports an error.
pub uninterp spec fn trust_anchor(der: Seq<u8>) -> Option<AnchorView>;

/// The trust anchors that a root store holds, in the order of its `roots`.
pub uninterp spec fn root_store_anchors(store: rustls::RootCertStore) -> Seq<AnchorView>;

/// Whether a trust anchor can be taken from each of the certificates.
pub open spec fn all_anchors(certificates: Seq<Seq<u8>>) -> bool {
    forall|i: int| 0 <= i < certificates.len() ==> trust_anchor(#[trigger] certificates[i]) is Some
}

/// The trust anchors of the certificates, in their order.
pub open spec fn anchors_of(certificates: Seq<Seq<u8>>) -> Seq<AnchorView> {
    Seq::new(certificates.len(), |i: int| trust_anchor(certificates[i]).unwrap())
}

/// `RootCertStore::empty`: a store without roots.
#[verifier::external_body]
pub(crate) fn empty_root_store() -> (store: rustls::RootCertStore)
    ensures
        root_store_anchors(store) == Seq::<AnchorView>::empty(),
{
    rustls::RootCertStore::empty()
}

/// `RootCertStore::add`: where a trust anchor can be taken from the
/// certificate, the anchor is appended to the roots; where not, the call
/// fails and the roots stay as they were.
#[verifier::external_body]
pub(crate) fn add_root(store: &mut rustls::RootCertStore, der: Vec<u8>) -> (added: Result<
    (),
    rustls::Error,
>)
    ensures
        match added {
            Ok(_) => trust_anchor(der@) is Some && root_store_anchors(*final(store))
                == root_store_anchors(*old(store)).push(trust_anchor(der@).unwrap()),
            Err(_) => trust_anchor(der@) is None && root_store_anchors(*final(store))
                == root_store_anchors(*old(store)),
        },
{
    store.add(der.into())
}

} // verus!

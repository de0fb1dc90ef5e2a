//! The store that pins a relay host to the certificate it presented.
//!
//! A pin is a host and the hexadecimal text of a certificate. The store holds
//! at most one pin for a host. It keeps the pins in the order in which their
//! hosts first came in, which is the order in which they are written out.

use vstd::prelude::*;
use vstd::slice::slice_to_vec;
use crate::anchors::{
    add_root, all_anchors, anchors_of, empty_root_store, root_store_anchors, trust_anchor, AnchorView,
};
use crate::error::NVDARemoteError;
use crate::hexcode::{
    decode_hex, encode_hex, hex_decode, hex_encode, is_hex, lemma_hex_round_trip,
};
use crate::json::{json_parse, json_quote, parse_json, quote_json, Json};
use crate::text::{bytes_equal, str_equal, views_of};

verus! {

/// Whether some pin of `pins` is for `host`.
pub open spec fn pinned(pins: Seq<(Seq<char>, Seq<char>)>, host: Seq<char>) -> bool {
    exists|i: int| 0 <= i < pins.len() && (#[trigger] pins[i]).0 == host
}

/// The position of a pin for `host`.
pub open spec fn pin_index(pins: Seq<(Seq<char>, Seq<char>)>, host: Seq<char>) -> int {
    choose|i: int| 0 <= i < pins.len() && (#[trigger] pins[i]).0 == host
}

/// No two pins are for the same host.
pub open spec fn distinct_hosts(pins: Seq<(Seq<char>, Seq<char>)>) -> bool {
    forall|i: int, j: int|
        0 <= i < j < pins.len() ==> (#[trigger] pins[i]).0 != (#[trigger] pins[j]).0
}

/// The pins as a map from host to the text of its certificate.
pub open spec fn pin_map(pins: Seq<(Seq<char>, Seq<char>)>) -> Map<Seq<char>, Seq<char>> {
    Map::new(|host: Seq<char>| pinned(pins, host), |host: Seq<char>| pins[pin_index(pins, host)].1)
}

/// The pins after `host` was pinned to `fingerprint`: the host's pin replaced
/// where it stood, or a new pin at the end.
pub open spec fn upsert(
    pins: Seq<(Seq<char>, Seq<char>)>,
    host: Seq<char>,
    fingerprint: Seq<char>,
) -> Seq<(Seq<char>, Seq<char>)> {
    if pinned(pins, host) {
        pins.update(pin_index(pins, host), (host, fingerprint))
    } else {
        pins.push((host, fingerprint))
    }
}

/// Pinning a host keeps the hosts distinct and changes the map at that host
/// alone.
pub proof fn lemma_upsert(
    pins: Seq<(Seq<char>, Seq<char>)>,
    host: Seq<char>,
    fingerprint: Seq<char>,
)
    requires
        distinct_hosts(pins),
    ensures
        distinct_hosts(upsert(pins, host, fingerprint)),
        pin_map(upsert(pins, host, fingerprint)) == pin_map(pins).insert(host, fingerprint),
{
    let after = upsert(pins, host, fingerprint);
    let at = if pinned(pins, host) {
        pin_index(pins, host)
    } else {
        pins.len() as int
    };
    assert(after[at] == (host, fingerprint));
    assert forall|i: int| 0 <= i < after.len() && i != at implies #[trigger] after[i] == pins[i]
        && after[i].0 != host by {}
    assert forall|other: Seq<char>| pinned(after, other) <==> (other == host || pinned(
        pins,
        other,
    )) by {
        if pinned(after, other) {
            let i = pin_index(after, other);
            if i != at {
                assert(pins[i].0 == other);
            }
        }
        if pinned(pins, other) && other != host {
            let i = pin_index(pins, other);
            assert(after[i].0 == other);
        }
        if other == host {
            assert(after[at].0 == other);
        }
    }
    assert forall|other: Seq<char>| pinned(after, other) implies #[trigger] pin_map(after)[other]
        == pin_map(pins).insert(host, fingerprint)[other] by {
        let i = pin_index(after, other);
        if other == host {
            assert(i == at);
        } else {
            let j = pin_index(pins, other);
            assert(after[j].0 == other);
            assert(i == j);
        }
    }
    assert(pin_map(after) =~= pin_map(pins).insert(host, fingerprint));
}

/// Pinning is idempotent: to pin a host to a text a second time changes
/// nothing.
pub proof fn lemma_upsert_twice(
    pins: Seq<(Seq<char>, Seq<char>)>,
    host: Seq<char>,
    fingerprint: Seq<char>,
)
    requires
        distinct_hosts(pins),
    ensures
        upsert(upsert(pins, host, fingerprint), host, fingerprint) == upsert(
            pins,
            host,
            fingerprint,
        ),
{
    let once = upsert(pins, host, fingerprint);
    lemma_upsert(pins, host, fingerprint);
    let at = if pinned(pins, host) {
        pin_index(pins, host)
    } else {
        pins.len() as int
    };
    assert(once[at] == (host, fingerprint));
    assert(pinned(once, host));
    let again = pin_index(once, host);
    assert(once[again].0 == host);
    assert(again == at);
    assert(upsert(once, host, fingerprint) =~= once);
}

/// Where the hosts are distinct, the map gives each host the text of its one
/// pin.
pub proof fn lemma_pin_at(pins: Seq<(Seq<char>, Seq<char>)>, i: int)
    requires
        distinct_hosts(pins),
        0 <= i < pins.len(),
    ensures
        pin_map(pins).contains_key(pins[i].0),
        pin_map(pins)[pins[i].0] == pins[i].1,
{
    let host = pins[i].0;
    assert(pinned(pins, host));
    let j = pin_index(pins, host);
    assert(pins[j].0 == host);
    assert(i == j);
}

/// The pins that a list of pairs of strings holds.
pub open spec fn pair_views(pairs: Seq<(String, String)>) -> Seq<(Seq<char>, Seq<char>)> {
    Seq::new(pairs.len(), |i: int| (pairs[i].0@, pairs[i].1@))
}

/// What the trust check makes of a handshake.
pub enum Verdict {
    /// The host is pinned to the certificate that it presented.
    Accepted(Seq<u8>),
    /// The server presented no certificate.
    NoCertificate,
    /// The host is not pinned; carries the certificate that it presented.
    Unknown(Seq<u8>),
    /// The text stored for the host is not hexadecimal; carries the host.
    Damaged(Seq<char>),
    /// The host is pinned to another certificate; carries the host.
    Mismatch(Seq<char>),
}

/// The trust decision for one connection attempt.
///
/// `pins` maps each pinned host to the text of its certificate and
/// `presented` is the chain that the server sent, the leaf first. The leaf
/// alone counts, and it must equal the pinned certificate byte for byte. The
/// host is looked up exactly as the caller wrote it.
pub open spec fn trust_verdict(
    pins: Map<Seq<char>, Seq<char>>,
    host: Seq<char>,
    presented: Seq<Seq<u8>>,
) -> Verdict {
    if presented.len() == 0 {
        Verdict::NoCertificate
    } else if !pins.contains_key(host) {
        Verdict::Unknown(presented[0])
    } else if !is_hex(pins[host]) {
        Verdict::Damaged(host)
    } else if hex_decode(pins[host]) == presented[0] {
        Verdict::Accepted(presented[0])
    } else {
        Verdict::Mismatch(host)
    }
}

/// The verdict that the outcome of a trust check stands for.
pub open spec fn verdict_of(outcome: Result<Vec<u8>, NVDARemoteError>) -> Option<Verdict> {
    match outcome {
        Ok(certificate) => Some(Verdict::Accepted(certificate@)),
        Err(NVDARemoteError::NoCertificate) => Some(Verdict::NoCertificate),
        Err(NVDARemoteError::TrustRejected(seen)) => Some(Verdict::Unknown(seen@)),
        Err(NVDARemoteError::CacheDecodeError(host)) => Some(Verdict::Damaged(host@)),
        Err(NVDARemoteError::TrustMismatch(host)) => Some(Verdict::Mismatch(host@)),
        Err(_) => None,
    }
}

/// Whether the text of every pin is hexadecimal.
pub open spec fn all_hex(pins: Seq<(Seq<char>, Seq<char>)>) -> bool {
    forall|i: int| 0 <= i < pins.len() ==> is_hex((#[trigger] pins[i]).1)
}

/// Whether `host` is the host of the first pin whose text is not hexadecimal.
pub open spec fn first_damaged(pins: Seq<(Seq<char>, Seq<char>)>, host: Seq<char>) -> bool {
    exists|i: int|
        0 <= i < pins.len() && (#[trigger] pins[i]).0 == host && !is_hex(pins[i].1) && all_hex(
            pins.take(i),
        )
}

/// Whether two maps of pins disagree at `host`: one of them pins it, and they
/// do not both pin it to the same text.
pub open spec fn pin_differs(
    one: Map<Seq<char>, Seq<char>>,
    other: Map<Seq<char>, Seq<char>>,
    host: Seq<char>,
) -> bool {
    &&& one.contains_key(host) || other.contains_key(host)
    &&& !(one.contains_key(host) && other.contains_key(host) && one[host] == other[host])
}

/// The certificates of the pins, in their order.
pub open spec fn certificates(pins: Seq<(Seq<char>, Seq<char>)>) -> Seq<Seq<u8>> {
    Seq::new(pins.len(), |i: int| hex_decode(pins[i].1))
}

/// Whether every member of an object is a string.
pub open spec fn string_members(fields: Seq<(String, Json)>) -> bool {
    forall|i: int| 0 <= i < fields.len() ==> (#[trigger] fields[i]).1 is Str
}

/// The pins that the members of an object give, taken in order: a key that
/// comes again replaces the text that it had.
pub open spec fn pins_of_members(fields: Seq<(String, Json)>) -> Seq<(Seq<char>, Seq<char>)>
    decreases fields.len(),
{
    if fields.len() == 0 {
        Seq::empty()
    } else {
        upsert(
            pins_of_members(fields.drop_last()),
            fields.last().0@,
            fields.last().1.text().unwrap(),
        )
    }
}

/// The pins that a parsed cache file holds: the members of the object under
/// `fingerprints` of the top-level object, all of them strings. `None` for
/// anything else.
pub open spec fn pins_of_json(parsed: Option<Json>) -> Option<Seq<(Seq<char>, Seq<char>)>> {
    match parsed {
        Some(document) => match document.member("fingerprints"@) {
            Some(Json::Object(fields)) => if string_members(fields@) {
                Some(pins_of_members(fields@))
            } else {
                None
            },
            _ => None,
        },
        None => None,
    }
}

/// The pins that the contents of a cache file give. A file that could not be
/// read, or that does not hold a cache, gives none.
pub open spec fn pins_of_file(contents: Option<Seq<char>>) -> Seq<(Seq<char>, Seq<char>)> {
    match contents {
        Some(text) => match pins_of_json(json_parse(text)) {
            Some(pins) => pins,
            None => Seq::empty(),
        },
        None => Seq::empty(),
    }
}

/// Each pin with host and text as JSON string literals.
pub open spec fn quoted_pins(pins: Seq<(Seq<char>, Seq<char>)>) -> Seq<(Seq<char>, Seq<char>)> {
    Seq::new(pins.len(), |i: int| (json_quote(pins[i].0), json_quote(pins[i].1)))
}

/// The lines of the members of the cache file, one for each pin: a comma
/// after every line but the last, four spaces before the key.
pub open spec fn pin_lines(quoted: Seq<(Seq<char>, Seq<char>)>) -> Seq<char>
    decreases quoted.len(),
{
    if quoted.len() == 0 {
        Seq::empty()
    } else {
        pin_lines(quoted.drop_last()) + (if quoted.len() > 1 {
            ","@
        } else {
            Seq::empty()
        }) + "\n    "@ + quoted.last().0 + ": "@ + quoted.last().1
    }
}

/// The text of the cache file for pins that are already quoted: one object
/// whose member `fingerprints` is the object of the pins, indented by two
/// spaces a level.
pub open spec fn cache_layout(quoted: Seq<(Seq<char>, Seq<char>)>) -> Seq<char> {
    if quoted.len() == 0 {
        "{\n  \"fingerprints\": {}\n}"@
    } else {
        "{\n  \"fingerprints\": {"@ + pin_lines(quoted) + "\n  }\n}"@
    }
}

/// The text of the cache file for a list of pins.
pub open spec fn saved_text(pins: Seq<(Seq<char>, Seq<char>)>) -> Seq<char> {
    cache_layout(quoted_pins(pins))
}

/// The pins that come back when the cache file written for `pins` is loaded.
pub open spec fn reloaded(pins: Seq<(Seq<char>, Seq<char>)>) -> Seq<(Seq<char>, Seq<char>)> {
    pins_of_file(Some(saved_text(pins)))
}

/// The pinned certificates of the hosts that the client trusts.
#[derive(Debug)]
pub struct FingerprintCache {
    entries: Vec<(String, String)>,
}

impl View for FingerprintCache {
    type V = Map<Seq<char>, Seq<char>>;

    /// The store as a map from host to the hexadecimal text of its
    /// certificate.
    open spec fn view(&self) -> Map<Seq<char>, Seq<char>> {
        pin_map(self.pins())
    }
}

impl FingerprintCache {
    #[verifier::type_invariant]
    spec fn hosts_are_distinct(self) -> bool {
        distinct_hosts(self.pins())
    }

    /// The pins in the order in which their hosts first came in.
    pub closed spec fn pins(&self) -> Seq<(Seq<char>, Seq<char>)> {
        pair_views(self.entries@)
    }

    /// A store without pins.
    pub fn new() -> (cache: FingerprintCache)
        ensures
            cache.pins() == Seq::<(Seq<char>, Seq<char>)>::empty(),
            cache@ == Map::<Seq<char>, Seq<char>>::empty(),
            distinct_hosts(cache.pins()),
    {
        let cache = FingerprintCache { entries: Vec::new() };
        assert(cache.pins() =~= Seq::<(Seq<char>, Seq<char>)>::empty());
        assert(cache@ =~= Map::<Seq<char>, Seq<char>>::empty());
        cache
    }

    fn find(&self, host: &str) -> (found: Option<usize>)
        ensures
            distinct_hosts(self.pins()),
            match found {
                Some(i) => i < self.pins().len() && self.pins()[i as int].0 == host@ && pinned(
                    self.pins(),
                    host@,
                ) && pin_index(self.pins(), host@) == i && i < self.entries@.len(),
                None => !pinned(self.pins(), host@),
            },
    {
        proof {
            use_type_invariant(self);
        }
        let mut i: usize = 0;
        while i < self.entries.len()
            invariant
                i <= self.entries@.len(),
                self.entries@.len() == self.pins().len(),
                distinct_hosts(self.pins()),
                forall|k: int| 0 <= k < i ==> (#[trigger] self.pins()[k]).0 != host@,
            decreases self.entries.len() - i,
        {
            if str_equal(self.entries[i].0.as_str(), host) {
                proof {
                    assert(self.pins()[i as int].0 == host@);
                    let j = pin_index(self.pins(), host@);
                    assert(self.pins()[j].0 == host@);
                    assert(j == i);
                }
                return Some(i);
            }
            i += 1;
        }
        None
    }

    /// Whether the host is pinned.
    pub fn contains(&self, host: &str) -> (known: bool)
        ensures
            known == self@.contains_key(host@),
    {
        self.find(host).is_some()
    }

    /// Pins `host` to the text `text`, in place of any text that it was
    /// pinned to before.
    fn pin(&mut self, host: String, text: String)
        ensures
            final(self).pins() == upsert(old(self).pins(), host@, text@),
            final(self)@ == old(self)@.insert(host@, text@),
            distinct_hosts(old(self).pins()),
            distinct_hosts(final(self).pins()),
    {
        let found = self.find(host.as_str());
        let ghost before = self.pins();
        let ghost after = upsert(before, host@, text@);
        proof {
            lemma_upsert(before, host@, text@);
        }
        let mut entries: Vec<(String, String)> = Vec::new();
        core::mem::swap(&mut self.entries, &mut entries);
        match found {
            Some(i) => {
                entries.set(i, (host, text));
            },
            None => {
                entries.push((host, text));
            },
        }
        assert(pair_views(entries@) =~= after);
        self.entries = entries;
    }

    /// Pins `host` to a certificate, in place of any certificate that it was
    /// pinned to before. The certificate is kept as hexadecimal text.
    pub fn add_fingerprint(&mut self, host: String, fingerprint: Vec<u8>)
        ensures
            final(self).pins() == upsert(old(self).pins(), host@, hex_encode(fingerprint@)),
            final(self)@ == old(self)@.insert(host@, hex_encode(fingerprint@)),
            distinct_hosts(old(self).pins()),
            distinct_hosts(final(self).pins()),
    {
        let text = encode_hex(&fingerprint);
        self.pin(host, text);
    }

    /// The certificate that `host` is pinned to.
    ///
    /// `Ok(None)` where the host is not pinned. Where the stored text is not
    /// hexadecimal the store is damaged, and the answer is
    /// `CacheDecodeError` with the host.
    pub fn get_fingerprint(&self, host: &str) -> (found: Result<Option<Vec<u8>>, NVDARemoteError>)
        ensures
            match found {
                Ok(None) => !self@.contains_key(host@),
                Ok(Some(bytes)) => self@.contains_key(host@) && is_hex(self@[host@]) && bytes@
                    == hex_decode(self@[host@]),
                Err(NVDARemoteError::CacheDecodeError(name)) => self@.contains_key(host@)
                    && !is_hex(self@[host@]) && name@ == host@,
                Err(_) => false,
            },
    {
        match self.find(host) {
            None => Ok(None),
            Some(i) => {
                proof {
                    lemma_pin_at(self.pins(), i as int);
                }
                match decode_hex(self.entries[i].1.as_str()) {
                    Some(bytes) => Ok(Some(bytes)),
                    None => Err(NVDARemoteError::CacheDecodeError(host.to_owned())),
                }
            },
        }
    }

    /// The trust check for one connection attempt to `host`.
    ///
    /// `presented` is the certificate chain that the server sent in the
    /// handshake, the leaf first. The answer is the leaf where the host is
    /// pinned to exactly that certificate, and else the failure that
    /// `trust_verdict` names. The store is left as it is: an unknown host is
    /// reported, never pinned.
    pub fn verify_peer(&self, host: &str, presented: &Vec<Vec<u8>>) -> (outcome: Result<
        Vec<u8>,
        NVDARemoteError,
    >)
        ensures
            verdict_of(outcome) == Some(trust_verdict(self@, host@, views_of(presented@))),
    {
        if presented.len() == 0 {
            return Err(NVDARemoteError::NoCertificate);
        }
        let leaf = slice_to_vec(presented[0].as_slice());
        match self.get_fingerprint(host) {
            Ok(None) => Err(NVDARemoteError::TrustRejected(leaf)),
            Ok(Some(pinned)) => {
                if bytes_equal(pinned.as_slice(), leaf.as_slice()) {
                    Ok(leaf)
                } else {
                    Err(NVDARemoteError::TrustMismatch(host.to_owned()))
                }
            },
            Err(_) => Err(NVDARemoteError::CacheDecodeError(host.to_owned())),
        }
    }

    /// The certificates of all pins, in the order of the pins.
    ///
    /// Fails with `CacheDecodeError` and the host of the first pin whose text
    /// is not hexadecimal.
    pub fn pinned_certificates(&self) -> (outcome: Result<Vec<Vec<u8>>, NVDARemoteError>)
        ensures
            match outcome {
                Ok(list) => all_hex(self.pins()) && views_of(list@) == certificates(self.pins()),
                Err(NVDARemoteError::CacheDecodeError(host)) => !all_hex(self.pins())
                    && first_damaged(self.pins(), host@),
                Err(_) => false,
            },
    {
        let mut list: Vec<Vec<u8>> = Vec::new();
        let mut i: usize = 0;
        while i < self.entries.len()
            invariant
                i <= self.entries@.len(),
                self.entries@.len() == self.pins().len(),
                all_hex(self.pins().take(i as int)),
                views_of(list@) == certificates(self.pins().take(i as int)),
            decreases self.entries.len() - i,
        {
            match decode_hex(self.entries[i].1.as_str()) {
                Some(bytes) => {
                    list.push(bytes);
                },
                None => {
                    let host = self.entries[i].0.clone();
                    assert(self.pins()[i as int].0 == host@ && !is_hex(self.pins()[i as int].1));
                    return Err(NVDARemoteError::CacheDecodeError(host));
                },
            }
            proof {
                let pins = self.pins();
                assert(pins.take(i + 1).drop_last() =~= pins.take(i as int));
                assert(pins.take(i + 1)[i as int] == pins[i as int]);
                assert(certificates(pins.take(i + 1)) =~= certificates(pins.take(i as int)).push(
                    hex_decode(pins[i as int].1),
                ));
                assert(views_of(list@) =~= certificates(pins.take(i + 1)));
            }
            i += 1;
        }
        proof {
            assert(self.pins().take(i as int) =~= self.pins());
        }
        Ok(list)
    }

    /// The trust roots for a handshake: a root store that holds the trust
    /// anchor of every pinned certificate, of whatever host, in the order of
    /// the pins.
    ///
    /// Fails with `CacheDecodeError` where the text of a pin is not
    /// hexadecimal, and names the host of the first such pin. Where all are,
    /// but a certificate is not one that a trust anchor can be taken from, it
    /// fails with the `TlsError` of the first such certificate.
    pub fn to_cert_store(&self) -> (outcome: Result<rustls::RootCertStore, NVDARemoteError>)
        ensures
            match outcome {
                Ok(store) => all_hex(self.pins()) && all_anchors(certificates(self.pins()))
                    && root_store_anchors(store) == anchors_of(certificates(self.pins())),
                Err(NVDARemoteError::CacheDecodeError(host)) => !all_hex(self.pins())
                    && first_damaged(self.pins(), host@),
                Err(NVDARemoteError::TlsError(_)) => all_hex(self.pins()) && !all_anchors(
                    certificates(self.pins()),
                ),
                Err(_) => false,
            },
    {
        let list = match self.pinned_certificates() {
            Ok(list) => list,
            Err(e) => {
                return Err(e);
            },
        };
        let ghost all = certificates(self.pins());
        let mut store = empty_root_store();
        let mut i: usize = 0;
        assert(anchors_of(all.take(0)) =~= Seq::<AnchorView>::empty());
        while i < list.len()
            invariant
                i <= list@.len(),
                views_of(list@) == all,
                all == certificates(self.pins()),
                all_hex(self.pins()),
                all_anchors(all.take(i as int)),
                root_store_anchors(store) == anchors_of(all.take(i as int)),
            decreases list.len() - i,
        {
            let der = slice_to_vec(list[i].as_slice());
            assert(der@ == all[i as int]);
            match add_root(&mut store, der) {
                Ok(_) => {},
                Err(e) => {
                    assert(trust_anchor(all[i as int]) is None);
                    return Err(NVDARemoteError::TlsError(e));
                },
            }
            proof {
                assert(all.take(i + 1).drop_last() =~= all.take(i as int));
                assert(anchors_of(all.take(i + 1)) =~= anchors_of(all.take(i as int)).push(
                    trust_anchor(all[i as int]).unwrap(),
                ));
            }
            i += 1;
        }
        proof {
            assert(all.take(i as int) =~= all);
        }
        Ok(store)
    }

    /// The store that a parsed cache file holds, `None` where the file holds
    /// none.
    ///
    /// `parsed` is what the JSON parser made of the file's text. A cache file
    /// is an object whose member `fingerprints` is an object that gives each
    /// host the text of its certificate.
    pub fn from_json(parsed: &Option<Json>) -> (cache: Option<FingerprintCache>)
        ensures
            match cache {
                Some(held) => pins_of_json(*parsed) == Some(held.pins()) && distinct_hosts(
                    held.pins(),
                ),
                None => pins_of_json(*parsed) is None,
            },
    {
        let document = match parsed {
            Some(document) => document,
            None => {
                return None;
            },
        };
        let fields = match document.get("fingerprints") {
            Some(value) => match value {
                Json::Object(fields) => fields,
                _ => {
                    return None;
                },
            },
            None => {
                return None;
            },
        };
        let mut cache = FingerprintCache::new();
        let mut i: usize = 0;
        assert(fields@.take(0) =~= Seq::<(String, Json)>::empty());
        while i < fields.len()
            invariant
                i <= fields@.len(),
                string_members(fields@.take(i as int)),
                cache.pins() == pins_of_members(fields@.take(i as int)),
                distinct_hosts(cache.pins()),
                pins_of_json(*parsed) == if string_members(fields@) {
                    Some(pins_of_members(fields@))
                } else {
                    None
                },
            decreases fields.len() - i,
        {
            match &fields[i].1 {
                Json::Str(text) => {
                    cache.pin(fields[i].0.clone(), text.clone());
                },
                _ => {
                    assert(!(fields@[i as int].1 is Str));
                    return None;
                },
            }
            proof {
                assert(fields@.take(i + 1).drop_last() =~= fields@.take(i as int));
                assert(fields@.take(i + 1).last() == fields@[i as int]);
            }
            i += 1;
        }
        proof {
            assert(fields@.take(i as int) =~= fields@);
        }
        Some(cache)
    }

    /// The store that the contents of a cache file give.
    ///
    /// `contents` is the text of the file, `None` where the file is absent or
    /// could not be read. Loading never fails: whatever does not hold a cache
    /// gives the empty store.
    pub fn load_from_file(contents: Option<&str>) -> (cache: FingerprintCache)
        ensures
            cache.pins() == pins_of_file(
                match contents {
                    Some(text) => Some(text@),
                    None => None,
                },
            ),
            distinct_hosts(cache.pins()),
    {
        match contents {
            Some(text) => {
                let parsed = parse_json(text);
                match FingerprintCache::from_json(&parsed) {
                    Some(cache) => cache,
                    None => FingerprintCache::new(),
                }
            },
            None => FingerprintCache::new(),
        }
    }

    /// Lays out the text of a cache file for pins whose hosts and texts are
    /// JSON string literals already.
    pub fn render_pins(quoted: &Vec<(String, String)>) -> (text: String)
        ensures
            text@ == cache_layout(pair_views(quoted@)),
    {
        if quoted.len() == 0 {
            return "{\n  \"fingerprints\": {}\n}".to_owned();
        }
        let mut text = "{\n  \"fingerprints\": {".to_owned();
        let ghost head = text@;
        let ghost pairs = pair_views(quoted@);
        let mut i: usize = 0;
        assert(pairs.take(0) =~= Seq::<(Seq<char>, Seq<char>)>::empty());
        assert(text@ =~= head + pin_lines(pairs.take(0)));
        while i < quoted.len()
            invariant
                i <= quoted@.len(),
                pairs == pair_views(quoted@),
                text@ == head + pin_lines(pairs.take(i as int)),
            decreases quoted.len() - i,
        {
            let ghost before = text@;
            if i > 0 {
                text.append(",");
            }
            text.append("\n    ");
            text.append(quoted[i].0.as_str());
            text.append(": ");
            text.append(quoted[i].1.as_str());
            proof {
                let now = pairs.take(i + 1);
                assert(now.drop_last() =~= pairs.take(i as int));
                assert(now.last() == pairs[i as int]);
                assert(text@ =~= head + pin_lines(now));
            }
            i += 1;
        }
        proof {
            assert(pairs.take(i as int) =~= pairs);
        }
        text.append("\n  }\n}");
        text
    }

    /// The first pin of this store that `other` does not hold as it stands
    /// here.
    fn first_not_in(&self, other: &FingerprintCache) -> (missing: Option<usize>)
        ensures
            match missing {
                Some(i) => i < self.entries@.len() && self@.contains_key(self.entries@[i as int].0@)
                    && !(other@.contains_key(self.entries@[i as int].0@) && other@[self.entries@[i as int].0@]
                    == self@[self.entries@[i as int].0@]),
                None => forall|host: Seq<char>| #[trigger]
                    self@.contains_key(host) ==> other@.contains_key(host) && other@[host]
                        == self@[host],
            },
    {
        proof {
            use_type_invariant(self);
            use_type_invariant(other);
        }
        let mut i: usize = 0;
        while i < self.entries.len()
            invariant
                i <= self.entries@.len(),
                self.entries@.len() == self.pins().len(),
                distinct_hosts(self.pins()),
                forall|k: int|
                    0 <= k < i ==> other@.contains_key((#[trigger] self.pins()[k]).0) && other@[self.pins()[k].0]
                        == self.pins()[k].1,
            decreases self.entries.len() - i,
        {
            proof {
                lemma_pin_at(self.pins(), i as int);
            }
            let held = match other.find(self.entries[i].0.as_str()) {
                Some(j) => {
                    proof {
                        lemma_pin_at(other.pins(), j as int);
                    }
                    str_equal(other.entries[j].1.as_str(), self.entries[i].1.as_str())
                },
                None => false,
            };
            if !held {
                return Some(i);
            }
            i += 1;
        }
        proof {
            assert forall|host: Seq<char>| #[trigger] self@.contains_key(host) implies other@.contains_key(
                host,
            ) && other@[host] == self@[host] by {
                let k = pin_index(self.pins(), host);
                lemma_pin_at(self.pins(), k);
            }
        }
        None
    }

    /// Whether two stores pin the same hosts to the same certificates,
    /// whatever the order of their pins.
    pub fn same_pins(&self, other: &FingerprintCache) -> (same: bool)
        ensures
            same == (self@ == other@),
    {
        let same = self.first_not_in(other).is_none() && other.first_not_in(self).is_none();
        proof {
            if same {
                assert(self@ =~= other@);
            }
        }
        same
    }

    /// The text of the cache file for this store, which takes the place of
    /// whatever the file held.
    ///
    /// Hosts and texts are written as JSON string literals, laid out as
    /// `cache_layout` says, in the order of the pins. The text is handed out
    /// if, and only if, it loads again as the pins of this store: what is
    /// saved and loaded pins the same hosts to the same certificates, and
    /// saving that once more writes a file that says the same. Otherwise the
    /// answer is `CacheDecodeError` with a host at which the text and the
    /// store disagree.
    pub fn save_to_file(&self) -> (outcome: Result<String, NVDARemoteError>)
        ensures
            outcome is Ok <==> pin_map(reloaded(self.pins())) == self@,
            match outcome {
                Ok(text) => text@ == saved_text(self.pins()),
                Err(NVDARemoteError::CacheDecodeError(host)) => pin_differs(
                    self@,
                    pin_map(reloaded(self.pins())),
                    host@,
                ),
                Err(_) => false,
            },
    {
        let mut quoted: Vec<(String, String)> = Vec::new();
        let mut i: usize = 0;
        while i < self.entries.len()
            invariant
                i <= self.entries@.len(),
                self.entries@.len() == self.pins().len(),
                pair_views(quoted@) == quoted_pins(self.pins().take(i as int)),
            decreases self.entries.len() - i,
        {
            let host = match quote_json(self.entries[i].0.as_str()) {
                Ok(host) => host,
                Err(e) => {
                    return Err(NVDARemoteError::JsonError(e));
                },
            };
            let text = match quote_json(self.entries[i].1.as_str()) {
                Ok(text) => text,
                Err(e) => {
                    return Err(NVDARemoteError::JsonError(e));
                },
            };
            quoted.push((host, text));
            proof {
                let pins = self.pins();
                assert(pins.take(i + 1).drop_last() =~= pins.take(i as int));
                assert(pins.take(i + 1)[i as int] == pins[i as int]);
                assert(pins[i as int] == (self.entries@[i as int].0@, self.entries@[i as int].1@));
                assert(quoted_pins(pins.take(i + 1)) =~= quoted_pins(pins.take(i as int)).push(
                    (json_quote(pins[i as int].0), json_quote(pins[i as int].1)),
                ));
                assert(pair_views(quoted@) =~= quoted_pins(pins.take(i + 1)));
            }
            i += 1;
        }
        proof {
            assert(self.pins().take(i as int) =~= self.pins());
        }
        let text = FingerprintCache::render_pins(&quoted);
        let back = FingerprintCache::load_from_file(Some(text.as_str()));
        match self.first_not_in(&back) {
            Some(k) => {
                return Err(NVDARemoteError::CacheDecodeError(self.entries[k].0.clone()));
            },
            None => {},
        }
        match back.first_not_in(self) {
            Some(k) => {
                return Err(NVDARemoteError::CacheDecodeError(back.entries[k].0.clone()));
            },
            None => {},
        }
        assert(back@ =~= self@);
        Ok(text)
    }
}

/// A cache file gives its pins in the order of its members: where the
/// members are strings under distinct keys, each member is one pin.
pub proof fn lemma_pins_of_distinct_members(fields: Seq<(String, Json)>)
    requires
        string_members(fields),
        forall|i: int, j: int|
            0 <= i < j < fields.len() ==> (#[trigger] fields[i]).0@ != (#[trigger] fields[j]).0@,
    ensures
        pins_of_members(fields) == Seq::new(
            fields.len(),
            |i: int| (fields[i].0@, fields[i].1.text().unwrap()),
        ),
    decreases fields.len(),
{
    let pins = Seq::new(fields.len(), |i: int| (fields[i].0@, fields[i].1.text().unwrap()));
    if fields.len() == 0 {
        assert(pins_of_members(fields) =~= pins);
    } else {
        let head = fields.drop_last();
        assert forall|i: int| 0 <= i < head.len() implies (#[trigger] head[i]).1 is Str by {
            assert(head[i] == fields[i]);
        }
        assert forall|i: int, j: int| 0 <= i < j < head.len() implies (#[trigger] head[i]).0@ != (
        #[trigger] head[j]).0@ by {
            assert(head[i] == fields[i] && head[j] == fields[j]);
        }
        lemma_pins_of_distinct_members(head);
        let before = pins_of_members(head);
        let host = fields.last().0@;
        assert(!pinned(before, host)) by {
            if pinned(before, host) {
                let i = pin_index(before, host);
                assert(before[i].0 == head[i].0@);
                assert(head[i] == fields[i]);
                assert(fields[i].0@ != fields[fields.len() - 1].0@);
            }
        }
        assert(pins_of_members(fields) =~= pins);
    }
}

/// A host that is not pinned is never trusted: whatever certificate it
/// presents, the trust check rejects it and reports that certificate.
pub proof fn lemma_unknown_host_is_rejected(
    pins: Map<Seq<char>, Seq<char>>,
    host: Seq<char>,
    presented: Seq<Seq<u8>>,
)
    requires
        !pins.contains_key(host),
        presented.len() > 0,
    ensures
        trust_verdict(pins, host, presented) == Verdict::Unknown(presented[0]),
{
}

/// A host that is pinned to a certificate is trusted with exactly that
/// certificate: the trust check accepts a leaf of the same bytes and answers
/// any other leaf with a mismatch.
pub proof fn lemma_pinned_host_is_held_to_its_pin(
    pins: Map<Seq<char>, Seq<char>>,
    host: Seq<char>,
    fingerprint: Seq<u8>,
    presented: Seq<Seq<u8>>,
)
    requires
        pins.contains_key(host),
        is_hex(pins[host]),
        hex_decode(pins[host]) == fingerprint,
        presented.len() > 0,
    ensures
        presented[0] == fingerprint ==> trust_verdict(pins, host, presented) == Verdict::Accepted(
            fingerprint,
        ),
        presented[0] != fingerprint ==> trust_verdict(pins, host, presented) == Verdict::Mismatch(
            host,
        ),
{
}

/// Pinning and checking agree: once a host was pinned to a certificate with
/// `add_fingerprint`, the store gives that certificate back for the host, the
/// trust check accepts it and answers any other leaf with a mismatch.
pub proof fn lemma_added_pin_is_enforced(
    pins: Map<Seq<char>, Seq<char>>,
    host: Seq<char>,
    fingerprint: Seq<u8>,
    presented: Seq<Seq<u8>>,
)
    requires
        presented.len() > 0,
    ensures
        ({
            let after = pins.insert(host, hex_encode(fingerprint));
            &&& is_hex(after[host])
            &&& hex_decode(after[host]) == fingerprint
            &&& presented[0] == fingerprint ==> trust_verdict(after, host, presented)
                == Verdict::Accepted(fingerprint)
            &&& presented[0] != fingerprint ==> trust_verdict(after, host, presented)
                == Verdict::Mismatch(host)
        }),
{
    lemma_hex_round_trip(fingerprint);
}

} // verus!

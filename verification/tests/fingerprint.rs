use std::collections::BTreeMap;

use nvda_remote::error::NVDARemoteError;
use nvda_remote::event::ConnectionType;
use nvda_remote::fingerprint::FingerprintCache;
use nvda_remote::json::Json;
use nvda_remote::remote::NVDARemote;

const CERTIFICATE: &str = "308201463081f9a003020102021477ab66999586889151064b44011d342bdaff3fbb300506032b657030183116301406035504030c0d72656c61792e6578616d706c653020170d3236313032383232333731395a180f32313236313030343232333731395a30183116301406035504030c0d72656c61792e6578616d706c65302a300506032b65700321007d201ec49c0f49b890b84b3736431f1dd6ef6b4e09ce04f80ebb002804fe758da3533051301d0603551d0e0416041461885ddb8c0f5b5047d84c330f9562480703c6a0301f0603551d2304183016801461885ddb8c0f5b5047d84c330f9562480703c6a0300f0603551d130101ff040530030101ff300506032b65700341008ba281ae08c8c8a5e0684591b722cd9fcd99e354b700e887076358540579146bc15229036c0c755f1450af13a6480afd2488afe04ed44fe4b09ad6ebfe01990f";

const SUBJECT: &str = "3116301406035504030c0d72656c61792e6578616d706c65";

fn cache_with(pins: &[(&str, &[u8])]) -> FingerprintCache {
    let mut cache = FingerprintCache::new();
    for (host, certificate) in pins {
        cache.add_fingerprint(host.to_string(), certificate.to_vec());
    }
    cache
}

fn damaged_cache() -> FingerprintCache {
    FingerprintCache::load_from_file(Some(
        "{\"fingerprints\":{\"good.example\":\"0a0b\",\"odd.example\":\"abc\",\"bad.example\":\"zz\"}}",
    ))
}

#[test]
fn a_new_store_knows_no_host() {
    let cache = FingerprintCache::new();
    assert!(!cache.contains("relay.example"));
    assert!(matches!(cache.get_fingerprint("relay.example"), Ok(None)));
}

#[test]
fn an_added_fingerprint_comes_back() {
    let cache = cache_with(&[("relay.example", &[0x00, 0x0f, 0xa5, 0xff])]);
    assert!(cache.contains("relay.example"));
    assert!(!cache.contains("relay.example."));
    assert!(!cache.contains("Relay.example"));
    match cache.get_fingerprint("relay.example") {
        Ok(Some(bytes)) => assert_eq!(bytes, vec![0x00, 0x0f, 0xa5, 0xff]),
        other => panic!("expected the fingerprint, got {:?}", other),
    }
}

#[test]
fn adding_again_replaces_the_fingerprint() {
    let mut cache = cache_with(&[("a", &[1]), ("b", &[2])]);
    cache.add_fingerprint("a".to_string(), vec![3, 4]);
    cache.add_fingerprint("a".to_string(), vec![3, 4]);
    match cache.get_fingerprint("a") {
        Ok(Some(bytes)) => assert_eq!(bytes, vec![3, 4]),
        other => panic!("expected the fingerprint, got {:?}", other),
    }
    match cache.get_fingerprint("b") {
        Ok(Some(bytes)) => assert_eq!(bytes, vec![2]),
        other => panic!("expected the fingerprint, got {:?}", other),
    }
    assert_eq!(
        cache.save_to_file().unwrap(),
        "{\n  \"fingerprints\": {\n    \"a\": \"0304\",\n    \"b\": \"02\"\n  }\n}"
    );
}

#[test]
fn an_empty_fingerprint_is_a_fingerprint() {
    let cache = cache_with(&[("a", &[])]);
    match cache.get_fingerprint("a") {
        Ok(Some(bytes)) => assert!(bytes.is_empty()),
        other => panic!("expected the fingerprint, got {:?}", other),
    }
}

#[test]
fn stored_text_of_either_case_is_read() {
    let cache = FingerprintCache::load_from_file(Some("{\"fingerprints\":{\"a\":\"0aFf\"}}"));
    match cache.get_fingerprint("a") {
        Ok(Some(bytes)) => assert_eq!(bytes, vec![0x0a, 0xff]),
        other => panic!("expected the fingerprint, got {:?}", other),
    }
}

#[test]
fn damaged_text_is_reported_with_its_host() {
    let cache = damaged_cache();
    match cache.get_fingerprint("odd.example") {
        Err(NVDARemoteError::CacheDecodeError(host)) => assert_eq!(host, "odd.example"),
        other => panic!("expected a decode error, got {:?}", other),
    }
    match cache.get_fingerprint("bad.example") {
        Err(NVDARemoteError::CacheDecodeError(host)) => assert_eq!(host, "bad.example"),
        other => panic!("expected a decode error, got {:?}", other),
    }
    assert!(matches!(cache.get_fingerprint("good.example"), Ok(Some(_))));
}

#[test]
fn an_unknown_host_is_rejected_with_what_it_presented() {
    let cache = cache_with(&[("relay.example", &[1, 2, 3])]);
    let presented = vec![vec![9u8, 9, 9], vec![1, 2, 3]];
    match cache.verify_peer("other.example", &presented) {
        Err(NVDARemoteError::TrustRejected(seen)) => assert_eq!(seen, vec![9, 9, 9]),
        other => panic!("expected a rejection, got {:?}", other),
    }
    match cache.verify_peer("other.example", &vec![vec![1u8, 2, 3]]) {
        Err(NVDARemoteError::TrustRejected(seen)) => assert_eq!(seen, vec![1, 2, 3]),
        other => panic!("expected a rejection, got {:?}", other),
    }
    assert!(!cache.contains("other.example"));
}

#[test]
fn the_host_is_taken_as_it_is_written() {
    let cache = cache_with(&[("relay.example", &[1, 2, 3])]);
    let presented = vec![vec![1u8, 2, 3]];
    assert!(matches!(
        cache.verify_peer("RELAY.example", &presented),
        Err(NVDARemoteError::TrustRejected(_))
    ));
    assert!(matches!(
        cache.verify_peer("relay.example ", &presented),
        Err(NVDARemoteError::TrustRejected(_))
    ));
}

#[test]
fn a_pinned_host_is_accepted_with_its_certificate_only() {
    let cache = cache_with(&[("relay.example", &[1, 2, 3]), ("other.example", &[4, 5, 6])]);
    match cache.verify_peer("relay.example", &vec![vec![1u8, 2, 3], vec![7]]) {
        Ok(certificate) => assert_eq!(certificate, vec![1, 2, 3]),
        other => panic!("expected to be accepted, got {:?}", other),
    }
    for leaf in [vec![1u8, 2], vec![1, 2, 3, 0], vec![4, 5, 6], vec![], vec![1, 2, 4]] {
        match cache.verify_peer("relay.example", &vec![leaf, vec![1, 2, 3]]) {
            Err(NVDARemoteError::TrustMismatch(host)) => assert_eq!(host, "relay.example"),
            other => panic!("expected a mismatch, got {:?}", other),
        }
    }
}

#[test]
fn a_handshake_without_certificates_fails() {
    let cache = cache_with(&[("relay.example", &[1, 2, 3])]);
    assert!(matches!(
        cache.verify_peer("relay.example", &Vec::new()),
        Err(NVDARemoteError::NoCertificate)
    ));
    assert!(matches!(
        cache.verify_peer("other.example", &Vec::new()),
        Err(NVDARemoteError::NoCertificate)
    ));
}

#[test]
fn a_damaged_pin_fails_the_trust_check() {
    let cache = damaged_cache();
    match cache.verify_peer("bad.example", &vec![vec![1u8]]) {
        Err(NVDARemoteError::CacheDecodeError(host)) => assert_eq!(host, "bad.example"),
        other => panic!("expected a decode error, got {:?}", other),
    }
}

#[test]
fn a_session_comes_to_be_only_where_the_host_is_trusted() {
    let cache = cache_with(&[("relay.example", &[1, 2, 3])]);
    let good = vec![vec![1u8, 2, 3]];
    let bad = vec![vec![3u8, 2, 1]];
    assert!(NVDARemote::new("relay.example", "k", ConnectionType::Master, 1, &cache, &good).is_ok());
    assert!(matches!(
        NVDARemote::new("relay.example", "k", ConnectionType::Master, 1, &cache, &bad),
        Err(NVDARemoteError::TrustMismatch(_))
    ));
    assert!(matches!(
        NVDARemote::new("new.example", "k", ConnectionType::Master, 1, &cache, &good),
        Err(NVDARemoteError::TrustRejected(_))
    ));
    assert!(matches!(
        NVDARemote::new("relay.example", "k", ConnectionType::Master, 1, &cache, &Vec::new()),
        Err(NVDARemoteError::NoCertificate)
    ));
}

#[test]
fn pinned_certificates_come_in_the_order_of_the_pins() {
    let cache = cache_with(&[("b", &[2, 2]), ("a", &[1]), ("c", &[])]);
    assert_eq!(cache.pinned_certificates().unwrap(), vec![vec![2u8, 2], vec![1], vec![]]);
    assert!(FingerprintCache::new().pinned_certificates().unwrap().is_empty());
}

#[test]
fn pinned_certificates_report_the_first_damaged_pin() {
    match damaged_cache().pinned_certificates() {
        Err(NVDARemoteError::CacheDecodeError(host)) => assert_eq!(host, "bad.example"),
        other => panic!("expected a decode error, got {:?}", other),
    }
}

#[test]
fn the_root_store_holds_the_anchor_of_each_pinned_certificate() {
    let certificate = hex::decode(CERTIFICATE).unwrap();
    let mut cache = FingerprintCache::new();
    assert_eq!(cache.to_cert_store().unwrap().len(), 0);
    cache.add_fingerprint("relay.example".to_string(), certificate.clone());
    cache.add_fingerprint("mirror.example".to_string(), certificate.clone());
    let store = cache.to_cert_store().unwrap();
    assert_eq!(store.len(), 2);
    let mut direct = rustls::RootCertStore::empty();
    direct.add(certificate.into()).unwrap();
    for root in &store.roots {
        assert_eq!(root, &direct.roots[0]);
        assert_eq!(root.subject.as_ref(), hex::decode(SUBJECT).unwrap().as_slice());
    }
}

#[test]
fn a_pin_that_is_no_certificate_gives_a_tls_error() {
    let certificate = hex::decode(CERTIFICATE).unwrap();
    let cache = cache_with(&[("relay.example", &certificate), ("junk.example", &[1, 2, 3])]);
    assert!(matches!(cache.to_cert_store(), Err(NVDARemoteError::TlsError(_))));
}

#[test]
fn a_damaged_pin_comes_before_a_pin_that_is_no_certificate() {
    let cache = FingerprintCache::load_from_file(Some(
        "{\"fingerprints\":{\"a.example\":\"010203\",\"b.example\":\"xyz\"}}",
    ));
    assert!(matches!(cache.to_cert_store(), Err(NVDARemoteError::CacheDecodeError(_))));
}

#[test]
fn an_empty_store_is_written_as_an_empty_object() {
    assert_eq!(FingerprintCache::new().save_to_file().unwrap(), "{\n  \"fingerprints\": {}\n}");
}

#[test]
fn the_file_is_what_a_pretty_printer_writes() {
    let cache = cache_with(&[("a.example", &[0xab]), ("b \"quoted\"\n", &[1, 2]), ("c\u{e9}", &[])]);
    let mut pins = BTreeMap::new();
    pins.insert("a.example".to_string(), "ab".to_string());
    pins.insert("b \"quoted\"\n".to_string(), "0102".to_string());
    pins.insert("c\u{e9}".to_string(), String::new());
    let mut document = BTreeMap::new();
    document.insert("fingerprints".to_string(), pins);
    assert_eq!(cache.save_to_file().unwrap(), serde_json::to_string_pretty(&document).unwrap());
    let empty: BTreeMap<String, String> = BTreeMap::new();
    let mut document = BTreeMap::new();
    document.insert("fingerprints".to_string(), empty);
    assert_eq!(
        FingerprintCache::new().save_to_file().unwrap(),
        serde_json::to_string_pretty(&document).unwrap()
    );
}

#[test]
fn render_pins_lays_out_quoted_pins() {
    let quoted = vec![
        ("\"a\"".to_string(), "\"01\"".to_string()),
        ("\"b\"".to_string(), "\"02\"".to_string()),
        ("\"c\"".to_string(), "\"\"".to_string()),
    ];
    assert_eq!(
        FingerprintCache::render_pins(&quoted),
        "{\n  \"fingerprints\": {\n    \"a\": \"01\",\n    \"b\": \"02\",\n    \"c\": \"\"\n  }\n}"
    );
    assert_eq!(FingerprintCache::render_pins(&Vec::new()), "{\n  \"fingerprints\": {}\n}");
}

#[test]
fn what_was_saved_loads_again() {
    let cache = cache_with(&[("b.example", &[1, 2, 3]), ("a \"x\"", &[0xff]), ("c", &[])]);
    let text = cache.save_to_file().unwrap();
    let again = FingerprintCache::load_from_file(Some(&text));
    for (host, bytes) in [("b.example", vec![1u8, 2, 3]), ("a \"x\"", vec![0xff]), ("c", vec![])] {
        match again.get_fingerprint(host) {
            Ok(Some(found)) => assert_eq!(found, bytes),
            other => panic!("expected the fingerprint of {}, got {:?}", host, other),
        }
    }
    assert!(!again.contains("d"));
}

#[test]
fn loading_and_saving_twice_gives_the_same_bytes() {
    let texts = [
        "{\"fingerprints\":{\"z.example\":\"0a\",\"a.example\":\"0B\",\"m\":\"not hex\"}}",
        "{ \"fingerprints\" : { }, \"more\": [1, 2] }",
        "{\n  \"fingerprints\": {\n    \"h \\\"q\\\" \\u00e9\": \"00ff\"\n  }\n}",
        "no cache at all",
    ];
    for text in texts {
        let once = FingerprintCache::load_from_file(Some(text)).save_to_file().unwrap();
        let twice = FingerprintCache::load_from_file(Some(&once)).save_to_file().unwrap();
        assert_eq!(once, twice);
    }
}

#[test]
fn a_file_that_is_absent_or_holds_no_cache_gives_the_empty_store() {
    let texts = [
        "",
        "not json",
        "[]",
        "{}",
        "{\"fingerprints\":[]}",
        "{\"fingerprints\":\"a\"}",
        "{\"fingerprints\":{\"a\":1}}",
        "{\"fingerprints\":{\"a\":\"01\",\"b\":null}}",
        "{\"other\":{\"a\":\"01\"}}",
        "{\"fingerprints\":{\"a\":\"01\"}",
    ];
    for text in texts {
        let cache = FingerprintCache::load_from_file(Some(text));
        assert!(!cache.contains("a"), "{}", text);
        assert_eq!(cache.save_to_file().unwrap(), "{\n  \"fingerprints\": {}\n}", "{}", text);
    }
    let cache = FingerprintCache::load_from_file(None);
    assert_eq!(cache.save_to_file().unwrap(), "{\n  \"fingerprints\": {}\n}");
}

#[test]
fn a_cache_file_is_read() {
    let cache = FingerprintCache::load_from_file(Some(
        "{\"version\":1,\"fingerprints\":{\"b.example\":\"0102\",\"a.example\":\"ff\"}}",
    ));
    assert!(cache.contains("a.example"));
    assert!(cache.contains("b.example"));
    assert!(!cache.contains("version"));
    match cache.get_fingerprint("b.example") {
        Ok(Some(bytes)) => assert_eq!(bytes, vec![1, 2]),
        other => panic!("expected the fingerprint, got {:?}", other),
    }
}

#[test]
fn from_json_reads_a_parsed_cache_file() {
    let pins = Json::Object(vec![
        ("b".to_string(), Json::Str("02".to_string())),
        ("a".to_string(), Json::Str("01".to_string())),
        ("b".to_string(), Json::Str("03".to_string())),
    ]);
    let document = Some(Json::Object(vec![("fingerprints".to_string(), pins)]));
    let cache = FingerprintCache::from_json(&document).unwrap();
    assert_eq!(
        cache.save_to_file().unwrap(),
        "{\n  \"fingerprints\": {\n    \"b\": \"03\",\n    \"a\": \"01\"\n  }\n}"
    );
    assert!(FingerprintCache::from_json(&None).is_none());
    assert!(FingerprintCache::from_json(&Some(Json::Null)).is_none());
    let mixed = Json::Object(vec![("a".to_string(), Json::Bool(true))]);
    let document = Some(Json::Object(vec![("fingerprints".to_string(), mixed)]));
    assert!(FingerprintCache::from_json(&document).is_none());
}

#[test]
fn errors_wrap_what_the_caller_met() {
    let io = std::io::Error::new(std::io::ErrorKind::Other, "gone");
    assert!(matches!(NVDARemoteError::from(io), NVDARemoteError::IoError(_)));
    let tls = rustls::Error::General("no".to_string());
    assert!(matches!(NVDARemoteError::from(tls), NVDARemoteError::TlsError(_)));
    let json = serde_json::from_str::<serde_json::Value>("{").unwrap_err();
    assert!(matches!(NVDARemoteError::from(json), NVDARemoteError::JsonError(_)));
}

#[test]
fn stores_with_the_same_pins_are_told_whatever_their_order() {
    let one = cache_with(&[("a", &[1]), ("b", &[2])]);
    let other = cache_with(&[("b", &[2]), ("a", &[1])]);
    assert!(one.same_pins(&other));
    assert!(other.same_pins(&one));
    assert!(one.same_pins(&one));
    assert!(FingerprintCache::new().same_pins(&FingerprintCache::new()));
    let changed = cache_with(&[("a", &[1]), ("b", &[3])]);
    assert!(!one.same_pins(&changed));
    let larger = cache_with(&[("a", &[1]), ("b", &[2]), ("c", &[])]);
    assert!(!one.same_pins(&larger));
    assert!(!larger.same_pins(&one));
    assert!(!one.same_pins(&FingerprintCache::new()));
}

#[test]
fn what_was_saved_loads_as_the_same_pins() {
    let cache = cache_with(&[("z.example", &[1, 2, 3]), ("a \"x\"\n\u{1}", &[0xff]), ("\u{e9}", &[])]);
    let text = cache.save_to_file().unwrap();
    let again = FingerprintCache::load_from_file(Some(&text));
    assert!(again.same_pins(&cache));
    let damaged = damaged_cache();
    let text = damaged.save_to_file().unwrap();
    assert!(FingerprintCache::load_from_file(Some(&text)).same_pins(&damaged));
}

#[test]
fn saving_succeeds_whatever_the_hosts_hold() {
    let hosts = ["", "\u{0}", "a\nb", "\"", "\\", "\u{1f}\u{7f}", "\u{e9}\u{1f600}", "a/b", "fingerprints"];
    let mut cache = FingerprintCache::new();
    for (i, host) in hosts.iter().enumerate() {
        cache.add_fingerprint(host.to_string(), vec![i as u8]);
    }
    let text = cache.save_to_file().unwrap();
    let again = FingerprintCache::load_from_file(Some(&text));
    assert!(again.same_pins(&cache));
    for (i, host) in hosts.iter().enumerate() {
        match again.get_fingerprint(host) {
            Ok(Some(bytes)) => assert_eq!(bytes, vec![i as u8]),
            other => panic!("expected the fingerprint of {:?}, got {:?}", host, other),
        }
    }
}

#[test]
fn the_root_store_names_the_first_damaged_pin() {
    match damaged_cache().to_cert_store() {
        Err(NVDARemoteError::CacheDecodeError(host)) => assert_eq!(host, "bad.example"),
        other => panic!("expected a decode error, got {:?}", other.map(|store| store.len())),
    }
}

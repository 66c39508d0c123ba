use cadverse::keys::{
    coordinator_id_from_relay, coordinator_record_payload, coordinator_record_url, derive_network_keypair, derive_network_secret, trim,
};

fn hex(bytes: &[u8]) -> String {
    bytes.iter().map(|b| format!("{b:02x}")).collect()
}

#[test]
fn secret_is_pbkdf2_of_password_salted_by_group() {
    let secret = derive_network_secret("group", "secret");
    assert_eq!(hex(&secret), "191411b571087477136656b9ef0d9d8551e46777c2f73afface0594c6f95859b");
}

#[test]
fn secret_for_sample_group() {
    let secret = derive_network_secret("1234", "1234");
    assert_eq!(hex(&secret), "f99d0b04f279c3a33fa02281de34daae293f2a6a6c118bd9c32f4aa3a9caf947");
}

#[test]
fn secret_depends_on_group_and_password() {
    assert_ne!(derive_network_secret("a", "b"), derive_network_secret("b", "a"));
    assert_eq!(derive_network_secret("a", "b"), derive_network_secret("a", "b"));
}

#[test]
fn keypair_holds_derived_secret() {
    let keypair = derive_network_keypair("group", "secret");
    let secret = derive_network_secret("group", "secret");
    assert_eq!(keypair.secret_key().to_vec(), secret);
}

#[test]
fn record_url_names_public_key() {
    let keypair = derive_network_keypair("group", "secret");
    let url = coordinator_record_url(&keypair);
    let z32 = keypair.public_key().to_z32();
    assert_eq!(z32.len(), 52);
    assert_eq!(url, format!("https://dns.iroh.link/pkarr/{z32}"));
}

fn signed_txt_payload(keypair: &pkarr::Keypair, texts: &[&str]) -> Vec<u8> {
    let mut builder = pkarr::SignedPacket::builder();
    for t in texts {
        let txt = pkarr::dns::rdata::TXT::try_from(*t).expect("valid TXT");
        let name = pkarr::dns::Name::new(".").expect("valid name");
        builder = builder.txt(name, txt.into_owned(), 300);
    }
    builder.sign(keypair).expect("signed").to_relay_payload().to_vec()
}

fn endpoint_id_text(seed: u8) -> (String, [u8; 32]) {
    let secret = iroh::SecretKey::from_bytes(&[seed; 32]);
    let id = secret.public();
    (id.to_string(), *id.as_bytes())
}

#[test]
fn trim_matches_str_trim() {
    for s in [
        "",
        "   ",
        "  abc  ",
        "\tab c\n",
        "\u{85}x\u{a0}",
        "\u{3000}y\u{2029}",
        "\u{200b}z\u{200b}",
        "\u{feff}w",
        "no-space",
        " \u{1680}\u{2000}\u{200a}\u{202f}\u{205f}in\u{2028}side ",
    ] {
        assert_eq!(trim(s), s.trim(), "on {s:?}");
    }
}

#[test]
fn relay_answer_names_coordinator() {
    let keypair = derive_network_keypair("group", "secret");
    let (text, bytes) = endpoint_id_text(7);
    let payload = signed_txt_payload(&keypair, &[&format!("  {text}\n")]);
    assert_eq!(coordinator_id_from_relay(&keypair, &payload), Some(bytes));
}

#[test]
fn relay_answer_takes_first_record_that_parses() {
    let keypair = derive_network_keypair("group", "secret");
    let (first, first_bytes) = endpoint_id_text(1);
    let (second, _) = endpoint_id_text(2);
    let payload = signed_txt_payload(&keypair, &["not an id", &first, &second]);
    assert_eq!(coordinator_id_from_relay(&keypair, &payload), Some(first_bytes));
}

#[test]
fn relay_answer_without_id_is_none() {
    let keypair = derive_network_keypair("group", "secret");
    let payload = signed_txt_payload(&keypair, &["hello"]);
    assert_eq!(coordinator_id_from_relay(&keypair, &payload), None);
}

#[test]
fn relay_answer_signed_by_other_key_is_none() {
    let keypair = derive_network_keypair("group", "secret");
    let other = derive_network_keypair("group", "other");
    let (text, _) = endpoint_id_text(3);
    let payload = signed_txt_payload(&other, &[&text]);
    assert_eq!(coordinator_id_from_relay(&keypair, &payload), None);
}

#[test]
fn garbage_relay_answer_is_none() {
    let keypair = derive_network_keypair("group", "secret");
    assert_eq!(coordinator_id_from_relay(&keypair, &[1u8, 2, 3]), None);
    assert_eq!(coordinator_id_from_relay(&keypair, &[]), None);
}

#[test]
fn published_record_reads_back() {
    let keypair = derive_network_keypair("group", "secret");
    let (_, bytes) = endpoint_id_text(9);
    let payload = coordinator_record_payload(&keypair, &bytes).expect("valid id");
    assert_eq!(coordinator_id_from_relay(&keypair, &payload), Some(bytes));
}

#[test]
fn published_record_holds_hex_text() {
    let keypair = derive_network_keypair("group", "secret");
    let (text, bytes) = endpoint_id_text(4);
    let payload = coordinator_record_payload(&keypair, &bytes).expect("valid id");
    let packet = pkarr::SignedPacket::from_relay_payload(&keypair.public_key(), &bytes::Bytes::from(payload))
        .expect("signed by the group key");
    let texts: Vec<String> = packet
        .all_resource_records()
        .map(|r| match &r.rdata {
            pkarr::dns::rdata::RData::TXT(t) => String::try_from(t.clone()).expect("utf-8"),
            _ => panic!("not a TXT record"),
        })
        .collect();
    let ttls: Vec<u32> = packet.all_resource_records().map(|r| r.ttl).collect();
    assert_eq!(ttls, vec![300]);
    let hex: String = bytes.iter().map(|b| format!("{b:02x}")).collect();
    assert_eq!(texts, vec![hex.clone()]);
    assert_eq!(text, hex);
}

#[test]
fn published_record_is_not_read_with_other_key() {
    let keypair = derive_network_keypair("group", "secret");
    let other = derive_network_keypair("other", "secret");
    let (_, bytes) = endpoint_id_text(5);
    let payload = coordinator_record_payload(&keypair, &bytes).expect("valid id");
    assert_eq!(coordinator_id_from_relay(&other, &payload), None);
}

#[test]
fn record_for_bytes_off_the_curve_is_none() {
    let keypair = derive_network_keypair("group", "secret");
    let bad = (0u8..=255)
        .map(|b| [b; 32])
        .find(|bytes| iroh::EndpointId::from_bytes(bytes).is_err())
        .expect("some bytes are not a curve point");
    assert_eq!(coordinator_record_payload(&keypair, &bad), None);
}

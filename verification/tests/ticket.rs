use p2p_dir_sync::ticket::{
    envelope_payload, read_envelope, EndpointTicket, InviteTicket, TicketError, INVITE_PREFIX,
};

fn fixture_endpoint_ticket(byte: u8) -> EndpointTicket {
    let id = iroh_base::SecretKey::from_bytes(&[byte; 32]).public();
    let addr = iroh_base::EndpointAddr::new(id);
    let text = iroh_tickets::endpoint::EndpointTicket::new(addr).to_string();
    EndpointTicket::parse(&text).unwrap()
}

fn envelope(json: &str) -> String {
    let alphabet = base32::Alphabet::Rfc4648 { padding: false };
    format!("{}{}", INVITE_PREFIX, base32::encode(alphabet, json.as_bytes()))
}

#[test]
fn invite_ticket_round_trip() {
    let t = InviteTicket::new(fixture_endpoint_ticket(7), [42u8; 16]);
    let encoded = t.encode().unwrap();
    assert!(encoded.starts_with(INVITE_PREFIX));
    let decoded = InviteTicket::decode(&encoded).unwrap();
    assert_eq!(decoded, t);
}

#[test]
fn invite_ticket_rejects_missing_prefix() {
    let t = InviteTicket::new(fixture_endpoint_ticket(8), [0u8; 16]);
    let raw = t.encode().unwrap();
    let stripped = raw.trim_start_matches(INVITE_PREFIX);
    let e = InviteTicket::decode(stripped).unwrap_err();
    assert!(e.message().contains("missing"));
    assert_eq!(e.message(), "missing `dirhive1-` prefix");
    assert!(stripped.chars().all(|c| matches!(c, 'A'..='Z' | '2'..='7')));
}

#[test]
fn invite_ticket_rejects_invalid_base32() {
    let e = InviteTicket::decode("dirhive1-!!!!!").unwrap_err();
    assert!(e.message().contains("base32"));
    assert_eq!(e, TicketError::EnvelopeEncoding);
}

#[test]
fn invite_ticket_case_insensitive_decode() {
    let t = InviteTicket::new(fixture_endpoint_ticket(9), [0x12; 16]);
    let encoded = t.encode().unwrap();
    let prefix_len = INVITE_PREFIX.len();
    let mixed = format!("{}{}", &encoded[..prefix_len], encoded[prefix_len..].to_lowercase());
    let decoded = InviteTicket::decode(&mixed).unwrap();
    assert_eq!(decoded, t);
}

#[test]
fn invite_ticket_has_the_documented_form() {
    let t = InviteTicket::new(fixture_endpoint_ticket(7), [0u8; 16]);
    let encoded = t.encode().unwrap();
    let alphabet = base32::Alphabet::Rfc4648 { padding: false };
    let json = base32::decode(alphabet, &encoded[INVITE_PREFIX.len()..]).unwrap();
    let expected = format!(
        "{{\"endpoint_ticket\":\"{}\",\"folder_secret\":\"AAAAAAAAAAAAAAAAAAAAAAAAAA\"}}",
        t.endpoint.text()
    );
    assert_eq!(String::from_utf8(json).unwrap(), expected);
}

#[test]
fn invite_ticket_names_what_is_wrong_inside() {
    let good = fixture_endpoint_ticket(3);
    let e = InviteTicket::decode(&envelope("not json")).unwrap_err();
    assert_eq!(e.message(), "deserialize InviteTicket json: expected ident at line 1 column 2");
    let e = InviteTicket::decode(&envelope("{\"endpoint_ticket\":\"x\"}")).unwrap_err();
    assert_eq!(e, TicketError::EnvelopeJson("missing field `folder_secret`".into()));
    let e = InviteTicket::decode(&envelope("{\"endpoint_ticket\":1}")).unwrap_err();
    assert_eq!(e, TicketError::EnvelopeJson("field is no string: `endpoint_ticket`".into()));
    let bad = "{\"endpoint_ticket\":\"nonsense\",\"folder_secret\":\"AA\"}";
    let e = InviteTicket::decode(&envelope(bad)).unwrap_err();
    assert!(e.message().starts_with("invalid endpoint_ticket: "));
    let bad = format!("{{\"endpoint_ticket\":\"{}\",\"folder_secret\":\"!\"}}", good.text());
    let e = InviteTicket::decode(&envelope(&bad)).unwrap_err();
    assert_eq!(e, TicketError::SecretEncoding);
    let bad = format!("{{\"endpoint_ticket\":\"{}\",\"folder_secret\":\"aaaa\"}}", good.text());
    let e = InviteTicket::decode(&envelope(&bad)).unwrap_err();
    assert_eq!(e, TicketError::SecretLength(2));
    assert_eq!(e.message(), "folder_secret must be 16 bytes, got 2");
}

#[test]
fn invite_ticket_is_also_read_from_a_list() {
    let endpoint = fixture_endpoint_ticket(4);
    let secret = "AAAAAAAAAAAAAAAAAAAAAAAAAA";
    let list = format!("[\"{}\",\"{secret}\"]", endpoint.text());
    let t = InviteTicket::decode(&envelope(&list)).unwrap();
    assert_eq!(t, InviteTicket::new(endpoint, [0; 16]));
    for bad in ["[]", "[\"a\"]", "[\"a\",\"b\",\"c\"]", "[1,2]"] {
        let e = InviteTicket::decode(&envelope(bad)).unwrap_err();
        assert!(matches!(e, TicketError::EnvelopeJson(_)), "{bad}");
    }
}

#[test]
fn what_was_read_of_an_envelope_is_judged() {
    let text = |s: &str| Some(Some(s.to_string()));
    let pair = Some(("e".to_string(), "s".to_string()));
    let both = Ok((text("a"), text("b")));
    assert_eq!(read_envelope(both, pair.clone()), Ok(("a".to_string(), "b".to_string())));
    let none = Err("bad".to_string());
    assert_eq!(read_envelope(none.clone(), pair), Ok(("e".to_string(), "s".to_string())));
    assert_eq!(read_envelope(none, None), Err(TicketError::EnvelopeJson("bad".into())));
    let e = read_envelope(Ok((text("a"), Some(None))), None).unwrap_err();
    assert_eq!(
        e.message(),
        "deserialize InviteTicket json: field is no string: `folder_secret`"
    );
}

#[test]
fn ticket_with_an_unsettled_url_is_told_apart() {
    let id = iroh_base::SecretKey::from_bytes(&[5; 32]).public();
    let addr = iroh_base::EndpointAddr::new(id);
    let addr = addr.with_relay_url("https://host/a/bc".parse().unwrap());
    let text = iroh_tickets::endpoint::EndpointTicket::new(addr).to_string();
    let plain = EndpointTicket::parse(&text).unwrap();
    assert!(plain.is_read_back());
    let t = InviteTicket::new(plain, [1; 16]);
    assert_eq!(InviteTicket::decode(&t.encode().unwrap()).unwrap(), t);

    let alphabet = base32::Alphabet::Rfc4648 { padding: false };
    let (kind, body) = text.split_at("endpoint".len());
    let mut bytes = base32::decode(alphabet, &body.to_uppercase()).unwrap();
    let at = bytes.windows(17).position(|w| w == b"https://host/a/bc").unwrap();
    bytes[at..at + 17].copy_from_slice(b"file://host//C|/x");
    let text = format!("{kind}{}", base32::encode(alphabet, &bytes).to_lowercase());
    let unsettled = EndpointTicket::parse(&text).unwrap();
    assert!(!unsettled.is_read_back());
    let t = InviteTicket::new(unsettled, [1; 16]);
    let again = InviteTicket::decode(&t.encode().unwrap()).unwrap();
    assert_ne!(again, t);
    assert_eq!(again.endpoint.id(), t.endpoint.id());
    assert_eq!(again.folder_secret, t.folder_secret);
}

#[test]
fn endpoint_ticket_keeps_its_endpoint() {
    let t = fixture_endpoint_ticket(5);
    let id = iroh_base::SecretKey::from_bytes(&[5; 32]).public();
    assert_eq!(&t.id().as_bytes(), id.as_bytes());
    assert!(t.is_read_back());
    assert_eq!(EndpointTicket::parse(t.text()).unwrap(), t);
    assert_eq!(EndpointTicket::parse(&t.text().to_uppercase()).is_err(), true);
    assert!(EndpointTicket::parse("endpoint").is_err());
}

#[test]
fn payload_is_what_follows_the_prefix_in_upper_case() {
    assert_eq!(envelope_payload("dirhive1-abC9"), Some("ABC9".to_string()));
    assert_eq!(envelope_payload("dirhive1-"), Some(String::new()));
    assert_eq!(envelope_payload("DIRHIVE1-abc"), None);
    assert_eq!(envelope_payload("xdirhive1-abc"), None);
}

#[test]
fn tickets_of_parts_say_which_part_is_missing() {
    let good = fixture_endpoint_ticket(6);
    let e = InviteTicket::assemble(Err("why".to_string()), None).unwrap_err();
    assert_eq!(e, TicketError::Endpoint("why".to_string()));
    let e = InviteTicket::assemble(Ok(good.clone()), None).unwrap_err();
    assert_eq!(e, TicketError::SecretEncoding);
    let e = InviteTicket::assemble(Ok(good.clone()), Some(vec![1; 17])).unwrap_err();
    assert_eq!(e, TicketError::SecretLength(17));
    let t = InviteTicket::assemble(Ok(good.clone()), Some(vec![1; 16])).unwrap();
    assert_eq!(t.folder_secret, [1; 16]);
    assert_eq!(t.endpoint, good);
}

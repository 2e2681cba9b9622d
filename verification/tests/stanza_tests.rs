use xmpp_server::stanza::{
    build_bind_result, build_features, build_features_post_auth, build_features_with_starttls, build_iq_error,
    build_iq_result, build_message, build_presence, build_sasl_challenge, build_sasl_failure, build_sasl_success,
    build_session_result, build_starttls_proceed, build_stream_close, build_stream_open, child_to_xml, escape_xml,
    extract_stanza_name, parse_stream_element, ParseResult, Stanza, StanzaChild, StanzaKind,
};

fn parse_stanza(xml: &str) -> Stanza {
    match parse_stream_element(xml) {
        ParseResult::Stanza(s) => s,
        other => panic!("expected a stanza, got {:?}", other),
    }
}

#[test]
fn escape_replaces_the_five_entities() {
    assert_eq!(escape_xml("a&b<c>d\"e'f"), "a&amp;b&lt;c&gt;d&quot;e&apos;f");
    assert_eq!(escape_xml("plain"), "plain");
    assert_eq!(escape_xml(""), "");
}

#[test]
fn escape_of_an_ampersand_entity_is_not_reread() {
    assert_eq!(escape_xml("&amp;"), "&amp;amp;");
}

#[test]
fn escaped_text_reads_back() {
    let s = "x < y && \"q\" > 'r' &amp;";
    let e = escape_xml(s);
    assert!(!e.contains('<') && !e.contains('>') && !e.contains('"') && !e.contains('\''));
    let back = e
        .replace("&lt;", "<")
        .replace("&gt;", ">")
        .replace("&quot;", "\"")
        .replace("&apos;", "'")
        .replace("&amp;", "&");
    assert_eq!(back, s);
}

#[test]
fn stream_open_and_close() {
    assert_eq!(
        build_stream_open("ossftw.com", "jabber:client", "abc"),
        "<?xml version='1.0'?><stream:stream xmlns='jabber:client' xmlns:stream='http://etherx.jabber.org/streams' id='abc' from='ossftw.com' version='1.0' xml:lang='en'>"
    );
    assert_eq!(build_stream_close(), "</stream:stream>");
}

#[test]
fn features_for_clients_servers_and_after_auth() {
    assert_eq!(
        build_features(true),
        "<stream:features>\n  <mechanisms xmlns=\"urn:ietf:params:xml:ns:xmpp-sasl\">\n    <mechanism>PLAIN</mechanism>\n    <mechanism>SCRAM-SHA-1</mechanism>\n  </mechanisms>\n  <c xmlns=\"http://jabber.org/protocol/caps\" node=\"http://ossftw.com/xmpp/server\" ver=\"1.0\" hash=\"sha-1\"/>\n  <register xmlns=\"http://jabber.org/features/iq-register\"/>\n  <ver xmlns=\"urn:ietf:params:xml:ns:xmpp-stanzas\"/>\n</stream:features>"
    );
    assert_eq!(
        build_features(false),
        "<stream:features>\n  <mechanisms xmlns=\"urn:ietf:params:xml:ns:xmpp-sasl\">\n    <mechanism>EXTERNAL</mechanism>\n  </mechanisms>\n</stream:features>"
    );
    assert_eq!(
        build_features_post_auth(),
        "<stream:features>\n  <bind xmlns=\"urn:ietf:params:xml:ns:xmpp-bind\"/>\n  <session xmlns=\"urn:ietf:params:xml:ns:xmpp-session\"/>\n</stream:features>"
    );
}

#[test]
fn starttls_builders() {
    assert!(build_features_with_starttls().contains("<starttls xmlns=\"urn:ietf:params:xml:ns:xmpp-tls\">"));
    assert_eq!(build_starttls_proceed(), "<proceed xmlns='urn:ietf:params:xml:ns:xmpp-tls'/>");
}

#[test]
fn sasl_builders() {
    assert_eq!(build_sasl_challenge("cj1h"), "<challenge xmlns='urn:ietf:params:xml:ns:xmpp-sasl'>cj1h</challenge>");
    assert_eq!(build_sasl_success(None), "<success xmlns='urn:ietf:params:xml:ns:xmpp-sasl'/>");
    assert_eq!(
        build_sasl_success(Some("dj1x")),
        "<success xmlns='urn:ietf:params:xml:ns:xmpp-sasl'>dj1x</success>"
    );
    assert_eq!(
        build_sasl_failure("not-authorized"),
        "<failure xmlns='urn:ietf:params:xml:ns:xmpp-sasl'><not-authorized/></failure>"
    );
}

#[test]
fn bind_session_and_iq_builders() {
    assert_eq!(
        build_bind_result("a@b/c", "bind_1"),
        "<iq id=\"bind_1\" type=\"result\"><bind xmlns=\"urn:ietf:params:xml:ns:xmpp-bind\"><jid>a@b/c</jid></bind></iq>"
    );
    assert_eq!(
        build_session_result("s1"),
        "<iq id=\"s1\" type=\"result\"><session xmlns=\"urn:ietf:params:xml:ns:xmpp-session\"/></iq>"
    );
    assert_eq!(
        build_iq_result("7", "jabber:iq:version", "<x/>"),
        "<iq id=\"7\" type=\"result\" xmlns=\"jabber:iq:version\"><x/></iq>"
    );
    assert_eq!(
        build_iq_error("9", "conflict", "a<b"),
        "<iq id=\"9\" type=\"error\"><error type='cancel'><conflict xmlns='urn:ietf:params:xml:ns:xmpp-stanzas'/><text xmlns='urn:ietf:params:xml:ns:xmpp-stanzas'>a&lt;b</text></error></iq>"
    );
}

#[test]
fn message_builder_escapes_addresses_and_body() {
    assert_eq!(
        build_message("a@x", "b@x", "hi & bye", "chat"),
        "<message from=\"a@x\" to=\"b@x\" type=\"chat\"><body>hi &amp; bye</body></message>"
    );
}

#[test]
fn presence_builder_with_and_without_parts() {
    assert_eq!(build_presence("a@x", "a@x", None, None, None), "<presence from=\"a@x\" to=\"a@x\"></presence>");
    assert_eq!(
        build_presence("a@x", "b@x", Some("unavailable"), Some("away"), Some("gone <now>")),
        "<presence from=\"a@x\" to=\"b@x\" type=\"unavailable\"><show>away</show><status>gone &lt;now&gt;</status></presence>"
    );
}

#[test]
fn new_stanza_is_empty() {
    let s = Stanza::new("message", StanzaKind::Message);
    assert_eq!(s.name, "message");
    assert!(s.is_message());
    assert!(!s.is_presence());
    assert!(!s.is_iq());
    assert!(s.id.is_none() && s.to.is_none() && s.stanza_type.is_none());
    assert!(s.children.is_empty() && s.attrs.is_empty());
    assert_eq!(s.to_xml_string(), "<message/>");
    assert_eq!(s.to_bytes(), b"<message/>".to_vec());
}

#[test]
fn serialisation_writes_fields_attrs_and_children() {
    let mut s = Stanza::new("iq", StanzaKind::Iq);
    s.id = Some("1".to_string());
    s.to = Some("a&b".to_string());
    s.stanza_type = Some("get".to_string());
    s.attrs.push(("foo".to_string(), "bar".to_string()));
    s.children.push(StanzaChild::Element {
        name: "query".to_string(),
        attrs: vec![],
        children: vec![],
        text: None,
        xmlns: Some("jabber:iq:roster".to_string()),
    });
    assert_eq!(
        s.to_xml_string(),
        "<iq id=\"1\" to=\"a&amp;b\" type=\"get\" foo=\"bar\"><query xmlns=\"jabber:iq:roster\"/></iq>"
    );
}

#[test]
fn child_serialisation_of_text_and_nested_elements() {
    assert_eq!(child_to_xml(&StanzaChild::Text("1 < 2".to_string())), "1 &lt; 2");
    let c = StanzaChild::Element {
        name: "a".to_string(),
        attrs: vec![("k".to_string(), "v".to_string())],
        children: vec![StanzaChild::Text("x".to_string())],
        text: Some("t".to_string()),
        xmlns: None,
    };
    assert_eq!(child_to_xml(&c), "<a k=\"v\">tx</a>");
}

#[test]
fn parse_blank_close_and_text_lines() {
    assert!(matches!(parse_stream_element("   "), ParseResult::Incomplete));
    assert!(matches!(parse_stream_element("</stream:stream>"), ParseResult::StreamClose));
    assert!(matches!(parse_stream_element("</stream>"), ParseResult::StreamClose));
    assert!(matches!(parse_stream_element("hello"), ParseResult::Incomplete));
}

#[test]
fn parse_stream_header_reads_its_attributes() {
    let r = parse_stream_element(
        "<stream:stream to='ossftw.com' from='peer.org' id='s1' version='1.0' xmlns='jabber:client' xmlns:stream='http://etherx.jabber.org/streams'>",
    );
    match r {
        ParseResult::StreamOpen { xmlns, to, from, id, version } => {
            assert_eq!(xmlns, "jabber:client");
            assert_eq!(to.as_deref(), Some("ossftw.com"));
            assert_eq!(from.as_deref(), Some("peer.org"));
            assert_eq!(id.as_deref(), Some("s1"));
            assert_eq!(version.as_deref(), Some("1.0"));
        }
        other => panic!("expected a stream header, got {:?}", other),
    }
}

#[test]
fn parse_stream_header_after_declaration_reads_no_attributes() {
    match parse_stream_element("<?xml version='1.0'?><stream:stream to='ossftw.com'>") {
        ParseResult::StreamOpen { xmlns, to, .. } => {
            assert_eq!(xmlns, "");
            assert!(to.is_none());
        }
        other => panic!("expected a stream header, got {:?}", other),
    }
    assert!(matches!(parse_stream_element("<?xml version='1.0'?>"), ParseResult::Incomplete));
}

#[test]
fn parse_message_keeps_root_fields_and_flat_children() {
    let s = parse_stanza("<message to='bob@ossftw.com' type='chat' id='m1' xml:lang='en'><body>hi</body></message>");
    assert_eq!(s.kind, StanzaKind::Message);
    assert_eq!(s.name, "message");
    assert_eq!(s.to.as_deref(), Some("bob@ossftw.com"));
    assert_eq!(s.stanza_type.as_deref(), Some("chat"));
    assert_eq!(s.id.as_deref(), Some("m1"));
    assert_eq!(s.lang.as_deref(), Some("en"));
    assert_eq!(s.children.len(), 1);
    match &s.children[0] {
        StanzaChild::Element { name, children, .. } => {
            assert_eq!(name, "body");
            assert!(children.is_empty());
        }
        _ => panic!("expected an element"),
    }
    assert_eq!(
        s.raw.as_deref(),
        Some("<message to='bob@ossftw.com' type='chat' id='m1' xml:lang='en'><body>hi</body></message>")
    );
}

#[test]
fn parse_keeps_text_of_the_root_and_unknown_attributes() {
    let s = parse_stanza("<auth xmlns='urn:ietf:params:xml:ns:xmpp-sasl' mechanism='PLAIN'>AGFsaWNl</auth>");
    assert_eq!(s.kind, StanzaKind::Iq);
    assert_eq!(s.name, "auth");
    assert_eq!(s.xmlns.as_deref(), Some("urn:ietf:params:xml:ns:xmpp-sasl"));
    assert_eq!(s.attrs, vec![("mechanism".to_string(), "PLAIN".to_string())]);
    assert_eq!(s.children.len(), 1);
    assert!(matches!(&s.children[0], StanzaChild::Text(t) if t == "AGFsaWNl"));
}

#[test]
fn parse_empty_child_with_namespace() {
    let s = parse_stanza("<iq type='get' id='r1'><query xmlns='jabber:iq:roster'/></iq>");
    assert!(s.is_iq());
    assert!(s.has_child_with_xmlns("query", "jabber:iq:roster"));
    assert!(!s.has_child_with_xmlns("query", "jabber:iq:version"));
    match s.get_child_by_xmlns("query", "jabber:iq:roster") {
        Some(StanzaChild::Element { attrs, .. }) => {
            assert_eq!(attrs, &vec![("xmlns".to_string(), "jabber:iq:roster".to_string())]);
        }
        _ => panic!("expected the query"),
    }
}

#[test]
fn parse_of_an_empty_root_lists_the_root_as_a_child() {
    let s = parse_stanza("<presence/>");
    assert!(s.is_presence());
    assert_eq!(s.children.len(), 1);
    assert!(matches!(&s.children[0], StanzaChild::Element { name, .. } if name == "presence"));
}

#[test]
fn parse_unknown_root_is_an_iq() {
    let s = parse_stanza("<foo id='1'/>");
    assert_eq!(s.kind, StanzaKind::Iq);
    assert_eq!(s.name, "foo");
}

#[test]
fn child_text_is_the_first_text_child_of_the_element() {
    let mut s = Stanza::new("presence", StanzaKind::Presence);
    s.children.push(StanzaChild::Element {
        name: "show".to_string(),
        attrs: vec![],
        children: vec![StanzaChild::Text("away".to_string())],
        text: None,
        xmlns: None,
    });
    assert_eq!(s.get_child_text("show").as_deref(), Some("away"));
    assert_eq!(s.get_child_text("status"), None);
}

#[test]
fn stanza_name_extraction() {
    assert_eq!(extract_stanza_name("  <message to='x'>").as_deref(), Some("message"));
    assert_eq!(extract_stanza_name("<iq/>").as_deref(), Some("iq"));
    assert_eq!(extract_stanza_name("<presence>").as_deref(), Some("presence"));
    assert_eq!(extract_stanza_name("<abc"), None);
    assert_eq!(extract_stanza_name("message"), None);
}

use base64::Engine as _;
use tokio::sync::mpsc::{unbounded_channel, UnboundedReceiver};
use xmpp_server::c2s::{build_roster_iq, c2s_finish, c2s_handle_line, c2s_step, is_blank, write_stanza, C2sState, Link};
use xmpp_server::config::Config;
use xmpp_server::roster::{RosterItem, SubscriptionState};
use xmpp_server::s2s::{s2s_step, starttls_step, S2sAction, StarttlsAction};
use xmpp_server::server::Services;
use xmpp_server::session::{handle_iq, handle_presence};
use xmpp_server::stanza::{
    build_features, build_features_post_auth, parse_stream_element, ParseResult, Stanza, StanzaChild, StanzaKind,
};

const HEADER: &str = "<stream:stream to='ossftw.com' xmlns='jabber:client' xmlns:stream='http://etherx.jabber.org/streams' version='1.0'>";

fn client() -> (Link, UnboundedReceiver<String>) {
    let (tx, rx) = unbounded_channel::<String>();
    (Link::new(tx), rx)
}

fn drain(rx: &mut UnboundedReceiver<String>) -> Vec<String> {
    let mut out = Vec::new();
    while let Ok(m) = rx.try_recv() {
        out.push(m);
    }
    out
}

/// Runs a client through authentication, binding and session start, and
/// gives back its full JID.
fn establish(
    user: &str,
    config: &Config,
    services: &mut Services,
    link: &mut Link,
    rx: &mut UnboundedReceiver<String>,
) -> (C2sState, String) {
    let (s, _) = c2s_handle_line(C2sState::StreamInit, HEADER, config, services, link);
    let payload = {
            base64::engine::general_purpose::STANDARD.encode(format!("\0{}\0secret", user))
    };
    let auth = format!("<auth xmlns='urn:ietf:params:xml:ns:xmpp-sasl' mechanism='PLAIN'>{}</auth>", payload);
    let (s, _) = c2s_handle_line(s, &auth, config, services, link);
    let (s, _) = c2s_handle_line(s, HEADER, config, services, link);
    let (s, _) = c2s_handle_line(
        s,
        "<iq type='set' id='b1'><bind xmlns='urn:ietf:params:xml:ns:xmpp-bind'/></iq>",
        config,
        services,
        link,
    );
    let (s, _) = c2s_handle_line(
        s,
        "<iq type='set' id='s1'><session xmlns='urn:ietf:params:xml:ns:xmpp-session'/></iq>",
        config,
        services,
        link,
    );
    let jid = match &s {
        C2sState::SessionEstablished { full_jid, .. } => full_jid.clone(),
        other => panic!("session not established: {:?}", other),
    };
    drain(rx);
    (s, jid)
}

#[test]
fn blank_lines() {
    assert!(is_blank(""));
    assert!(is_blank(" \t\n"));
    assert!(!is_blank(" <a/> "));
}

#[test]
fn write_stanza_reports_a_closed_queue() {
    let (mut link, rx) = client();
    assert_eq!(write_stanza(&mut link, "<a/>"), Ok(()));
    drop(rx);
    assert_eq!(write_stanza(&mut link, "<b/>"), Err("Send error: channel closed".to_string()));
}

#[test]
fn roster_iq_lists_items_with_no_subscription() {
    let items = vec![
        RosterItem {
            jid: "bob@ossftw.com".to_string(),
            name: Some("Bob".to_string()),
            subscription: SubscriptionState::Both,
            groups: vec![],
        },
        RosterItem { jid: "carol@ossftw.com".to_string(), name: None, subscription: SubscriptionState::To, groups: vec![] },
    ];
    assert_eq!(
        build_roster_iq(&items),
        "<query xmlns='jabber:iq:roster'><item jid=\"bob@ossftw.com\" subscription=\"none\" name=\"Bob\"/><item jid=\"carol@ossftw.com\" subscription=\"none\"/></query>"
    );
    assert_eq!(build_roster_iq(&[]), "<query xmlns='jabber:iq:roster'></query>");
}

#[test]
fn stream_header_is_answered_with_features() {
    let config = Config::default();
    let mut services = Services::new();
    let (mut link, mut rx) = client();
    let (s, go) = c2s_handle_line(C2sState::StreamInit, HEADER, &config, &mut services, &mut link);
    assert!(go);
    let sid = match &s {
        C2sState::AuthPending { stream_id } => stream_id.clone(),
        other => panic!("unexpected state {:?}", other),
    };
    let out = drain(&mut rx);
    assert_eq!(out.len(), 1);
    assert_eq!(
        out[0],
        format!(
            "<?xml version='1.0'?><stream:stream xmlns='jabber:client' xmlns:stream='http://etherx.jabber.org/streams' id='{}' from='ossftw.com' version='1.0' xml:lang='en'>{}",
            sid,
            build_features(true)
        )
    );
}

#[test]
fn stream_ids_are_version_4_uuids() {
    let config = Config::default();
    let mut services = Services::new();
    let (mut link, _rx) = client();
    let (s, _) = c2s_handle_line(C2sState::StreamInit, HEADER, &config, &mut services, &mut link);
    let sid = match &s {
        C2sState::AuthPending { stream_id } => stream_id.clone(),
        other => panic!("unexpected state {:?}", other),
    };
    let cs: Vec<char> = sid.chars().collect();
    assert_eq!(cs.len(), 36);
    for (i, c) in cs.iter().enumerate() {
        if i == 8 || i == 13 || i == 18 || i == 23 {
            assert_eq!(*c, '-');
        } else {
            assert!(c.is_ascii_digit() || ('a'..='f').contains(c));
        }
    }
    assert_eq!(cs[14], '4');
    assert!(['8', '9', 'a', 'b'].contains(&cs[19]));
}

#[test]
fn bound_resource_without_a_request_is_a_uuid() {
    let config = Config::default();
    let mut services = Services::new();
    services.auth.register_user("alice", "secret").unwrap();
    let (mut la, mut ra) = client();
    let (_s, jid) = establish("alice", &config, &mut services, &mut la, &mut ra);
    let res = jid.strip_prefix("alice@ossftw.com/").unwrap();
    let cs: Vec<char> = res.chars().collect();
    assert_eq!(cs.len(), 36);
    assert_eq!(cs[14], '4');
    assert!(services.router.is_registered(&jid));
}

#[test]
fn nothing_is_routed_before_the_session() {
    let config = Config::default();
    let mut services = Services::new();
    services.auth.register_user("alice", "secret").unwrap();
    services.auth.register_user("bob", "secret").unwrap();
    let (mut lb, mut rb) = client();
    let (_sb, _jb) = establish("bob", &config, &mut services, &mut lb, &mut rb);
    drain(&mut rb);
    let (mut la, mut ra) = client();
    let msg = "<message to='bob@ossftw.com' type='chat'><body>hi</body></message>";
    let (s, _) = c2s_handle_line(C2sState::StreamInit, msg, &config, &mut services, &mut la);
    let (s, _) = c2s_handle_line(s, HEADER, &config, &mut services, &mut la);
    let (s, _) = c2s_handle_line(s, msg, &config, &mut services, &mut la);
    let (_s, _) = c2s_handle_line(s, "<presence/>", &config, &mut services, &mut la);
    assert!(drain(&mut rb).is_empty());
    drain(&mut ra);
}

#[test]
fn header_for_another_domain_closes_the_stream() {
    let config = Config::default();
    let mut services = Services::new();
    let (mut link, mut rx) = client();
    let (s, go) = c2s_handle_line(C2sState::StreamInit, "<stream:stream to='other.org'>", &config, &mut services, &mut link);
    assert!(!go);
    assert!(matches!(s, C2sState::StreamInit));
    assert!(drain(&mut rx).is_empty());
}

#[test]
fn stanza_before_the_stream_is_ignored() {
    let config = Config::default();
    let mut services = Services::new();
    let (mut link, mut rx) = client();
    let (s, go) = c2s_handle_line(C2sState::StreamInit, "<iq type='get' id='1'/>", &config, &mut services, &mut link);
    assert!(go);
    assert!(matches!(s, C2sState::StreamInit));
    assert!(drain(&mut rx).is_empty());
}

#[test]
fn plain_authentication_then_restart_binding_and_session() {
    let config = Config::default();
    let mut services = Services::new();
    services.auth.register_user("alice", "secret").unwrap();
    let (mut link, mut rx) = client();
    let (s, _) = c2s_handle_line(C2sState::StreamInit, HEADER, &config, &mut services, &mut link);
    drain(&mut rx);

    let (s, go) = c2s_handle_line(
        s,
        "<auth xmlns='urn:ietf:params:xml:ns:xmpp-sasl' mechanism='PLAIN'>AGFsaWNlAHNlY3JldA==</auth>",
        &config,
        &mut services,
        &mut link,
    );
    assert!(go);
    assert!(matches!(&s, C2sState::AuthSuccess { username, .. } if username == "alice"));
    assert_eq!(drain(&mut rx), vec!["<success xmlns='urn:ietf:params:xml:ns:xmpp-sasl'/>".to_string()]);

    let (s, _) = c2s_handle_line(s, HEADER, &config, &mut services, &mut link);
    let out = drain(&mut rx);
    assert!(out[0].ends_with(&build_features_post_auth()));
    assert!(matches!(&s, C2sState::AuthSuccess { username, .. } if username == "alice"));

    let (s, _) = c2s_handle_line(
        s,
        "<iq type='set' id='b1'><bind xmlns='urn:ietf:params:xml:ns:xmpp-bind'><resource>phone</resource></bind></iq>",
        &config,
        &mut services,
        &mut link,
    );
    let resource = match &s {
        C2sState::BindPending { username, resource: Some(r), .. } if username == "alice" => r.clone(),
        other => panic!("unexpected state {:?}", other),
    };
    // The parser keeps only the root's own text, so the requested resource
    // is not seen and one is generated.
    assert_eq!(resource.len(), 36);
    let out = drain(&mut rx);
    assert_eq!(
        out,
        vec![format!(
            "<iq id=\"b1\" type=\"result\"><bind xmlns=\"urn:ietf:params:xml:ns:xmpp-bind\"><jid>alice@ossftw.com/{}</jid></bind></iq>",
            resource
        )]
    );

    let (s, _) = c2s_handle_line(
        s,
        "<iq type='set' id='s1'><session xmlns='urn:ietf:params:xml:ns:xmpp-session'/></iq>",
        &config,
        &mut services,
        &mut link,
    );
    match &s {
        C2sState::SessionEstablished { username, resource: r, full_jid, .. } => {
            assert_eq!(username, "alice");
            assert_eq!(r, &resource);
            assert_eq!(full_jid, &format!("alice@ossftw.com/{}", resource));
            assert!(services.router.is_registered(full_jid));
        }
        other => panic!("unexpected state {:?}", other),
    }
    assert_eq!(
        drain(&mut rx),
        vec!["<iq id=\"s1\" type=\"result\"><session xmlns=\"urn:ietf:params:xml:ns:xmpp-session\"/></iq>".to_string()]
    );
}

#[test]
fn failed_and_unknown_mechanisms() {
    let config = Config::default();
    let mut services = Services::new();
    services.auth.register_user("alice", "secret").unwrap();
    let (mut link, mut rx) = client();
    let (s, _) = c2s_handle_line(C2sState::StreamInit, HEADER, &config, &mut services, &mut link);
    drain(&mut rx);
    let (s, _) = c2s_handle_line(
        s,
        "<auth xmlns='urn:ietf:params:xml:ns:xmpp-sasl' mechanism='PLAIN'>AGFsaWNlAHdyb25n</auth>",
        &config,
        &mut services,
        &mut link,
    );
    assert!(matches!(s, C2sState::AuthPending { .. }));
    assert_eq!(
        drain(&mut rx),
        vec!["<failure xmlns='urn:ietf:params:xml:ns:xmpp-sasl'><not-authorized/></failure>".to_string()]
    );
    let (s, _) = c2s_handle_line(
        s,
        "<auth xmlns='urn:ietf:params:xml:ns:xmpp-sasl' mechanism='X-OAUTH'>abc</auth>",
        &config,
        &mut services,
        &mut link,
    );
    assert!(matches!(s, C2sState::AuthPending { .. }));
    assert_eq!(
        drain(&mut rx),
        vec!["<failure xmlns='urn:ietf:params:xml:ns:xmpp-sasl'><invalid-mechanism/></failure>".to_string()]
    );
}

#[test]
fn scram_start_sends_a_challenge() {
    let config = Config::default();
    let mut services = Services::new();
    services.auth.register_user("alice", "secret").unwrap();
    let (mut link, mut rx) = client();
    let (s, _) = c2s_handle_line(C2sState::StreamInit, HEADER, &config, &mut services, &mut link);
    drain(&mut rx);
    let (s, _) = c2s_handle_line(
        s,
        "<auth xmlns='urn:ietf:params:xml:ns:xmpp-sasl' mechanism='SCRAM-SHA-1'>biwsbj1hbGljZSxyPWFiYw==</auth>",
        &config,
        &mut services,
        &mut link,
    );
    let sid = match &s {
        C2sState::AuthPending { stream_id } => stream_id.clone(),
        other => panic!("unexpected state {:?}", other),
    };
    let out = drain(&mut rx);
    assert_eq!(out.len(), 1);
    assert!(out[0].starts_with("<challenge xmlns='urn:ietf:params:xml:ns:xmpp-sasl'>"));
    assert_eq!(services.auth.get_username_for_stream(&sid), Some("alice".to_string()));
}

#[test]
fn iq_queries_of_an_established_session() {
    let config = Config::default();
    let mut services = Services::new();
    services.auth.register_user("alice", "secret").unwrap();
    let (mut link, mut rx) = client();
    let (s, _) = establish("alice", &config, &mut services, &mut link, &mut rx);

    let (s, _) = c2s_handle_line(s, "<iq type='get' id='p1'><ping xmlns='urn:xmpp:ping'/></iq>", &config, &mut services, &mut link);
    assert_eq!(drain(&mut rx), vec!["<iq id=\"p1\" type=\"result\"><ping xmlns=\"urn:xmpp:ping\"/></iq>".to_string()]);

    let (s, _) = c2s_handle_line(s, "<iq type='get' id='v1'><query xmlns='jabber:iq:version'/></iq>", &config, &mut services, &mut link);
    assert_eq!(
        drain(&mut rx),
        vec!["<iq id=\"v1\" type=\"result\"><query xmlns=\"jabber:iq:version\"><name>OSS FTW XMPP Server</name><version>0.1.0</version><os>Rust</os></query></iq>".to_string()]
    );

    let (s, _) = c2s_handle_line(s, "<iq type='get' id='l1'><query xmlns='jabber:iq:last'/></iq>", &config, &mut services, &mut link);
    assert_eq!(
        drain(&mut rx),
        vec!["<iq id=\"l1\" type=\"result\"><query xmlns=\"jabber:iq:last\" seconds=\"0\"/></iq>".to_string()]
    );

    let (s, _) = c2s_handle_line(
        s,
        "<iq type='get' id='d1'><query xmlns='http://jabber.org/protocol/disco#items'/></iq>",
        &config,
        &mut services,
        &mut link,
    );
    assert_eq!(
        drain(&mut rx),
        vec!["<iq id=\"d1\" type=\"result\"><query xmlns='http://jabber.org/protocol/disco#items'><item jid=\"lobby@ossftw.com\" name=\"lobby\"/></query></iq>".to_string()]
    );

    let (s, _) = c2s_handle_line(
        s,
        "<iq type='get' id='i1'><query xmlns='http://jabber.org/protocol/disco#info'/></iq>",
        &config,
        &mut services,
        &mut link,
    );
    let out = drain(&mut rx);
    assert!(out[0].starts_with("<iq id=\"i1\" type=\"result\"><query xmlns=\"http://jabber.org/protocol/disco#info\">"));
    assert!(out[0].contains("<identity category=\"server\" type=\"im\" name=\"OSS FTW XMPP Server\"/>"));
    assert!(out[0].contains("<feature var=\"urn:xmpp:ping\"/>"));

    let (s, _) = c2s_handle_line(s, "<iq type='get' id='r1'><query xmlns='jabber:iq:roster'/></iq>", &config, &mut services, &mut link);
    assert_eq!(
        drain(&mut rx),
        vec!["<iq id=\"r1\" type=\"result\"><query xmlns='jabber:iq:roster'></query></iq>".to_string()]
    );

    let (s, _) = c2s_handle_line(s, "<iq type='get' id='g1'><query xmlns='jabber:iq:register'/></iq>", &config, &mut services, &mut link);
    assert!(drain(&mut rx)[0].contains("<instructions>Choose a username and password to register</instructions>"));

    let (s, _) = c2s_handle_line(
        s,
        "<iq type='set' id='a1'><query xmlns='http://jabber.org/protocol/muc#admin'/></iq>",
        &config,
        &mut services,
        &mut link,
    );
    assert_eq!(
        drain(&mut rx),
        vec!["<iq id=\"a1\" type=\"result\"><query xmlns=\"http://jabber.org/protocol/muc#admin\"/></iq>".to_string()]
    );

    let (s, _) = c2s_handle_line(s, "<iq type='get' id='u1'><query xmlns='urn:unknown'/></iq>", &config, &mut services, &mut link);
    assert_eq!(
        drain(&mut rx),
        vec!["<iq id=\"u1\" type=\"error\"><error type='cancel'><feature-not-implemented xmlns='urn:ietf:params:xml:ns:xmpp-stanzas'/><text xmlns='urn:ietf:params:xml:ns:xmpp-stanzas'>This feature is not implemented</text></error></iq>".to_string()]
    );

    let (_s, _) = c2s_handle_line(s, "<iq type='set'><query xmlns='jabber:iq:roster'/></iq>", &config, &mut services, &mut link);
    assert!(drain(&mut rx).is_empty());
}

#[test]
fn message_routing_between_sessions() {
    let config = Config::default();
    let mut services = Services::new();
    services.auth.register_user("alice", "secret").unwrap();
    services.auth.register_user("bob", "secret").unwrap();
    let (mut la, mut ra) = client();
    let (mut lb, mut rb) = client();
    let (sa, ja) = establish("alice", &config, &mut services, &mut la, &mut ra);
    let (_sb, _jb) = establish("bob", &config, &mut services, &mut lb, &mut rb);

    let (sa, go) = c2s_handle_line(sa, "<message to='bob@ossftw.com' type='chat'><body>hi</body></message>", &config, &mut services, &mut la);
    assert!(go);
    assert_eq!(
        drain(&mut rb),
        vec!["<message to=\"bob@ossftw.com\" type=\"chat\"><body/></message>".to_string()]
    );
    assert!(drain(&mut ra).is_empty());

    let (_sa, _) = c2s_handle_line(sa, "<message to='carol@ossftw.com'/>", &config, &mut services, &mut la);
    assert_eq!(
        drain(&mut ra),
        vec![format!(
            "<message from=\"alice@ossftw.com\" to=\"{}\" type=\"error\"><body>User is offline</body></message>",
            ja
        )]
    );
}

#[test]
fn presence_is_recorded_and_broadcast() {
    let config = Config::default();
    let mut services = Services::new();
    services.auth.register_user("alice", "secret").unwrap();
    services.auth.register_user("bob", "secret").unwrap();
    let (mut la, mut ra) = client();
    let (mut lb, mut rb) = client();
    let (sa, _ja) = establish("alice", &config, &mut services, &mut la, &mut ra);
    let (_sb, _jb) = establish("bob", &config, &mut services, &mut lb, &mut rb);

    let (sa, _) = c2s_handle_line(sa, "<presence/>", &config, &mut services, &mut la);
    assert!(services.roster.is_user_online("alice@ossftw.com"));
    assert_eq!(
        drain(&mut rb),
        vec!["<presence from=\"alice@ossftw.com\" to=\"alice@ossftw.com\"></presence>".to_string()]
    );
    assert!(drain(&mut ra).is_empty());

    let (_sa, _) = c2s_handle_line(sa, "<presence type='subscribe' to='bob@ossftw.com'/>", &config, &mut services, &mut la);
    let items = services.roster.get_roster("alice");
    assert_eq!(items.len(), 1);
    assert_eq!(items[0].jid, "bob@ossftw.com");
    assert_eq!(
        drain(&mut rb),
        vec!["<presence from=\"alice@ossftw.com\" to=\"bob@ossftw.com\" type=\"subscribed\"></presence>".to_string()]
    );
}

#[test]
fn presence_to_a_room_joins_it() {
    let config = Config::default();
    let mut services = Services::new();
    services.auth.register_user("alice", "secret").unwrap();
    let (mut la, mut ra) = client();
    let (sa, ja) = establish("alice", &config, &mut services, &mut la, &mut ra);
    // The room and nick are read from `room/nick@domain`.
    let (sa, _) = c2s_handle_line(sa, "<presence to='lobby@ossftw.com/ali'/>", &config, &mut services, &mut la);
    assert!(services.muc.get_occupant_nicks("lobby").is_empty());
    let (_sa, _) = c2s_handle_line(sa, "<presence to='lobby/ali@ossftw.com'/>", &config, &mut services, &mut la);
    assert_eq!(services.muc.get_occupant_nicks("lobby"), vec!["ali".to_string()]);
    assert_eq!(services.muc.get_occupant_jids("lobby"), vec![ja]);
    assert!(drain(&mut ra).is_empty());
}

#[test]
fn stream_close_and_session_end() {
    let config = Config::default();
    let mut services = Services::new();
    services.auth.register_user("alice", "secret").unwrap();
    services.auth.register_user("bob", "secret").unwrap();
    let (mut la, mut ra) = client();
    let (mut lb, mut rb) = client();
    let (sa, ja) = establish("alice", &config, &mut services, &mut la, &mut ra);
    let (_sb, _jb) = establish("bob", &config, &mut services, &mut lb, &mut rb);
    let (sa, go) = c2s_handle_line(sa, "</stream:stream>", &config, &mut services, &mut la);
    assert!(!go);
    assert!(!services.router.is_registered(&ja));
    c2s_finish(&sa, &config, &mut services);
    assert_eq!(
        drain(&mut rb),
        vec!["<presence from=\"alice@ossftw.com\" to=\"alice@ossftw.com\" type=\"unavailable\"><status>Connection closed</status></presence>".to_string()]
    );
}

#[test]
fn finishing_a_session_that_never_started_changes_nothing() {
    let config = Config::default();
    let mut services = Services::new();
    c2s_finish(&C2sState::StreamInit, &config, &mut services);
    assert!(services.auth.list_users().is_empty());
}

#[test]
fn registration_through_iq_set() {
    let config = Config::default();
    let mut services = Services::new();
    services.auth.register_user("alice", "secret").unwrap();
    let (mut la, mut ra) = client();
    let (sa, _) = establish("alice", &config, &mut services, &mut la, &mut ra);
    // Nested elements lose their text in parsing, so the form is empty and
    // gets no answer.
    let (_sa, go) = c2s_handle_line(
        sa,
        "<iq type='set' id='reg1'><query xmlns='jabber:iq:register'><username>bob</username><password>pw</password></query></iq>",
        &config,
        &mut services,
        &mut la,
    );
    assert!(go);
    assert!(drain(&mut ra).is_empty());
    assert!(!services.auth.user_exists("bob"));
}

#[test]
fn parse_errors_stop_the_session() {
    let config = Config::default();
    let mut services = Services::new();
    let (mut link, mut rx) = client();
    let (s, go) = c2s_step(
        C2sState::StreamInit,
        ParseResult::Error("XML parse error".to_string()),
        &config,
        &mut services,
        &mut link,
    );
    assert!(!go);
    assert!(matches!(s, C2sState::StreamInit));
    let (s, go) = c2s_handle_line(s, "   ", &config, &mut services, &mut link);
    assert!(go);
    assert!(matches!(s, C2sState::StreamInit));
    assert!(drain(&mut rx).is_empty());
}

#[test]
fn peer_server_header_and_routing() {
    let mut services = Services::new();
    let (tx, mut rx) = unbounded_channel::<String>();
    services.router.register("alice@ossftw.com/phone", tx);
    let mut remote = String::new();
    let a = s2s_step(
        &mut remote,
        parse_stream_element("<stream:stream from='peer.org' to='ossftw.com' xmlns='jabber:server'>"),
        "ossftw.com",
        &mut services.router,
    );
    assert_eq!(remote, "peer.org");
    match a {
        S2sAction::Reply(x) => {
            assert!(x.starts_with("<?xml version='1.0'?><stream:stream xmlns='jabber:server' xmlns:stream='http://etherx.jabber.org/streams' id='"));
            assert!(x.ends_with("' from='ossftw.com' version='1.0'/>"));
        }
        other => panic!("unexpected {:?}", other),
    }
    let a = s2s_step(
        &mut remote,
        parse_stream_element("<message to='alice@ossftw.com'/>"),
        "ossftw.com",
        &mut services.router,
    );
    assert!(matches!(a, S2sAction::Continue));
    assert_eq!(
        rx.try_recv().unwrap(),
        "<message to=\"alice@ossftw.com\"><message to=\"alice@ossftw.com\"/></message>"
    );
    let a = s2s_step(&mut remote, parse_stream_element("</stream:stream>"), "ossftw.com", &mut services.router);
    assert!(matches!(a, S2sAction::Close));
}

#[test]
fn peer_server_for_another_domain_is_closed() {
    let mut router = xmpp_server::router::Router::new();
    let mut remote = String::new();
    let a = s2s_step(&mut remote, parse_stream_element("<stream:stream to='other.org'>"), "ossftw.com", &mut router);
    assert!(matches!(a, S2sAction::CloseWith(x) if x == "</stream:stream>"));
    assert_eq!(remote, "");
}

#[test]
fn starttls_offer_and_proceed() {
    assert!(matches!(starttls_step("  ", "ossftw.com"), StarttlsAction::Ignore));
    assert!(matches!(
        starttls_step("<starttls xmlns='urn:ietf:params:xml:ns:xmpp-tls'/>", "ossftw.com"),
        StarttlsAction::Proceed(x) if x == "<proceed xmlns='urn:ietf:params:xml:ns:xmpp-tls'/>"
    ));
    match starttls_step(HEADER, "ossftw.com") {
        StarttlsAction::Reply(x) => {
            assert!(x.starts_with("<?xml version='1.0'?><stream:stream xmlns='jabber:client'"));
            assert!(x.ends_with("<starttls xmlns=\"urn:ietf:params:xml:ns:xmpp-tls\">\n    <required/>\n  </starttls>\n</stream:features>"));
        }
        other => panic!("unexpected {:?}", other),
    }
    assert!(matches!(starttls_step("<iq/>", "ossftw.com"), StarttlsAction::Ignore));
}

fn text_child(name: &str, text: &str) -> StanzaChild {
    StanzaChild::Element {
        name: name.to_string(),
        attrs: vec![],
        children: vec![StanzaChild::Text(text.to_string())],
        text: None,
        xmlns: None,
    }
}

#[test]
fn presence_reads_show_status_and_priority() {
    let mut services = Services::new();
    let mut st = Stanza::new("presence", StanzaKind::Presence);
    st.children.push(text_child("show", "dnd"));
    st.children.push(text_child("status", "busy"));
    st.children.push(text_child("priority", "-5"));
    handle_presence(
        &st,
        "alice",
        "phone",
        "alice@ossftw.com/phone",
        "ossftw.com",
        &mut services.router,
        &mut services.roster,
        &mut services.muc,
    );
    let ps = services.roster.get_user_presence("alice@ossftw.com");
    assert_eq!(ps.len(), 1);
    assert_eq!(ps[0].priority, -5);
    assert_eq!(ps[0].show.as_deref(), Some("dnd"));
    assert_eq!(ps[0].status.as_deref(), Some("busy"));

    let mut st2 = Stanza::new("presence", StanzaKind::Presence);
    st2.children.push(text_child("priority", "high"));
    handle_presence(
        &st2,
        "alice",
        "phone",
        "alice@ossftw.com/phone",
        "ossftw.com",
        &mut services.router,
        &mut services.roster,
        &mut services.muc,
    );
    assert_eq!(services.roster.get_user_presence("alice@ossftw.com")[0].priority, 0);
}

#[test]
fn presence_priority_is_read_as_an_i32() {
    let cases: [(&str, i32); 7] = [
        ("+7", 7),
        ("2147483647", 2147483647),
        ("-2147483648", -2147483648),
        ("2147483648", 0),
        ("-2147483649", 0),
        ("99999999999999", 0),
        ("-", 0),
    ];
    for (text, expected) in cases.iter() {
        let mut services = Services::new();
        let mut st = Stanza::new("presence", StanzaKind::Presence);
        st.children.push(text_child("priority", text));
        handle_presence(
            &st,
            "alice",
            "phone",
            "alice@ossftw.com/phone",
            "ossftw.com",
            &mut services.router,
            &mut services.roster,
            &mut services.muc,
        );
        assert_eq!(services.roster.get_user_presence("alice@ossftw.com")[0].priority, *expected, "{}", text);
    }
}

#[test]
fn roster_set_adds_each_item() {
    let config = Config::default();
    let mut services = Services::new();
    let (mut link, mut rx) = client();
    let mut st = Stanza::new("iq", StanzaKind::Iq);
    st.id = Some("rs1".to_string());
    st.stanza_type = Some("set".to_string());
    st.children.push(StanzaChild::Element {
        name: "query".to_string(),
        attrs: vec![],
        children: vec![
            StanzaChild::Element {
                name: "item".to_string(),
                attrs: vec![("jid".to_string(), "bob@ossftw.com".to_string()), ("name".to_string(), "Bob".to_string())],
                children: vec![],
                text: None,
                xmlns: None,
            },
            StanzaChild::Element {
                name: "item".to_string(),
                attrs: vec![("name".to_string(), "Nobody".to_string())],
                children: vec![],
                text: None,
                xmlns: None,
            },
            StanzaChild::Element {
                name: "item".to_string(),
                attrs: vec![("jid".to_string(), "carol@ossftw.com".to_string())],
                children: vec![],
                text: None,
                xmlns: None,
            },
        ],
        text: None,
        xmlns: Some("jabber:iq:roster".to_string()),
    });
    handle_iq(
        &st,
        "alice",
        "ossftw.com",
        &config,
        &mut services.auth,
        &mut services.roster,
        &services.muc,
        &mut link,
    );
    let ack = "<iq id=\"rs1\" type=\"result\"><query xmlns=\"jabber:iq:roster\"/></iq>".to_string();
    assert_eq!(drain(&mut rx), vec![ack.clone(), ack]);
    let items = services.roster.get_roster("alice");
    assert_eq!(items.len(), 2);
    assert_eq!(items[0].jid, "bob@ossftw.com");
    assert_eq!(items[0].name.as_deref(), Some("Bob"));
    assert_eq!(items[1].jid, "carol@ossftw.com");
}

#[test]
fn registration_form_creates_an_account_or_reports_a_conflict() {
    let config = Config::default();
    let mut services = Services::new();
    services.auth.register_user("alice", "secret").unwrap();
    let (mut link, mut rx) = client();
    let form = |user: &str| {
        let mut st = Stanza::new("iq", StanzaKind::Iq);
        st.id = Some("reg".to_string());
        st.stanza_type = Some("set".to_string());
        st.children.push(StanzaChild::Element {
            name: "query".to_string(),
            attrs: vec![],
            children: vec![text_child("username", user), text_child("password", "pw")],
            text: None,
            xmlns: Some("jabber:iq:register".to_string()),
        });
        st
    };
    handle_iq(&form("bob"), "alice", "ossftw.com", &config, &mut services.auth, &mut services.roster, &services.muc, &mut link);
    assert_eq!(
        drain(&mut rx),
        vec!["<iq id=\"reg\" type=\"result\"><query xmlns=\"jabber:iq:register\"/></iq>".to_string()]
    );
    assert_eq!(services.auth.get_user("bob").unwrap().password, "pw");
    handle_iq(&form("alice"), "alice", "ossftw.com", &config, &mut services.auth, &mut services.roster, &services.muc, &mut link);
    assert_eq!(
        drain(&mut rx),
        vec!["<iq id=\"reg\" type=\"error\"><error type='cancel'><conflict xmlns='urn:ietf:params:xml:ns:xmpp-stanzas'/><text xmlns='urn:ietf:params:xml:ns:xmpp-stanzas'>User already exists: User already exists</text></error></iq>".to_string()]
    );
}

use tokio::sync::mpsc::unbounded_channel;
use xmpp_server::cli::{ensure_admin, parse_command, Command};
use xmpp_server::config::{tls_plan, Config, TlsPlan};
use xmpp_server::auth::AuthManager;
use xmpp_server::muc::MucManager;
use xmpp_server::roster::{RosterManager, SubscriptionState};
use xmpp_server::router::Router;
use xmpp_server::s2s::{handshake_for, Handshake};

#[test]
fn roster_add_contact_once() {
    let mut r = RosterManager::new();
    assert!(r.get_roster("alice").is_empty());
    r.add_contact("alice", "bob@ossftw.com", Some("Bob"));
    r.add_contact("alice", "bob@ossftw.com", Some("Robert"));
    r.add_contact("alice", "carol@ossftw.com", None);
    let items = r.get_roster("alice");
    assert_eq!(items.len(), 2);
    assert_eq!(items[0].jid, "bob@ossftw.com");
    assert_eq!(items[0].name.as_deref(), Some("Bob"));
    assert_eq!(items[0].subscription, SubscriptionState::NoSubscription);
    assert!(items[0].groups.is_empty());
    assert_eq!(items[1].jid, "carol@ossftw.com");
    assert!(items[1].name.is_none());
    assert!(r.get_roster("bob").is_empty());
}

#[test]
fn presence_makes_a_user_online() {
    let mut r = RosterManager::new();
    assert!(!r.is_user_online("alice@ossftw.com"));
    r.set_presence("alice", "phone", 5, Some("away".to_string()), None, true);
    assert!(r.is_user_online("alice@ossftw.com"));
    let ps = r.get_user_presence("alice@ossftw.com");
    assert_eq!(ps.len(), 1);
    assert_eq!(ps[0].jid, "alice@ossftw.com");
    assert_eq!(ps[0].resource, "phone");
    assert_eq!(ps[0].priority, 5);
    assert_eq!(ps[0].show.as_deref(), Some("away"));
    assert_eq!(r.get_online_users(), vec!["alice@ossftw.com".to_string()]);
}

#[test]
fn presence_update_in_place_and_unavailable() {
    let mut r = RosterManager::new();
    r.set_presence("alice", "phone", 5, None, None, true);
    r.set_presence("alice", "phone", 1, None, Some("busy".to_string()), false);
    let ps = r.get_user_presence("alice@ossftw.com");
    assert_eq!(ps.len(), 1);
    assert_eq!(ps[0].priority, 1);
    assert_eq!(ps[0].status.as_deref(), Some("busy"));
    assert!(!ps[0].available);
    assert!(!r.is_user_online("alice@ossftw.com"));
    assert!(r.get_online_users().is_empty());
}

#[test]
fn best_resource_is_the_last_of_highest_priority() {
    let mut r = RosterManager::new();
    assert_eq!(r.get_best_resource("alice@ossftw.com"), None);
    r.set_presence("alice", "a", 1, None, None, true);
    r.set_presence("alice", "b", 7, None, None, true);
    r.set_presence("alice", "c", 7, None, None, true);
    r.set_presence("alice", "d", 9, None, None, false);
    assert_eq!(r.get_best_resource("alice@ossftw.com").as_deref(), Some("c"));
}

#[test]
fn remove_resource_uses_the_user_slash_resource_key() {
    let mut r = RosterManager::new();
    r.set_presence("alice", "phone", 0, None, None, true);
    r.remove_resource("alice@ossftw.com/phone");
    assert!(r.is_user_online("alice@ossftw.com"));
    r.remove_resource("alice/phone");
    assert!(!r.is_user_online("alice@ossftw.com"));
}

#[test]
fn muc_starts_with_the_lobby() {
    let m = MucManager::new();
    assert_eq!(m.list_rooms(), vec!["lobby".to_string()]);
    let lobby = m.get_room("lobby").unwrap();
    assert_eq!(lobby.title.as_deref(), Some("General Lobby"));
    assert!(lobby.persistent);
    assert!(lobby.occupants.is_empty());
    assert!(m.get_room("nope").is_none());
}

#[test]
fn muc_create_and_join_rules() {
    let mut m = MucManager::new();
    assert_eq!(m.create_room("lobby", None, None), Err("Room already exists".to_string()));
    assert_eq!(m.create_room("dev", Some("Dev"), Some("pw")), Ok(()));
    assert_eq!(m.join_room("nope", "a", "a@x/r", None), Err("Room not found".to_string()));
    assert_eq!(m.join_room("dev", "a", "a@x/r", None), Err("Incorrect password".to_string()));
    assert_eq!(m.join_room("dev", "a", "a@x/r", Some("bad")), Err("Incorrect password".to_string()));
    assert_eq!(m.join_room("dev", "a", "a@x/r", Some("pw")), Ok(()));
    assert_eq!(m.join_room("dev", "a", "b@x/r", Some("pw")), Err("Nick already taken".to_string()));
    assert_eq!(m.join_room("dev", "b", "b@x/r", Some("pw")), Ok(()));
    assert_eq!(m.get_occupant_nicks("dev"), vec!["a".to_string(), "b".to_string()]);
    assert_eq!(m.get_occupant_jids("dev"), vec!["a@x/r".to_string(), "b@x/r".to_string()]);
    let occ = &m.get_room("dev").unwrap().occupants;
    assert_eq!(occ[0].role, "participant");
    assert_eq!(occ[0].affiliation, "none");
}

#[test]
fn muc_leave_and_broadcast() {
    let mut m = MucManager::new();
    m.join_room("lobby", "a", "a@x/r", None).unwrap();
    m.join_room("lobby", "b", "b@x/r", None).unwrap();
    assert_eq!(
        m.broadcast_to_room("lobby", "<x/>"),
        vec![("a@x/r".to_string(), "<x/>".to_string()), ("b@x/r".to_string(), "<x/>".to_string())]
    );
    m.leave_room("lobby", "a");
    assert_eq!(m.get_occupant_nicks("lobby"), vec!["b".to_string()]);
    m.leave_room("nope", "b");
    assert!(m.broadcast_to_room("nope", "<x/>").is_empty());
    assert!(m.get_occupant_jids("nope").is_empty());
}

#[test]
fn router_routes_to_the_exact_jid_then_the_bare_jid() {
    let mut r = Router::new();
    let (tx_a, mut rx_a) = unbounded_channel::<String>();
    let (tx_b, mut rx_b) = unbounded_channel::<String>();
    r.register("alice@ossftw.com/phone", tx_a);
    r.register("bob@ossftw.com/pc", tx_b);
    assert!(r.is_registered("alice@ossftw.com/phone"));
    assert_eq!(r.route("x", "alice@ossftw.com/phone", "one"), Ok(true));
    assert_eq!(rx_a.try_recv().unwrap(), "one");
    assert_eq!(r.route("x", "bob@ossftw.com", "two"), Ok(true));
    assert_eq!(rx_b.try_recv().unwrap(), "two");
    assert_eq!(r.route("x", "bob@ossftw.com/tablet", "three"), Ok(true));
    assert_eq!(rx_b.try_recv().unwrap(), "three");
    assert_eq!(
        r.route("x", "carol@ossftw.com", "four"),
        Err("No route found for JID: carol@ossftw.com".to_string())
    );
}

#[test]
fn router_reports_a_closed_session() {
    let mut r = Router::new();
    let (tx, rx) = unbounded_channel::<String>();
    r.register("alice@ossftw.com/phone", tx);
    drop(rx);
    assert_eq!(r.route("x", "alice@ossftw.com/phone", "one"), Err("channel closed".to_string()));
}

#[test]
fn router_broadcast_skips_the_excluded_session() {
    let mut r = Router::new();
    let (tx_a, mut rx_a) = unbounded_channel::<String>();
    let (tx_b, mut rx_b) = unbounded_channel::<String>();
    let (tx_c, rx_c) = unbounded_channel::<String>();
    r.register("a@x/1", tx_a);
    r.register("b@x/1", tx_b);
    r.register("c@x/1", tx_c);
    drop(rx_c);
    assert_eq!(r.broadcast("<p/>", Some("a@x/1")), 1);
    assert!(rx_a.try_recv().is_err());
    assert_eq!(rx_b.try_recv().unwrap(), "<p/>");
    assert_eq!(r.broadcast("<q/>", None), 2);
    r.unregister("a@x/1");
    assert!(!r.is_registered("a@x/1"));
    assert_eq!(r.route("x", "a@x/1", "z"), Err("No route found for JID: a@x/1".to_string()));
}

#[test]
fn register_replaces_the_session_of_a_jid() {
    let mut r = Router::new();
    let (tx1, mut rx1) = unbounded_channel::<String>();
    let (tx2, mut rx2) = unbounded_channel::<String>();
    r.register("a@x/1", tx1);
    r.register("a@x/1", tx2);
    assert_eq!(r.broadcast("<p/>", None), 1);
    assert!(rx1.try_recv().is_err());
    assert_eq!(rx2.try_recv().unwrap(), "<p/>");
}

#[test]
fn default_configuration() {
    let c = Config::default();
    assert_eq!(c.server.domain, "ossftw.com");
    assert_eq!(c.server.name, "OSS FTW XMPP Server");
    assert_eq!(c.server.c2s_addr, "0.0.0.0:5222");
    assert_eq!(c.server.s2s_addr, "0.0.0.0:5269");
    assert_eq!(c.server.max_stanza_size, 100_000);
    assert_eq!(c.server.max_connections, 10_000);
    assert_eq!(c.server.idle_timeout_secs, 300);
    assert!(c.tls.cert_path.is_none() && c.tls.key_path.is_none());
    assert!(c.tls.generate_self_signed);
    assert_eq!(c.tls.self_signed_days, 365);
    assert_eq!(c.storage.data_dir, "/data");
    assert_eq!(c.storage.users_file, "/data/users.json");
    assert_eq!(c.storage.muc_logs_dir, "/data/muc_logs");
    assert!(c.federation.enabled);
    assert!(c.federation.allowed_servers.is_empty() && c.federation.blacklist.is_empty());
    assert_eq!(c.federation.dialback_secret, "change-me-to-a-random-secret");
    assert_eq!(c.federation.s2s_timeout_secs, 30);
    assert_eq!(c.federation.max_federation_stanza_size, 500_000);
    assert_eq!(c.muc.default_room, "lobby");
    assert_eq!(c.muc.max_room_occupants, 100);
    assert!(c.muc.persistent_rooms);
    assert_eq!(c.rate_limit.stanzas_per_second, 50);
    assert_eq!(c.rate_limit.burst_size, 100);
    assert_eq!(c.rate_limit.connections_per_ip, 20);
}

#[test]
fn tls_setup_choice() {
    let mut c = Config::default();
    assert!(matches!(tls_plan(&c, false, false), TlsPlan::SelfSigned { domain } if domain == "ossftw.com"));
    c.tls.cert_path = Some("/c.pem".to_string());
    c.tls.key_path = Some("/k.pem".to_string());
    assert!(matches!(
        tls_plan(&c, true, true),
        TlsPlan::LoadFiles { cert_path, key_path } if cert_path == "/c.pem" && key_path == "/k.pem"
    ));
    assert!(matches!(tls_plan(&c, true, false), TlsPlan::SelfSigned { .. }));
    c.tls.generate_self_signed = false;
    assert!(matches!(tls_plan(&c, false, true), TlsPlan::Plain));
}

fn args(v: &[&str]) -> Vec<String> {
    v.iter().map(|s| s.to_string()).collect()
}

#[test]
fn command_line() {
    assert!(matches!(
        parse_command(&args(&["srv", "register", "bob", "pw"])),
        Command::Register { username, password } if username == "bob" && password == "pw"
    ));
    assert!(matches!(
        parse_command(&args(&["srv", "register", "bob"])),
        Command::Register { username, password } if username == "bob" && password == "changeme123"
    ));
    assert!(matches!(parse_command(&args(&["srv", "register"])), Command::Serve));
    assert!(matches!(parse_command(&args(&["srv", "help"])), Command::Help));
    assert!(matches!(parse_command(&args(&["srv", "list", "x"])), Command::List));
    assert!(matches!(parse_command(&args(&["srv"])), Command::Serve));
    assert!(matches!(parse_command(&args(&["srv", "other"])), Command::Serve));
}

#[test]
fn first_start_creates_the_admin_account() {
    let mut auth = AuthManager::new();
    assert!(ensure_admin(&mut auth));
    assert_eq!(auth.list_users(), vec!["admin".to_string()]);
    assert_eq!(auth.get_user("admin").unwrap().password, "changeme123");
    assert!(!ensure_admin(&mut auth));
    assert_eq!(auth.list_users().len(), 1);
}

#[test]
fn connection_handshake_choice() {
    assert!(matches!(handshake_for(Some(0x16), true), Handshake::Tls));
    assert!(matches!(handshake_for(Some(b'<'), true), Handshake::StartTls));
    assert!(matches!(handshake_for(None, true), Handshake::StartTls));
    assert!(matches!(handshake_for(Some(0x16), false), Handshake::Plain));
    assert!(matches!(handshake_for(None, false), Handshake::Plain));
}

#[test]
fn registered_keys_have_their_lengths() {
    let mut auth = AuthManager::new();
    auth.register_user("dave", "pw").unwrap();
    let u = auth.get_user("dave").unwrap();
    assert_eq!(u.salt.len(), 24);
    assert_eq!(u.password_hash.len(), 64);
    assert_eq!(u.stored_key.len(), 40);
    assert_eq!(u.server_key.len(), 40);
}

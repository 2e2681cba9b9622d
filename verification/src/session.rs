//! What an established client session does with its stanzas: IQ queries
//! and updates, messages, and presence.

use vstd::prelude::*;
use crate::auth::{lookup_user, scram_user, AuthManager};
use crate::c2s::{build_roster_iq, id_or, id_or_default, msgs, roster_query_xml, write_stanza, Link};
use crate::config::Config;
use crate::crypto::base64_encode_spec;
use crate::muc::{MucManager, RoomView};
use crate::roster::{assoc_get, assoc_set, roster_add_spec, strings_view, RosterItemView, RosterManager};
use crate::stanza::{
    build_iq_error, element_child_text, first_ns_match_from, iq_error_xml, key_index, key_index_from,
    opt_str_view, pairs_view, Stanza, StanzaChild,
};
use crate::text::{chars_of, copy_str, str_eq, string_from_chars};
use crate::muc::{room_occupants, OccupantView};
use crate::router::{bare_jid, bare_of, handed_since, hands_each, broadcast_queues, route_target, Router, RouterOp};
use tokio::sync::mpsc::UnboundedSender;
use crate::seqs::{pieces_view, split_chars, split_seq};
use crate::stanza::{build_presence, child_text_from, message_xml, presence_xml, stanza_xml};
use crate::muc::rooms_after_join;
use crate::roster::{assoc_remove, presence_key, presence_update_spec, presences_kept, PresenceView};
use crate::c2s::{parse_i32, parse_i32_spec};
use crate::text::{chars_occur_at, occurs_at};

verus! {

broadcast use vstd::string::group_string_axioms;

// ---------------------------------------------------------------------------
// IQ
// ---------------------------------------------------------------------------

/// An IQ result with the given id and payload.
pub open spec fn iq_result(id: Seq<char>, body: Seq<char>) -> Seq<char> {
    "<iq id=\""@ + id + "\" type=\"result\">"@ + body + "</iq>"@
}

/// Whether the stanza has a child element `name` in namespace `ns`.
pub open spec fn has_query(st: Stanza, name: Seq<char>, ns: Seq<char>) -> bool {
    first_ns_match_from(st.children@, name, ns, 0) is Some
}

/// The children of the stanza's first child element `query` in namespace `ns`.
pub open spec fn query_children(st: Stanza, ns: Seq<char>) -> Seq<StanzaChild> {
    match first_ns_match_from(st.children@, "query"@, ns, 0) {
        Some(k) => match st.children@[k] {
            StanzaChild::Element { children, .. } => children@,
            _ => seq![],
        },
        None => seq![],
    }
}

/// The type attribute of the stanza.
pub open spec fn stanza_type_of(st: Stanza) -> Option<Seq<char>> {
    opt_str_view(st.stanza_type)
}

/// The service discovery answer, naming the server.
pub open spec fn disco_info_xml(server_name: Seq<char>) -> Seq<char> {
    "<query xmlns=\"http://jabber.org/protocol/disco#info\">\n                    <identity category=\"server\" type=\"im\" name=\""@
        + server_name
        + "\"/>\n                    <feature var=\"jabber:iq:roster\"/>\n                    <feature var=\"jabber:iq:register\"/>\n                    <feature var=\"urn:ietf:params:xml:ns:xmpp-bind\"/>\n                    <feature var=\"urn:ietf:params:xml:ns:xmpp-session\"/>\n                    <feature var=\"http://jabber.org/protocol/muc\"/>\n                    <feature var=\"jabber:iq:version\"/>\n                    <feature var=\"urn:xmpp:ping\"/>\n                </query>"@
}

/// One room as a discovered item.
pub open spec fn disco_item_xml(room: Seq<char>, domain: Seq<char>) -> Seq<char> {
    "<item jid=\""@ + room + "@"@ + domain + "\" name=\""@ + room + "\"/>"@
}

pub open spec fn disco_items_list(rooms: Seq<Seq<char>>, domain: Seq<char>) -> Seq<char>
    decreases rooms.len(),
{
    if rooms.len() == 0 {
        seq![]
    } else {
        disco_items_list(rooms.drop_last(), domain) + disco_item_xml(rooms.last(), domain)
    }
}

/// The rooms listed are every room, one item each, in the rooms' order:
/// the items are those of the rooms one after the other.
pub proof fn law_disco_items_lists_every_room(rooms: Seq<Seq<char>>, domain: Seq<char>)
    ensures
        disco_items_list(rooms, domain) == rooms.map_values(|r: Seq<char>| disco_item_xml(r, domain)).flatten(),
        disco_items_xml(rooms, domain) == "<query xmlns='http://jabber.org/protocol/disco#items'>"@ + rooms.map_values(
            |r: Seq<char>| disco_item_xml(r, domain),
        ).flatten() + "</query>"@,
    decreases rooms.len(),
{
    let items = rooms.map_values(|r: Seq<char>| disco_item_xml(r, domain));
    if rooms.len() == 0 {
        assert(items =~= Seq::<Seq<char>>::empty());
    } else {
        let p = rooms.drop_last();
        law_disco_items_lists_every_room(p, domain);
        let pitems = p.map_values(|r: Seq<char>| disco_item_xml(r, domain));
        assert(items =~= pitems.push(disco_item_xml(rooms.last(), domain)));
        pitems.lemma_flatten_push(disco_item_xml(rooms.last(), domain));
    }
}

/// The items discovered on the server: its rooms.
pub open spec fn disco_items_xml(rooms: Seq<Seq<char>>, domain: Seq<char>) -> Seq<char> {
    "<query xmlns='http://jabber.org/protocol/disco#items'>"@ + disco_items_list(rooms, domain) + "</query>"@
}

pub open spec fn version_xml(server_name: Seq<char>) -> Seq<char> {
    "<query xmlns=\"jabber:iq:version\"><name>"@ + server_name
        + "</name><version>0.1.0</version><os>Rust</os></query>"@
}

pub open spec fn last_activity_xml() -> Seq<char> {
    "<query xmlns=\"jabber:iq:last\" seconds=\"0\"/>"@
}

pub open spec fn ping_xml() -> Seq<char> {
    "<ping xmlns=\"urn:xmpp:ping\"/>"@
}

pub open spec fn register_form_xml() -> Seq<char> {
    "<query xmlns=\"jabber:iq:register\">\n                <instructions>Choose a username and password to register</instructions>\n                <username/>\n                <password/>\n            </query>"@
}

/// The roster of `user`, empty when there is none.
pub open spec fn roster_items_of(rv: Seq<(Seq<char>, Seq<RosterItemView>)>, user: Seq<char>) -> Seq<RosterItemView> {
    match assoc_get(rv, user) {
        Some(x) => x,
        None => seq![],
    }
}

/// The names of the rooms.
pub open spec fn room_names(rooms: Seq<(Seq<char>, RoomView)>) -> Seq<Seq<char>> {
    rooms.map_values(|e: (Seq<char>, RoomView)| e.0)
}

/// The answer to an IQ get whose query the server knows, by the first
/// query that the stanza carries in this order: roster, disco#info,
/// disco#items, version, last activity, ping, registration form.
pub open spec fn iq_get_answer(
    st: Stanza,
    items: Seq<RosterItemView>,
    rooms: Seq<Seq<char>>,
    domain: Seq<char>,
    server_name: Seq<char>,
) -> Option<Seq<char>> {
    let id = id_or(st.id, "id"@);
    if has_query(st, "query"@, "jabber:iq:roster"@) {
        Some(iq_result(id, roster_query_xml(items)))
    } else if has_query(st, "query"@, "http://jabber.org/protocol/disco#info"@) {
        Some(iq_result(id, disco_info_xml(server_name)))
    } else if has_query(st, "query"@, "http://jabber.org/protocol/disco#items"@) {
        Some(iq_result(id, disco_items_xml(rooms, domain)))
    } else if has_query(st, "query"@, "jabber:iq:version"@) {
        Some(iq_result(id, version_xml(server_name)))
    } else if has_query(st, "query"@, "jabber:iq:last"@) {
        Some(iq_result(id, last_activity_xml()))
    } else if has_query(st, "ping"@, "urn:xmpp:ping"@) {
        Some(iq_result(id, ping_xml()))
    } else if has_query(st, "query"@, "jabber:iq:register"@) {
        Some(iq_result(id, register_form_xml()))
    } else {
        None
    }
}

/// The rooms as discovered items.
fn build_disco_items(rooms: &Vec<String>, domain: &str) -> (r: String)
    ensures
        r@ == disco_items_xml(strings_view(rooms@), domain@),
{
    let ghost rs = strings_view(rooms@);
    let mut out = copy_str("<query xmlns='http://jabber.org/protocol/disco#items'>");
    let ghost head = out@;
    let mut i: usize = 0;
    while i < rooms.len()
        invariant
            i <= rooms.len(),
            rs == strings_view(rooms@),
            head == "<query xmlns='http://jabber.org/protocol/disco#items'>"@,
            out@ == head + disco_items_list(rs.subrange(0, i as int), domain@),
        decreases rooms.len() - i,
    {
        assert(rs.subrange(0, i + 1).drop_last() =~= rs.subrange(0, i as int));
        assert(rs.subrange(0, i + 1).last() == rooms@[i as int]@);
        out.append("<item jid=\"");
        out.append(rooms[i].as_str());
        out.append("@");
        out.append(domain);
        out.append("\" name=\"");
        out.append(rooms[i].as_str());
        out.append("\"/>");
        i = i + 1;
    }
    assert(rs.subrange(0, rooms.len() as int) =~= rs);
    out.append("</query>");
    out
}

fn wrap_result(id: &str, body: &str) -> (r: String)
    ensures
        r@ == iq_result(id@, body@),
{
    let mut s = copy_str("<iq id=\"");
    s.append(id);
    s.append("\" type=\"result\">");
    s.append(body);
    s.append("</iq>");
    s
}

/// The answer to an IQ get, when the server knows its query.
pub fn iq_get_reply(
    st: &Stanza,
    username: &str,
    domain: &str,
    config: &Config,
    roster: &RosterManager,
    muc: &MucManager,
) -> (r: Option<String>)
    ensures
        opt_str_view(r) == iq_get_answer(
            *st,
            roster_items_of(roster.rosters_view(), username@),
            room_names(muc.rooms_view()),
            domain@,
            config.server.name@,
        ),
{
    let id = id_or_default(&st.id, "id");
    let server_name = config.server.name.as_str();
    if st.has_child_with_xmlns("query", "jabber:iq:roster") {
        let items = roster.get_roster(username);
        let body = build_roster_iq(items.as_slice());
        return Some(wrap_result(id.as_str(), body.as_str()));
    }
    if st.has_child_with_xmlns("query", "http://jabber.org/protocol/disco#info") {
        let mut body = copy_str(
            "<query xmlns=\"http://jabber.org/protocol/disco#info\">\n                    <identity category=\"server\" type=\"im\" name=\"",
        );
        body.append(server_name);
        body.append(
            "\"/>\n                    <feature var=\"jabber:iq:roster\"/>\n                    <feature var=\"jabber:iq:register\"/>\n                    <feature var=\"urn:ietf:params:xml:ns:xmpp-bind\"/>\n                    <feature var=\"urn:ietf:params:xml:ns:xmpp-session\"/>\n                    <feature var=\"http://jabber.org/protocol/muc\"/>\n                    <feature var=\"jabber:iq:version\"/>\n                    <feature var=\"urn:xmpp:ping\"/>\n                </query>",
        );
        return Some(wrap_result(id.as_str(), body.as_str()));
    }
    if st.has_child_with_xmlns("query", "http://jabber.org/protocol/disco#items") {
        let rooms = muc.list_rooms();
        let body = build_disco_items(&rooms, domain);
        return Some(wrap_result(id.as_str(), body.as_str()));
    }
    if st.has_child_with_xmlns("query", "jabber:iq:version") {
        let mut body = copy_str("<query xmlns=\"jabber:iq:version\"><name>");
        body.append(server_name);
        body.append("</name><version>0.1.0</version><os>Rust</os></query>");
        return Some(wrap_result(id.as_str(), body.as_str()));
    }
    if st.has_child_with_xmlns("query", "jabber:iq:last") {
        return Some(wrap_result(id.as_str(), "<query xmlns=\"jabber:iq:last\" seconds=\"0\"/>"));
    }
    if st.has_child_with_xmlns("ping", "urn:xmpp:ping") {
        return Some(wrap_result(id.as_str(), "<ping xmlns=\"urn:xmpp:ping\"/>"));
    }
    if st.has_child_with_xmlns("query", "jabber:iq:register") {
        return Some(
            wrap_result(
                id.as_str(),
                "<query xmlns=\"jabber:iq:register\">\n                <instructions>Choose a username and password to register</instructions>\n                <username/>\n                <password/>\n            </query>",
            ),
        );
    }
    None
}

/// The value of attribute `key` in a list of attribute pairs.
pub open spec fn attr_in(attrs: Seq<(Seq<char>, Seq<char>)>, key: Seq<char>) -> Option<Seq<char>> {
    match key_index_from(attrs, key, 0) {
        Some(i) => Some(attrs[i].1),
        None => None,
    }
}

/// The contact that an `item` child of a roster set asks to add: its
/// `jid`, and its `name` if any.
pub open spec fn roster_item_request(c: StanzaChild) -> Option<(Seq<char>, Option<Seq<char>>)> {
    match c {
        StanzaChild::Element { name, attrs, .. } => {
            if name@ == "item"@ {
                match attr_in(pairs_view(attrs@), "jid"@) {
                    Some(j) => Some((j, attr_in(pairs_view(attrs@), "name"@))),
                    None => None,
                }
            } else {
                None
            }
        },
        _ => None,
    }
}

/// The contacts that a roster set asks to add, in order.
pub open spec fn roster_set_requests(cs: Seq<StanzaChild>) -> Seq<(Seq<char>, Option<Seq<char>>)>
    decreases cs.len(),
{
    if cs.len() == 0 {
        seq![]
    } else {
        match roster_item_request(cs.last()) {
            Some(q) => roster_set_requests(cs.drop_last()).push(q),
            None => roster_set_requests(cs.drop_last()),
        }
    }
}

/// The rosters after `add_contact` of one contact to `user`'s roster.
pub open spec fn roster_after_add(
    rv: Seq<(Seq<char>, Seq<RosterItemView>)>,
    user: Seq<char>,
    jid: Seq<char>,
    name: Option<Seq<char>>,
) -> Seq<(Seq<char>, Seq<RosterItemView>)> {
    assoc_set(rv, user, roster_add_spec(roster_items_of(rv, user), jid, name))
}

/// The rosters after adding each requested contact in turn.
pub open spec fn rosters_after_adds(
    rv: Seq<(Seq<char>, Seq<RosterItemView>)>,
    user: Seq<char>,
    reqs: Seq<(Seq<char>, Option<Seq<char>>)>,
) -> Seq<(Seq<char>, Seq<RosterItemView>)>
    decreases reqs.len(),
{
    if reqs.len() == 0 {
        rv
    } else {
        roster_after_add(rosters_after_adds(rv, user, reqs.drop_last()), user, reqs.last().0, reqs.last().1)
    }
}

/// `n` copies of `x`.
pub open spec fn repeat<A>(x: A, n: nat) -> Seq<A>
    decreases n,
{
    if n == 0 {
        seq![]
    } else {
        repeat(x, (n - 1) as nat).push(x)
    }
}

/// The text of the last child element named `name` whose first child is text.
pub open spec fn last_text(cs: Seq<StanzaChild>, name: Seq<char>) -> Option<Seq<char>>
    decreases cs.len(),
{
    if cs.len() == 0 {
        None
    } else {
        match element_child_text(cs.last(), name) {
            Some(t) => Some(t),
            None => last_text(cs.drop_last(), name),
        }
    }
}

pub open spec fn roster_ack_xml() -> Seq<char> {
    "<query xmlns=\"jabber:iq:roster\"/>"@
}

pub open spec fn register_ack_xml() -> Seq<char> {
    "<query xmlns=\"jabber:iq:register\"/>"@
}

pub open spec fn muc_admin_ack_xml() -> Seq<char> {
    "<query xmlns=\"http://jabber.org/protocol/muc#admin\"/>"@
}

fn attr_lookup<'a>(attrs: &'a Vec<(String, String)>, key: &str) -> (r: Option<&'a str>)
    ensures
        match attr_in(pairs_view(attrs@), key@) {
            Some(v) => r matches Some(x) && x@ == v,
            None => r is None,
        },
{
    match key_index(attrs, key) {
        Some(i) => {
            assert(pairs_view(attrs@)[i as int].1 == attrs@[i as int].1@);
            Some(attrs[i].1.as_str())
        },
        None => None,
    }
}

/// Adds each contact that a roster set lists to the user's roster, and
/// acknowledges each one.
fn apply_roster_set(cs: &Vec<StanzaChild>, username: &str, id: &str, roster: &mut RosterManager, link: &mut Link)
    requires
        old(roster).wf(),
    ensures
        final(link).channel() == old(link).channel(),
        final(roster).wf(),
        final(roster).presence_view() == old(roster).presence_view(),
        final(roster).rosters_view() == rosters_after_adds(
            old(roster).rosters_view(),
            username@,
            roster_set_requests(cs@),
        ),
        msgs(final(link).sent()) == msgs(old(link).sent()) + repeat(
            iq_result(id@, roster_ack_xml()),
            roster_set_requests(cs@).len(),
        ),
{
    let ghost rv0 = roster.rosters_view();
    let ghost log0 = link.sent();
    let ghost ack = iq_result(id@, roster_ack_xml());
    let mut i: usize = 0;
    while i < cs.len()
        invariant
            i <= cs.len(),
            roster.wf(),
            roster.presence_view() == old(roster).presence_view(),
            rv0 == old(roster).rosters_view(),
            log0 == old(link).sent(),
            link.channel() == old(link).channel(),
            ack == iq_result(id@, roster_ack_xml()),
            roster.rosters_view() == rosters_after_adds(rv0, username@, roster_set_requests(cs@.subrange(0, i as int))),
            msgs(link.sent()) == msgs(log0) + repeat(ack, roster_set_requests(cs@.subrange(0, i as int)).len()),
        decreases cs.len() - i,
    {
        let ghost pre = cs@.subrange(0, i as int);
        let ghost cur = cs@.subrange(0, i + 1);
        assert(cur.drop_last() =~= pre);
        assert(cur.last() == cs@[i as int]);
        match &cs[i] {
            StanzaChild::Element { name, attrs, .. } => {
                if str_eq(name.as_str(), "item") {
                    match attr_lookup(attrs, "jid") {
                        Some(jid) => {
                            let nm = attr_lookup(attrs, "name");
                            let ghost before = msgs(link.sent());
                            let ghost q = (jid@, attr_in(pairs_view(attrs@), "name"@));
                            let ghost reqs = roster_set_requests(pre);
                            assert(roster_item_request(cs@[i as int]) == Some(q));
                            assert(roster_set_requests(cur) == reqs.push(q));
                            assert(reqs.push(q).drop_last() =~= reqs);
                            assert(q.1 == match nm {
                                Some(x) => Some(x@),
                                None => None::<Seq<char>>,
                            });
                            roster.add_contact(username, jid, nm);
                            let iq = wrap_result(id, "<query xmlns=\"jabber:iq:roster\"/>");
                            let _ = write_stanza(link, iq.as_str());
                            assert(msgs(link.sent()) =~= before.push(ack));
                            let ghost n = roster_set_requests(pre).len();
                            assert(repeat(ack, n + 1) == repeat(ack, n).push(ack));
                            assert(msgs(log0) + repeat(ack, n + 1) =~= (msgs(log0) + repeat(ack, n)).push(ack));
                        },
                        None => {},
                    }
                }
            },
            _ => {},
        }
        i = i + 1;
    }
    assert(cs@.subrange(0, cs.len() as int) =~= cs@);
}

/// The text of the last child element named `name` that starts with text.
fn last_child_text(cs: &Vec<StanzaChild>, name: &str) -> (r: Option<String>)
    ensures
        opt_str_view(r) == last_text(cs@, name@),
{
    let mut r: Option<String> = None;
    let mut i: usize = 0;
    while i < cs.len()
        invariant
            i <= cs.len(),
            opt_str_view(r) == last_text(cs@.subrange(0, i as int), name@),
        decreases cs.len() - i,
    {
        assert(cs@.subrange(0, i + 1).drop_last() =~= cs@.subrange(0, i as int));
        assert(cs@.subrange(0, i + 1).last() == cs@[i as int]);
        match &cs[i] {
            StanzaChild::Element { name: n, children, .. } => {
                if str_eq(n.as_str(), name) && children.len() > 0 {
                    match &children[0] {
                        StanzaChild::Text(t) => {
                            r = Some(copy_str(t.as_str()));
                        },
                        _ => {},
                    }
                }
            },
            _ => {},
        }
        i = i + 1;
    }
    assert(cs@.subrange(0, cs.len() as int) =~= cs@);
    r
}

/// What a registration form does: with both a username and a password,
/// a new account and an empty result, or a conflict when the name is
/// taken; without them, nothing.
pub open spec fn register_outcome(
    cs: Seq<StanzaChild>,
    id: Seq<char>,
    us0: Seq<crate::auth::UserView>,
    us1: Seq<crate::auth::UserView>,
    log0: Seq<(Seq<char>, bool)>,
    log1: Seq<(Seq<char>, bool)>,
) -> bool {
    let u = last_text(cs, "username"@);
    let p = last_text(cs, "password"@);
    if u is Some && p is Some {
        if lookup_user(us0, u->0) is Some {
            &&& us1 == us0
            &&& msgs(log1) == msgs(log0).push(
                iq_error_xml(id, "conflict"@, "User already exists: User already exists"@),
            )
        } else {
            &&& exists|b: Seq<u8>|
                b.len() == 16 && us1 == us0.push(#[trigger] scram_user(u->0, p->0, base64_encode_spec(b)))
            &&& msgs(log1) == msgs(log0).push(iq_result(id, register_ack_xml()))
        }
    } else {
        us1 == us0 && log1 == log0
    }
}

/// Registers the account that a registration form gives, and answers:
/// the empty result, or a conflict when the name is taken. A form without
/// both a username and a password gets no answer.
fn apply_register_set(cs: &Vec<StanzaChild>, id: &str, auth: &mut AuthManager, link: &mut Link)
    requires
        old(auth).wf(),
    ensures
        final(link).channel() == old(link).channel(),
        final(auth).wf(),
        final(auth).pending_view() == old(auth).pending_view(),
        register_outcome(
            cs@,
            id@,
            old(auth).users_view(),
            final(auth).users_view(),
            old(link).sent(),
            final(link).sent(),
        ),
{
    let ghost log0 = link.sent();
    let reg_username = last_child_text(cs, "username");
    let reg_password = last_child_text(cs, "password");
    match (reg_username, reg_password) {
        (Some(u), Some(p)) => {
            match auth.register_user(u.as_str(), p.as_str()) {
                Ok(()) => {
                    let iq = wrap_result(id, "<query xmlns=\"jabber:iq:register\"/>");
                    let _ = write_stanza(link, iq.as_str());
                    assert(msgs(link.sent()) =~= msgs(log0).push(iq_result(id@, register_ack_xml())));
                    proof {
                        let b = choose|b: Seq<u8>|
                            b.len() == 16 && auth.users_view() == old(auth).users_view().push(
                                #[trigger] scram_user(u@, p@, base64_encode_spec(b)),
                            );
                        let uu = last_text(cs@, "username"@)->0;
                        let pp = last_text(cs@, "password"@)->0;
                        assert(uu == u@ && pp == p@);
                        assert(b.len() == 16 && auth.users_view() == old(auth).users_view().push(
                            scram_user(uu, pp, base64_encode_spec(b)),
                        ));
                        assert(lookup_user(old(auth).users_view(), uu) is None);
                        assert(register_outcome(cs@, id@, old(auth).users_view(), auth.users_view(), log0, link.sent()));
                    }
                },
                Err(e) => {
                    let mut text = copy_str("User already exists: ");
                    text.append(e.as_str());
                    let err = build_iq_error(id, "conflict", text.as_str());
                    let _ = write_stanza(link, err.as_str());
                    proof {
                        reveal_strlit("User already exists: ");
                        reveal_strlit("User already exists");
                        reveal_strlit("User already exists: User already exists");
                        assert(text@ =~= "User already exists: User already exists"@);
                    }
                    assert(msgs(link.sent()) =~= msgs(log0).push(
                        iq_error_xml(id@, "conflict"@, "User already exists: User already exists"@),
                    ));
                },
            }
        },
        _ => {},
    }
}

proof fn lemma_first_ns_match(cs: Seq<StanzaChild>, name: Seq<char>, ns: Seq<char>, i: int, k: int)
    requires
        0 <= i,
        first_ns_match_from(cs, name, ns, i) == Some(k),
    ensures
        i <= k < cs.len(),
        crate::stanza::child_ns_matches(cs[k], name, ns),
    decreases cs.len() - i,
{
    if i < cs.len() && !crate::stanza::child_ns_matches(cs[i], name, ns) {
        lemma_first_ns_match(cs, name, ns, i + 1, k);
    }
}

/// The children of the query element of a stanza, found by namespace.
fn query_children_of<'a>(st: &'a Stanza, ns: &str) -> (r: Option<&'a Vec<StanzaChild>>)
    ensures
        has_query(*st, "query"@, ns@) ==> (r matches Some(v) && v@ == query_children(*st, ns@)),
        !has_query(*st, "query"@, ns@) ==> r is None,
{
    proof {
        if has_query(*st, "query"@, ns@) {
            let k = first_ns_match_from(st.children@, "query"@, ns@, 0)->0;
            lemma_first_ns_match(st.children@, "query"@, ns@, 0, k);
        }
    }
    match st.get_child_by_xmlns("query", ns) {
        Some(q) => match q {
            StanzaChild::Element { children, .. } => Some(children),
            _ => None,
        },
        None => None,
    }
}

/// What an IQ of an established session does to the accounts and the
/// rosters, and what it answers, given the rooms and the server's name.
pub open spec fn iq_outcome(
    st: Stanza,
    username: Seq<char>,
    domain: Seq<char>,
    server_name: Seq<char>,
    rooms: Seq<(Seq<char>, RoomView)>,
    us0: Seq<crate::auth::UserView>,
    us1: Seq<crate::auth::UserView>,
    rv0: Seq<(Seq<char>, Seq<RosterItemView>)>,
    rv1: Seq<(Seq<char>, Seq<RosterItemView>)>,
    log0: Seq<(Seq<char>, bool)>,
    log1: Seq<(Seq<char>, bool)>,
) -> bool {
    let id = id_or(st.id, "id"@);
    let t = stanza_type_of(st);
    let answer = iq_get_answer(
        st,
        roster_items_of(rv0, username),
        room_names(rooms),
        domain,
        server_name,
    );
    if t == Some("get"@) && answer is Some {
        &&& us1 == us0
        &&& rv1 == rv0
        &&& msgs(log1) == msgs(log0).push(answer->0)
    } else if t == Some("set"@) && has_query(st, "query"@, "jabber:iq:roster"@) {
        let reqs = roster_set_requests(query_children(st, "jabber:iq:roster"@));
        &&& us1 == us0
        &&& rv1 == rosters_after_adds(rv0, username, reqs)
        &&& msgs(log1) == msgs(log0) + repeat(
            iq_result(id, roster_ack_xml()),
            reqs.len(),
        )
    } else if t == Some("set"@) && has_query(st, "query"@, "jabber:iq:register"@) {
        let cs = query_children(st, "jabber:iq:register"@);
        &&& rv1 == rv0
        &&& register_outcome(
            cs,
            id,
            us0,
            us1,
            log0,
            log1,
        )
    } else {
        &&& us1 == us0
        &&& rv1 == rv0
        &&& msgs(log1) == msgs(log0).push(
            if t == Some("set"@) && has_query(st, "query"@, "http://jabber.org/protocol/muc#admin"@) {
                iq_result(id, muc_admin_ack_xml())
            } else {
                iq_error_xml(id, "feature-not-implemented"@, "This feature is not implemented"@)
            },
        )
    }
}

/// Handles an IQ of an established session: known queries of type `get`
/// are answered; a roster set adds contacts; a registration form creates
/// an account; a MUC admin set is acknowledged; anything else is answered
/// with `feature-not-implemented`.
pub fn handle_iq(
    st: &Stanza,
    username: &str,
    domain: &str,
    config: &Config,
    auth: &mut AuthManager,
    roster: &mut RosterManager,
    muc: &MucManager,
    link: &mut Link,
)
    requires
        old(auth).wf(),
        old(roster).wf(),
    ensures
        final(link).channel() == old(link).channel(),
        final(auth).wf(),
        final(roster).wf(),
        final(auth).pending_view() == old(auth).pending_view(),
        final(roster).presence_view() == old(roster).presence_view(),
        iq_outcome(
            *st,
            username@,
            domain@,
            config.server.name@,
            muc.rooms_view(),
            old(auth).users_view(),
            final(auth).users_view(),
            old(roster).rosters_view(),
            final(roster).rosters_view(),
            old(link).sent(),
            final(link).sent(),
        ),
{
    let ghost log0 = link.sent();
    let id = id_or_default(&st.id, "id");
    let is_get = match &st.stanza_type {
        Some(t) => str_eq(t.as_str(), "get"),
        None => false,
    };
    let is_set = match &st.stanza_type {
        Some(t) => str_eq(t.as_str(), "set"),
        None => false,
    };
    if is_get {
        match iq_get_reply(st, username, domain, config, roster, muc) {
            Some(reply) => {
                let _ = write_stanza(link, reply.as_str());
                assert(msgs(link.sent()) =~= msgs(log0).push(reply@));
                return;
            },
            None => {},
        }
    }
    if is_set {
        match query_children_of(st, "jabber:iq:roster") {
            Some(cs) => {
                apply_roster_set(cs, username, id.as_str(), roster, link);
                return;
            },
            None => {},
        }
        match query_children_of(st, "jabber:iq:register") {
            Some(cs) => {
                apply_register_set(cs, id.as_str(), auth, link);
                return;
            },
            None => {},
        }
        if st.has_child_with_xmlns("query", "http://jabber.org/protocol/muc#admin") {
            let iq = wrap_result(id.as_str(), "<query xmlns=\"http://jabber.org/protocol/muc#admin\"/>");
            let _ = write_stanza(link, iq.as_str());
            assert(msgs(link.sent()) =~= msgs(log0).push(iq_result(id@, muc_admin_ack_xml())));
            return;
        }
    }
    let err = build_iq_error(id.as_str(), "feature-not-implemented", "This feature is not implemented");
    let _ = write_stanza(link, err.as_str());
    assert(msgs(link.sent()) =~= msgs(log0).push(
        iq_error_xml(id@, "feature-not-implemented"@, "This feature is not implemented"@),
    ));
}

// ---------------------------------------------------------------------------
// Routing to room occupants
// ---------------------------------------------------------------------------

/// Whether `op` is a request to route `stanza` from `from` to `to`.
pub open spec fn is_route(op: RouterOp, from: Seq<char>, to: Seq<char>, stanza: Seq<char>) -> bool {
    match op {
        RouterOp::Route { from: f, to: t, stanza: x, .. } => f == from && t == to && x == stanza,
        _ => false,
    }
}

/// Whether `ops` route each (JID, stanza) of `targets` in turn from `from`.
pub open spec fn routes_each(ops: Seq<RouterOp>, from: Seq<char>, targets: Seq<(Seq<char>, Seq<char>)>) -> bool {
    &&& ops.len() == targets.len()
    &&& forall|i: int| 0 <= i < ops.len() ==> is_route(#[trigger] ops[i], from, targets[i].0, targets[i].1)
}

/// The pairs whose JID is not `me`, in order.
pub open spec fn others(pairs: Seq<(Seq<char>, Seq<char>)>, me: Seq<char>) -> Seq<(Seq<char>, Seq<char>)>
    decreases pairs.len(),
{
    if pairs.len() == 0 {
        seq![]
    } else if pairs.last().0 == me {
        others(pairs.drop_last(), me)
    } else {
        others(pairs.drop_last(), me).push(pairs.last())
    }
}

/// The stanza `x` addressed to each occupant.
pub open spec fn deliveries(occ: Seq<OccupantView>, x: Seq<char>) -> Seq<(Seq<char>, Seq<char>)> {
    occ.map_values(|o: OccupantView| (o.jid, x))
}

/// The pairs of a list of string pairs, as sequences.
pub open spec fn string_pairs(v: Seq<(String, String)>) -> Seq<(Seq<char>, Seq<char>)> {
    v.map_values(|p: (String, String)| (p.0@, p.1@))
}

/// The queue and stanza that routing each (JID, stanza) of `targets` hands
/// over, in order: the queue of the session that `route_target` picks,
/// nothing where none fits.
pub open spec fn route_queues(
    clients: Seq<(Seq<char>, UnboundedSender<String>)>,
    targets: Seq<(Seq<char>, Seq<char>)>,
) -> Seq<(UnboundedSender<String>, Seq<char>)>
    decreases targets.len(),
{
    if targets.len() == 0 {
        seq![]
    } else {
        match route_target(clients, targets.last().0) {
            Some(i) => route_queues(clients, targets.drop_last()).push((clients[i].1, targets.last().1)),
            None => route_queues(clients, targets.drop_last()),
        }
    }
}

proof fn lemma_route_queues_one(clients: Seq<(Seq<char>, UnboundedSender<String>)>, to: Seq<char>, x: Seq<char>)
    ensures
        route_queues(clients, seq![(to, x)]) == match route_target(clients, to) {
            Some(i) => seq![(clients[i].1, x)],
            None => Seq::<(UnboundedSender<String>, Seq<char>)>::empty(),
        },
{
    let one = seq![(to, x)];
    assert(one.drop_last() =~= seq![]);
    assert(one.last() == (to, x));
    assert(route_queues(clients, one.drop_last()) =~= Seq::<(UnboundedSender<String>, Seq<char>)>::empty());
    match route_target(clients, to) {
        Some(i) => {
            assert(route_queues(clients, one) =~= seq![(clients[i].1, x)]);
        },
        None => {},
    }
}

/// Whether `ds` hands each (queue, stanza) of `qs` over, once each, in order.
pub open spec fn hands_pairs(
    ds: Seq<(UnboundedSender<String>, Seq<char>, bool)>,
    qs: Seq<(UnboundedSender<String>, Seq<char>)>,
) -> bool {
    &&& ds.len() == qs.len()
    &&& forall|i: int| 0 <= i < ds.len() ==> (#[trigger] ds[i]).0 == qs[i].0 && ds[i].1 == qs[i].1
}

/// Routes each stanza of `pairs` whose JID is not `me` from `me`.
fn route_to_others(pairs: &Vec<(String, String)>, me: &str, router: &mut Router)
    requires
        old(router).wf(),
    ensures
        final(router).wf(),
        final(router).clients_view() == old(router).clients_view(),
        final(router).ops().len() >= old(router).ops().len(),
        final(router).ops().subrange(0, old(router).ops().len() as int) == old(router).ops(),
        routes_each(
            final(router).ops().subrange(old(router).ops().len() as int, final(router).ops().len() as int),
            me@,
            others(string_pairs(pairs@), me@),
        ),
        final(router).deliveries().len() >= old(router).deliveries().len(),
        final(router).deliveries().subrange(0, old(router).deliveries().len() as int) == old(router).deliveries(),
        hands_pairs(
            handed_since(final(router).deliveries(), old(router).deliveries().len()),
            route_queues(old(router).clients_view(), others(string_pairs(pairs@), me@)),
        ),
{
    let ghost ops0 = router.ops();
    let ghost d0 = router.deliveries();
    let ghost cv = router.clients_view();
    let ghost pv = string_pairs(pairs@);
    let mut i: usize = 0;
    while i < pairs.len()
        invariant
            i <= pairs.len(),
            router.wf(),
            pv == string_pairs(pairs@),
            ops0 == old(router).ops(),
            router.clients_view() == old(router).clients_view(),
            router.ops().len() >= ops0.len(),
            router.ops().subrange(0, ops0.len() as int) == ops0,
            routes_each(
                router.ops().subrange(ops0.len() as int, router.ops().len() as int),
                me@,
                others(pv.subrange(0, i as int), me@),
            ),
            d0 == old(router).deliveries(),
            cv == old(router).clients_view(),
            router.deliveries().len() >= d0.len(),
            router.deliveries().subrange(0, d0.len() as int) == d0,
            hands_pairs(handed_since(router.deliveries(), d0.len()), route_queues(cv, others(pv.subrange(0, i as int), me@))),
        decreases pairs.len() - i,
    {
        let ghost pre = pv.subrange(0, i as int);
        assert(pv.subrange(0, i + 1).drop_last() =~= pre);
        assert(pv.subrange(0, i + 1).last() == pv[i as int]);
        assert(pv[i as int] == (pairs@[i as int].0@, pairs@[i as int].1@));
        if !str_eq(pairs[i].0.as_str(), me) {
            let ghost before = router.ops();
            let ghost dbefore = router.deliveries();
            let _ = router.route(me, pairs[i].0.as_str(), pairs[i].1.as_str());
            let ghost after = router.ops();
            let ghost dafter = router.deliveries();
            let ghost nexts = others(pv.subrange(0, i + 1), me@);
            assert(nexts == others(pre, me@).push(pv[i as int]));
            assert(nexts.drop_last() =~= others(pre, me@));
            assert(dafter.subrange(0, d0.len() as int) =~= dbefore.subrange(0, d0.len() as int));
            proof {
                match route_target(cv, pv[i as int].0) {
                    Some(t) => {
                        assert(handed_since(dafter, d0.len()) =~= handed_since(dbefore, d0.len()).push(dafter.last()));
                        assert(route_queues(cv, nexts) == route_queues(cv, others(pre, me@)).push((cv[t].1, pv[i as int].1)));
                    },
                    None => {
                        assert(handed_since(dafter, d0.len()) =~= handed_since(dbefore, d0.len()));
                        assert(route_queues(cv, nexts) == route_queues(cv, others(pre, me@)));
                    },
                }
            }
            assert(after == before.push(after.last()));
            assert(after.subrange(0, ops0.len() as int) =~= before.subrange(0, ops0.len() as int));
            let ghost olds = before.subrange(ops0.len() as int, before.len() as int);
            let ghost news = after.subrange(ops0.len() as int, after.len() as int);
            assert(news =~= olds.push(after.last()));
            assert(is_route(after.last(), me@, pv[i as int].0, pv[i as int].1));
            assert(others(pv.subrange(0, i + 1), me@) == others(pre, me@).push(pv[i as int]));
            assert forall|k: int| 0 <= k < news.len() implies is_route(
                #[trigger] news[k],
                me@,
                others(pv.subrange(0, i + 1), me@)[k].0,
                others(pv.subrange(0, i + 1), me@)[k].1,
            ) by {
                if k < olds.len() {
                    assert(news[k] == olds[k]);
                }
            }
        }
        i = i + 1;
    }
    assert(pv.subrange(0, pairs.len() as int) =~= pv);
}

// ---------------------------------------------------------------------------
// Messages
// ---------------------------------------------------------------------------

/// The node and domain of an address `node@domain[/resource]`, when its
/// bare part holds exactly one `@`.
pub open spec fn node_and_domain(to: Seq<char>) -> Option<(Seq<char>, Seq<char>)> {
    let parts = split_seq(bare_jid(to), '@');
    if parts.len() == 2 {
        Some((parts[0], parts[1]))
    } else {
        None
    }
}

fn split_address(to: &str) -> (r: Option<(String, String)>)
    ensures
        match node_and_domain(to@) {
            Some(p) => r matches Some(q) && q.0@ == p.0 && q.1@ == p.1,
            None => r is None,
        },
{
    let bare = bare_of(to);
    let parts = split_chars(bare.as_slice(), '@');
    if parts.len() == 2 {
        assert(pieces_view(parts@)[0] == parts@[0]@);
        assert(pieces_view(parts@)[1] == parts@[1]@);
        Some((string_from_chars(parts[0].as_slice()), string_from_chars(parts[1].as_slice())))
    } else {
        None
    }
}

/// Where a message of an established session goes, and what its sender
/// is told, given the rooms and the requests made of the router.
pub open spec fn message_outcome(
    st: Stanza,
    username: Seq<char>,
    full_jid: Seq<char>,
    domain: Seq<char>,
    rooms: Seq<(Seq<char>, RoomView)>,
    new_ops: Seq<RouterOp>,
    log0: Seq<(Seq<char>, bool)>,
    log1: Seq<(Seq<char>, bool)>,
) -> bool {
    let x = stanza_xml(st);
    match (opt_str_view(st.to), node_and_domain(opt_str_view(st.to)->0)) {
        (Some(to), Some((node, d))) => if d == domain {
            if assoc_get(rooms, node) is Some {
                &&& routes_each(new_ops, full_jid, others(deliveries(room_occupants(rooms, node), x), full_jid))
                &&& log1 == log0
            } else {
                &&& new_ops.len() == 1
                &&& is_route(new_ops[0], full_jid, to, x)
                &&& msgs(log1) == if new_ops[0]->Route_delivered {
                    msgs(log0)
                } else {
                    msgs(log0).push(
                        message_xml(username + "@"@ + domain, full_jid, "User is offline"@, "error"@),
                    )
                }
            }
        } else {
            new_ops.len() == 0 && log1 == log0
        },
        _ => new_ops.len() == 0 && log1 == log0,
    }
}

/// The stanzas a message of an established session hands to the sessions'
/// queues, `ds`, given the sessions registered and the rooms: to a room,
/// one to each other occupant's session; to another address of this
/// server, one to the session that `route_target` picks; none otherwise.
pub open spec fn message_handed(
    st: Stanza,
    full_jid: Seq<char>,
    domain: Seq<char>,
    clients: Seq<(Seq<char>, UnboundedSender<String>)>,
    rooms: Seq<(Seq<char>, RoomView)>,
    ds: Seq<(UnboundedSender<String>, Seq<char>, bool)>,
) -> bool {
    let x = stanza_xml(st);
    match (opt_str_view(st.to), node_and_domain(opt_str_view(st.to)->0)) {
        (Some(to), Some((node, d))) => if d == domain {
            if assoc_get(rooms, node) is Some {
                hands_pairs(ds, route_queues(clients, others(deliveries(room_occupants(rooms, node), x), full_jid)))
            } else {
                hands_pairs(ds, route_queues(clients, seq![(to, x)]))
            }
        } else {
            ds.len() == 0
        },
        _ => ds.len() == 0,
    }
}

/// Handles a message of an established session. To a room of this server
/// it goes to every other occupant; to another address of this server it
/// is routed, and the sender is told when the addressee is offline. Other
/// domains are not served.
pub fn handle_message(
    st: &Stanza,
    username: &str,
    full_jid: &str,
    domain: &str,
    router: &mut Router,
    muc: &MucManager,
    link: &mut Link,
)
    requires
        old(router).wf(),
    ensures
        final(link).channel() == old(link).channel(),
        final(router).wf(),
        final(router).clients_view() == old(router).clients_view(),
        final(router).ops().len() >= old(router).ops().len(),
        final(router).ops().subrange(0, old(router).ops().len() as int) == old(router).ops(),
        message_outcome(
            *st,
            username@,
            full_jid@,
            domain@,
            muc.rooms_view(),
            final(router).ops().subrange(old(router).ops().len() as int, final(router).ops().len() as int),
            old(link).sent(),
            final(link).sent(),
        ),
        final(router).deliveries().len() >= old(router).deliveries().len(),
        final(router).deliveries().subrange(0, old(router).deliveries().len() as int) == old(router).deliveries(),
        message_handed(
            *st,
            full_jid@,
            domain@,
            old(router).clients_view(),
            muc.rooms_view(),
            handed_since(final(router).deliveries(), old(router).deliveries().len()),
        ),
{
    let ghost ops0 = router.ops();
    let ghost log0 = link.sent();
    let ghost d0 = router.deliveries();
    let ghost cv = router.clients_view();
    match &st.to {
        Some(to) => {
            match split_address(to.as_str()) {
                Some((node, to_domain)) => {
                    if str_eq(to_domain.as_str(), domain) {
                        let x = st.to_xml_string();
                        match muc.get_room(node.as_str()) {
                            Some(_) => {
                                let pairs = muc.broadcast_to_room(node.as_str(), x.as_str());
                                assert(string_pairs(pairs@) =~= deliveries(room_occupants(muc.rooms_view(), node@), x@));
                                route_to_others(&pairs, full_jid, router);
                                return;
                            },
                            None => {},
                        }
                        let routed = router.route(full_jid, to.as_str(), x.as_str());
                        proof {
                            lemma_route_queues_one(cv, to@, x@);
                            assert(router.deliveries().subrange(0, d0.len() as int) =~= d0);
                            match route_target(cv, to@) {
                                Some(t) => {
                                    assert(handed_since(router.deliveries(), d0.len()) =~= seq![router.deliveries().last()]);
                                },
                                None => {
                                    assert(handed_since(router.deliveries(), d0.len()) =~= seq![]);
                                },
                            }
                        }
                        assert(router.ops().subrange(ops0.len() as int, router.ops().len() as int) =~= seq![router.ops().last()]);
                        assert(router.ops().subrange(0, ops0.len() as int) =~= ops0);
                        if routed.is_err() {
                            let mut from = copy_str(username);
                            from.append("@");
                            from.append(domain);
                            let error = crate::stanza::build_message(from.as_str(), full_jid, "User is offline", "error");
                            let _ = write_stanza(link, error.as_str());
                            assert(msgs(link.sent()) =~= msgs(log0).push(error@));
                        }
                        return;
                    }
                },
                None => {},
            }
        },
        None => {},
    }
    assert(router.ops().subrange(0, ops0.len() as int) =~= ops0);
    assert(router.ops().subrange(ops0.len() as int, router.ops().len() as int) =~= seq![]);
    assert(router.deliveries().subrange(0, d0.len() as int) =~= d0);
    assert(handed_since(router.deliveries(), d0.len()) =~= seq![]);
}

/// The pairs routed to others are exactly the pairs whose JID is not
/// `me`, in their order.
pub proof fn law_others_keeps_other_jids(pairs: Seq<(Seq<char>, Seq<char>)>, me: Seq<char>)
    ensures
        others(pairs, me) == pairs.filter(|p: (Seq<char>, Seq<char>)| p.0 != me),
    decreases pairs.len(),
{
    reveal(Seq::filter);
    if pairs.len() > 0 {
        law_others_keeps_other_jids(pairs.drop_last(), me);
        pairs.drop_last().lemma_filter_push(pairs.last(), |p: (Seq<char>, Seq<char>)| p.0 != me);
        assert(pairs.drop_last().push(pairs.last()) =~= pairs);
    }
}

proof fn lemma_others_of_deliveries(occ: Seq<OccupantView>, x: Seq<char>, me: Seq<char>)
    ensures
        others(deliveries(occ, x), me) == deliveries(occ.filter(|o: OccupantView| o.jid != me), x),
    decreases occ.len(),
{
    reveal(Seq::filter);
    if occ.len() > 0 {
        let p = occ.drop_last();
        lemma_others_of_deliveries(p, x, me);
        p.lemma_filter_push(occ.last(), |o: OccupantView| o.jid != me);
        assert(p.push(occ.last()) =~= occ);
        assert(deliveries(occ, x).drop_last() =~= deliveries(p, x));
        assert(deliveries(occ, x).last() == (occ.last().jid, x));
        let f = p.filter(|o: OccupantView| o.jid != me);
        assert(deliveries(f.push(occ.last()), x) =~= deliveries(f, x).push((occ.last().jid, x)));
    } else {
        assert(deliveries(occ, x) =~= seq![]);
        assert(deliveries(occ.filter(|o: OccupantView| o.jid != me), x) =~= seq![]);
    }
}

/// A message to a room of this server is routed from the sender once to
/// each occupant whose JID is not the sender's, in the occupants' order,
/// and each route carries the message's XML.
pub proof fn law_room_message_reaches_others(
    st: Stanza,
    username: Seq<char>,
    full_jid: Seq<char>,
    domain: Seq<char>,
    rooms: Seq<(Seq<char>, RoomView)>,
    new_ops: Seq<RouterOp>,
    log0: Seq<(Seq<char>, bool)>,
    log1: Seq<(Seq<char>, bool)>,
    node: Seq<char>,
)
    requires
        message_outcome(st, username, full_jid, domain, rooms, new_ops, log0, log1),
        opt_str_view(st.to) is Some,
        node_and_domain(opt_str_view(st.to)->0) == Some((node, domain)),
        assoc_get(rooms, node) is Some,
    ensures
        ({
            let occ = room_occupants(rooms, node).filter(|o: OccupantView| o.jid != full_jid);
            &&& new_ops.len() == occ.len()
            &&& forall|k: int| 0 <= k < occ.len() ==> is_route(#[trigger] new_ops[k], full_jid, occ[k].jid, stanza_xml(st))
        }),
{
    let x = stanza_xml(st);
    let all = room_occupants(rooms, node);
    lemma_others_of_deliveries(all, x, full_jid);
    let occ = all.filter(|o: OccupantView| o.jid != full_jid);
    let t = deliveries(occ, x);
    assert(routes_each(new_ops, full_jid, t));
    assert forall|k: int| 0 <= k < occ.len() implies is_route(#[trigger] new_ops[k], full_jid, occ[k].jid, x) by {
        assert(t[k] == (occ[k].jid, x));
    }
}

// ---------------------------------------------------------------------------
// Presence
// ---------------------------------------------------------------------------

/// `s` without the suffix `suf`, when it ends with it.
pub open spec fn strip_suffix_spec(s: Seq<char>, suf: Seq<char>) -> Option<Seq<char>> {
    if suf.len() <= s.len() && s.subrange(s.len() - suf.len(), s.len() as int) == suf {
        Some(s.subrange(0, s.len() - suf.len()))
    } else {
        None
    }
}

/// The room and nick of an address `room/nick@domain` on this server:
/// what is left of it without `@domain`, split at `/` into two parts.
pub open spec fn room_join_target(to: Seq<char>, domain: Seq<char>) -> Option<(Seq<char>, Seq<char>)> {
    match strip_suffix_spec(to, "@"@ + domain) {
        Some(rp) => {
            let parts = split_seq(rp, '/');
            if parts.len() == 2 {
                Some((parts[0], parts[1]))
            } else {
                None
            }
        },
        None => None,
    }
}

/// The priority a presence announces: its `priority` text read as an
/// `i32`, or 0.
pub open spec fn presence_priority(st: Stanza) -> i32 {
    let text = match child_text_from(st.children@, "priority"@, 0) {
        Some(t) => t,
        None => seq![],
    };
    match parse_i32_spec(text) {
        Some(v) => v,
        None => 0,
    }
}

/// Whether `op` is a broadcast of `stanza` that leaves out `exclude`.
pub open spec fn is_broadcast(op: RouterOp, stanza: Seq<char>, exclude: Seq<char>) -> bool {
    match op {
        RouterOp::Broadcast { stanza: x, exclude: e, .. } => x == stanza && e == Some(exclude),
        _ => false,
    }
}

/// What a presence of an established session does to the rosters, the
/// presences, the rooms and the router, given its stanza and the session.
pub open spec fn presence_outcome(
    st: Stanza,
    username: Seq<char>,
    resource: Seq<char>,
    full_jid: Seq<char>,
    domain: Seq<char>,
    rv0: Seq<(Seq<char>, Seq<RosterItemView>)>,
    rv1: Seq<(Seq<char>, Seq<RosterItemView>)>,
    pv0: Seq<(Seq<char>, Seq<PresenceView>)>,
    pv1: Seq<(Seq<char>, Seq<PresenceView>)>,
    rooms0: Seq<(Seq<char>, RoomView)>,
    rooms1: Seq<(Seq<char>, RoomView)>,
    new_ops: Seq<RouterOp>,
) -> bool {
    let ptype = match stanza_type_of(st) {
        Some(t) => t,
        None => "available"@,
    };
    let bare = username + "@"@ + domain;
    if ptype == "subscribe"@ {
        &&& pv1 == pv0
        &&& rooms1 == rooms0
        &&& match opt_str_view(st.to) {
            Some(to) => {
                &&& rv1 == roster_after_add(rv0, username, to, None)
                &&& new_ops.len() == 1
                &&& is_route(new_ops[0], full_jid, to, presence_xml(bare, to, Some("subscribed"@), None, None))
            },
            None => rv1 == rv0 && new_ops.len() == 0,
        }
    } else if ptype == "unavailable"@ {
        &&& rv1 == rv0
        &&& pv1 == assoc_remove(pv0, full_jid)
        &&& rooms1 == rooms0
        &&& new_ops.len() == 1
        &&& is_broadcast(new_ops[0], presence_xml(bare, bare, Some("unavailable"@), None, None), full_jid)
    } else {
        let show = child_text_from(st.children@, "show"@, 0);
        let status = child_text_from(st.children@, "status"@, 0);
        let key = presence_key(username, resource);
        &&& rv1 == rv0
        &&& pv1 == assoc_set(
            pv0,
            key,
            presence_update_spec(
                presences_kept(pv0, key),
                username,
                resource,
                presence_priority(st),
                show,
                status,
                true,
            ),
        )
        &&& new_ops.len() >= 1
        &&& is_broadcast(new_ops[0], presence_xml(bare, bare, None, show, status), full_jid)
        &&& match (opt_str_view(st.to), room_join_target(opt_str_view(st.to)->0, domain)) {
            (Some(_), Some((room, nick))) => if assoc_get(rooms0, room) is Some {
                let announce = presence_xml(full_jid, room + "@"@ + domain, None, None, None);
                &&& rooms1 == rooms_after_join(rooms0, room, nick, full_jid, None)
                &&& routes_each(
                    new_ops.drop_first(),
                    full_jid,
                    others(deliveries(room_occupants(rooms1, room), announce), full_jid),
                )
            } else {
                rooms1 == rooms0 && new_ops.len() == 1
            },
            _ => rooms1 == rooms0 && new_ops.len() == 1,
        }
    }
}

/// The stanzas a presence of an established session hands to the
/// sessions' queues, `ds`, given the sessions registered and the rooms
/// before and after: the `subscribed` answer to the session that
/// `route_target` picks; or the presence, unavailable or not, once to
/// every other session, in their order, followed, on joining a room, by
/// the announcement to each other occupant's session.
pub open spec fn presence_handed(
    st: Stanza,
    username: Seq<char>,
    full_jid: Seq<char>,
    domain: Seq<char>,
    clients: Seq<(Seq<char>, UnboundedSender<String>)>,
    rooms0: Seq<(Seq<char>, RoomView)>,
    rooms1: Seq<(Seq<char>, RoomView)>,
    ds: Seq<(UnboundedSender<String>, Seq<char>, bool)>,
) -> bool {
    let ptype = match stanza_type_of(st) {
        Some(t) => t,
        None => "available"@,
    };
    let bare = username + "@"@ + domain;
    let others_q = broadcast_queues(clients, Some(full_jid));
    if ptype == "subscribe"@ {
        match opt_str_view(st.to) {
            Some(to) => hands_pairs(
                ds,
                route_queues(clients, seq![(to, presence_xml(bare, to, Some("subscribed"@), None, None))]),
            ),
            None => ds.len() == 0,
        }
    } else if ptype == "unavailable"@ {
        hands_each(ds, others_q, presence_xml(bare, bare, Some("unavailable"@), None, None))
    } else {
        let show = child_text_from(st.children@, "show"@, 0);
        let status = child_text_from(st.children@, "status"@, 0);
        let n = others_q.len();
        &&& ds.len() >= n
        &&& hands_each(ds.subrange(0, n as int), others_q, presence_xml(bare, bare, None, show, status))
        &&& match (opt_str_view(st.to), room_join_target(opt_str_view(st.to)->0, domain)) {
            (Some(_), Some((room, nick))) => if assoc_get(rooms0, room) is Some {
                hands_pairs(
                    ds.subrange(n as int, ds.len() as int),
                    route_queues(
                        clients,
                        others(
                            deliveries(
                                room_occupants(rooms1, room),
                                presence_xml(full_jid, room + "@"@ + domain, None, None, None),
                            ),
                            full_jid,
                        ),
                    ),
                )
            } else {
                ds.len() == n
            },
            _ => ds.len() == n,
        }
    }
}

/// Joining a room with a presence announces the joiner, after the
/// presence broadcast, from the joiner once to each occupant whose JID is
/// not the joiner's, in the occupants' order.
pub proof fn law_room_join_announced_to_others(
    st: Stanza,
    username: Seq<char>,
    resource: Seq<char>,
    full_jid: Seq<char>,
    domain: Seq<char>,
    rv0: Seq<(Seq<char>, Seq<RosterItemView>)>,
    rv1: Seq<(Seq<char>, Seq<RosterItemView>)>,
    pv0: Seq<(Seq<char>, Seq<PresenceView>)>,
    pv1: Seq<(Seq<char>, Seq<PresenceView>)>,
    rooms0: Seq<(Seq<char>, RoomView)>,
    rooms1: Seq<(Seq<char>, RoomView)>,
    new_ops: Seq<RouterOp>,
    room: Seq<char>,
    nick: Seq<char>,
)
    requires
        presence_outcome(st, username, resource, full_jid, domain, rv0, rv1, pv0, pv1, rooms0, rooms1, new_ops),
        (match stanza_type_of(st) {
            Some(t) => t,
            None => "available"@,
        }) != "subscribe"@,
        (match stanza_type_of(st) {
            Some(t) => t,
            None => "available"@,
        }) != "unavailable"@,
        opt_str_view(st.to) is Some,
        room_join_target(opt_str_view(st.to)->0, domain) == Some((room, nick)),
        assoc_get(rooms0, room) is Some,
    ensures
        ({
            let occ = room_occupants(rooms1, room).filter(|o: OccupantView| o.jid != full_jid);
            &&& new_ops.len() == occ.len() + 1
            &&& forall|k: int|
                0 <= k < occ.len() ==> is_route(
                    #[trigger] new_ops[k + 1],
                    full_jid,
                    occ[k].jid,
                    presence_xml(full_jid, room + "@"@ + domain, None, None, None),
                )
        }),
{
    let x = presence_xml(full_jid, room + "@"@ + domain, None, None, None);
    let all = room_occupants(rooms1, room);
    lemma_others_of_deliveries(all, x, full_jid);
    let occ = all.filter(|o: OccupantView| o.jid != full_jid);
    let t = deliveries(occ, x);
    let rest = new_ops.drop_first();
    assert(routes_each(rest, full_jid, t));
    assert forall|k: int| 0 <= k < occ.len() implies is_route(#[trigger] new_ops[k + 1], full_jid, occ[k].jid, x) by {
        assert(rest[k] == new_ops[k + 1]);
        assert(t[k] == (occ[k].jid, x));
    }
}

fn room_target(to: &str, domain: &str) -> (r: Option<(String, String)>)
    ensures
        match room_join_target(to@, domain@) {
            Some(p) => r matches Some(q) && q.0@ == p.0 && q.1@ == p.1,
            None => r is None,
        },
{
    let cs = chars_of(to);
    let mut suf = copy_str("@");
    suf.append(domain);
    let sc = chars_of(suf.as_str());
    if sc.len() > cs.len() {
        return None;
    }
    let start = cs.len() - sc.len();
    if !chars_occur_at(cs.as_slice(), sc.as_slice(), start) {
        return None;
    }
    let mut rp: Vec<char> = Vec::new();
    let mut i: usize = 0;
    while i < start
        invariant
            i <= start <= cs.len(),
            rp@ == cs@.subrange(0, i as int),
        decreases start - i,
    {
        rp.push(cs[i]);
        assert(cs@.subrange(0, i + 1) =~= cs@.subrange(0, i as int).push(cs@[i as int]));
        i = i + 1;
    }
    let parts = split_chars(rp.as_slice(), '/');
    if parts.len() == 2 {
        assert(pieces_view(parts@)[0] == parts@[0]@);
        assert(pieces_view(parts@)[1] == parts@[1]@);
        Some((string_from_chars(parts[0].as_slice()), string_from_chars(parts[1].as_slice())))
    } else {
        None
    }
}

/// Handles a presence of an established session. A subscription request
/// adds the contact and is answered for it with `subscribed`; an
/// unavailable presence forgets the session's presence and is broadcast;
/// any other presence is recorded with its show, status and priority and
/// broadcast, and when addressed to `room/nick@domain` of an existing
/// room it joins the room and is announced to the other occupants.
pub fn handle_presence(
    st: &Stanza,
    username: &str,
    resource: &str,
    full_jid: &str,
    domain: &str,
    router: &mut Router,
    roster: &mut RosterManager,
    muc: &mut MucManager,
)
    requires
        old(router).wf(),
        old(roster).wf(),
        old(muc).wf(),
    ensures
        final(router).wf(),
        final(roster).wf(),
        final(muc).wf(),
        final(router).clients_view() == old(router).clients_view(),
        final(router).ops().len() >= old(router).ops().len(),
        final(router).ops().subrange(0, old(router).ops().len() as int) == old(router).ops(),
        presence_outcome(
            *st,
            username@,
            resource@,
            full_jid@,
            domain@,
            old(roster).rosters_view(),
            final(roster).rosters_view(),
            old(roster).presence_view(),
            final(roster).presence_view(),
            old(muc).rooms_view(),
            final(muc).rooms_view(),
            final(router).ops().subrange(old(router).ops().len() as int, final(router).ops().len() as int),
        ),
        final(router).deliveries().len() >= old(router).deliveries().len(),
        final(router).deliveries().subrange(0, old(router).deliveries().len() as int) == old(router).deliveries(),
        presence_handed(
            *st,
            username@,
            full_jid@,
            domain@,
            old(router).clients_view(),
            old(muc).rooms_view(),
            final(muc).rooms_view(),
            handed_since(final(router).deliveries(), old(router).deliveries().len()),
        ),
{
    let ghost ops0 = router.ops();
    let ghost d0 = router.deliveries();
    let ghost cv = router.clients_view();
    let is_subscribe = match &st.stanza_type {
        Some(t) => str_eq(t.as_str(), "subscribe"),
        None => false,
    };
    let is_unavailable = match &st.stanza_type {
        Some(t) => str_eq(t.as_str(), "unavailable"),
        None => false,
    };
    proof {
        reveal_strlit("available");
        reveal_strlit("subscribe");
        reveal_strlit("unavailable");
        assert("available"@[0] != "subscribe"@[0]);
        assert("available"@ != "subscribe"@);
    }
    let mut bare = copy_str(username);
    bare.append("@");
    bare.append(domain);
    if is_subscribe {
        match &st.to {
            Some(to) => {
                roster.add_contact(username, to.as_str(), None);
                let ack = build_presence(bare.as_str(), to.as_str(), Some("subscribed"), None, None);
                let _ = router.route(full_jid, to.as_str(), ack.as_str());
                proof {
                    lemma_route_queues_one(cv, to@, ack@);
                    match route_target(cv, to@) {
                        Some(t) => {
                            assert(handed_since(router.deliveries(), d0.len()) =~= seq![router.deliveries().last()]);
                        },
                        None => {
                            assert(handed_since(router.deliveries(), d0.len()) =~= seq![]);
                        },
                    }
                }
            },
            None => {
                assert(handed_since(router.deliveries(), d0.len()) =~= seq![]);
            },
        }
        assert(router.deliveries().subrange(0, d0.len() as int) =~= d0);
        assert(router.ops().subrange(0, ops0.len() as int) =~= ops0);
        assert(presence_outcome(*st, username@, resource@, full_jid@, domain@, old(roster).rosters_view(), roster.rosters_view(), old(roster).presence_view(), roster.presence_view(), old(muc).rooms_view(), muc.rooms_view(), router.ops().subrange(ops0.len() as int, router.ops().len() as int)));
        return;
    }
    if is_unavailable {
        roster.remove_resource(full_jid);
        let unavailable = build_presence(bare.as_str(), bare.as_str(), Some("unavailable"), None, None);
        let _ = router.broadcast(unavailable.as_str(), Some(full_jid));
        assert(router.ops().subrange(0, ops0.len() as int) =~= ops0);
        assert(presence_outcome(*st, username@, resource@, full_jid@, domain@, old(roster).rosters_view(), roster.rosters_view(), old(roster).presence_view(), roster.presence_view(), old(muc).rooms_view(), muc.rooms_view(), router.ops().subrange(ops0.len() as int, router.ops().len() as int)));
        return;
    }
    let show = st.get_child_text("show");
    let status = st.get_child_text("status");
    let priority_text = match st.get_child_text("priority") {
        Some(t) => t,
        None => String::new(),
    };
    let priority = match parse_i32(priority_text.as_str()) {
        Some(v) => v,
        None => 0,
    };
    let presence = {
        let sh: Option<&str> = match &show {
            Some(x) => Some(x.as_str()),
            None => None,
        };
        let stt: Option<&str> = match &status {
            Some(x) => Some(x.as_str()),
            None => None,
        };
        build_presence(bare.as_str(), bare.as_str(), None, sh, stt)
    };
    let ghost show_v = child_text_from(st.children@, "show"@, 0);
    let ghost status_v = child_text_from(st.children@, "status"@, 0);
    let ghost bare_v = username@ + "@"@ + domain@;
    assert(crate::roster::ov(show) == show_v);
    assert(crate::roster::ov(status) == status_v);
    assert(priority == presence_priority(*st));
    assert(presence@ == presence_xml(bare_v, bare_v, None, show_v, status_v));
    roster.set_presence(username, resource, priority, show, status, true);
    let _ = router.broadcast(presence.as_str(), Some(full_jid));
    let ghost ops1 = router.ops();
    let ghost d1 = router.deliveries();
    let ghost nq = broadcast_queues(cv, Some(full_jid@)).len();
    assert(ops1.subrange(0, ops0.len() as int) =~= ops0);
    assert(is_broadcast(ops1.last(), presence_xml(bare_v, bare_v, None, show_v, status_v), full_jid@));
    match &st.to {
        Some(to) => {
            match room_target(to.as_str(), domain) {
                Some((room, nick)) => {
                    match muc.get_room(room.as_str()) {
                        Some(_) => {
                            let _ = muc.join_room(room.as_str(), nick.as_str(), full_jid, None);
                            let mut room_jid = copy_str(room.as_str());
                            room_jid.append("@");
                            room_jid.append(domain);
                            let announce = build_presence(full_jid, room_jid.as_str(), None, None, None);
                            let pairs = muc.broadcast_to_room(room.as_str(), announce.as_str());
                            assert(string_pairs(pairs@) =~= deliveries(room_occupants(muc.rooms_view(), room@), announce@));
                            route_to_others(&pairs, full_jid, router);
                            let ghost ops2 = router.ops();
                            let ghost d2 = router.deliveries();
                            assert(d2.subrange(0, d0.len() as int) =~= d0);
                            assert(handed_since(d2, d0.len()).subrange(0, nq as int) =~= handed_since(d1, d0.len()));
                            assert(handed_since(d2, d0.len()).subrange(nq as int, handed_since(d2, d0.len()).len() as int)
                                =~= handed_since(d2, d1.len()));
                            assert(ops2.subrange(0, ops0.len() as int) =~= ops0);
                            assert(ops2.subrange(ops0.len() as int, ops2.len() as int).drop_first() =~= ops2.subrange(
                                ops1.len() as int,
                                ops2.len() as int,
                            ));
                            assert(ops2.subrange(ops0.len() as int, ops2.len() as int)[0] == ops1.last());
                            assert(presence_outcome(*st, username@, resource@, full_jid@, domain@, old(roster).rosters_view(), roster.rosters_view(), old(roster).presence_view(), roster.presence_view(), old(muc).rooms_view(), muc.rooms_view(), router.ops().subrange(ops0.len() as int, router.ops().len() as int)));
                            return;
                        },
                        None => {},
                    }
                },
                None => {},
            }
        },
        None => {},
    }
    assert(router.ops().subrange(ops0.len() as int, router.ops().len() as int) =~= seq![ops1.last()]);
    assert(handed_since(d1, d0.len()).subrange(0, nq as int) =~= handed_since(d1, d0.len()));
    assert(presence_outcome(*st, username@, resource@, full_jid@, domain@, old(roster).rosters_view(), roster.rosters_view(), old(roster).presence_view(), roster.presence_view(), old(muc).rooms_view(), muc.rooms_view(), router.ops().subrange(ops0.len() as int, router.ops().len() as int)));
}

// ---------------------------------------------------------------------------
// Dispatch
// ---------------------------------------------------------------------------

/// What a stanza of an established session does, by its kind.
pub open spec fn established_outcome(
    st: Stanza,
    username: Seq<char>,
    resource: Seq<char>,
    full_jid: Seq<char>,
    domain: Seq<char>,
    server_name: Seq<char>,
    us0: Seq<crate::auth::UserView>,
    us1: Seq<crate::auth::UserView>,
    rv0: Seq<(Seq<char>, Seq<RosterItemView>)>,
    rv1: Seq<(Seq<char>, Seq<RosterItemView>)>,
    pv0: Seq<(Seq<char>, Seq<PresenceView>)>,
    pv1: Seq<(Seq<char>, Seq<PresenceView>)>,
    rooms0: Seq<(Seq<char>, RoomView)>,
    rooms1: Seq<(Seq<char>, RoomView)>,
    new_ops: Seq<RouterOp>,
    log0: Seq<(Seq<char>, bool)>,
    log1: Seq<(Seq<char>, bool)>,
) -> bool {
    match st.kind {
        crate::stanza::StanzaKind::Message => {
            &&& message_outcome(st, username, full_jid, domain, rooms0, new_ops, log0, log1)
            &&& us1 == us0 && rv1 == rv0 && pv1 == pv0 && rooms1 == rooms0
        },
        crate::stanza::StanzaKind::Presence => {
            &&& presence_outcome(st, username, resource, full_jid, domain, rv0, rv1, pv0, pv1, rooms0, rooms1, new_ops)
            &&& us1 == us0 && log1 == log0
        },
        crate::stanza::StanzaKind::Iq => {
            &&& iq_outcome(st, username, domain, server_name, rooms0, us0, us1, rv0, rv1, log0, log1)
            &&& pv1 == pv0 && rooms1 == rooms0 && new_ops.len() == 0
        },
    }
}

/// The stanzas a stanza of an established session hands to the sessions'
/// queues, `ds`, by its kind; an IQ hands none.
pub open spec fn session_handed(
    st: Stanza,
    username: Seq<char>,
    full_jid: Seq<char>,
    domain: Seq<char>,
    clients: Seq<(Seq<char>, UnboundedSender<String>)>,
    rooms0: Seq<(Seq<char>, RoomView)>,
    rooms1: Seq<(Seq<char>, RoomView)>,
    ds: Seq<(UnboundedSender<String>, Seq<char>, bool)>,
) -> bool {
    match st.kind {
        crate::stanza::StanzaKind::Message => message_handed(st, full_jid, domain, clients, rooms0, ds),
        crate::stanza::StanzaKind::Presence => presence_handed(
            st,
            username,
            full_jid,
            domain,
            clients,
            rooms0,
            rooms1,
            ds,
        ),
        crate::stanza::StanzaKind::Iq => ds.len() == 0,
    }
}

/// Handles a stanza of an established session: messages, presences and
/// IQs each go to their handler, with the server's domain from the
/// configuration.
pub fn handle_established_stanza(
    st: &Stanza,
    username: &str,
    resource: &str,
    full_jid: &str,
    config: &Config,
    router: &mut Router,
    auth: &mut AuthManager,
    roster: &mut RosterManager,
    muc: &mut MucManager,
    link: &mut Link,
)
    requires
        old(router).wf(),
        old(auth).wf(),
        old(roster).wf(),
        old(muc).wf(),
    ensures
        final(link).channel() == old(link).channel(),
        final(router).wf(),
        final(auth).wf(),
        final(roster).wf(),
        final(muc).wf(),
        final(router).clients_view() == old(router).clients_view(),
        final(router).ops().len() >= old(router).ops().len(),
        final(router).ops().subrange(0, old(router).ops().len() as int) == old(router).ops(),
        final(auth).pending_view() == old(auth).pending_view(),
        established_outcome(
            *st,
            username@,
            resource@,
            full_jid@,
            config.server.domain@,
            config.server.name@,
            old(auth).users_view(),
            final(auth).users_view(),
            old(roster).rosters_view(),
            final(roster).rosters_view(),
            old(roster).presence_view(),
            final(roster).presence_view(),
            old(muc).rooms_view(),
            final(muc).rooms_view(),
            final(router).ops().subrange(old(router).ops().len() as int, final(router).ops().len() as int),
            old(link).sent(),
            final(link).sent(),
        ),
        final(router).deliveries().len() >= old(router).deliveries().len(),
        final(router).deliveries().subrange(0, old(router).deliveries().len() as int) == old(router).deliveries(),
        session_handed(
            *st,
            username@,
            full_jid@,
            config.server.domain@,
            old(router).clients_view(),
            old(muc).rooms_view(),
            final(muc).rooms_view(),
            handed_since(final(router).deliveries(), old(router).deliveries().len()),
        ),
{
    let ghost ops0 = router.ops();
    let ghost d0 = router.deliveries();
    let domain = config.server.domain.as_str();
    if st.is_message() {
        handle_message(st, username, full_jid, domain, router, muc, link);
    } else if st.is_presence() {
        handle_presence(st, username, resource, full_jid, domain, router, roster, muc);
    } else {
        handle_iq(st, username, domain, config, auth, roster, muc, link);
        assert(router.ops().subrange(ops0.len() as int, router.ops().len() as int) =~= seq![]);
        assert(router.ops().subrange(0, ops0.len() as int) =~= ops0);
        assert(router.deliveries().subrange(0, d0.len() as int) =~= d0);
        assert(handed_since(router.deliveries(), d0.len()) =~= seq![]);
    }
}

} // verus!

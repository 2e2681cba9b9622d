//! The client-to-server session: its states, and what the server does with
//! each line a client sends.

use vstd::prelude::*;
use vstd::utf8::encode_utf8;
use tokio::sync::mpsc::UnboundedSender;
use crate::auth::{
    law_pending_remove_lookup, lookup_pending, pending_remove, plain_auth_spec, scram_finish_spec,
    scram_start_spec, AuthManager,
};
use crate::config::Config;
use crate::roster::{
    assoc_get, assoc_remove, assoc_set, presence_key, RosterItem, RosterItemView, RosterManager,
};
use crate::router::{broadcast_queues, handed_since, hands_each, Router, RouterOp};
use crate::channel::send_error_text;
pub use crate::channel::Link;
use crate::server::{Services, ServicesView};
use crate::session::{established_outcome, handle_established_stanza, session_handed};
use crate::stanza::{
    bind_result_xml, build_bind_result, build_features, build_features_post_auth, build_presence,
    build_sasl_challenge, build_sasl_failure, build_sasl_success, build_session_result, build_stream_open,
    child_text_from, features_c2s_xml, features_post_auth_xml, first_ns_match_from, key_index,
    key_index_from, opt_str_view, pairs_view, parse_outcome, parse_stream_element, presence_xml,
    sasl_challenge_xml, sasl_failure_xml, sasl_success_xml, session_result_xml, stream_open_xml,
    ParseResult, Stanza, StanzaChild, StanzaKind,
};
use crate::text::{chars_of, copy_str, str_eq, string_from_chars, trim_chars, trim_spec};
use crate::xml::XmlEvent;

verus! {

broadcast use vstd::string::group_string_axioms;

/// Whether `c` is a lowercase hexadecimal digit.
pub open spec fn is_lower_hex(c: char) -> bool {
    ('0' <= c && c <= '9') || ('a' <= c && c <= 'f')
}

/// Whether `s` is a version-4 UUID in hyphenated lowercase form: 36
/// characters, hyphens at 8, 13, 18 and 23, lowercase hexadecimal digits
/// elsewhere, the version digit `4` at 14 and a variant digit of `8`, `9`,
/// `a` or `b` at 19.
pub open spec fn is_uuid_v4_text(s: Seq<char>) -> bool {
    &&& s.len() == 36
    &&& forall|i: int| 0 <= i < 36 ==> if i == 8 || i == 13 || i == 18 || i == 23 {
        s[i] == '-'
    } else {
        is_lower_hex(#[trigger] s[i])
    }
    &&& s[14] == '4'
    &&& (s[19] == '8' || s[19] == '9' || s[19] == 'a' || s[19] == 'b')
}

/// Calls `uuid::Uuid::new_v4` and formats the identifier with `Display`,
/// which the `uuid` crate writes in hyphenated lowercase form; `new_v4`
/// sets the version and variant bits. The other digits are random.
#[verifier::external_body]
pub(crate) fn new_uuid() -> (r: String)
    ensures
        is_uuid_v4_text(r@),
{
    uuid::Uuid::new_v4().to_string()
}

/// Whether `c` is an ASCII decimal digit.
pub open spec fn is_decimal_digit(c: char) -> bool {
    '0' <= c && c <= '9'
}

/// The value of a run of decimal digits.
pub open spec fn decimal_value(ds: Seq<char>) -> int
    decreases ds.len(),
{
    if ds.len() == 0 {
        0
    } else {
        decimal_value(ds.drop_last()) * 10 + ((ds.last() as int) - ('0' as int))
    }
}

/// The sign-less digits of a text read as an `i32`.
pub open spec fn i32_digits(s: Seq<char>) -> Seq<char> {
    if s.len() > 0 && (s[0] == '-' || s[0] == '+') {
        s.drop_first()
    } else {
        s
    }
}

/// What `str::parse::<i32>` reads: an optional `+` or `-` followed by at
/// least one ASCII digit and nothing else, whose value fits in an `i32`.
pub open spec fn parse_i32_spec(s: Seq<char>) -> Option<i32> {
    let neg = s.len() > 0 && s[0] == '-';
    let digits = i32_digits(s);
    let v = if neg {
        -decimal_value(digits)
    } else {
        decimal_value(digits)
    };
    if digits.len() > 0 && (forall|i: int| 0 <= i < digits.len() ==> is_decimal_digit(#[trigger] digits[i]))
        && i32::MIN <= v <= i32::MAX {
        Some(v as i32)
    } else {
        None
    }
}

proof fn lemma_decimal_value_grows(ds: Seq<char>, k: int)
    requires
        0 <= k <= ds.len(),
        forall|i: int| 0 <= i < ds.len() ==> is_decimal_digit(#[trigger] ds[i]),
    ensures
        decimal_value(ds.subrange(0, k)) <= decimal_value(ds),
        0 <= decimal_value(ds),
    decreases ds.len(),
{
    if ds.len() > 0 {
        let p = ds.drop_last();
        assert forall|i: int| 0 <= i < p.len() implies is_decimal_digit(#[trigger] p[i]) by {
            assert(p[i] == ds[i]);
        }
        assert(is_decimal_digit(ds[ds.len() - 1]));
        if k == ds.len() {
            assert(ds.subrange(0, k) =~= ds);
            lemma_decimal_value_grows(p, 0);
        } else {
            assert(ds.subrange(0, k) =~= p.subrange(0, k));
            lemma_decimal_value_grows(p, k);
        }
    } else {
        assert(ds.subrange(0, k) =~= ds);
    }
}

/// Reads an `i32` as `str::parse::<i32>` does: an optional sign followed
/// by decimal digits only, in range, else nothing.
pub(crate) fn parse_i32(s: &str) -> (r: Option<i32>)
    ensures
        r == parse_i32_spec(s@),
{
    let cs = chars_of(s);
    let neg = cs.len() > 0 && cs[0] == '-';
    let start: usize = if cs.len() > 0 && (cs[0] == '-' || cs[0] == '+') {
        1
    } else {
        0
    };
    let ghost digits = i32_digits(s@);
    assert(digits =~= cs@.subrange(start as int, cs@.len() as int));
    if start >= cs.len() {
        return None;
    }
    let mut acc: i64 = 0;
    let mut i: usize = start;
    while i < cs.len()
        invariant
            start <= i <= cs.len(),
            cs@ == s@,
            digits == cs@.subrange(start as int, cs@.len() as int),
            digits == i32_digits(s@),
            forall|j: int| 0 <= j < i - start ==> is_decimal_digit(#[trigger] digits[j]),
            acc == decimal_value(digits.subrange(0, i - start)),
            0 <= acc <= 0x8000_0000,
        decreases cs.len() - i,
    {
        let c = cs[i];
        if !('0' <= c && c <= '9') {
            assert(digits[i - start] == c);
            assert(!is_decimal_digit(digits[i - start]));
            assert(!(forall|j: int| 0 <= j < digits.len() ==> is_decimal_digit(#[trigger] digits[j])));
            assert(parse_i32_spec(s@) is None);
            return None;
        }
        let d = (c as u32 - '0' as u32) as i64;
        assert(digits.subrange(0, i + 1 - start).drop_last() =~= digits.subrange(0, i - start));
        assert(digits.subrange(0, i + 1 - start).last() == c);
        acc = acc * 10 + d;
        i = i + 1;
        assert(acc == decimal_value(digits.subrange(0, i - start)));
        if acc > 0x8000_0000 {
            proof {
                if forall|j: int| 0 <= j < digits.len() ==> is_decimal_digit(#[trigger] digits[j]) {
                    lemma_decimal_value_grows(digits, i - start);
                    assert(decimal_value(digits) > 0x8000_0000);
                }
                assert(parse_i32_spec(s@) is None);
            }
            return None;
        }
    }
    assert(digits.subrange(0, i - start) =~= digits);
    if neg {
        Some((0 - acc) as i32)
    } else if acc <= 0x7fff_ffff {
        Some(acc as i32)
    } else {
        None
    }
}

// ---------------------------------------------------------------------------
// The link to the client
// ---------------------------------------------------------------------------

/// The texts of a log.
pub open spec fn msgs(log: Seq<(Seq<char>, bool)>) -> Seq<Seq<char>> {
    log.map_values(|p: (Seq<char>, bool)| p.0)
}

/// Hands a stanza to the client's queue.
pub fn write_stanza(link: &mut Link, xml: &str) -> (r: Result<(), String>)
    ensures
        final(link).channel() == old(link).channel(),
        final(link).sent() == old(link).sent().push((xml@, r is Ok)),
        r matches Err(e) ==> e@ == "Send error: channel closed"@,
{
    match link.send(copy_str(xml)) {
        Ok(()) => Ok(()),
        Err(e) => {
            let t = send_error_text(&e);
            let mut m = copy_str("Send error: ");
            m.append(t.as_str());
            proof {
                reveal_strlit("Send error: ");
                reveal_strlit("channel closed");
                reveal_strlit("Send error: channel closed");
                assert(m@ =~= "Send error: channel closed"@);
            }
            Err(m)
        },
    }
}

// ---------------------------------------------------------------------------
// Session states
// ---------------------------------------------------------------------------

/// Where a client session stands.
#[derive(Debug)]
pub enum C2sState {
    StreamInit,
    AuthPending { stream_id: String },
    AuthSuccess { username: String, stream_id: String },
    BindPending { username: String, stream_id: String, resource: Option<String> },
    SessionEstablished { username: String, resource: String, full_jid: String, stream_id: String },
}

pub enum StateView {
    StreamInit,
    AuthPending { stream_id: Seq<char> },
    AuthSuccess { username: Seq<char>, stream_id: Seq<char> },
    BindPending { username: Seq<char>, stream_id: Seq<char>, resource: Option<Seq<char>> },
    SessionEstablished { username: Seq<char>, resource: Seq<char>, full_jid: Seq<char>, stream_id: Seq<char> },
}

impl View for C2sState {
    type V = StateView;

    open spec fn view(&self) -> StateView {
        match self {
            C2sState::StreamInit => StateView::StreamInit,
            C2sState::AuthPending { stream_id } => StateView::AuthPending { stream_id: stream_id@ },
            C2sState::AuthSuccess { username, stream_id } => StateView::AuthSuccess {
                username: username@,
                stream_id: stream_id@,
            },
            C2sState::BindPending { username, stream_id, resource } => StateView::BindPending {
                username: username@,
                stream_id: stream_id@,
                resource: opt_str_view(*resource),
            },
            C2sState::SessionEstablished { username, resource, full_jid, stream_id } => StateView::SessionEstablished {
                username: username@,
                resource: resource@,
                full_jid: full_jid@,
                stream_id: stream_id@,
            },
        }
    }
}

pub open spec fn opt_state(o: Option<C2sState>) -> Option<StateView> {
    match o {
        Some(s) => Some(s@),
        None => None,
    }
}

// ---------------------------------------------------------------------------
// Reading stanzas
// ---------------------------------------------------------------------------

/// The namespace of SASL.
pub open spec fn sasl_ns() -> Seq<char> {
    "urn:ietf:params:xml:ns:xmpp-sasl"@
}

/// Whether the stanza is the SASL element `name`.
pub open spec fn is_sasl(st: Stanza, name: Seq<char>) -> bool {
    st.name@ == name && opt_str_view(st.xmlns) == Some(sasl_ns())
}

/// The trimmed text of the stanza's first child, when that is text; else empty.
pub open spec fn stanza_payload(st: Stanza) -> Seq<char> {
    if st.children@.len() > 0 {
        match st.children@[0] {
            StanzaChild::Text(t) => trim_spec(t@),
            _ => seq![],
        }
    } else {
        seq![]
    }
}

/// The value of the stanza's attribute `key`.
pub open spec fn attr_of(st: Stanza, key: Seq<char>) -> Option<Seq<char>> {
    match key_index_from(pairs_view(st.attrs@), key, 0) {
        Some(i) => Some(pairs_view(st.attrs@)[i].1),
        None => None,
    }
}

fn is_sasl_element(st: &Stanza, name: &str) -> (r: bool)
    ensures
        r == is_sasl(*st, name@),
{
    if !str_eq(st.name.as_str(), name) {
        return false;
    }
    match &st.xmlns {
        Some(x) => str_eq(x.as_str(), "urn:ietf:params:xml:ns:xmpp-sasl"),
        None => false,
    }
}

fn payload_of(st: &Stanza) -> (r: String)
    ensures
        r@ == stanza_payload(*st),
{
    if st.children.len() > 0 {
        match &st.children[0] {
            StanzaChild::Text(t) => {
                let cs = chars_of(t.as_str());
                let tr = trim_chars(cs.as_slice());
                string_from_chars(tr.as_slice())
            },
            _ => String::new(),
        }
    } else {
        String::new()
    }
}

fn attr_value<'a>(st: &'a Stanza, key: &str) -> (r: Option<&'a String>)
    ensures
        match attr_of(*st, key@) {
            Some(v) => r matches Some(x) && x@ == v,
            None => r is None,
        },
{
    match key_index(&st.attrs, key) {
        Some(i) => {
            assert(pairs_view(st.attrs@)[i as int].1 == st.attrs@[i as int].1@);
            Some(&st.attrs[i].1)
        },
        None => None,
    }
}

// ---------------------------------------------------------------------------
// Authentication
// ---------------------------------------------------------------------------

/// What a stanza does while authentication is pending: the SASL answer
/// queued, the exchanges kept, and the next state if any.
pub open spec fn auth_stanza_outcome(
    st: Stanza,
    stream_id: Seq<char>,
    us: Seq<crate::auth::UserView>,
    ps0: Seq<(Seq<char>, crate::auth::AuthStateView)>,
    ps1: Seq<(Seq<char>, crate::auth::AuthStateView)>,
    log0: Seq<(Seq<char>, bool)>,
    log1: Seq<(Seq<char>, bool)>,
    next: Option<StateView>,
) -> bool {
    let data = encode_utf8(stanza_payload(st));
    let ps = ps0;
    if is_sasl(st, "auth"@) {
        if attr_of(st, "mechanism"@) == Some("PLAIN"@) {
            &&& ps1 == ps
            &&& match plain_auth_spec(us, data) {
                Ok(u) => {
                    &&& msgs(log1) == msgs(log0).push(sasl_success_xml(None))
                    &&& next == if log1.last().1 {
                        Some(StateView::AuthSuccess { username: u, stream_id: stream_id })
                    } else {
                        None
                    }
                },
                Err(e) => msgs(log1) == msgs(log0).push(sasl_failure_xml(e)) && next is None,
            }
        } else if attr_of(st, "mechanism"@) == Some("SCRAM-SHA-1"@) {
            &&& next is None
            &&& exists|rnd: Seq<u8>| #![trigger scram_start_spec(us, ps, stream_id, data, rnd)] {
                let (res, ps2) = scram_start_spec(us, ps, stream_id, data, rnd);
                &&& rnd.len() == 16
                &&& ps1 == ps2
                &&& msgs(log1) == msgs(log0).push(
                    match res {
                        Ok(t) => sasl_challenge_xml(t.0),
                        Err(e) => sasl_failure_xml(e),
                    },
                )
            }
        } else {
            &&& next is None
            &&& ps1 == ps
            &&& msgs(log1) == msgs(log0).push(sasl_failure_xml("invalid-mechanism"@))
        }
    } else if is_sasl(st, "response"@) {
        let (res, ps2) = scram_finish_spec(us, ps, stream_id, data);
        &&& next is None
        &&& ps1 == ps2
        &&& msgs(log1) == msgs(log0).push(
            match res {
                Ok(d) => sasl_success_xml(Some(d)),
                Err(e) => sasl_failure_xml(e),
            },
        )
    } else {
        next is None && log1 == log0 && ps1 == ps
    }
}

/// Handles a stanza while authentication is pending: SASL PLAIN, the
/// first and final SCRAM-SHA-1 messages, and unknown mechanisms. Gives the
/// next state once PLAIN succeeds and its answer is queued.
pub fn handle_auth_stanza(st: &Stanza, stream_id: &str, auth: &mut AuthManager, link: &mut Link) -> (r: Option<C2sState>)
    requires
        old(auth).wf(),
    ensures
        final(link).channel() == old(link).channel(),
        final(auth).wf(),
        final(auth).users_view() == old(auth).users_view(),
        auth_stanza_outcome(
            *st,
            stream_id@,
            old(auth).users_view(),
            old(auth).pending_view(),
            final(auth).pending_view(),
            old(link).sent(),
            final(link).sent(),
            opt_state(r),
        ),
{
    let ghost log0 = link.sent();
    if is_sasl_element(st, "auth") {
        let initial_data = payload_of(st);
        let mechanism = attr_value(st, "mechanism");
        let is_plain = match mechanism {
            Some(m) => str_eq(m.as_str(), "PLAIN"),
            None => false,
        };
        let is_scram = match mechanism {
            Some(m) => str_eq(m.as_str(), "SCRAM-SHA-1"),
            None => false,
        };
        if is_plain {
            match auth.authenticate_plain(stream_id, initial_data.as_str()) {
                Ok(username) => {
                    let success = build_sasl_success(None);
                    let w = write_stanza(link, success.as_str());
                    assert(msgs(link.sent()) =~= msgs(log0).push(sasl_success_xml(None)));
                    if w.is_err() {
                        return None;
                    }
                    return Some(C2sState::AuthSuccess { username, stream_id: copy_str(stream_id) });
                },
                Err(reason) => {
                    let failure = build_sasl_failure(reason.as_str());
                    let _ = write_stanza(link, failure.as_str());
                    assert(msgs(link.sent()) =~= msgs(log0).push(sasl_failure_xml(reason@)));
                },
            }
        } else if is_scram {
            let ghost us = auth.users_view();
            let ghost ps = auth.pending_view();
            let res = auth.start_scram_sha1(stream_id, initial_data.as_str());
            let ghost rnd = choose|rnd: Seq<u8>|
                rnd.len() == 16 && (crate::auth::triple_view(res), auth.pending_view()) == scram_start_spec(
                    us,
                    ps,
                    stream_id@,
                    encode_utf8(initial_data@),
                    rnd,
                );
            match res {
                Ok(t) => {
                    let challenge_xml = build_sasl_challenge(t.0.as_str());
                    let w = write_stanza(link, challenge_xml.as_str());
                    assert(msgs(link.sent()) =~= msgs(log0).push(sasl_challenge_xml(t.0@)));
                    if w.is_err() {
                        return None;
                    }
                },
                Err(reason) => {
                    let failure = build_sasl_failure(reason.as_str());
                    let _ = write_stanza(link, failure.as_str());
                    assert(msgs(link.sent()) =~= msgs(log0).push(sasl_failure_xml(reason@)));
                },
            }
        } else {
            let failure = build_sasl_failure("invalid-mechanism");
            let _ = write_stanza(link, failure.as_str());
            assert(msgs(link.sent()) =~= msgs(log0).push(sasl_failure_xml("invalid-mechanism"@)));
        }
        return None;
    }
    if is_sasl_element(st, "response") {
        let response_data = payload_of(st);
        let ghost ps = auth.pending_view();
        match auth.finish_scram_sha1(stream_id, response_data.as_str()) {
            Ok(success_data) => {
                let username = auth.get_username_for_stream(stream_id);
                proof {
                    law_pending_remove_lookup(ps, stream_id@);
                }
                let success = build_sasl_success(Some(success_data.as_str()));
                let w = write_stanza(link, success.as_str());
                assert(msgs(link.sent()) =~= msgs(log0).push(sasl_success_xml(Some(success_data@))));
                if w.is_err() {
                    return None;
                }
                match username {
                    Some(u) => {
                        return Some(C2sState::AuthSuccess { username: u, stream_id: copy_str(stream_id) });
                    },
                    None => {},
                }
            },
            Err(reason) => {
                let failure = build_sasl_failure(reason.as_str());
                let _ = write_stanza(link, failure.as_str());
                assert(msgs(link.sent()) =~= msgs(log0).push(sasl_failure_xml(reason@)));
            },
        }
    }
    None
}


// ---------------------------------------------------------------------------
// Resource binding and session
// ---------------------------------------------------------------------------

/// The id of the stanza, or `dflt` when it has none.
pub open spec fn id_or(o: Option<String>, dflt: Seq<char>) -> Seq<char> {
    match o {
        Some(s) => s@,
        None => dflt,
    }
}

/// The full JID `user@domain/resource`.
pub open spec fn full_jid_of(user: Seq<char>, domain: Seq<char>, res: Seq<char>) -> Seq<char> {
    user + "@"@ + domain + "/"@ + res
}

/// The resource that a `bind` element asks for: the text of its first
/// `resource` child that holds text.
pub open spec fn requested_resource(bind: StanzaChild) -> Option<Seq<char>> {
    match bind {
        StanzaChild::Element { children, .. } => child_text_from(children@, "resource"@, 0),
        _ => None,
    }
}

pub(crate) fn id_or_default(o: &Option<String>, dflt: &str) -> (r: String)
    ensures
        r@ == id_or(*o, dflt@),
{
    match o {
        Some(s) => copy_str(s.as_str()),
        None => copy_str(dflt),
    }
}

pub(crate) fn make_full_jid(user: &str, domain: &str, res: &str) -> (r: String)
    ensures
        r@ == full_jid_of(user@, domain@, res@),
{
    let mut j = copy_str(user);
    j.append("@");
    j.append(domain);
    j.append("/");
    j.append(res);
    j
}

fn resource_request(bind: &StanzaChild) -> (r: Option<String>)
    ensures
        opt_str_view(r) == requested_resource(*bind),
{
    match bind {
        StanzaChild::Element { children, .. } => {
            let mut i: usize = 0;
            while i < children.len()
                invariant
                    i <= children.len(),
                    requested_resource(*bind) == child_text_from(children@, "resource"@, 0),
                    child_text_from(children@, "resource"@, 0) == child_text_from(children@, "resource"@, i as int),
                decreases children.len() - i,
            {
                match &children[i] {
                    StanzaChild::Element { name, children: inner, .. } => {
                        if str_eq(name.as_str(), "resource") && inner.len() > 0 {
                            match &inner[0] {
                                StanzaChild::Text(t) => {
                                    return Some(copy_str(t.as_str()));
                                },
                                _ => {},
                            }
                        }
                    },
                    _ => {},
                }
                i = i + 1;
            }
            None
        },
        _ => None,
    }
}

/// What a stanza does after authentication: an IQ with a `bind` child
/// binds the resource it asks for, or else a fresh version-4 UUID, and is
/// answered with the full JID.
pub open spec fn bind_outcome(
    st: Stanza,
    username: Seq<char>,
    stream_id: Seq<char>,
    domain: Seq<char>,
    log0: Seq<(Seq<char>, bool)>,
    log1: Seq<(Seq<char>, bool)>,
    next: Option<StateView>,
) -> bool {
    let k = first_ns_match_from(st.children@, "bind"@, "urn:ietf:params:xml:ns:xmpp-bind"@, 0);
    if st.kind == StanzaKind::Iq && k is Some {
        exists|res: Seq<char>| #![trigger full_jid_of(username, domain, res)] {
            &&& match requested_resource(st.children@[k->0]) {
                Some(q) => res == q,
                None => is_uuid_v4_text(res),
            }
            &&& msgs(log1) == msgs(log0).push(
                bind_result_xml(full_jid_of(username, domain, res), id_or(st.id, "bind_1"@)),
            )
            &&& next == if log1.last().1 {
                Some(StateView::BindPending { username: username, stream_id: stream_id, resource: Some(res) })
            } else {
                None
            }
        }
    } else {
        next is None && log1 == log0
    }
}

/// Handles a stanza after authentication: an IQ with a `bind` child binds
/// a resource (the one asked for, or a fresh UUID) and answers with the full JID.
pub fn handle_auth_success_stanza(st: &Stanza, username: &str, stream_id: &str, link: &mut Link, domain: &str) -> (r: Option<C2sState>)
    ensures
        final(link).channel() == old(link).channel(),
        bind_outcome(*st, username@, stream_id@, domain@, old(link).sent(), final(link).sent(), opt_state(r)),
{
    let ghost log0 = link.sent();
    if st.is_iq() {
        match st.get_child_by_xmlns("bind", "urn:ietf:params:xml:ns:xmpp-bind") {
            Some(bind) => {
                let resource = match resource_request(bind) {
                    Some(x) => x,
                    None => new_uuid(),
                };
                let full_jid = make_full_jid(username, domain, resource.as_str());
                let sid = id_or_default(&st.id, "bind_1");
                let bind_result = build_bind_result(full_jid.as_str(), sid.as_str());
                let w = write_stanza(link, bind_result.as_str());
                assert(msgs(link.sent()) =~= msgs(log0).push(bind_result_xml(full_jid@, sid@)));
                if w.is_err() {
                    return None;
                }
                return Some(
                    C2sState::BindPending {
                        username: copy_str(username),
                        stream_id: copy_str(stream_id),
                        resource: Some(resource),
                    },
                );
            },
            None => {},
        }
    }
    None
}

/// The roster item as the roster IQ lists it; the subscription is written as `none`.
pub open spec fn roster_item_xml(i: RosterItemView) -> Seq<char> {
    "<item jid=\""@ + i.jid + "\" subscription=\""@ + "none"@ + "\""@ + match i.name {
        Some(n) => " name=\""@ + n + "\""@,
        None => seq![],
    } + "/>"@
}

pub open spec fn roster_items_xml(items: Seq<RosterItemView>) -> Seq<char>
    decreases items.len(),
{
    if items.len() == 0 {
        seq![]
    } else {
        roster_items_xml(items.drop_last()) + roster_item_xml(items.last())
    }
}

/// The roster query answered to a client.
pub open spec fn roster_query_xml(items: Seq<RosterItemView>) -> Seq<char> {
    "<query xmlns='jabber:iq:roster'>"@ + roster_items_xml(items) + "</query>"@
}

pub open spec fn items_view(items: Seq<RosterItem>) -> Seq<RosterItemView> {
    items.map_values(|x: RosterItem| x@)
}

/// The roster query that lists the items.
pub fn build_roster_iq(items: &[RosterItem]) -> (r: String)
    ensures
        r@ == roster_query_xml(items_view(items@)),
{
    let ghost iv = items_view(items@);
    let mut out = String::new();
    let mut i: usize = 0;
    while i < items.len()
        invariant
            i <= items.len(),
            iv == items_view(items@),
            out@ == roster_items_xml(iv.subrange(0, i as int)),
        decreases items.len() - i,
    {
        assert(iv.subrange(0, i + 1).drop_last() =~= iv.subrange(0, i as int));
        assert(iv.subrange(0, i + 1).last() == items@[i as int]@);
        out.append("<item jid=\"");
        out.append(items[i].jid.as_str());
        out.append("\" subscription=\"");
        out.append("none");
        out.append("\"");
        match &items[i].name {
            Some(n) => {
                out.append(" name=\"");
                out.append(n.as_str());
                out.append("\"");
            },
            None => {},
        }
        out.append("/>");
        i = i + 1;
    }
    assert(iv.subrange(0, items.len() as int) =~= iv);
    let mut r = copy_str("<query xmlns='jabber:iq:roster'>");
    r.append(out.as_str());
    r.append("</query>");
    r
}

/// The IQ that pushes the roster when a session starts.
pub open spec fn roster_push_xml(items: Seq<RosterItemView>) -> Seq<char> {
    "<iq id=\"roster_1\" type=\"result\">"@ + roster_query_xml(items) + "</iq>"@
}

/// What a stanza does once a resource is bound: an IQ with a `session`
/// child opens the session under the full JID, registers it with the
/// router and pushes a non-empty roster.
pub open spec fn session_outcome(
    st: Stanza,
    username: Seq<char>,
    stream_id: Seq<char>,
    resource: Seq<char>,
    domain: Seq<char>,
    rosters: Seq<(Seq<char>, Seq<RosterItemView>)>,
    clients0: Seq<(Seq<char>, UnboundedSender<String>)>,
    clients1: Seq<(Seq<char>, UnboundedSender<String>)>,
    chan: UnboundedSender<String>,
    log0: Seq<(Seq<char>, bool)>,
    log1: Seq<(Seq<char>, bool)>,
    next: Option<StateView>,
) -> bool {
    let k = first_ns_match_from(st.children@, "session"@, "urn:ietf:params:xml:ns:xmpp-session"@, 0);
    let first = session_result_xml(id_or(st.id, "sess_1"@));
    if st.kind == StanzaKind::Iq && k is Some {
        if !log1[log0.len() as int].1 {
            &&& next is None
            &&& msgs(log1) == msgs(log0).push(first)
            &&& clients1 == clients0
        } else {
            exists|res: Seq<char>| #![trigger full_jid_of(username, domain, res)] {
                let full = full_jid_of(username, domain, res);
                let items = match assoc_get(rosters, username) {
                    Some(x) => x,
                    None => seq![],
                };
                &&& if resource.len() > 0 {
                    res == resource
                } else {
                    is_uuid_v4_text(res)
                }
                &&& clients1 == assoc_set(clients0, full_jid_of(username, domain, res), chan)
                &&& msgs(log1) == if items.len() > 0 {
                    msgs(log0).push(first).push(roster_push_xml(items))
                } else {
                    msgs(log0).push(first)
                }
                &&& next == Some(
                    StateView::SessionEstablished {
                        username: username,
                        resource: res,
                        full_jid: full,
                        stream_id: stream_id,
                    },
                )
            }
        }
    } else {
        next is None && log1 == log0 && clients1
            == clients0
    }
}

/// Handles a stanza while a resource is bound: an IQ with a `session`
/// child opens the session, registers the full JID with the router, and
/// pushes the user's roster when it is not empty.
pub fn handle_bind_stanza(
    st: &Stanza,
    username: &str,
    stream_id: &str,
    resource: &str,
    domain: &str,
    router: &mut Router,
    roster: &RosterManager,
    link: &mut Link,
) -> (r: Option<C2sState>)
    requires
        old(router).wf(),
    ensures
        final(link).channel() == old(link).channel(),
        final(router).wf(),
        final(router).ops() == old(router).ops(),
        final(router).deliveries() == old(router).deliveries(),
        session_outcome(
            *st,
            username@,
            stream_id@,
            resource@,
            domain@,
            roster.rosters_view(),
            old(router).clients_view(),
            final(router).clients_view(),
            old(link).channel(),
            old(link).sent(),
            final(link).sent(),
            opt_state(r),
        ),
{
    let ghost log0 = link.sent();
    if st.is_iq() && st.has_child_with_xmlns("session", "urn:ietf:params:xml:ns:xmpp-session") {
        let sid = id_or_default(&st.id, "sess_1");
        let session_result = build_session_result(sid.as_str());
        let w = write_stanza(link, session_result.as_str());
        let ghost log1 = link.sent();
        assert(msgs(log1) =~= msgs(log0).push(session_result_xml(sid@)));
        assert(log1[log0.len() as int].1 == w is Ok);
        if w.is_err() {
            return None;
        }
        let res = if resource.is_empty() {
            new_uuid()
        } else {
            copy_str(resource)
        };
        let full_jid = make_full_jid(username, domain, res.as_str());
        let h = link.handle();
        router.register(full_jid.as_str(), h);
        let roster_items = roster.get_roster(username);
        if roster_items.len() > 0 {
            let roster_iq = build_roster_iq(roster_items.as_slice());
            let mut iq = copy_str("<iq id=\"roster_1\" type=\"result\">");
            iq.append(roster_iq.as_str());
            iq.append("</iq>");
            let _ = write_stanza(link, iq.as_str());
            assert(msgs(link.sent()) =~= msgs(log1).push(iq@));
            assert(link.sent()[log0.len() as int] == log1[log0.len() as int]);
        }
        proof {
            let items = match assoc_get(roster.rosters_view(), username@) {
                Some(x) => x,
                None => seq![],
            };
            assert(items_view(roster_items@) == items);
            assert(items.len() == roster_items.len());
            assert(router.clients_view() == assoc_set(
                old(router).clients_view(),
                full_jid_of(username@, domain@, res@),
                h,
            ));
            let first = session_result_xml(id_or(st.id, "sess_1"@));
            assert(link.sent()[log0.len() as int].1);
            assert(resource@.len() > 0 ==> res@ == resource@);
            if items.len() > 0 {
                assert(msgs(link.sent()) == msgs(log0).push(first).push(roster_push_xml(items)));
            } else {
                assert(msgs(link.sent()) == msgs(log0).push(first));
            }
        }
        return Some(
            C2sState::SessionEstablished {
                username: copy_str(username),
                resource: res,
                full_jid,
                stream_id: copy_str(stream_id),
            },
        );
    }
    None
}

// ---------------------------------------------------------------------------
// The session state machine
// ---------------------------------------------------------------------------

/// The states that may follow `a`: a session is authenticated only from
/// `AuthPending`, keeps its user through binding, binds only after
/// authenticating, and is established only from a bound resource; a new
/// stream header restarts authentication unless the client has just
/// authenticated.
pub open spec fn may_follow(a: StateView, b: StateView) -> bool {
    b == a || match b {
        StateView::StreamInit => false,
        StateView::AuthPending { .. } => !(a is AuthSuccess),
        StateView::AuthSuccess { username, .. } => a is AuthPending || (a is AuthSuccess && a->AuthSuccess_username
            == username),
        StateView::BindPending { username, stream_id, .. } => a is AuthSuccess && a->AuthSuccess_username == username
            && a->AuthSuccess_stream_id == stream_id,
        StateView::SessionEstablished { username, stream_id, .. } => a is BindPending && a->BindPending_username
            == username && a->BindPending_stream_id == stream_id,
    }
}

/// The state after a new stream header with id `sid`.
pub open spec fn reopened(a: StateView, sid: Seq<char>) -> StateView {
    match a {
        StateView::AuthSuccess { username, .. } => StateView::AuthSuccess { username, stream_id: sid },
        _ => StateView::AuthPending { stream_id: sid },
    }
}

/// The answer to a stream header: the server's header and the features
/// that the state calls for.
pub open spec fn header_reply(a: StateView, domain: Seq<char>, sid: Seq<char>) -> Seq<char> {
    stream_open_xml(domain, "jabber:client"@, sid) + if a is AuthSuccess {
        features_post_auth_xml()
    } else {
        features_c2s_xml()
    }
}

/// `v` with the exchanges and accounts, rosters and presences, rooms and
/// sessions unchanged but for those given.
pub open spec fn same_but_pending(v0: ServicesView, v1: ServicesView) -> bool {
    v1 == ServicesView { pending: v1.pending, ..v0 }
}

pub open spec fn same_but_clients(v0: ServicesView, v1: ServicesView) -> bool {
    v1 == ServicesView { clients: v1.clients, ..v0 }
}

/// Whether `s1` is the state a handler leaves: the one it gives, or `s0`.
pub open spec fn next_or(next: Option<StateView>, s0: StateView) -> StateView {
    match next {
        Some(n) => n,
        None => s0,
    }
}

/// What a parsed element does to a client session in state `s0`: the
/// state `s1` that follows, whether to go on reading, what the managers
/// hold after it, and what is queued to the client.
pub open spec fn c2s_step_outcome(
    s0: StateView,
    parsed: ParseResult,
    domain: Seq<char>,
    server_name: Seq<char>,
    v0: ServicesView,
    v1: ServicesView,
    chan: UnboundedSender<String>,
    log0: Seq<(Seq<char>, bool)>,
    log1: Seq<(Seq<char>, bool)>,
    s1: StateView,
    go_on: bool,
) -> bool {
    match parsed {
        ParseResult::StreamOpen { to, .. } => if opt_str_view(to) is Some && opt_str_view(to)->0 != domain {
            s1 == s0 && !go_on && v1 == v0 && log1 == log0
        } else {
            &&& go_on
            &&& v1 == v0
            &&& exists|sid: Seq<char>|
                #![trigger reopened(s0, sid)]
                is_uuid_v4_text(sid) && s1 == reopened(s0, sid) && msgs(log1) == msgs(log0).push(header_reply(s0, domain, sid))
        },
        ParseResult::Stanza(st) => go_on && match s0 {
            StateView::StreamInit => s1 == s0 && v1 == v0 && log1 == log0,
            StateView::AuthPending { stream_id } => {
                &&& same_but_pending(v0, v1)
                &&& exists|next: Option<StateView>|
                    auth_stanza_outcome(st, stream_id, v0.users, v0.pending, v1.pending, log0, log1, next)
                        && s1 == #[trigger] next_or(next, s0)
            },
            StateView::AuthSuccess { username, stream_id } => {
                &&& v1 == v0
                &&& exists|next: Option<StateView>|
                    bind_outcome(st, username, stream_id, domain, log0, log1, next) && s1 == #[trigger] next_or(
                        next,
                        s0,
                    )
            },
            StateView::BindPending { username, stream_id, resource } => {
                &&& same_but_clients(v0, v1)
                &&& exists|next: Option<StateView>|
                    session_outcome(
                        st,
                        username,
                        stream_id,
                        match resource {
                            Some(r) => r,
                            None => seq![],
                        },
                        domain,
                        v0.rosters,
                        v0.clients,
                        v1.clients,
                        chan,
                        log0,
                        log1,
                        next,
                    ) && s1 == #[trigger] next_or(next, s0)
            },
            StateView::SessionEstablished { username, resource, full_jid, .. } => {
                &&& s1 == s0
                &&& v1.clients == v0.clients
                &&& v1.pending == v0.pending
                &&& v1.ops.len() >= v0.ops.len()
                &&& v1.ops.subrange(0, v0.ops.len() as int) == v0.ops
                &&& established_outcome(
                    st,
                    username,
                    resource,
                    full_jid,
                    domain,
                    server_name,
                    v0.users,
                    v1.users,
                    v0.rosters,
                    v1.rosters,
                    v0.presence,
                    v1.presence,
                    v0.rooms,
                    v1.rooms,
                    v1.ops.subrange(v0.ops.len() as int, v1.ops.len() as int),
                    log0,
                    log1,
                )
                &&& v1.deliveries.len() >= v0.deliveries.len()
                &&& v1.deliveries.subrange(0, v0.deliveries.len() as int) == v0.deliveries
                &&& session_handed(
                    st,
                    username,
                    full_jid,
                    domain,
                    v0.clients,
                    v0.rooms,
                    v1.rooms,
                    handed_since(v1.deliveries, v0.deliveries.len()),
                )
            },
        },
        ParseResult::StreamClose => {
            &&& !go_on
            &&& s1 == s0
            &&& log1 == log0
            &&& match s0 {
                StateView::SessionEstablished { full_jid, .. } => v1 == ServicesView {
                    clients: assoc_remove(v0.clients, full_jid),
                    ..v0
                },
                _ => v1 == v0,
            }
        },
        ParseResult::Error(_) => !go_on && s1 == s0 && v1 == v0 && log1 == log0,
        ParseResult::Incomplete => go_on && s1 == s0 && v1 == v0 && log1 == log0,
    }
}

fn copy_state(s: &C2sState) -> (r: C2sState)
    ensures
        r@ == s@,
{
    match s {
        C2sState::StreamInit => C2sState::StreamInit,
        C2sState::AuthPending { stream_id } => C2sState::AuthPending { stream_id: copy_str(stream_id.as_str()) },
        C2sState::AuthSuccess { username, stream_id } => C2sState::AuthSuccess {
            username: copy_str(username.as_str()),
            stream_id: copy_str(stream_id.as_str()),
        },
        C2sState::BindPending { username, stream_id, resource } => C2sState::BindPending {
            username: copy_str(username.as_str()),
            stream_id: copy_str(stream_id.as_str()),
            resource: crate::text::copy_opt(resource),
        },
        C2sState::SessionEstablished { username, resource, full_jid, stream_id } => C2sState::SessionEstablished {
            username: copy_str(username.as_str()),
            resource: copy_str(resource.as_str()),
            full_jid: copy_str(full_jid.as_str()),
            stream_id: copy_str(stream_id.as_str()),
        },
    }
}

/// Acts on one parsed element of a client stream in state `state`: gives
/// the next state and whether to go on reading.
pub fn c2s_step(
    state: C2sState,
    parsed: ParseResult,
    config: &Config,
    services: &mut Services,
    link: &mut Link,
) -> (r: (C2sState, bool))
    requires
        old(services).wf(),
    ensures
        final(link).channel() == old(link).channel(),
        final(services).wf(),
        c2s_step_outcome(
            state@,
            parsed,
            config.server.domain@,
            config.server.name@,
            old(services)@,
            final(services)@,
            old(link).channel(),
            old(link).sent(),
            final(link).sent(),
            r.0@,
            r.1,
        ),
        may_follow(state@, r.0@),
        r.0@ is AuthSuccess && !(state@ is AuthSuccess) ==> crate::auth::lookup_user(
            old(services)@.users,
            r.0@->AuthSuccess_username,
        ) is Some,
        r.0@ is SessionEstablished && !(state@ is SessionEstablished) ==> {
            &&& r.0@->SessionEstablished_full_jid == full_jid_of(
                r.0@->SessionEstablished_username,
                config.server.domain@,
                r.0@->SessionEstablished_resource,
            )
            &&& assoc_get(final(services)@.clients, r.0@->SessionEstablished_full_jid) == Some(old(link).channel())
        },
{
    let ghost s0 = state@;
    let ghost v0 = services@;
    let ghost log0 = link.sent();
    let domain = config.server.domain.as_str();
    match parsed {
        ParseResult::StreamOpen { to, .. } => {
            match &to {
                Some(t) => {
                    if !str_eq(t.as_str(), domain) {
                        return (state, false);
                    }
                },
                None => {},
            }
            let stream_id = new_uuid();
            let is_auth = match &state {
                C2sState::AuthSuccess { .. } => true,
                _ => false,
            };
            let features = if is_auth {
                build_features_post_auth()
            } else {
                build_features(true)
            };
            let mut response = build_stream_open(domain, "jabber:client", stream_id.as_str());
            response.append(features.as_str());
            let _ = write_stanza(link, response.as_str());
            assert(msgs(link.sent()) =~= msgs(log0).push(header_reply(s0, domain@, stream_id@)));
            let next = match state {
                C2sState::AuthSuccess { username, .. } => C2sState::AuthSuccess { username, stream_id },
                _ => C2sState::AuthPending { stream_id },
            };
            assert(next@ == reopened(s0, stream_id@));
            (next, true)
        },
        ParseResult::Stanza(st) => {
            let next = match &state {
                C2sState::StreamInit => None,
                C2sState::AuthPending { stream_id } => {
                    let n = handle_auth_stanza(&st, stream_id.as_str(), &mut services.auth, link);
                    assert(opt_state(n) is Some ==> next_or(opt_state(n), s0) == opt_state(n)->0);
                    proof {
                        law_plain_success_is_registered(v0.users, encode_utf8(stanza_payload(st)));
                    }
                    n
                },
                C2sState::AuthSuccess { username, stream_id } => {
                    handle_auth_success_stanza(&st, username.as_str(), stream_id.as_str(), link, domain)
                },
                C2sState::BindPending { username, stream_id, resource } => {
                    let res: &str = match resource {
                        Some(x) => x.as_str(),
                        None => "",
                    };
                    proof {
                        reveal_strlit("");
                    }
                    assert(res@ == match resource {
                        Some(x) => x@,
                        None => Seq::<char>::empty(),
                    });
                    let n = handle_bind_stanza(
                        &st,
                        username.as_str(),
                        stream_id.as_str(),
                        res,
                        domain,
                        &mut services.router,
                        &services.roster,
                        link,
                    );
                    proof {
                        if opt_state(n) is Some {
                            let res = choose|res: Seq<char>|
                                #![trigger full_jid_of(username@, domain@, res)]
                                services.router.clients_view() == assoc_set(
                                    v0.clients,
                                    full_jid_of(username@, domain@, res),
                                    old(link).channel(),
                                ) && opt_state(n) == Some(
                                    StateView::SessionEstablished {
                                        username: username@,
                                        resource: res,
                                        full_jid: full_jid_of(username@, domain@, res),
                                        stream_id: stream_id@,
                                    },
                                );
                            crate::roster::law_assoc_set_get(
                                v0.clients,
                                full_jid_of(username@, domain@, res),
                                old(link).channel(),
                            );
                        }
                    }
                    n
                },
                C2sState::SessionEstablished { username, resource, full_jid, .. } => {
                    handle_established_stanza(
                        &st,
                        username.as_str(),
                        resource.as_str(),
                        full_jid.as_str(),
                        config,
                        &mut services.router,
                        &mut services.auth,
                        &mut services.roster,
                        &mut services.muc,
                        link,
                    );
                    None
                },
            };
            let ghost nv = opt_state(next);
            assert(next_or(nv, s0) == match next {
                Some(n) => n@,
                None => s0,
            });
            match next {
                Some(n) => (n, true),
                None => (state, true),
            }
        },
        ParseResult::StreamClose => {
            match &state {
                C2sState::SessionEstablished { full_jid, .. } => {
                    services.router.unregister(full_jid.as_str());
                },
                _ => {},
            }
            (state, false)
        },
        ParseResult::Error(_) => (state, false),
        ParseResult::Incomplete => (state, true),
    }
}

/// Whether a line read from a client holds nothing but white space.
pub fn is_blank(line: &str) -> (r: bool)
    ensures
        r == (trim_spec(line@).len() == 0),
{
    let cs = chars_of(line);
    let t = trim_chars(cs.as_slice());
    t.len() == 0
}

/// Parses a line of a client stream and acts on it.
pub fn c2s_handle_line(
    state: C2sState,
    line: &str,
    config: &Config,
    services: &mut Services,
    link: &mut Link,
) -> (r: (C2sState, bool))
    requires
        old(services).wf(),
    ensures
        final(link).channel() == old(link).channel(),
        final(services).wf(),
        exists|p: ParseResult, ev0: XmlEvent, evs: Seq<XmlEvent>|
            #![trigger parse_outcome(line@, p, ev0, evs)]
            parse_outcome(line@, p, ev0, evs) && crate::stanza::read_from_reader(trim_spec(line@), ev0, evs)
                && c2s_step_outcome(
                state@,
                p,
                config.server.domain@,
                config.server.name@,
                old(services)@,
                final(services)@,
                old(link).channel(),
                old(link).sent(),
                final(link).sent(),
                r.0@,
                r.1,
            ),
        may_follow(state@, r.0@),
        r.0@ is AuthSuccess && !(state@ is AuthSuccess) ==> crate::auth::lookup_user(
            old(services)@.users,
            r.0@->AuthSuccess_username,
        ) is Some,
        r.0@ is SessionEstablished && !(state@ is SessionEstablished) ==> {
            &&& r.0@->SessionEstablished_full_jid == full_jid_of(
                r.0@->SessionEstablished_username,
                config.server.domain@,
                r.0@->SessionEstablished_resource,
            )
            &&& assoc_get(final(services)@.clients, r.0@->SessionEstablished_full_jid) == Some(old(link).channel())
        },
{
    let parsed = parse_stream_element(line);
    let ghost p = parsed;
    let r = c2s_step(state, parsed, config, services, link);
    assert(exists|ev0: XmlEvent, evs: Seq<XmlEvent>|
        parse_outcome(line@, p, ev0, evs) && crate::stanza::read_from_reader(trim_spec(line@), ev0, evs));
    r
}

/// The presence that announces that a session's user left.
pub open spec fn goodbye_xml(bare: Seq<char>) -> Seq<char> {
    presence_xml(bare, bare, Some("unavailable"@), None, Some("Connection closed"@))
}

/// What ending a session in state `s` does to the managers: an
/// established session is unregistered, its presence and its
/// authentication exchange are forgotten, and its user is announced as
/// unavailable on the queue of each other session.
pub open spec fn finish_outcome(s: StateView, domain: Seq<char>, v0: ServicesView, v1: ServicesView) -> bool {
    match s {
        StateView::SessionEstablished { username, resource, full_jid, stream_id } => {
            let bare = username + "@"@ + domain;
            &&& v1.users == v0.users
            &&& v1.rosters == v0.rosters
            &&& v1.rooms == v0.rooms
            &&& v1.clients == assoc_remove(v0.clients, full_jid)
            &&& v1.presence == assoc_remove(v0.presence, presence_key(username, resource))
            &&& v1.pending == pending_remove(v0.pending, stream_id)
            &&& v1.ops.len() == v0.ops.len() + 1
            &&& v1.ops.drop_last() == v0.ops
            &&& crate::session::is_broadcast(v1.ops.last(), goodbye_xml(bare), full_jid)
            &&& v1.deliveries.len() >= v0.deliveries.len()
            &&& v1.deliveries.subrange(0, v0.deliveries.len() as int) == v0.deliveries
            &&& hands_each(
                handed_since(v1.deliveries, v0.deliveries.len()),
                broadcast_queues(assoc_remove(v0.clients, full_jid), Some(full_jid)),
                goodbye_xml(bare),
            )
        },
        _ => v1 == v0,
    }
}

/// Cleans up after a client session ends, whatever state it ended in.
pub fn c2s_finish(state: &C2sState, config: &Config, services: &mut Services)
    requires
        old(services).wf(),
    ensures
        final(services).wf(),
        finish_outcome(state@, config.server.domain@, old(services)@, final(services)@),
{
    match state {
        C2sState::SessionEstablished { full_jid, username, resource, stream_id } => {
            let ghost ops0 = services.router.ops();
            services.router.unregister(full_jid.as_str());
            let mut key = copy_str(username.as_str());
            key.append("/");
            key.append(resource.as_str());
            services.roster.remove_resource(key.as_str());
            services.auth.remove_auth_state(stream_id.as_str());
            let mut bare = copy_str(username.as_str());
            bare.append("@");
            bare.append(config.server.domain.as_str());
            let unavailable = build_presence(
                bare.as_str(),
                bare.as_str(),
                Some("unavailable"),
                None,
                Some("Connection closed"),
            );
            let _ = services.router.broadcast(unavailable.as_str(), Some(full_jid.as_str()));
            assert(services.router.ops().drop_last() =~= ops0);
        },
        _ => {},
    }
}

/// A session that PLAIN lets in belongs to a registered user.
pub proof fn law_plain_success_is_registered(us: Seq<crate::auth::UserView>, data: Seq<u8>)
    ensures
        plain_auth_spec(us, data) matches Ok(u) ==> crate::auth::lookup_user(us, u) is Some,
{
}

/// Along any run of a client session that starts with no stream, a
/// session is established only after the client has authenticated and
/// then bound a resource, for the same user.
pub proof fn law_established_needs_auth(run: Seq<StateView>, k: int)
    requires
        run.len() > 0,
        run[0] == StateView::StreamInit,
        forall|i: int| 0 <= i < run.len() - 1 ==> may_follow(#[trigger] run[i], run[i + 1]),
        0 <= k < run.len(),
        run[k] is SessionEstablished,
    ensures
        exists|i: int, j: int|
            0 < i < j < k && (#[trigger] run[i]) is AuthSuccess && (#[trigger] run[j]) is BindPending
                && run[i]->AuthSuccess_username == run[k]->SessionEstablished_username
                && run[j]->BindPending_username == run[k]->SessionEstablished_username,
    decreases k,
{
    assert(may_follow(run[k - 1], run[k]));
    if run[k - 1] is SessionEstablished {
        law_established_needs_auth(run, k - 1);
        let (i, j) = choose|i: int, j: int|
            0 < i < j < k - 1 && (#[trigger] run[i]) is AuthSuccess && (#[trigger] run[j]) is BindPending
                && run[i]->AuthSuccess_username == run[k - 1]->SessionEstablished_username
                && run[j]->BindPending_username == run[k - 1]->SessionEstablished_username;
        assert(run[k - 1] == run[k]);
    } else {
        let j = k - 1;
        lemma_bound_needs_auth(run, j);
    }
}

/// A step taken before the session is established asks nothing of the
/// router and hands nothing to any session's queue.
pub proof fn law_no_routing_outside_session(
    s0: StateView,
    parsed: ParseResult,
    domain: Seq<char>,
    server_name: Seq<char>,
    v0: ServicesView,
    v1: ServicesView,
    chan: UnboundedSender<String>,
    log0: Seq<(Seq<char>, bool)>,
    log1: Seq<(Seq<char>, bool)>,
    s1: StateView,
    go_on: bool,
)
    requires
        c2s_step_outcome(s0, parsed, domain, server_name, v0, v1, chan, log0, log1, s1, go_on),
        !(s0 is SessionEstablished),
    ensures
        v1.ops == v0.ops,
        v1.deliveries == v0.deliveries,
{
}

/// Along any run of a client session that starts with no stream, the
/// router is asked to route or broadcast, or a session's queue is handed a
/// stanza, only at a step taken in an established session, and so only
/// after the client has authenticated and then bound a resource, as the
/// same user.
pub proof fn law_no_routing_before_session(
    run: Seq<StateView>,
    parsed: Seq<ParseResult>,
    views: Seq<ServicesView>,
    logs: Seq<Seq<(Seq<char>, bool)>>,
    go: Seq<bool>,
    domain: Seq<char>,
    server_name: Seq<char>,
    chan: UnboundedSender<String>,
    k: int,
)
    requires
        run.len() > 0,
        run[0] == StateView::StreamInit,
        parsed.len() + 1 == run.len(),
        views.len() == run.len(),
        logs.len() == run.len(),
        go.len() + 1 == run.len(),
        forall|i: int| 0 <= i < run.len() - 1 ==> may_follow(#[trigger] run[i], run[i + 1]),
        forall|i: int|
            0 <= i < run.len() - 1 ==> c2s_step_outcome(
                #[trigger] run[i],
                parsed[i],
                domain,
                server_name,
                views[i],
                views[i + 1],
                chan,
                logs[i],
                logs[i + 1],
                run[i + 1],
                go[i],
            ),
        0 <= k < run.len() - 1,
        views[k + 1].ops != views[k].ops || views[k + 1].deliveries != views[k].deliveries,
    ensures
        run[k] is SessionEstablished,
        exists|i: int, j: int|
            0 < i < j < k && (#[trigger] run[i]) is AuthSuccess && (#[trigger] run[j]) is BindPending
                && run[i]->AuthSuccess_username == run[k]->SessionEstablished_username
                && run[j]->BindPending_username == run[k]->SessionEstablished_username,
{
    if !(run[k] is SessionEstablished) {
        law_no_routing_outside_session(
            run[k],
            parsed[k],
            domain,
            server_name,
            views[k],
            views[k + 1],
            chan,
            logs[k],
            logs[k + 1],
            run[k + 1],
            go[k],
        );
    }
    law_established_needs_auth(run, k);
}

/// Along such a run, a resource is bound only after the same user has
/// authenticated.
pub proof fn lemma_bound_needs_auth(run: Seq<StateView>, j: int)
    requires
        run.len() > 0,
        run[0] == StateView::StreamInit,
        forall|i: int| 0 <= i < run.len() - 1 ==> may_follow(#[trigger] run[i], run[i + 1]),
        0 <= j < run.len(),
        run[j] is BindPending,
    ensures
        exists|i: int|
            0 < i < j && (#[trigger] run[i]) is AuthSuccess && run[i]->AuthSuccess_username
                == run[j]->BindPending_username,
    decreases j,
{
    assert(may_follow(run[j - 1], run[j]));
    if run[j - 1] is BindPending {
        lemma_bound_needs_auth(run, j - 1);
        assert(run[j - 1] == run[j]);
    } else {
        assert(run[j - 1] is AuthSuccess);
        assert(j - 1 > 0);
    }
}

} // verus!

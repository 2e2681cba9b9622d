//! Server-to-server streams: what the server does with each element that
//! a peer server sends, and with the lines of a client connection before
//! it turns to TLS.

use vstd::prelude::*;
use crate::c2s::{is_uuid_v4_text, new_uuid};
use crate::router::{Router, RouterOp};
use crate::session::is_route;
use crate::stanza::{
    build_features_with_starttls, build_starttls_proceed, build_stream_open, features_starttls_xml, opt_str_view,
    stanza_xml, stream_open_xml, ParseResult,
};
use crate::text::{
    chars_contain, chars_of, chars_start_with, contains_spec, copy_str, starts_with_spec, str_eq, trim_chars,
    trim_spec,
};

verus! {

broadcast use vstd::string::group_string_axioms;

/// What the connection to a peer server does next.
#[derive(Debug)]
pub enum S2sAction {
    /// Nothing to write; go on reading.
    Continue,
    /// Write the text, and go on reading unless the write fails.
    Reply(String),
    /// Write the text and close the connection.
    CloseWith(String),
    /// Close the connection.
    Close,
}

/// The stream header answered to a peer server.
pub open spec fn s2s_header_xml(domain: Seq<char>, sid: Seq<char>) -> Seq<char> {
    "<?xml version='1.0'?><stream:stream xmlns='jabber:server' xmlns:stream='http://etherx.jabber.org/streams' id='"@
        + sid + "' from='"@ + domain + "' version='1.0'/>"@
}

/// Acts on one parsed element from a peer server. `remote_domain` is the
/// domain the peer gave in its stream header, empty until it gives one;
/// stanzas addressed somewhere are routed from it.
pub fn s2s_step(remote_domain: &mut String, parsed: ParseResult, domain: &str, router: &mut Router) -> (a: S2sAction)
    ensures
        final(router).wf() == old(router).wf(),
        final(router).clients_view() == old(router).clients_view(),
        match parsed {
            ParseResult::StreamOpen { to, from, .. } => {
                &&& final(remote_domain)@ == match opt_str_view(from) {
                    Some(f) => f,
                    None => old(remote_domain)@,
                }
                &&& final(router).ops() == old(router).ops()
                &&& if opt_str_view(to) is Some && opt_str_view(to)->0 != domain@ {
                    a matches S2sAction::CloseWith(x) && x@ == "</stream:stream>"@
                } else {
                    exists|sid: Seq<char>|
                        is_uuid_v4_text(sid) && (a matches S2sAction::Reply(x) && x@ == #[trigger] s2s_header_xml(
                            domain@,
                            sid,
                        ))
                }
            },
            ParseResult::Stanza(st) => {
                &&& a is Continue
                &&& final(remote_domain)@ == old(remote_domain)@
                &&& match opt_str_view(st.to) {
                    Some(to) => {
                        &&& final(router).ops().len() == old(router).ops().len() + 1
                        &&& final(router).ops().drop_last() == old(router).ops()
                        &&& is_route(final(router).ops().last(), old(remote_domain)@, to, stanza_xml(st))
                    },
                    None => final(router).ops() == old(router).ops(),
                }
            },
            ParseResult::Incomplete => a is Continue && final(remote_domain)@ == old(remote_domain)@
                && final(router).ops() == old(router).ops(),
            _ => a is Close && final(remote_domain)@ == old(remote_domain)@ && final(router).ops() == old(router).ops(),
        },
{
    match parsed {
        ParseResult::StreamOpen { to, from, .. } => {
            match from {
                Some(f) => {
                    *remote_domain = f;
                },
                None => {},
            }
            match &to {
                Some(t) => {
                    if !str_eq(t.as_str(), domain) {
                        return S2sAction::CloseWith(copy_str("</stream:stream>"));
                    }
                },
                None => {},
            }
            let stream_id = new_uuid();
            let mut response = copy_str(
                "<?xml version='1.0'?><stream:stream xmlns='jabber:server' xmlns:stream='http://etherx.jabber.org/streams' id='",
            );
            response.append(stream_id.as_str());
            response.append("' from='");
            response.append(domain);
            response.append("' version='1.0'/>");
            assert(response@ == s2s_header_xml(domain@, stream_id@));
            S2sAction::Reply(response)
        },
        ParseResult::Stanza(st) => {
            match &st.to {
                Some(to) => {
                    let ghost ops0 = router.ops();
                    let stanza_xml = st.to_xml_string();
                    let _ = router.route(remote_domain.as_str(), to.as_str(), stanza_xml.as_str());
                    assert(router.ops().drop_last() =~= ops0);
                },
                None => {},
            }
            S2sAction::Continue
        },
        ParseResult::Incomplete => S2sAction::Continue,
        _ => S2sAction::Close,
    }
}

/// What a client connection does with a line before it turns to TLS.
#[derive(Debug)]
pub enum StarttlsAction {
    /// Nothing to do.
    Ignore,
    /// Write the text, then hand the connection to TLS.
    Proceed(String),
    /// Write the text and go on reading.
    Reply(String),
}

/// Whether the trimmed line `t` asks to turn to TLS.
pub open spec fn is_starttls_request(t: Seq<char>) -> bool {
    starts_with_spec(t, "<starttls"@) && contains_spec(t, "urn:ietf:params:xml:ns:xmpp-tls"@)
}

/// What a plain client connection offered STARTTLS does with `line`.
pub open spec fn starttls_outcome(line: Seq<char>, domain: Seq<char>, a: StarttlsAction) -> bool {
    let t = trim_spec(line);
    if t.len() == 0 {
        a is Ignore
    } else if is_starttls_request(t) {
        a matches StarttlsAction::Proceed(x) && x@ == "<proceed xmlns='urn:ietf:params:xml:ns:xmpp-tls'/>"@
    } else if contains_spec(t, "<stream:stream"@) || contains_spec(t, "<?xml"@) {
        exists|sid: Seq<char>|
            is_uuid_v4_text(sid) && (a matches StarttlsAction::Reply(x) && x@ == #[trigger] stream_open_xml(
                domain,
                "jabber:client"@,
                sid,
            ) + features_starttls_xml())
    } else {
        a is Ignore
    }
}

/// Acts on a line of a client connection that is offered STARTTLS: a
/// `starttls` request is told to proceed; a stream header is answered with
/// the server's header and the STARTTLS feature. It reads and changes no
/// account, session, roster or room.
pub fn starttls_step(line: &str, domain: &str) -> (a: StarttlsAction)
    ensures
        starttls_outcome(line@, domain@, a),
{
    let cs = chars_of(line);
    let t = trim_chars(cs.as_slice());
    if t.len() == 0 {
        return StarttlsAction::Ignore;
    }
    let starttls = chars_of("<starttls");
    let tls_ns = chars_of("urn:ietf:params:xml:ns:xmpp-tls");
    if chars_start_with(t.as_slice(), starttls.as_slice()) && chars_contain(t.as_slice(), tls_ns.as_slice()) {
        return StarttlsAction::Proceed(build_starttls_proceed());
    }
    let open = chars_of("<stream:stream");
    let decl = chars_of("<?xml");
    if chars_contain(t.as_slice(), open.as_slice()) || chars_contain(t.as_slice(), decl.as_slice()) {
        let stream_id = new_uuid();
        let features = build_features_with_starttls();
        let mut response = build_stream_open(domain, "jabber:client", stream_id.as_str());
        response.append(features.as_str());
        return StarttlsAction::Reply(response);
    }
    StarttlsAction::Ignore
}

/// Along the lines read on a plain client connection, the first STARTTLS
/// request is the first line told to proceed to TLS: every line before it
/// is ignored or answered with a stream header offering STARTTLS, and none
/// of them reaches stream parsing or the services.
pub proof fn law_plain_lines_until_starttls(
    lines: Seq<Seq<char>>,
    actions: Seq<StarttlsAction>,
    domain: Seq<char>,
    l: int,
)
    requires
        lines.len() == actions.len(),
        forall|i: int| 0 <= i < lines.len() ==> starttls_outcome(#[trigger] lines[i], domain, actions[i]),
        0 <= l < lines.len(),
        is_starttls_request(trim_spec(lines[l])),
        forall|i: int| 0 <= i < l ==> !is_starttls_request(trim_spec(#[trigger] lines[i])),
    ensures
        actions[l] is Proceed,
        forall|i: int| 0 <= i < l ==> (#[trigger] actions[i] is Ignore || actions[i] is Reply),
{
    reveal_strlit("<starttls");
    assert(trim_spec(lines[l]).len() > 0);
    assert(starttls_outcome(lines[l], domain, actions[l]));
    assert forall|i: int| 0 <= i < l implies (#[trigger] actions[i] is Ignore || actions[i] is Reply) by {
        assert(starttls_outcome(lines[i], domain, actions[i]));
        assert(!is_starttls_request(trim_spec(lines[i])));
    }
}

/// How a new client connection is handled.
#[derive(Debug)]
pub enum Handshake {
    /// The client opened with a TLS record: hand the connection to TLS.
    Tls,
    /// Offer STARTTLS on the plain connection.
    StartTls,
    /// Serve the connection without TLS.
    Plain,
}

/// Chooses how to handle a new client connection from its first byte, if
/// one could be read, and whether TLS is configured: a first byte of
/// `0x16` (a TLS handshake record) goes to TLS, any other connection is
/// offered STARTTLS; without TLS every connection is served plain.
pub fn handshake_for(first: Option<u8>, tls_configured: bool) -> (h: Handshake)
    ensures
        !tls_configured ==> h is Plain,
        tls_configured && first == Some(0x16u8) ==> h is Tls,
        tls_configured && first != Some(0x16u8) ==> h is StartTls,
{
    if !tls_configured {
        return Handshake::Plain;
    }
    match first {
        Some(b) => {
            if b == 0x16 {
                Handshake::Tls
            } else {
                Handshake::StartTls
            }
        },
        None => Handshake::StartTls,
    }
}

} // verus!

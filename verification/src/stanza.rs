//! Stanzas: the data model of an XMPP stanza, its XML serialisation, the
//! builders of the fixed protocol messages, and stream parsing.

use vstd::prelude::*;
use crate::text::{
    all_white_space, chars_all_white_space, chars_contain, chars_of, chars_start_with, contains_spec,
    copy_str, occurs_at, is_whitespace, starts_with_spec, str_eq, string_from_chars, trim_chars, trim_spec,
    unicode_white_space,
};
use crate::xml::{attr_pairs, cooked, event_view, event_views, reader_events, xml_event_at, EventReader, XmlEvent, XmlTag};

verus! {

broadcast use vstd::string::group_string_axioms;

/// The three kinds of XMPP stanza.
#[derive(Debug, Clone, Copy, PartialEq, Eq)]
pub enum StanzaKind {
    Message,
    Presence,
    Iq,
}

/// A parsed stanza. `attrs` holds the attributes of the root element other
/// than the ones that have a field of their own, in document order.
#[derive(Debug)]
pub struct Stanza {
    pub name: String,
    pub kind: StanzaKind,
    pub id: Option<String>,
    pub from: Option<String>,
    pub to: Option<String>,
    pub stanza_type: Option<String>,
    pub xmlns: Option<String>,
    pub lang: Option<String>,
    pub children: Vec<StanzaChild>,
    pub attrs: Vec<(String, String)>,
    pub raw: Option<String>,
}

/// A child node of a stanza: an element or a run of text.
#[derive(Debug)]
pub enum StanzaChild {
    Element {
        name: String,
        attrs: Vec<(String, String)>,
        children: Vec<StanzaChild>,
        text: Option<String>,
        xmlns: Option<String>,
    },
    Text(String),
}

// ---------------------------------------------------------------------------
// Escaping
// ---------------------------------------------------------------------------

/// The replacement of one character by `escape_xml`.
pub open spec fn escape_char(c: char) -> Seq<char> {
    if c == '&' {
        seq!['&', 'a', 'm', 'p', ';']
    } else if c == '<' {
        seq!['&', 'l', 't', ';']
    } else if c == '>' {
        seq!['&', 'g', 't', ';']
    } else if c == '"' {
        seq!['&', 'q', 'u', 'o', 't', ';']
    } else if c == '\'' {
        seq!['&', 'a', 'p', 'o', 's', ';']
    } else {
        seq![c]
    }
}

/// `s` with each of `& < > " '` replaced by its predefined XML entity.
pub open spec fn escape_xml_spec(s: Seq<char>) -> Seq<char>
    decreases s.len(),
{
    if s.len() == 0 {
        seq![]
    } else {
        escape_xml_spec(s.drop_last()) + escape_char(s.last())
    }
}

/// Escapes the five XML special characters of `s`.
pub fn escape_xml(s: &str) -> (r: String)
    ensures
        r@ == escape_xml_spec(s@),
{
    let cs = chars_of(s);
    let mut out: Vec<char> = Vec::new();
    let mut i: usize = 0;
    while i < cs.len()
        invariant
            i <= cs.len(),
            cs@ == s@,
            out@ == escape_xml_spec(cs@.subrange(0, i as int)),
        decreases cs.len() - i,
    {
        let c = cs[i];
        if c == '&' {
            out.push('&');
            out.push('a');
            out.push('m');
            out.push('p');
            out.push(';');
        } else if c == '<' {
            out.push('&');
            out.push('l');
            out.push('t');
            out.push(';');
        } else if c == '>' {
            out.push('&');
            out.push('g');
            out.push('t');
            out.push(';');
        } else if c == '"' {
            out.push('&');
            out.push('q');
            out.push('u');
            out.push('o');
            out.push('t');
            out.push(';');
        } else if c == '\'' {
            out.push('&');
            out.push('a');
            out.push('p');
            out.push('o');
            out.push('s');
            out.push(';');
        } else {
            out.push(c);
        }
        assert(cs@.subrange(0, i + 1).drop_last() =~= cs@.subrange(0, i as int));
        assert(out@ =~= escape_xml_spec(cs@.subrange(0, i as int)) + escape_char(c));
        i = i + 1;
    }
    assert(cs@.subrange(0, cs.len() as int) =~= cs@);
    string_from_chars(out.as_slice())
}

/// The escaped text contains none of `< > " '`.
pub proof fn lemma_escape_has_no_markup(s: Seq<char>)
    ensures
        !escape_xml_spec(s).contains('<'),
        !escape_xml_spec(s).contains('>'),
        !escape_xml_spec(s).contains('"'),
        !escape_xml_spec(s).contains('\''),
    decreases s.len(),
{
    if s.len() > 0 {
        lemma_escape_has_no_markup(s.drop_last());
        let a = escape_xml_spec(s.drop_last());
        let b = escape_char(s.last());
        assert forall|c: char| (c == '<' || c == '>' || c == '"' || c == '\'') implies !(a + b).contains(c) by {
            if (a + b).contains(c) {
                let k = choose|k: int| 0 <= k < (a + b).len() && (a + b)[k] == c;
                if k < a.len() {
                    assert(a[k] == c);
                } else {
                    assert(b[k - a.len()] == c);
                }
            }
        }
    }
}

/// Escaping distributes over concatenation.
pub proof fn lemma_escape_concat(s: Seq<char>, t: Seq<char>)
    ensures
        escape_xml_spec(s + t) == escape_xml_spec(s) + escape_xml_spec(t),
    decreases t.len(),
{
    if t.len() == 0 {
        assert(s + t =~= s);
        assert(escape_xml_spec(s) + escape_xml_spec(t) =~= escape_xml_spec(s));
    } else {
        assert((s + t).drop_last() =~= s + t.drop_last());
        assert((s + t).last() == t.last());
        lemma_escape_concat(s, t.drop_last());
        assert(escape_xml_spec(s + t) =~= escape_xml_spec(s) + escape_xml_spec(t));
    }
}

/// Whether `c` is one of the five characters that `escape_xml` replaces.
pub open spec fn is_xml_special(c: char) -> bool {
    c == '&' || c == '<' || c == '>' || c == '"' || c == '\''
}

/// Text without any of `& < > " '` is left as it is.
pub proof fn law_escape_plain_unchanged(s: Seq<char>)
    requires
        forall|i: int| 0 <= i < s.len() ==> !is_xml_special(#[trigger] s[i]),
    ensures
        escape_xml_spec(s) == s,
    decreases s.len(),
{
    if s.len() > 0 {
        let p = s.drop_last();
        assert forall|i: int| 0 <= i < p.len() implies !is_xml_special(#[trigger] p[i]) by {
            assert(p[i] == s[i]);
        }
        law_escape_plain_unchanged(p);
        assert(!is_xml_special(s[s.len() - 1]));
        assert(escape_xml_spec(s) =~= s);
    }
}

/// Whether one of the five predefined entities starts at position `i` of `t`.
pub open spec fn entity_at(t: Seq<char>, i: int) -> bool {
    ||| occurs_at(t, escape_char('&'), i)
    ||| occurs_at(t, escape_char('<'), i)
    ||| occurs_at(t, escape_char('>'), i)
    ||| occurs_at(t, escape_char('"'), i)
    ||| occurs_at(t, escape_char('\''), i)
}

/// Every `&` of escaped text starts one of the five predefined entities.
pub proof fn law_escape_ampersands(s: Seq<char>)
    ensures
        forall|i: int| 0 <= i < escape_xml_spec(s).len() && escape_xml_spec(s)[i] == '&' ==> #[trigger] entity_at(
            escape_xml_spec(s),
            i,
        ),
    decreases s.len(),
{
    if s.len() > 0 {
        law_escape_ampersands(s.drop_last());
        let a = escape_xml_spec(s.drop_last());
        let b = escape_char(s.last());
        let e = a + b;
        assert(escape_xml_spec(s) == e);
        assert forall|i: int| 0 <= i < e.len() && e[i] == '&' implies #[trigger] entity_at(e, i) by {
            if i < a.len() {
                assert(a[i] == '&');
                assert(entity_at(a, i));
                assert forall|c: char| #[trigger] occurs_at(a, escape_char(c), i) implies occurs_at(e, escape_char(c), i) by {
                    assert(e.subrange(i, i + escape_char(c).len()) =~= a.subrange(i, i + escape_char(c).len()));
                }
            } else {
                let k = i - a.len();
                assert(b[k] == '&');
                assert(k == 0);
                assert(e.subrange(i, i + b.len()) =~= b);
                assert(occurs_at(e, escape_char(s.last()), i));
            }
        }
    }
}

/// The characters that the entity, or the single character, at the start of
/// non-empty `t` stands for, and how many characters it takes.
pub open spec fn first_unescaped(t: Seq<char>) -> (char, int) {
    if starts_with_spec(t, seq!['&', 'a', 'm', 'p', ';']) {
        ('&', 5)
    } else if starts_with_spec(t, seq!['&', 'l', 't', ';']) {
        ('<', 4)
    } else if starts_with_spec(t, seq!['&', 'g', 't', ';']) {
        ('>', 4)
    } else if starts_with_spec(t, seq!['&', 'q', 'u', 'o', 't', ';']) {
        ('"', 6)
    } else if starts_with_spec(t, seq!['&', 'a', 'p', 'o', 's', ';']) {
        ('\'', 6)
    } else {
        (t[0], 1)
    }
}

/// `t` with the five predefined entities read back as the characters they
/// stand for, from left to right.
pub open spec fn unescape_xml_spec(t: Seq<char>) -> Seq<char>
    decreases t.len(),
{
    if t.len() == 0 {
        seq![]
    } else {
        let n = first_unescaped(t).1;
        if 1 <= n <= t.len() {
            seq![first_unescaped(t).0] + unescape_xml_spec(t.subrange(n, t.len() as int))
        } else {
            seq![]
        }
    }
}

proof fn lemma_unescape_char(c: char, r: Seq<char>)
    ensures
        unescape_xml_spec(escape_char(c) + r) == seq![c] + unescape_xml_spec(r),
{
    let t = escape_char(c) + r;
    let n = escape_char(c).len() as int;
    assert(t.subrange(0, n) =~= escape_char(c));
    assert(t.subrange(n, t.len() as int) =~= r);
    if c == '&' {
        assert(first_unescaped(t) == ('&', 5int));
    } else if c == '<' {
        assert(t[1] == 'l');
        assert(first_unescaped(t) == ('<', 4int));
    } else if c == '>' {
        assert(t[1] == 'g');
        assert(first_unescaped(t) == ('>', 4int));
    } else if c == '"' {
        assert(t[1] == 'q');
        assert(first_unescaped(t) == ('"', 6int));
    } else if c == '\'' {
        assert(t[1] == 'a' && t[2] == 'p');
        assert(first_unescaped(t) == ('\'', 6int));
    } else {
        assert(t[0] == c);
        assert(first_unescaped(t) == (c, 1int));
    }
}

/// Reading the entities of escaped text back gives the text again.
pub proof fn law_escape_round_trip(s: Seq<char>)
    ensures
        unescape_xml_spec(escape_xml_spec(s)) == s,
    decreases s.len(),
{
    if s.len() > 0 {
        let c = s[0];
        let r = s.drop_first();
        assert(s =~= seq![c] + r);
        lemma_escape_concat(seq![c], r);
        let one = seq![c];
        assert(one.drop_last() =~= Seq::<char>::empty());
        assert(one.last() == c);
        assert(escape_xml_spec(one.drop_last()) == Seq::<char>::empty());
        assert(escape_xml_spec(one) =~= escape_char(c));
        law_escape_round_trip(r);
        lemma_unescape_char(c, escape_xml_spec(r));
        assert(seq![c] + r =~= s);
    }
}


// ---------------------------------------------------------------------------
// Serialisation
// ---------------------------------------------------------------------------

/// The element name that a stanza kind is written with.
pub open spec fn kind_tag(k: StanzaKind) -> Seq<char> {
    match k {
        StanzaKind::Message => "message"@,
        StanzaKind::Presence => "presence"@,
        StanzaKind::Iq => "iq"@,
    }
}

/// An optional attribute: `prefix`, the escaped value and a closing quote,
/// or nothing when there is no value. `prefix` holds the leading space, the
/// attribute's name, `=` and the opening quote.
pub open spec fn opt_attr_xml(prefix: Seq<char>, v: Option<String>) -> Seq<char> {
    match v {
        Some(s) => prefix + escape_xml_spec(s@) + "\""@,
        None => seq![],
    }
}

/// The attributes of a list, each written as ` key="value"` with both sides escaped.
pub open spec fn attrs_xml(a: Seq<(String, String)>) -> Seq<char>
    decreases a.len(),
{
    if a.len() == 0 {
        seq![]
    } else {
        attrs_xml(a.drop_last()) + " "@ + escape_xml_spec(a.last().0@) + "=\""@ + escape_xml_spec(
            a.last().1@,
        ) + "\""@
    }
}

/// The escaped text of an element, or nothing.
pub open spec fn opt_text_xml(t: Option<String>) -> Seq<char> {
    match t {
        Some(s) => escape_xml_spec(s@),
        None => seq![],
    }
}

/// The XML of one child node.
pub open spec fn child_xml(c: StanzaChild) -> Seq<char>
    decreases c,
{
    match c {
        StanzaChild::Text(t) => escape_xml_spec(t@),
        StanzaChild::Element { name, attrs, children, text, xmlns } => {
            let head = "<"@ + name@ + opt_attr_xml(" xmlns=\""@, xmlns) + attrs_xml(attrs@);
            if children@.len() == 0 && text is None {
                head + "/>"@
            } else {
                head + ">"@ + opt_text_xml(text) + children_xml(children@) + "</"@ + name@ + ">"@
            }
        },
    }
}

/// The XML of a sequence of child nodes, one after the other.
pub open spec fn children_xml(cs: Seq<StanzaChild>) -> Seq<char>
    decreases cs,
{
    if cs.len() == 0 {
        seq![]
    } else {
        children_xml(cs.subrange(0, cs.len() - 1)) + child_xml(cs[cs.len() - 1])
    }
}

/// The XML of a stanza, as `Stanza::to_xml_string` writes it.
pub open spec fn stanza_xml(s: Stanza) -> Seq<char> {
    let tag = kind_tag(s.kind);
    let head = "<"@ + tag + opt_attr_xml(" id=\""@, s.id) + opt_attr_xml(" from=\""@, s.from)
        + opt_attr_xml(" to=\""@, s.to) + opt_attr_xml(" type=\""@, s.stanza_type) + opt_attr_xml(
        " xmlns=\""@,
        s.xmlns,
    ) + opt_attr_xml(" xml:lang=\""@, s.lang) + attrs_xml(s.attrs@);
    if s.children@.len() == 0 {
        head + "/>"@
    } else {
        head + ">"@ + children_xml(s.children@) + "</"@ + tag + ">"@
    }
}

/// The attributes are written one after the other, each as
/// ` key="value"` with both sides escaped, in their order.
pub proof fn law_attrs_xml_writes_each(a: Seq<(String, String)>)
    ensures
        attrs_xml(a) == a.map_values(
            |p: (String, String)| " "@ + escape_xml_spec(p.0@) + "=\""@ + escape_xml_spec(p.1@) + "\""@,
        ).flatten(),
    decreases a.len(),
{
    let xs = a.map_values(
        |p: (String, String)| " "@ + escape_xml_spec(p.0@) + "=\""@ + escape_xml_spec(p.1@) + "\""@,
    );
    if a.len() == 0 {
        assert(xs =~= Seq::<Seq<char>>::empty());
    } else {
        let q = a.drop_last();
        law_attrs_xml_writes_each(q);
        let qs = q.map_values(
            |p: (String, String)| " "@ + escape_xml_spec(p.0@) + "=\""@ + escape_xml_spec(p.1@) + "\""@,
        );
        let l = " "@ + escape_xml_spec(a.last().0@) + "=\""@ + escape_xml_spec(a.last().1@) + "\""@;
        assert(xs =~= qs.push(l));
        qs.lemma_flatten_push(l);
        assert(attrs_xml(a) =~= qs.flatten() + l);
    }
}

/// The XML of a sequence of children is the XML of every child, one after
/// the other, in order.
pub proof fn law_children_xml_is_each_child(cs: Seq<StanzaChild>)
    ensures
        children_xml(cs) == cs.map_values(|c: StanzaChild| child_xml(c)).flatten(),
    decreases cs.len(),
{
    let xs = cs.map_values(|c: StanzaChild| child_xml(c));
    if cs.len() == 0 {
        assert(xs =~= Seq::<Seq<char>>::empty());
    } else {
        let p = cs.subrange(0, cs.len() - 1);
        law_children_xml_is_each_child(p);
        let pxs = p.map_values(|c: StanzaChild| child_xml(c));
        assert(xs =~= pxs.push(child_xml(cs[cs.len() - 1])));
        pxs.lemma_flatten_push(child_xml(cs[cs.len() - 1]));
    }
}

/// A stanza with children is written as the same stanza without children,
/// opened instead of closed with `/>`, then the XML of every child in
/// order, then the closing tag: no child is left out.
pub proof fn law_stanza_xml_writes_every_child(s: Stanza, bare: Stanza)
    requires
        bare == (Stanza { children: bare.children, ..s }),
        bare.children@.len() == 0,
        s.children@.len() > 0,
    ensures
        ({
            let h = stanza_xml(bare);
            &&& h.len() >= 2
            &&& stanza_xml(s) == h.subrange(0, h.len() - 2) + ">"@ + s.children@.map_values(
                |c: StanzaChild| child_xml(c),
            ).flatten() + "</"@ + kind_tag(s.kind) + ">"@
        }),
{
    law_children_xml_is_each_child(s.children@);
    let h = stanza_xml(bare);
    reveal_strlit("/>");
    let tag = kind_tag(s.kind);
    let head = "<"@ + tag + opt_attr_xml(" id=\""@, s.id) + opt_attr_xml(" from=\""@, s.from)
        + opt_attr_xml(" to=\""@, s.to) + opt_attr_xml(" type=\""@, s.stanza_type) + opt_attr_xml(
        " xmlns=\""@,
        s.xmlns,
    ) + opt_attr_xml(" xml:lang=\""@, s.lang) + attrs_xml(s.attrs@);
    assert(h == head + "/>"@);
    assert(h.subrange(0, h.len() - 2) =~= head);
}

/// A child element with text or children is written as the same element
/// without either, opened instead of closed with `/>`, then its text, then
/// the XML of every one of its children in order, then its closing tag.
pub proof fn law_child_xml_writes_every_child(
    name: String,
    attrs: Vec<(String, String)>,
    children: Vec<StanzaChild>,
    text: Option<String>,
    xmlns: Option<String>,
    none: Vec<StanzaChild>,
)
    requires
        none@.len() == 0,
        children@.len() > 0 || text is Some,
    ensures
        ({
            let h = child_xml(StanzaChild::Element { name, attrs, children: none, text: None, xmlns });
            &&& h.len() >= 2
            &&& child_xml(StanzaChild::Element { name, attrs, children, text, xmlns }) == h.subrange(0, h.len() - 2)
                + ">"@ + opt_text_xml(text) + children@.map_values(|c: StanzaChild| child_xml(c)).flatten() + "</"@
                + name@ + ">"@
        }),
{
    law_children_xml_is_each_child(children@);
    reveal_strlit("/>");
    let head = "<"@ + name@ + opt_attr_xml(" xmlns=\""@, xmlns) + attrs_xml(attrs@);
    let h = child_xml(StanzaChild::Element { name, attrs, children: none, text: None, xmlns });
    assert(h == head + "/>"@);
    assert(h.subrange(0, h.len() - 2) =~= head);
}

fn append_opt_attr(out: &mut String, prefix: &str, v: &Option<String>)
    ensures
        final(out)@ == old(out)@ + opt_attr_xml(prefix@, *v),
{
    match v {
        Some(s) => {
            let e = escape_xml(s.as_str());
            out.append(prefix);
            out.append(e.as_str());
            out.append("\"");
        },
        None => {},
    }
}

fn append_attrs(out: &mut String, attrs: &Vec<(String, String)>)
    ensures
        final(out)@ == old(out)@ + attrs_xml(attrs@),
{
    let ghost start = out@;
    let mut i: usize = 0;
    while i < attrs.len()
        invariant
            i <= attrs.len(),
            out@ == start + attrs_xml(attrs@.subrange(0, i as int)),
        decreases attrs.len() - i,
    {
        let k = escape_xml(attrs[i].0.as_str());
        let v = escape_xml(attrs[i].1.as_str());
        out.append(" ");
        out.append(k.as_str());
        out.append("=\"");
        out.append(v.as_str());
        out.append("\"");
        assert(attrs@.subrange(0, i + 1).drop_last() =~= attrs@.subrange(0, i as int));
        i = i + 1;
    }
    assert(attrs@.subrange(0, attrs.len() as int) =~= attrs@);
}

/// Writes one child node as XML.
#[verifier::loop_isolation(false)]
pub fn child_to_xml(child: &StanzaChild) -> (r: String)
    ensures
        r@ == child_xml(*child),
    decreases child,
{
    match child {
        StanzaChild::Text(t) => escape_xml(t.as_str()),
        StanzaChild::Element { name, attrs, children, text, xmlns } => {
            let mut xml = copy_str("<");
            xml.append(name.as_str());
            append_opt_attr(&mut xml, " xmlns=\"", xmlns);
            append_attrs(&mut xml, attrs);
            if children.len() == 0 && text.is_none() {
                xml.append("/>");
            } else {
                xml.append(">");
                match text {
                    Some(t) => {
                        let e = escape_xml(t.as_str());
                        xml.append(e.as_str());
                    },
                    None => {},
                }
                let ghost mid = xml@;
                let mut i: usize = 0;
                while i < children.len()
                    invariant
                        i <= children.len(),
                        xml@ == mid + children_xml(children@.subrange(0, i as int)),
                    decreases children.len() - i,
                {
                    proof {
                        assert(decreases_to!(*child => children@[i as int]));
                    }
                    let c = child_to_xml(&children[i]);
                    xml.append(c.as_str());
                    let ghost pre = children@.subrange(0, i + 1);
                    assert(pre.subrange(0, pre.len() - 1) =~= children@.subrange(0, i as int));
                    i = i + 1;
                }
                assert(children@.subrange(0, children.len() as int) =~= children@);
                xml.append("</");
                xml.append(name.as_str());
                xml.append(">");
            }
            xml
        },
    }
}

impl Stanza {
    /// A stanza with the given element name and kind, and nothing else.
    pub fn new(name: &str, kind: StanzaKind) -> (s: Stanza)
        ensures
            s.name@ == name@,
            s.kind == kind,
            s.id is None,
            s.from is None,
            s.to is None,
            s.stanza_type is None,
            s.xmlns is None,
            s.lang is None,
            s.children@.len() == 0,
            s.attrs@.len() == 0,
            s.raw is None,
    {
        Stanza {
            name: copy_str(name),
            kind,
            id: None,
            from: None,
            to: None,
            stanza_type: None,
            xmlns: None,
            lang: None,
            children: Vec::new(),
            attrs: Vec::new(),
            raw: None,
        }
    }

    pub fn is_message(&self) -> (r: bool)
        ensures
            r == (self.kind == StanzaKind::Message),
    {
        matches!(self.kind, StanzaKind::Message)
    }

    pub fn is_presence(&self) -> (r: bool)
        ensures
            r == (self.kind == StanzaKind::Presence),
    {
        matches!(self.kind, StanzaKind::Presence)
    }

    pub fn is_iq(&self) -> (r: bool)
        ensures
            r == (self.kind == StanzaKind::Iq),
    {
        matches!(self.kind, StanzaKind::Iq)
    }

    /// The text of the first child element named `name` whose own first
    /// child is text.
    pub fn get_child_text(&self, name: &str) -> (r: Option<String>)
        ensures
            r is Some <==> child_text_from(self.children@, name@, 0) is Some,
            r is Some ==> r->0@ == child_text_from(self.children@, name@, 0)->0,
    {
        let mut i: usize = 0;
        while i < self.children.len()
            invariant
                i <= self.children.len(),
                child_text_from(self.children@, name@, 0) == child_text_from(
                    self.children@,
                    name@,
                    i as int,
                ),
            decreases self.children.len() - i,
        {
            match &self.children[i] {
                StanzaChild::Element { name: n, children, .. } => {
                    if str_eq(n.as_str(), name) && children.len() > 0 {
                        match &children[0] {
                            StanzaChild::Text(t) => {
                                return Some(copy_str(t.as_str()));
                            },
                            _ => {},
                        }
                    }
                },
                _ => {},
            }
            i = i + 1;
        }
        None
    }

    /// The first child element named `name` whose `xmlns` is `xmlns`.
    pub fn get_child_by_xmlns(&self, name: &str, xmlns: &str) -> (r: Option<&StanzaChild>)
        ensures
            match first_ns_match_from(self.children@, name@, xmlns@, 0) {
                Some(k) => r is Some && *r->0 == self.children@[k],
                None => r is None,
            },
    {
        let mut i: usize = 0;
        while i < self.children.len()
            invariant
                i <= self.children.len(),
                first_ns_match_from(self.children@, name@, xmlns@, 0) == first_ns_match_from(
                    self.children@,
                    name@,
                    xmlns@,
                    i as int,
                ),
            decreases self.children.len() - i,
        {
            if child_has_ns(&self.children[i], name, xmlns) {
                return Some(&self.children[i]);
            }
            i = i + 1;
        }
        None
    }

    /// Whether some child element is named `name` with `xmlns` as its namespace.
    pub fn has_child_with_xmlns(&self, name: &str, xmlns: &str) -> (r: bool)
        ensures
            r == first_ns_match_from(self.children@, name@, xmlns@, 0) is Some,
    {
        self.get_child_by_xmlns(name, xmlns).is_some()
    }

    /// The stanza written as XML.
    pub fn to_xml_string(&self) -> (r: String)
        ensures
            r@ == stanza_xml(*self),
    {
        let tag: &str = match self.kind {
            StanzaKind::Message => "message",
            StanzaKind::Presence => "presence",
            StanzaKind::Iq => "iq",
        };
        let mut xml = copy_str("<");
        xml.append(tag);
        append_opt_attr(&mut xml, " id=\"", &self.id);
        append_opt_attr(&mut xml, " from=\"", &self.from);
        append_opt_attr(&mut xml, " to=\"", &self.to);
        append_opt_attr(&mut xml, " type=\"", &self.stanza_type);
        append_opt_attr(&mut xml, " xmlns=\"", &self.xmlns);
        append_opt_attr(&mut xml, " xml:lang=\"", &self.lang);
        append_attrs(&mut xml, &self.attrs);
        if self.children.len() == 0 {
            xml.append("/>");
        } else {
            xml.append(">");
            let ghost mid = xml@;
            let mut i: usize = 0;
            while i < self.children.len()
                invariant
                    i <= self.children.len(),
                    xml@ == mid + children_xml(self.children@.subrange(0, i as int)),
                decreases self.children.len() - i,
            {
                let c = child_to_xml(&self.children[i]);
                xml.append(c.as_str());
                let ghost pre = self.children@.subrange(0, i + 1);
                assert(pre.subrange(0, pre.len() - 1) =~= self.children@.subrange(0, i as int));
                i = i + 1;
            }
            assert(self.children@.subrange(0, self.children.len() as int) =~= self.children@);
            xml.append("</");
            xml.append(tag);
            xml.append(">");
        }
        xml
    }

    /// The UTF-8 bytes of `to_xml_string`.
    pub fn to_bytes(&self) -> (r: Vec<u8>)
        ensures
            r@ == vstd::utf8::encode_utf8(stanza_xml(*self)),
    {
        let s = self.to_xml_string();
        s.as_str().as_bytes_vec()
    }
}

/// The text of `c` when it is an element named `name` whose first child is text.
pub open spec fn element_child_text(c: StanzaChild, name: Seq<char>) -> Option<Seq<char>> {
    match c {
        StanzaChild::Element { name: n, children, .. } => {
            if n@ == name && children@.len() > 0 {
                match children@[0] {
                    StanzaChild::Text(t) => Some(t@),
                    _ => None,
                }
            } else {
                None
            }
        },
        _ => None,
    }
}

/// The first `element_child_text` found from position `i` on.
pub open spec fn child_text_from(cs: Seq<StanzaChild>, name: Seq<char>, i: int) -> Option<Seq<char>>
    decreases cs.len() - i,
{
    if 0 <= i < cs.len() {
        match element_child_text(cs[i], name) {
            Some(t) => Some(t),
            None => child_text_from(cs, name, i + 1),
        }
    } else {
        None
    }
}

/// Whether `c` is an element named `name` whose `xmlns` is `xmlns`.
pub open spec fn child_ns_matches(c: StanzaChild, name: Seq<char>, xmlns: Seq<char>) -> bool {
    match c {
        StanzaChild::Element { name: n, xmlns: x, .. } => n@ == name && x is Some && x->0@ == xmlns,
        _ => false,
    }
}

/// The position of the first child from `i` on that `child_ns_matches`.
pub open spec fn first_ns_match_from(cs: Seq<StanzaChild>, name: Seq<char>, xmlns: Seq<char>, i: int) -> Option<int>
    decreases cs.len() - i,
{
    if 0 <= i < cs.len() {
        if child_ns_matches(cs[i], name, xmlns) {
            Some(i)
        } else {
            first_ns_match_from(cs, name, xmlns, i + 1)
        }
    } else {
        None
    }
}

fn child_has_ns(c: &StanzaChild, name: &str, xmlns: &str) -> (r: bool)
    ensures
        r == child_ns_matches(*c, name@, xmlns@),
{
    match c {
        StanzaChild::Element { name: n, xmlns: x, .. } => {
            if !str_eq(n.as_str(), name) {
                return false;
            }
            match x {
                Some(xs) => str_eq(xs.as_str(), xmlns),
                None => false,
            }
        },
        _ => false,
    }
}


// ---------------------------------------------------------------------------
// Builders of protocol messages
// ---------------------------------------------------------------------------

/// The opening of a stream, with its XML declaration.
pub open spec fn stream_open_xml(domain: Seq<char>, xmlns: Seq<char>, id: Seq<char>) -> Seq<char> {
    "<?xml version='1.0'?><stream:stream xmlns='"@ + xmlns
        + "' xmlns:stream='http://etherx.jabber.org/streams' id='"@ + id + "' from='"@ + domain
        + "' version='1.0' xml:lang='en'>"@
}

pub fn build_stream_open(domain: &str, xmlns: &str, id: &str) -> (r: String)
    ensures
        r@ == stream_open_xml(domain@, xmlns@, id@),
{
    let mut s = copy_str("<?xml version='1.0'?><stream:stream xmlns='");
    s.append(xmlns);
    s.append("' xmlns:stream='http://etherx.jabber.org/streams' id='");
    s.append(id);
    s.append("' from='");
    s.append(domain);
    s.append("' version='1.0' xml:lang='en'>");
    s
}

pub fn build_stream_close() -> (r: String)
    ensures
        r@ == "</stream:stream>"@,
{
    copy_str("</stream:stream>")
}

/// The features offered once a client has authenticated.
pub open spec fn features_post_auth_xml() -> Seq<char> {
    "<stream:features>\n  <bind xmlns=\"urn:ietf:params:xml:ns:xmpp-bind\"/>\n  <session xmlns=\"urn:ietf:params:xml:ns:xmpp-session\"/>\n</stream:features>"@
}

pub fn build_features_post_auth() -> (r: String)
    ensures
        r@ == features_post_auth_xml(),
{
    copy_str(
        "<stream:features>\n  <bind xmlns=\"urn:ietf:params:xml:ns:xmpp-bind\"/>\n  <session xmlns=\"urn:ietf:params:xml:ns:xmpp-session\"/>\n</stream:features>",
    )
}

/// The features offered to a client before authentication.
pub open spec fn features_c2s_xml() -> Seq<char> {
    "<stream:features>\n  <mechanisms xmlns=\"urn:ietf:params:xml:ns:xmpp-sasl\">\n    <mechanism>PLAIN</mechanism>\n    <mechanism>SCRAM-SHA-1</mechanism>\n  </mechanisms>\n  <c xmlns=\"http://jabber.org/protocol/caps\" node=\"http://ossftw.com/xmpp/server\" ver=\"1.0\" hash=\"sha-1\"/>\n  <register xmlns=\"http://jabber.org/features/iq-register\"/>\n  <ver xmlns=\"urn:ietf:params:xml:ns:xmpp-stanzas\"/>\n</stream:features>"@
}

/// The features offered to a peer server.
pub open spec fn features_s2s_xml() -> Seq<char> {
    "<stream:features>\n  <mechanisms xmlns=\"urn:ietf:params:xml:ns:xmpp-sasl\">\n    <mechanism>EXTERNAL</mechanism>\n  </mechanisms>\n</stream:features>"@
}

pub fn build_features(xmlns_c2s: bool) -> (r: String)
    ensures
        r@ == (if xmlns_c2s { features_c2s_xml() } else { features_s2s_xml() }),
{
    if xmlns_c2s {
        copy_str(
            "<stream:features>\n  <mechanisms xmlns=\"urn:ietf:params:xml:ns:xmpp-sasl\">\n    <mechanism>PLAIN</mechanism>\n    <mechanism>SCRAM-SHA-1</mechanism>\n  </mechanisms>\n  <c xmlns=\"http://jabber.org/protocol/caps\" node=\"http://ossftw.com/xmpp/server\" ver=\"1.0\" hash=\"sha-1\"/>\n  <register xmlns=\"http://jabber.org/features/iq-register\"/>\n  <ver xmlns=\"urn:ietf:params:xml:ns:xmpp-stanzas\"/>\n</stream:features>",
        )
    } else {
        copy_str(
            "<stream:features>\n  <mechanisms xmlns=\"urn:ietf:params:xml:ns:xmpp-sasl\">\n    <mechanism>EXTERNAL</mechanism>\n  </mechanisms>\n</stream:features>",
        )
    }
}

/// The features offered on a plain connection when TLS is available: STARTTLS, required.
pub open spec fn features_starttls_xml() -> Seq<char> {
    "<stream:features>\n  <starttls xmlns=\"urn:ietf:params:xml:ns:xmpp-tls\">\n    <required/>\n  </starttls>\n</stream:features>"@
}

pub fn build_features_with_starttls() -> (r: String)
    ensures
        r@ == features_starttls_xml(),
{
    copy_str(
        "<stream:features>\n  <starttls xmlns=\"urn:ietf:params:xml:ns:xmpp-tls\">\n    <required/>\n  </starttls>\n</stream:features>",
    )
}

/// The answer that lets a client go on with the TLS handshake.
pub fn build_starttls_proceed() -> (r: String)
    ensures
        r@ == "<proceed xmlns='urn:ietf:params:xml:ns:xmpp-tls'/>"@,
{
    copy_str("<proceed xmlns='urn:ietf:params:xml:ns:xmpp-tls'/>")
}

pub open spec fn sasl_challenge_xml(challenge: Seq<char>) -> Seq<char> {
    "<challenge xmlns='urn:ietf:params:xml:ns:xmpp-sasl'>"@ + challenge + "</challenge>"@
}

pub fn build_sasl_challenge(challenge: &str) -> (r: String)
    ensures
        r@ == sasl_challenge_xml(challenge@),
{
    let mut s = copy_str("<challenge xmlns='urn:ietf:params:xml:ns:xmpp-sasl'>");
    s.append(challenge);
    s.append("</challenge>");
    s
}

pub open spec fn sasl_success_xml(additional: Option<Seq<char>>) -> Seq<char> {
    match additional {
        Some(data) => "<success xmlns='urn:ietf:params:xml:ns:xmpp-sasl'>"@ + data + "</success>"@,
        None => "<success xmlns='urn:ietf:params:xml:ns:xmpp-sasl'/>"@,
    }
}

pub fn build_sasl_success(additional: Option<&str>) -> (r: String)
    ensures
        r@ == sasl_success_xml(
            match additional {
                Some(d) => Some(d@),
                None => None,
            },
        ),
{
    match additional {
        Some(data) => {
            let mut s = copy_str("<success xmlns='urn:ietf:params:xml:ns:xmpp-sasl'>");
            s.append(data);
            s.append("</success>");
            s
        },
        None => copy_str("<success xmlns='urn:ietf:params:xml:ns:xmpp-sasl'/>"),
    }
}

pub open spec fn sasl_failure_xml(reason: Seq<char>) -> Seq<char> {
    "<failure xmlns='urn:ietf:params:xml:ns:xmpp-sasl'><"@ + reason + "/></failure>"@
}

pub fn build_sasl_failure(reason: &str) -> (r: String)
    ensures
        r@ == sasl_failure_xml(reason@),
{
    let mut s = copy_str("<failure xmlns='urn:ietf:params:xml:ns:xmpp-sasl'><");
    s.append(reason);
    s.append("/></failure>");
    s
}

pub open spec fn bind_result_xml(jid: Seq<char>, sid: Seq<char>) -> Seq<char> {
    "<iq id=\""@ + sid + "\" type=\"result\"><bind xmlns=\"urn:ietf:params:xml:ns:xmpp-bind\"><jid>"@
        + jid + "</jid></bind></iq>"@
}

pub fn build_bind_result(jid: &str, sid: &str) -> (r: String)
    ensures
        r@ == bind_result_xml(jid@, sid@),
{
    let mut s = copy_str("<iq id=\"");
    s.append(sid);
    s.append("\" type=\"result\"><bind xmlns=\"urn:ietf:params:xml:ns:xmpp-bind\"><jid>");
    s.append(jid);
    s.append("</jid></bind></iq>");
    s
}

pub open spec fn session_result_xml(sid: Seq<char>) -> Seq<char> {
    "<iq id=\""@ + sid
        + "\" type=\"result\"><session xmlns=\"urn:ietf:params:xml:ns:xmpp-session\"/></iq>"@
}

pub fn build_session_result(sid: &str) -> (r: String)
    ensures
        r@ == session_result_xml(sid@),
{
    let mut s = copy_str("<iq id=\"");
    s.append(sid);
    s.append("\" type=\"result\"><session xmlns=\"urn:ietf:params:xml:ns:xmpp-session\"/></iq>");
    s
}

pub open spec fn iq_result_xml(id: Seq<char>, xmlns: Seq<char>, child_xml: Seq<char>) -> Seq<char> {
    "<iq id=\""@ + id + "\" type=\"result\" xmlns=\""@ + xmlns + "\">"@ + child_xml + "</iq>"@
}

pub fn build_iq_result(id: &str, xmlns: &str, child_xml: &str) -> (r: String)
    ensures
        r@ == iq_result_xml(id@, xmlns@, child_xml@),
{
    let mut s = copy_str("<iq id=\"");
    s.append(id);
    s.append("\" type=\"result\" xmlns=\"");
    s.append(xmlns);
    s.append("\">");
    s.append(child_xml);
    s.append("</iq>");
    s
}

pub open spec fn iq_error_xml(id: Seq<char>, condition: Seq<char>, text: Seq<char>) -> Seq<char> {
    "<iq id=\""@ + id + "\" type=\"error\"><error type='cancel'><"@ + condition
        + " xmlns='urn:ietf:params:xml:ns:xmpp-stanzas'/><text xmlns='urn:ietf:params:xml:ns:xmpp-stanzas'>"@
        + escape_xml_spec(text) + "</text></error></iq>"@
}

pub fn build_iq_error(id: &str, condition: &str, text: &str) -> (r: String)
    ensures
        r@ == iq_error_xml(id@, condition@, text@),
{
    let t = escape_xml(text);
    let mut s = copy_str("<iq id=\"");
    s.append(id);
    s.append("\" type=\"error\"><error type='cancel'><");
    s.append(condition);
    s.append(
        " xmlns='urn:ietf:params:xml:ns:xmpp-stanzas'/><text xmlns='urn:ietf:params:xml:ns:xmpp-stanzas'>",
    );
    s.append(t.as_str());
    s.append("</text></error></iq>");
    s
}

pub open spec fn message_xml(from: Seq<char>, to: Seq<char>, body: Seq<char>, kind: Seq<char>) -> Seq<char> {
    "<message from=\""@ + escape_xml_spec(from) + "\" to=\""@ + escape_xml_spec(to) + "\" type=\""@
        + kind + "\"><body>"@ + escape_xml_spec(body) + "</body></message>"@
}

pub fn build_message(from: &str, to: &str, body: &str, kind: &str) -> (r: String)
    ensures
        r@ == message_xml(from@, to@, body@, kind@),
{
    let f = escape_xml(from);
    let t = escape_xml(to);
    let b = escape_xml(body);
    let mut s = copy_str("<message from=\"");
    s.append(f.as_str());
    s.append("\" to=\"");
    s.append(t.as_str());
    s.append("\" type=\"");
    s.append(kind);
    s.append("\"><body>");
    s.append(b.as_str());
    s.append("</body></message>");
    s
}

/// The view of an optional string slice.
pub open spec fn opt_view(o: Option<&str>) -> Option<Seq<char>> {
    match o {
        Some(s) => Some(s@),
        None => None,
    }
}

pub open spec fn presence_xml(
    from: Seq<char>,
    to: Seq<char>,
    ptype: Option<Seq<char>>,
    show: Option<Seq<char>>,
    status: Option<Seq<char>>,
) -> Seq<char> {
    "<presence from=\""@ + escape_xml_spec(from) + "\" to=\""@ + escape_xml_spec(to) + "\""@
        + match ptype {
        Some(t) => " type=\""@ + t + "\""@,
        None => seq![],
    } + ">"@ + match show {
        Some(s) => "<show>"@ + s + "</show>"@,
        None => seq![],
    } + match status {
        Some(s) => "<status>"@ + escape_xml_spec(s) + "</status>"@,
        None => seq![],
    } + "</presence>"@
}

pub fn build_presence(
    from: &str,
    to: &str,
    ptype: Option<&str>,
    show: Option<&str>,
    status: Option<&str>,
) -> (r: String)
    ensures
        r@ == presence_xml(from@, to@, opt_view(ptype), opt_view(show), opt_view(status)),
{
    let f = escape_xml(from);
    let t = escape_xml(to);
    let mut xml = copy_str("<presence from=\"");
    xml.append(f.as_str());
    xml.append("\" to=\"");
    xml.append(t.as_str());
    xml.append("\"");
    match ptype {
        Some(p) => {
            xml.append(" type=\"");
            xml.append(p);
            xml.append("\"");
        },
        None => {},
    }
    xml.append(">");
    match show {
        Some(s) => {
            xml.append("<show>");
            xml.append(s);
            xml.append("</show>");
        },
        None => {},
    }
    match status {
        Some(s) => {
            let e = escape_xml(s);
            xml.append("<status>");
            xml.append(e.as_str());
            xml.append("</status>");
        },
        None => {},
    }
    xml.append("</presence>");
    xml
}


// ---------------------------------------------------------------------------
// Parsing
// ---------------------------------------------------------------------------

/// What `parse_stream_element` makes of one line of a stream.
#[derive(Debug)]
pub enum ParseResult {
    Stanza(Stanza),
    StreamOpen {
        xmlns: String,
        to: Option<String>,
        from: Option<String>,
        id: Option<String>,
        version: Option<String>,
    },
    StreamClose,
    Error(String),
    Incomplete,
}

/// The character sequences of a list of string pairs.
pub open spec fn pairs_view(a: Seq<(String, String)>) -> Seq<(Seq<char>, Seq<char>)> {
    a.map_values(|p: (String, String)| (p.0@, p.1@))
}

/// The character sequence of an optional string.
pub open spec fn opt_str_view(o: Option<String>) -> Option<Seq<char>> {
    match o {
        Some(s) => Some(s@),
        None => None,
    }
}

/// The position of the first pair from `i` on whose key is `k`.
pub open spec fn key_index_from(m: Seq<(Seq<char>, Seq<char>)>, k: Seq<char>, i: int) -> Option<int>
    decreases m.len() - i,
{
    if 0 <= i < m.len() {
        if m[i].0 == k {
            Some(i)
        } else {
            key_index_from(m, k, i + 1)
        }
    } else {
        None
    }
}

/// A map written as a list of pairs: `k` is given the value `v`, in place
/// when it is there already, else at the end.
pub open spec fn attrs_insert_spec(m: Seq<(Seq<char>, Seq<char>)>, k: Seq<char>, v: Seq<char>) -> Seq<
    (Seq<char>, Seq<char>),
> {
    match key_index_from(m, k, 0) {
        Some(i) => m.update(i, (k, v)),
        None => m.push((k, v)),
    }
}

/// The map that inserting each pair of `a` in order builds.
pub open spec fn attrs_map_spec(a: Seq<(Seq<char>, Seq<char>)>) -> Seq<(Seq<char>, Seq<char>)>
    decreases a.len(),
{
    if a.len() == 0 {
        seq![]
    } else {
        attrs_insert_spec(attrs_map_spec(a.drop_last()), a.last().0, a.last().1)
    }
}

/// The value of the last attribute of `a` named `xmlns`.
pub open spec fn last_xmlns(a: Seq<(Seq<char>, Seq<char>)>) -> Option<Seq<char>>
    decreases a.len(),
{
    if a.len() == 0 {
        None
    } else if a.last().0 == "xmlns"@ {
        Some(a.last().1)
    } else {
        last_xmlns(a.drop_last())
    }
}

/// A child node as stanza parsing produces it: an element without content, or text.
pub enum ParsedNode {
    Element { name: Seq<char>, attrs: Seq<(Seq<char>, Seq<char>)>, xmlns: Option<Seq<char>> },
    Text(Seq<char>),
}

/// Whether the child `c` is the parsed node `n`.
pub open spec fn node_is(c: StanzaChild, n: ParsedNode) -> bool {
    match c {
        StanzaChild::Element { name, attrs, children, text, xmlns } => match n {
            ParsedNode::Element { name: n2, attrs: a2, xmlns: x2 } => name@ == n2 && pairs_view(
                attrs@,
            ) == a2 && children@.len() == 0 && text is None && opt_str_view(xmlns) == x2,
            _ => false,
        },
        StanzaChild::Text(t) => match n {
            ParsedNode::Text(t2) => t@ == t2,
            _ => false,
        },
    }
}

/// Whether the children `cs` are the parsed nodes `ns`, one for one.
pub open spec fn children_match(cs: Seq<StanzaChild>, ns: Seq<ParsedNode>) -> bool {
    cs.len() == ns.len() && forall|i: int| 0 <= i < cs.len() ==> node_is(#[trigger] cs[i], ns[i])
}

/// The element child that a tag gives.
pub open spec fn tag_node(tag: XmlTag) -> ParsedNode {
    ParsedNode::Element {
        name: tag.name@,
        attrs: attrs_map_spec(pairs_view(tag.attrs@)),
        xmlns: last_xmlns(pairs_view(tag.attrs@)),
    }
}

/// The state of the walk over the events of a stanza.
pub struct FoldState {
    pub children: Seq<ParsedNode>,
    pub depth: nat,
    pub done: bool,
}

/// One event of the walk: nested start tags and all empty tags become
/// element children, non-blank text directly inside the root becomes a text
/// child, and the walk ends at the end of the root, at the end of input, or
/// at an error.
pub open spec fn fold_step(s: FoldState, e: XmlEvent) -> FoldState {
    match e {
        XmlEvent::Start(tag) => {
            let d: nat = if s.depth < u64::MAX {
                s.depth + 1
            } else {
                s.depth
            };
            FoldState {
                children: if d > 1 {
                    s.children.push(tag_node(tag))
                } else {
                    s.children
                },
                depth: d,
                done: false,
            }
        },
        XmlEvent::Empty(tag) => FoldState {
            children: s.children.push(tag_node(tag)),
            depth: s.depth,
            done: false,
        },
        XmlEvent::Text(t) => FoldState {
            children: if !all_white_space(t@) && s.depth == 1 {
                s.children.push(ParsedNode::Text(t@))
            } else {
                s.children
            },
            depth: s.depth,
            done: false,
        },
        XmlEvent::End => if s.depth == 0 {
            FoldState { children: s.children, depth: 0, done: true }
        } else {
            FoldState { children: s.children, depth: (s.depth - 1) as nat, done: s.depth == 1 }
        },
        XmlEvent::Eof => FoldState { children: s.children, depth: s.depth, done: true },
        XmlEvent::Error(_) => FoldState { children: s.children, depth: s.depth, done: true },
        XmlEvent::Other => s,
    }
}

/// The walk over a sequence of events; events after the end are ignored.
pub open spec fn fold_events(evs: Seq<XmlEvent>) -> FoldState
    decreases evs.len(),
{
    if evs.len() == 0 {
        FoldState { children: seq![], depth: 0, done: false }
    } else {
        let s = fold_events(evs.drop_last());
        if s.done {
            s
        } else {
            fold_step(s, evs.last())
        }
    }
}

/// The fields that the root's attributes fill in, and the other attributes.
pub struct RootFields {
    pub id: Option<Seq<char>>,
    pub from: Option<Seq<char>>,
    pub to: Option<Seq<char>>,
    pub stanza_type: Option<Seq<char>>,
    pub xmlns: Option<Seq<char>>,
    pub lang: Option<Seq<char>>,
    pub extra: Seq<(Seq<char>, Seq<char>)>,
}

/// The root's attributes read in order; a later one of the same name wins.
pub open spec fn root_fields(a: Seq<(Seq<char>, Seq<char>)>) -> RootFields
    decreases a.len(),
{
    if a.len() == 0 {
        RootFields {
            id: None,
            from: None,
            to: None,
            stanza_type: None,
            xmlns: None,
            lang: None,
            extra: seq![],
        }
    } else {
        let r = root_fields(a.drop_last());
        let k = a.last().0;
        let v = a.last().1;
        if k == "id"@ {
            RootFields { id: Some(v), ..r }
        } else if k == "from"@ {
            RootFields { from: Some(v), ..r }
        } else if k == "to"@ {
            RootFields { to: Some(v), ..r }
        } else if k == "type"@ {
            RootFields { stanza_type: Some(v), ..r }
        } else if k == "xmlns"@ {
            RootFields { xmlns: Some(v), ..r }
        } else if k == "xml:lang"@ {
            RootFields { lang: Some(v), ..r }
        } else {
            RootFields { extra: attrs_insert_spec(r.extra, k, v), ..r }
        }
    }
}

/// The kind of stanza an element name gives; unknown names count as `iq`.
pub open spec fn kind_of_name(n: Seq<char>) -> StanzaKind {
    if n == "message"@ {
        StanzaKind::Message
    } else if n == "presence"@ {
        StanzaKind::Presence
    } else {
        StanzaKind::Iq
    }
}

/// Whether `s` is the stanza that the root tag `root` and the events `evs`
/// (read from the start of `raw`) give.
pub open spec fn stanza_from_events_spec(
    s: Stanza,
    raw: Seq<char>,
    kind: StanzaKind,
    root: XmlTag,
    evs: Seq<XmlEvent>,
) -> bool {
    let rf = root_fields(pairs_view(root.attrs@));
    &&& s.name@ == root.name@
    &&& s.kind == kind
    &&& opt_str_view(s.id) == rf.id
    &&& opt_str_view(s.from) == rf.from
    &&& opt_str_view(s.to) == rf.to
    &&& opt_str_view(s.stanza_type) == rf.stanza_type
    &&& opt_str_view(s.xmlns) == rf.xmlns
    &&& opt_str_view(s.lang) == rf.lang
    &&& pairs_view(s.attrs@) == rf.extra
    &&& children_match(s.children@, fold_events(evs).children)
    &&& s.raw is Some && s.raw->0@ == raw
}

/// The header fields of a stream opening.
pub struct StreamHeader {
    pub xmlns: Seq<char>,
    pub to: Option<Seq<char>>,
    pub from: Option<Seq<char>>,
    pub id: Option<Seq<char>>,
    pub version: Option<Seq<char>>,
}

/// The attributes of a stream opening read in order; a later one of the same name wins.
pub open spec fn stream_header(a: Seq<(Seq<char>, Seq<char>)>) -> StreamHeader
    decreases a.len(),
{
    if a.len() == 0 {
        StreamHeader { xmlns: seq![], to: None, from: None, id: None, version: None }
    } else {
        let h = stream_header(a.drop_last());
        let k = a.last().0;
        let v = a.last().1;
        if k == "xmlns"@ {
            StreamHeader { xmlns: v, ..h }
        } else if k == "to"@ {
            StreamHeader { to: Some(v), ..h }
        } else if k == "from"@ {
            StreamHeader { from: Some(v), ..h }
        } else if k == "id"@ {
            StreamHeader { id: Some(v), ..h }
        } else if k == "version"@ {
            StreamHeader { version: Some(v), ..h }
        } else {
            h
        }
    }
}

/// Whether `r` is the stream opening that the first event `ev` gives: the
/// header of a start tag, or an empty header for any other event.
pub open spec fn stream_open_spec(r: ParseResult, ev: XmlEvent) -> bool {
    let a = match ev {
        XmlEvent::Start(tag) => pairs_view(tag.attrs@),
        _ => seq![],
    };
    let h = stream_header(a);
    match r {
        ParseResult::StreamOpen { xmlns, to, from, id, version } => xmlns@ == h.xmlns && opt_str_view(
            to,
        ) == h.to && opt_str_view(from) == h.from && opt_str_view(id) == h.id && opt_str_view(
            version,
        ) == h.version,
        _ => false,
    }
}

/// Whether the trimmed line `t` is a stream closing tag.
pub open spec fn is_stream_close_text(t: Seq<char>) -> bool {
    starts_with_spec(t, "</stream:stream"@) || starts_with_spec(t, "</stream"@)
}

/// Whether the trimmed line `t` starts like a stream opening.
pub open spec fn is_stream_open_text(t: Seq<char>) -> bool {
    starts_with_spec(t, "<stream:stream"@) || starts_with_spec(t, "<stream "@) || starts_with_spec(
        t,
        "<?xml"@,
    )
}

/// Whether the trimmed line `t` holds a stream opening tag.
pub open spec fn has_stream_tag(t: Seq<char>) -> bool {
    contains_spec(t, "<stream:stream"@) || contains_spec(t, "<stream "@)
}

/// Whether `r` is what `parse_stream_element` gives for the line `xml`
/// when the reader's first event is `ev0` and, for a stanza, a second
/// reader over the same text yields `evs`.
pub open spec fn parse_outcome(xml: Seq<char>, r: ParseResult, ev0: XmlEvent, evs: Seq<XmlEvent>) -> bool {
    let t = trim_spec(xml);
    if t.len() == 0 {
        r is Incomplete
    } else if is_stream_close_text(t) {
        r is StreamClose
    } else if is_stream_open_text(t) {
        if has_stream_tag(t) {
            stream_open_spec(r, ev0)
        } else {
            r is Incomplete
        }
    } else {
        match ev0 {
            XmlEvent::Start(tag) => r matches ParseResult::Stanza(s) && stanza_from_events_spec(
                s,
                t,
                kind_of_name(tag.name@),
                tag,
                evs,
            ),
            XmlEvent::Empty(tag) => r matches ParseResult::Stanza(s) && stanza_from_events_spec(
                s,
                t,
                kind_of_name(tag.name@),
                tag,
                evs,
            ),
            XmlEvent::Eof => r is Incomplete,
            XmlEvent::Error(m) => r matches ParseResult::Error(e) && e@ == "XML parse error: "@ + m@,
            _ => r is Incomplete,
        }
    }
}

pub fn key_index(m: &Vec<(String, String)>, k: &str) -> (r: Option<usize>)
    ensures
        r matches Some(j) ==> key_index_from(pairs_view(m@), k@, 0) == Some(j as int) && j < m@.len(),
        r is None ==> key_index_from(pairs_view(m@), k@, 0) is None,
{
    let mut i: usize = 0;
    while i < m.len()
        invariant
            i <= m.len(),
            key_index_from(pairs_view(m@), k@, 0) == key_index_from(pairs_view(m@), k@, i as int),
        decreases m.len() - i,
    {
        if str_eq(m[i].0.as_str(), k) {
            return Some(i);
        }
        i = i + 1;
    }
    None
}

/// Gives `k` the value `v` in a map kept as a list of pairs.
pub fn attrs_insert(m: &mut Vec<(String, String)>, k: String, v: String)
    ensures
        pairs_view(final(m)@) == attrs_insert_spec(pairs_view(old(m)@), k@, v@),
{
    match key_index(m, k.as_str()) {
        Some(i) => {
            let ghost kv = k@;
            let ghost vv = v@;
            assert(key_index_from(pairs_view(old(m)@), kv, 0) == Some(i as int));
            m.set(i, (k, v));
            assert(pairs_view(m@) =~= pairs_view(old(m)@).update(i as int, (kv, vv)));
        },
        None => {
            let ghost kv = k@;
            let ghost vv = v@;
            m.push((k, v));
            assert(pairs_view(m@) =~= pairs_view(old(m)@).push((kv, vv)));
        },
    }
}

fn copy_pair(p: &(String, String)) -> (r: (String, String))
    ensures
        r.0@ == p.0@,
        r.1@ == p.1@,
{
    (copy_str(p.0.as_str()), copy_str(p.1.as_str()))
}

/// The element child that a tag gives.
pub fn element_from_tag(tag: &XmlTag) -> (c: StanzaChild)
    ensures
        node_is(c, tag_node(*tag)),
{
    let ghost a = pairs_view(tag.attrs@);
    let mut attrs: Vec<(String, String)> = Vec::new();
    let mut xmlns: Option<String> = None;
    let mut i: usize = 0;
    while i < tag.attrs.len()
        invariant
            i <= tag.attrs.len(),
            a == pairs_view(tag.attrs@),
            pairs_view(attrs@) == attrs_map_spec(a.subrange(0, i as int)),
            opt_str_view(xmlns) == last_xmlns(a.subrange(0, i as int)),
        decreases tag.attrs.len() - i,
    {
        let (k, v) = copy_pair(&tag.attrs[i]);
        assert(a.subrange(0, i + 1).drop_last() =~= a.subrange(0, i as int));
        assert(a.subrange(0, i + 1).last() == a[i as int]);
        if str_eq(k.as_str(), "xmlns") {
            xmlns = Some(copy_str(v.as_str()));
        }
        attrs_insert(&mut attrs, k, v);
        i = i + 1;
    }
    assert(a.subrange(0, tag.attrs.len() as int) =~= a);
    StanzaChild::Element {
        name: copy_str(tag.name.as_str()),
        attrs,
        children: Vec::new(),
        text: None,
        xmlns,
    }
}

struct ChildFold {
    children: Vec<StanzaChild>,
    depth: u64,
    done: bool,
}

impl ChildFold {
    spec fn models(&self, s: FoldState) -> bool {
        children_match(self.children@, s.children) && self.depth == s.depth && self.done == s.done
    }

    fn step(&mut self, e: &XmlEvent)
        requires
            !old(self).done,
        ensures
            forall|s: FoldState| old(self).models(s) ==> final(self).models(fold_step(s, *e)),
    {
        let ghost old_children = self.children@;
        match e {
            XmlEvent::Start(tag) => {
                if self.depth < u64::MAX {
                    self.depth = self.depth + 1;
                }
                if self.depth > 1 {
                    let c = element_from_tag(tag);
                    self.children.push(c);
                }
            },
            XmlEvent::Empty(tag) => {
                let c = element_from_tag(tag);
                self.children.push(c);
            },
            XmlEvent::Text(t) => {
                let cs = chars_of(t.as_str());
                if !chars_all_white_space(cs.as_slice()) && self.depth == 1 {
                    self.children.push(StanzaChild::Text(copy_str(t.as_str())));
                }
            },
            XmlEvent::End => {
                if self.depth == 0 {
                    self.done = true;
                } else {
                    self.depth = self.depth - 1;
                    if self.depth == 0 {
                        self.done = true;
                    }
                }
            },
            XmlEvent::Eof => {
                self.done = true;
            },
            XmlEvent::Error(_) => {
                self.done = true;
            },
            XmlEvent::Other => {},
        }
        assert forall|s: FoldState| old(self).models(s) implies self.models(fold_step(s, *e)) by {
            let n = fold_step(s, *e);
            assert forall|i: int| 0 <= i < self.children@.len() implies node_is(
                #[trigger] self.children@[i],
                n.children[i],
            ) by {
                if i < old_children.len() {
                    assert(self.children@[i] == old_children[i]);
                    assert(node_is(old_children[i], s.children[i]));
                }
            }
        }
    }
}

/// The stanza that the root tag `root` and the events `events` give; the
/// events are those a reader yields from the start of `raw`, the root's
/// own start tag first.
pub fn stanza_from_events(raw: &str, kind: StanzaKind, root: &XmlTag, events: &Vec<XmlEvent>) -> (s: Stanza)
    ensures
        stanza_from_events_spec(s, raw@, kind, *root, events@),
{
    let mut fold = ChildFold { children: Vec::new(), depth: 0, done: false };
    let mut i: usize = 0;
    while i < events.len()
        invariant
            i <= events.len(),
            fold.models(fold_events(events@.subrange(0, i as int))),
        decreases events.len() - i,
    {
        let ghost pre = events@.subrange(0, i as int);
        assert(events@.subrange(0, i + 1).drop_last() =~= pre);
        if !fold.done {
            fold.step(&events[i]);
        }
        i = i + 1;
    }
    assert(events@.subrange(0, events.len() as int) =~= events@);
    stanza_with_children(raw, kind, root, fold.children)
}

fn stanza_with_children(raw: &str, kind: StanzaKind, root: &XmlTag, children: Vec<StanzaChild>) -> (s: Stanza)
    ensures
        s.name@ == root.name@,
        s.kind == kind,
        ({
            let rf = root_fields(pairs_view(root.attrs@));
            &&& opt_str_view(s.id) == rf.id
            &&& opt_str_view(s.from) == rf.from
            &&& opt_str_view(s.to) == rf.to
            &&& opt_str_view(s.stanza_type) == rf.stanza_type
            &&& opt_str_view(s.xmlns) == rf.xmlns
            &&& opt_str_view(s.lang) == rf.lang
            &&& pairs_view(s.attrs@) == rf.extra
        }),
        s.children@ == children@,
        s.raw is Some && s.raw->0@ == raw@,
{
    let mut stanza = Stanza::new(root.name.as_str(), kind);
    let ghost a = pairs_view(root.attrs@);
    let mut i: usize = 0;
    while i < root.attrs.len()
        invariant
            i <= root.attrs.len(),
            a == pairs_view(root.attrs@),
            stanza.name@ == root.name@,
            stanza.kind == kind,
            ({
                let rf = root_fields(a.subrange(0, i as int));
                &&& opt_str_view(stanza.id) == rf.id
                &&& opt_str_view(stanza.from) == rf.from
                &&& opt_str_view(stanza.to) == rf.to
                &&& opt_str_view(stanza.stanza_type) == rf.stanza_type
                &&& opt_str_view(stanza.xmlns) == rf.xmlns
                &&& opt_str_view(stanza.lang) == rf.lang
                &&& pairs_view(stanza.attrs@) == rf.extra
            }),
        decreases root.attrs.len() - i,
    {
        let (k, v) = copy_pair(&root.attrs[i]);
        assert(a.subrange(0, i + 1).drop_last() =~= a.subrange(0, i as int));
        assert(a.subrange(0, i + 1).last() == a[i as int]);
        if str_eq(k.as_str(), "id") {
            stanza.id = Some(v);
        } else if str_eq(k.as_str(), "from") {
            stanza.from = Some(v);
        } else if str_eq(k.as_str(), "to") {
            stanza.to = Some(v);
        } else if str_eq(k.as_str(), "type") {
            stanza.stanza_type = Some(v);
        } else if str_eq(k.as_str(), "xmlns") {
            stanza.xmlns = Some(v);
        } else if str_eq(k.as_str(), "xml:lang") {
            stanza.lang = Some(v);
        } else {
            attrs_insert(&mut stanza.attrs, k, v);
        }
        i = i + 1;
    }
    assert(a.subrange(0, root.attrs.len() as int) =~= a);
    stanza.children = children;
    stanza.raw = Some(copy_str(raw));
    stanza
}

/// Reads the events of a stanza from a fresh reader over `xml` (which
/// starts with the root's start tag) and builds the stanza. At most one
/// event per byte of input, and one more, is read.
/// Whether `evs` are the events that the reader gives on `t`, trimming
/// text, read until the walk over them ends, or one more than `t` has
/// characters when it never does.
pub open spec fn read_to_end(t: Seq<char>, evs: Seq<XmlEvent>) -> bool {
    &&& event_views(evs) == reader_events(t, true, evs.len())
    &&& evs.len() <= t.len() + 1
    &&& fold_events(evs).done || evs.len() == t.len() + 1
}

proof fn lemma_fold_by_views(a: Seq<XmlEvent>, b: Seq<XmlEvent>)
    requires
        event_views(a) == event_views(b),
    ensures
        fold_events(a) == fold_events(b),
    decreases a.len(),
{
    assert(a.len() == event_views(a).len() && b.len() == event_views(b).len());
    if a.len() > 0 {
        assert(event_views(a.drop_last()) =~= event_views(a).drop_last());
        assert(event_views(b.drop_last()) =~= event_views(b).drop_last());
        lemma_fold_by_views(a.drop_last(), b.drop_last());
        assert(event_view(a.last()) == event_views(a)[a.len() - 1]);
        assert(event_view(b.last()) == event_views(b)[b.len() - 1]);
        match a.last() {
            XmlEvent::Start(x) => {
                let y = b.last()->Start_0;
                assert(pairs_view(x.attrs@) == attr_pairs(x.attrs@));
                assert(pairs_view(y.attrs@) == attr_pairs(y.attrs@));
            },
            XmlEvent::Empty(x) => {
                let y = b.last()->Empty_0;
                assert(pairs_view(x.attrs@) == attr_pairs(x.attrs@));
                assert(pairs_view(y.attrs@) == attr_pairs(y.attrs@));
            },
            _ => {},
        }
    }
}

proof fn lemma_fold_stays_done(a: Seq<XmlEvent>, n: int)
    requires
        0 <= n <= a.len(),
        fold_events(a.subrange(0, n)).done,
    ensures
        fold_events(a) == fold_events(a.subrange(0, n)),
    decreases a.len() - n,
{
    if n < a.len() {
        let p = a.subrange(0, n + 1);
        assert(p.drop_last() =~= a.subrange(0, n));
        lemma_fold_stays_done_prefix(a, n + 1, n);
        lemma_fold_stays_done(a, n + 1);
    } else {
        assert(a.subrange(0, n) =~= a);
    }
}

proof fn lemma_fold_stays_done_prefix(a: Seq<XmlEvent>, m: int, n: int)
    requires
        0 <= n && m == n + 1 && m <= a.len(),
        fold_events(a.subrange(0, n)).done,
    ensures
        fold_events(a.subrange(0, m)) == fold_events(a.subrange(0, n)),
{
    assert(a.subrange(0, m).drop_last() =~= a.subrange(0, n));
}

proof fn lemma_read_to_end_ordered(t: Seq<char>, e1: Seq<XmlEvent>, e2: Seq<XmlEvent>)
    requires
        read_to_end(t, e1),
        read_to_end(t, e2),
        e1.len() <= e2.len(),
    ensures
        fold_events(e1) == fold_events(e2),
{
    let n = e1.len() as int;
    let p = e2.subrange(0, n);
    assert(event_views(p) =~= event_views(e1)) by {
        assert(event_views(e1) == reader_events(t, true, e1.len()));
        assert(event_views(e2) == reader_events(t, true, e2.len()));
        assert forall|i: int| 0 <= i < n implies event_views(p)[i] == event_views(e1)[i] by {
            assert(event_views(p)[i] == event_view(e2[i]));
            assert(event_views(e2)[i] == event_view(e2[i]));
            assert(event_views(e1)[i] == event_view(e1[i]));
        }
    }
    lemma_fold_by_views(p, e1);
    if fold_events(e1).done {
        lemma_fold_stays_done(e2, n);
    } else {
        assert(e1.len() == t.len() + 1);
        assert(e2.len() == e1.len());
        assert(p =~= e2);
    }
}

/// Two readings of the same text, each read until the walk over its events
/// ends, walk to the same children: what a stanza is parsed to does not
/// depend on which reading is taken.
pub proof fn law_read_to_end_determined(t: Seq<char>, e1: Seq<XmlEvent>, e2: Seq<XmlEvent>)
    requires
        read_to_end(t, e1),
        read_to_end(t, e2),
    ensures
        fold_events(e1) == fold_events(e2),
{
    if e1.len() <= e2.len() {
        lemma_read_to_end_ordered(t, e1, e2);
    } else {
        lemma_read_to_end_ordered(t, e2, e1);
    }
}

fn parse_stanza_from_events(xml: &str, kind: StanzaKind, root: &XmlTag) -> (s: Stanza)
    ensures
        exists|evs: Seq<XmlEvent>|
            stanza_from_events_spec(s, xml@, kind, *root, evs) && read_to_end(xml@, evs),
{
    let mut reader = EventReader::new(xml);
    reader.set_trim_text();
    let mut fold = ChildFold { children: Vec::new(), depth: 0, done: false };
    let ghost mut evs: Seq<XmlEvent> = seq![];
    let mut budget: usize = xml.unicode_len();
    loop
        invariant_except_break
            evs.len() + budget == xml@.len(),
        invariant
            fold.models(fold_events(evs)),
            reader.text() == xml@,
            reader.trims(),
            reader.count() == evs.len(),
            event_views(evs) == reader_events(xml@, true, evs.len()),
            evs.len() <= xml@.len() + 1,
        ensures
            fold.models(fold_events(evs)),
            event_views(evs) == reader_events(xml@, true, evs.len()),
            fold_events(evs).done || evs.len() == xml@.len() + 1,
        decreases budget,
    {
        if fold.done {
            break;
        }
        let e = reader.read_event();
        proof {
            assert(evs.push(e).drop_last() =~= evs);
            assert forall|i: int| 0 <= i < evs.len() + 1 implies #[trigger] event_views(evs.push(e))[i]
                == reader_events(xml@, true, evs.len() + 1)[i] by {
                if i < evs.len() {
                    assert(event_views(evs)[i] == reader_events(xml@, true, evs.len())[i]);
                }
            }
            assert(event_views(evs.push(e)) =~= reader_events(xml@, true, evs.len() + 1));
        }
        fold.step(&e);
        proof {
            evs = evs.push(e);
        }
        if budget == 0 {
            break;
        }
        budget = budget - 1;
    }
    let s = stanza_with_children(xml, kind, root, fold.children);
    assert(stanza_from_events_spec(s, xml@, kind, *root, evs));
    assert(read_to_end(xml@, evs));
    s
}

/// The stream opening that the first event of a stream gives.
pub fn stream_open_from_event(ev: &XmlEvent) -> (r: ParseResult)
    ensures
        stream_open_spec(r, *ev),
{
    let mut xmlns = String::new();
    let mut to: Option<String> = None;
    let mut from: Option<String> = None;
    let mut id: Option<String> = None;
    let mut version: Option<String> = None;
    match ev {
        XmlEvent::Start(tag) => {
            let ghost a = pairs_view(tag.attrs@);
            let mut i: usize = 0;
            while i < tag.attrs.len()
                invariant
                    i <= tag.attrs.len(),
                    a == pairs_view(tag.attrs@),
                    ({
                        let h = stream_header(a.subrange(0, i as int));
                        &&& xmlns@ == h.xmlns
                        &&& opt_str_view(to) == h.to
                        &&& opt_str_view(from) == h.from
                        &&& opt_str_view(id) == h.id
                        &&& opt_str_view(version) == h.version
                    }),
                decreases tag.attrs.len() - i,
            {
                let (k, v) = copy_pair(&tag.attrs[i]);
                assert(a.subrange(0, i + 1).drop_last() =~= a.subrange(0, i as int));
                assert(a.subrange(0, i + 1).last() == a[i as int]);
                if str_eq(k.as_str(), "xmlns") {
                    xmlns = v;
                } else if str_eq(k.as_str(), "to") {
                    to = Some(v);
                } else if str_eq(k.as_str(), "from") {
                    from = Some(v);
                } else if str_eq(k.as_str(), "id") {
                    id = Some(v);
                } else if str_eq(k.as_str(), "version") {
                    version = Some(v);
                }
                i = i + 1;
            }
            assert(a.subrange(0, tag.attrs.len() as int) =~= a);
        },
        _ => {},
    }
    ParseResult::StreamOpen { xmlns, to, from, id, version }
}

/// The kind of stanza an element name gives; unknown names count as `iq`.
pub fn kind_of(name: &str) -> (k: StanzaKind)
    ensures
        k == kind_of_name(name@),
{
    if str_eq(name, "message") {
        StanzaKind::Message
    } else if str_eq(name, "presence") {
        StanzaKind::Presence
    } else {
        StanzaKind::Iq
    }
}

/// Whether `ev0` and `evs` are what the readers of `parse_stream_element`
/// read over the trimmed line `t`: for a stream header, the first event of
/// a reader without `trim_text`; for anything else that is neither blank
/// nor a stream close, the first event of a reader with `trim_text`, and
/// the first events of another such reader.
pub open spec fn read_from_reader(t: Seq<char>, ev0: XmlEvent, evs: Seq<XmlEvent>) -> bool {
    &&& (t.len() > 0 && !is_stream_close_text(t) && is_stream_open_text(t) && has_stream_tag(t)
        ==> event_view(ev0) == cooked(xml_event_at(t, false, 0)))
    &&& (t.len() > 0 && !is_stream_close_text(t) && !is_stream_open_text(t) ==> {
        &&& event_view(ev0) == cooked(xml_event_at(t, true, 0))
        &&& (ev0 is Start || ev0 is Empty ==> read_to_end(t, evs))
    })
}

/// Parses one line of an XML stream: a stream opening or closing, a
/// stanza, a syntax error, or nothing yet.
pub fn parse_stream_element(xml: &str) -> (r: ParseResult)
    ensures
        exists|ev0: XmlEvent, evs: Seq<XmlEvent>|
            #![trigger parse_outcome(xml@, r, ev0, evs)]
            parse_outcome(xml@, r, ev0, evs) && read_from_reader(trim_spec(xml@), ev0, evs),
{
    let cs = chars_of(xml);
    let t = trim_chars(cs.as_slice());
    if t.len() == 0 {
        let ghost w = XmlEvent::Eof;
        assert(parse_outcome(xml@, ParseResult::Incomplete, w, seq![]));
        return ParseResult::Incomplete;
    }
    let close_a = chars_of("</stream:stream");
    let close_b = chars_of("</stream");
    if chars_start_with(t.as_slice(), close_a.as_slice()) || chars_start_with(t.as_slice(), close_b.as_slice()) {
        let ghost w = XmlEvent::Eof;
        assert(parse_outcome(xml@, ParseResult::StreamClose, w, seq![]));
        return ParseResult::StreamClose;
    }
    let open_a = chars_of("<stream:stream");
    let open_b = chars_of("<stream ");
    let open_c = chars_of("<?xml");
    let text = string_from_chars(t.as_slice());
    if chars_start_with(t.as_slice(), open_a.as_slice()) || chars_start_with(t.as_slice(), open_b.as_slice())
        || chars_start_with(t.as_slice(), open_c.as_slice()) {
        if chars_contain(t.as_slice(), open_a.as_slice()) || chars_contain(t.as_slice(), open_b.as_slice()) {
            let mut reader = EventReader::new(text.as_str());
            let ev = reader.read_event();
            let r = stream_open_from_event(&ev);
            assert(parse_outcome(xml@, r, ev, seq![]));
            assert(read_from_reader(t@, ev, seq![]));
            return r;
        }
        let ghost w = XmlEvent::Eof;
        assert(parse_outcome(xml@, ParseResult::Incomplete, w, seq![]));
        return ParseResult::Incomplete;
    }
    let mut reader = EventReader::new(text.as_str());
    reader.set_trim_text();
    let ev = reader.read_event();
    assert(event_view(ev) == cooked(xml_event_at(t@, true, 0)));
    match &ev {
        XmlEvent::Start(tag) => {
            let kind = kind_of(tag.name.as_str());
            let s = parse_stanza_from_events(text.as_str(), kind, tag);
            let ghost evs = choose|evs: Seq<XmlEvent>|
                stanza_from_events_spec(s, text@, kind, *tag, evs) && read_to_end(text@, evs);
            let r = ParseResult::Stanza(s);
            assert(parse_outcome(xml@, r, ev, evs));
            assert(read_from_reader(t@, ev, evs));
            r
        },
        XmlEvent::Empty(tag) => {
            let kind = kind_of(tag.name.as_str());
            let s = parse_stanza_from_events(text.as_str(), kind, tag);
            let ghost evs = choose|evs: Seq<XmlEvent>|
                stanza_from_events_spec(s, text@, kind, *tag, evs) && read_to_end(text@, evs);
            let r = ParseResult::Stanza(s);
            assert(parse_outcome(xml@, r, ev, evs));
            assert(read_from_reader(t@, ev, evs));
            r
        },
        XmlEvent::Error(m) => {
            let mut e = copy_str("XML parse error: ");
            e.append(m.as_str());
            let r = ParseResult::Error(e);
            assert(parse_outcome(xml@, r, ev, seq![]));
            assert(event_views(seq![]) =~= reader_events(t@, true, 0));
            assert(read_from_reader(t@, ev, seq![]));
            r
        },
        _ => {
            assert(parse_outcome(xml@, ParseResult::Incomplete, ev, seq![]));
            assert(event_views(seq![]) =~= reader_events(t@, true, 0));
            assert(read_from_reader(t@, ev, seq![]));
            ParseResult::Incomplete
        },
    }
}

// ---------------------------------------------------------------------------
// Element names
// ---------------------------------------------------------------------------

/// Whether `c` ends an element name: white space, `>` or `/`.
pub open spec fn ends_name(c: char) -> bool {
    unicode_white_space(c) || c == '>' || c == '/'
}

/// The position of the first character from `i` on that ends a name.
pub open spec fn name_end_from(s: Seq<char>, i: int) -> Option<int>
    decreases s.len() - i,
{
    if 0 <= i < s.len() {
        if ends_name(s[i]) {
            Some(i)
        } else {
            name_end_from(s, i + 1)
        }
    } else {
        None
    }
}

/// The name of the element that the trimmed text opens, if it opens one and
/// the name is followed by white space, `>` or `/`.
pub open spec fn stanza_name_spec(xml: Seq<char>) -> Option<Seq<char>> {
    let t = trim_spec(xml);
    if t.len() > 0 && t[0] == '<' {
        let rest = t.drop_first();
        match name_end_from(rest, 0) {
            Some(k) => Some(rest.subrange(0, k)),
            None => None,
        }
    } else {
        None
    }
}

pub fn extract_stanza_name(xml: &str) -> (r: Option<String>)
    ensures
        opt_str_view(r) == stanza_name_spec(xml@),
{
    let cs = chars_of(xml);
    let t = trim_chars(cs.as_slice());
    if t.len() == 0 || t[0] != '<' {
        return None;
    }
    let ghost rest = t@.drop_first();
    let mut i: usize = 1;
    while i < t.len()
        invariant
            1 <= i <= t.len(),
            t@ == trim_spec(xml@),
            t@[0] == '<',
            rest == t@.drop_first(),
            name_end_from(rest, 0) == name_end_from(rest, i - 1),
        decreases t.len() - i,
    {
        let c = t[i];
        if is_whitespace(c) || c == '>' || c == '/' {
            assert(rest[i - 1] == t@[i as int]);
            assert(name_end_from(rest, i - 1) == Some(i - 1));
            let mut out: Vec<char> = Vec::new();
            let mut j: usize = 1;
            while j < i
                invariant
                    1 <= j <= i < t.len(),
                    out@ == t@.subrange(1, j as int),
                decreases i - j,
            {
                out.push(t[j]);
                assert(t@.subrange(1, j + 1) =~= t@.subrange(1, j as int).push(t@[j as int]));
                j = j + 1;
            }
            assert(rest.subrange(0, i - 1) =~= t@.subrange(1, i as int));
            let name = string_from_chars(out.as_slice());
            assert(opt_str_view(Some(name)) == Some(rest.subrange(0, i - 1)));
            return Some(name);
        }
        i = i + 1;
    }
    None
}

} // verus!

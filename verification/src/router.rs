//! Delivery of stanzas to the sessions of connected clients.

use vstd::prelude::*;
use tokio::sync::mpsc::UnboundedSender;
use crate::channel::ClientTable;
use crate::roster::{
    assoc_distinct, assoc_get, assoc_remove, assoc_set, key_pos, law_assoc_remove_get, lemma_assoc_set_distinct,
    lemma_key_pos_found, lemma_key_pos_none, lemma_key_pos_some,
};
use crate::channel::send_error_text;
use crate::text::{chars_of, copy_str, str_eq};

verus! {

broadcast use vstd::string::group_string_axioms;

/// The part of a JID before its first `/`, or all of it.
pub open spec fn bare_jid(s: Seq<char>) -> Seq<char> {
    match slash_pos(s, 0) {
        Some(k) => s.subrange(0, k),
        None => s,
    }
}

/// The position of the first `/` from `i` on.
pub open spec fn slash_pos(s: Seq<char>, i: int) -> Option<int>
    decreases s.len() - i,
{
    if 0 <= i < s.len() {
        if s[i] == '/' {
            Some(i)
        } else {
            slash_pos(s, i + 1)
        }
    } else {
        None
    }
}

/// The position of the first key from `i` on whose bare JID is `bare`.
pub open spec fn bare_pos(keys: Seq<Seq<char>>, bare: Seq<char>, i: int) -> Option<int>
    decreases keys.len() - i,
{
    if 0 <= i < keys.len() {
        if bare_jid(keys[i]) == bare {
            Some(i)
        } else {
            bare_pos(keys, bare, i + 1)
        }
    } else {
        None
    }
}

/// The registered session that a stanza to `to` goes to: the one
/// registered under `to` itself, else the first whose bare JID is that of `to`.
pub open spec fn route_target(clients: Seq<(Seq<char>, UnboundedSender<String>)>, to: Seq<char>) -> Option<int> {
    match key_pos(clients, to, 0) {
        Some(i) => Some(i),
        None => bare_pos(clients.map_values(|e: (Seq<char>, UnboundedSender<String>)| e.0), bare_jid(to), 0),
    }
}

/// A stanza to a full JID goes to the session last registered under it.
pub proof fn law_route_after_register(
    clients: Seq<(Seq<char>, UnboundedSender<String>)>,
    jid: Seq<char>,
    h: UnboundedSender<String>,
)
    ensures
        route_target(assoc_set(clients, jid, h), jid) matches Some(i) && assoc_set(clients, jid, h)[i] == (jid, h),
{
    let m = assoc_set(clients, jid, h);
    match key_pos(clients, jid, 0) {
        Some(i) => {
            lemma_key_pos_some(clients, jid, 0, i);
            lemma_key_pos_found(m, jid, 0, i);
        },
        None => {
            lemma_key_pos_none(clients, jid, 0);
            lemma_key_pos_found(m, jid, 0, clients.len() as int);
        },
    }
}

/// Once unregistered, a full JID has no session of its own; a stanza to
/// it can only reach another session of the same bare JID.
pub proof fn law_no_route_after_unregister(clients: Seq<(Seq<char>, UnboundedSender<String>)>, jid: Seq<char>)
    requires
        assoc_distinct(clients),
    ensures
        key_pos(assoc_remove(clients, jid), jid, 0) is None,
        route_target(assoc_remove(clients, jid), jid) == bare_pos(
            assoc_remove(clients, jid).map_values(|e: (Seq<char>, UnboundedSender<String>)| e.0),
            bare_jid(jid),
            0,
        ),
{
    law_assoc_remove_get(clients, jid);
}

/// The bare JID of `s`.
pub fn bare_of(s: &str) -> (r: Vec<char>)
    ensures
        r@ == bare_jid(s@),
{
    let cs = chars_of(s);
    let mut i: usize = 0;
    while i < cs.len()
        invariant
            i <= cs.len(),
            cs@ == s@,
            slash_pos(cs@, 0) == slash_pos(cs@, i as int),
        decreases cs.len() - i,
    {
        if cs[i] == '/' {
            let mut r: Vec<char> = Vec::new();
            let mut j: usize = 0;
            while j < i
                invariant
                    j <= i < cs.len(),
                    r@ == cs@.subrange(0, j as int),
                decreases i - j,
            {
                r.push(cs[j]);
                assert(cs@.subrange(0, j + 1) =~= cs@.subrange(0, j as int).push(cs@[j as int]));
                j = j + 1;
            }
            return r;
        }
        i = i + 1;
    }
    cs
}

/// The queues of the sessions that a broadcast leaving out `exclude` goes
/// to, in the order of the sessions.
pub open spec fn broadcast_queues(
    clients: Seq<(Seq<char>, UnboundedSender<String>)>,
    exclude: Option<Seq<char>>,
) -> Seq<UnboundedSender<String>>
    decreases clients.len(),
{
    if clients.len() == 0 {
        seq![]
    } else if exclude == Some(clients.last().0) {
        broadcast_queues(clients.drop_last(), exclude)
    } else {
        broadcast_queues(clients.drop_last(), exclude).push(clients.last().1)
    }
}

/// How many of the stanzas handed to queues were queued.
pub open spec fn queued_count(ds: Seq<(UnboundedSender<String>, Seq<char>, bool)>) -> nat
    decreases ds.len(),
{
    if ds.len() == 0 {
        0
    } else {
        queued_count(ds.drop_last()) + if ds.last().2 {
            1nat
        } else {
            0nat
        }
    }
}

/// Whether `ds` hands `stanza` to each of `queues`, once each, in order.
pub open spec fn hands_each(
    ds: Seq<(UnboundedSender<String>, Seq<char>, bool)>,
    queues: Seq<UnboundedSender<String>>,
    stanza: Seq<char>,
) -> bool {
    &&& ds.len() == queues.len()
    &&& forall|i: int| 0 <= i < ds.len() ==> (#[trigger] ds[i]).0 == queues[i] && ds[i].1 == stanza
}

/// The stanzas handed to queues after the first `n`.
pub open spec fn handed_since(ds: Seq<(UnboundedSender<String>, Seq<char>, bool)>, n: nat) -> Seq<
    (UnboundedSender<String>, Seq<char>, bool),
> {
    ds.subrange(n as int, ds.len() as int)
}

/// A request made of the router, as its log keeps it.
pub enum RouterOp {
    /// A stanza routed from `from` to `to`; `delivered` tells whether it was queued.
    Route { from: Seq<char>, to: Seq<char>, stanza: Seq<char>, delivered: bool },
    /// A stanza sent to all sessions but `exclude`; `count` were queued.
    Broadcast { stanza: Seq<char>, exclude: Option<Seq<char>>, count: nat },
}

/// The sessions of connected clients, keyed by full JID, with a ghost log
/// of the requests made of the router.
pub struct Router {
    clients: ClientTable,
    log: Ghost<Seq<RouterOp>>,
}

impl Router {
    /// The registered sessions, keyed by full JID.
    pub closed spec fn clients_view(&self) -> Seq<(Seq<char>, UnboundedSender<String>)> {
        self.clients.entries_view()
    }

    /// The stanzas handed to the sessions' queues so far: each with its
    /// queue and whether it was queued.
    pub closed spec fn deliveries(&self) -> Seq<(UnboundedSender<String>, Seq<char>, bool)> {
        self.clients.deliveries()
    }

    /// The requests made of the router so far.
    pub closed spec fn ops(&self) -> Seq<RouterOp> {
        self.log@
    }

    pub open spec fn wf(&self) -> bool {
        assoc_distinct(self.clients_view())
    }

    pub fn new() -> (r: Router)
        ensures
            r.wf(),
            r.clients_view().len() == 0,
            r.deliveries().len() == 0,
            r.ops().len() == 0,
    {
        Router { clients: ClientTable::new(), log: Ghost(Seq::empty()) }
    }

    fn find_client(&self, jid: &str) -> (r: Option<usize>)
        ensures
            r matches Some(j) ==> key_pos(self.clients_view(), jid@, 0) == Some(j as int) && j
                < self.clients_view().len(),
            r is None ==> key_pos(self.clients_view(), jid@, 0) is None,
    {
        let ghost m = self.clients_view();
        let n = self.clients.len();
        let mut i: usize = 0;
        while i < n
            invariant
                i <= n,
                n == m.len(),
                m == self.clients_view(),
                key_pos(m, jid@, 0) == key_pos(m, jid@, i as int),
            decreases n - i,
        {
            if str_eq(self.clients.key(i), jid) {
                return Some(i);
            }
            i = i + 1;
        }
        None
    }

    /// Registers the session of a full JID, in place of any session registered under it.
    pub fn register(&mut self, jid: &str, sender: UnboundedSender<String>)
        requires
            old(self).wf(),
        ensures
            final(self).wf(),
            final(self).clients_view() == assoc_set(old(self).clients_view(), jid@, sender),
            final(self).deliveries() == old(self).deliveries(),
            final(self).ops() == old(self).ops(),
    {
        let ghost m = self.clients_view();
        let ghost sv = sender;
        match self.find_client(jid) {
            Some(i) => {
                self.clients.set(i, copy_str(jid), sender);
            },
            None => {
                self.clients.push(copy_str(jid), sender);
            },
        }
        proof {
            lemma_assoc_set_distinct(m, jid@, sv);
        }
    }

    /// Forgets the session registered under a full JID.
    pub fn unregister(&mut self, jid: &str)
        requires
            old(self).wf(),
        ensures
            final(self).wf(),
            final(self).clients_view() == assoc_remove(old(self).clients_view(), jid@),
            final(self).deliveries() == old(self).deliveries(),
            final(self).ops() == old(self).ops(),
    {
        let ghost m = self.clients_view();
        match self.find_client(jid) {
            Some(i) => {
                self.clients.remove(i);
            },
            None => {},
        }
        proof {
            law_assoc_remove_get(m, jid@);
        }
    }

    /// Whether some session is registered under the full JID.
    pub fn is_registered(&self, jid: &str) -> (r: bool)
        ensures
            r == key_pos(self.clients_view(), jid@, 0) is Some,
    {
        self.find_client(jid).is_some()
    }

    /// Sends a stanza to the session that `route_target` picks for `to`:
    /// the stanza is handed to that session's queue, and the answer is
    /// `Ok(true)` once it is queued, the channel's error when that session
    /// is gone, and an error naming `to`, with nothing sent, when no
    /// session fits.
    pub fn route(&mut self, from: &str, to: &str, stanza: &str) -> (r: Result<bool, String>)
        ensures
            final(self).wf() == old(self).wf(),
            final(self).clients_view() == old(self).clients_view(),
            final(self).ops() == old(self).ops().push(
                RouterOp::Route { from: from@, to: to@, stanza: stanza@, delivered: r is Ok },
            ),
            match route_target(old(self).clients_view(), to@) {
                None => {
                    &&& r matches Err(e) && e@ == "No route found for JID: "@ + to@
                    &&& final(self).deliveries() == old(self).deliveries()
                },
                Some(i) => {
                    &&& r == Ok::<bool, String>(true) || (r matches Err(e) && e@ == "channel closed"@)
                    &&& final(self).deliveries() == old(self).deliveries().push(
                        (old(self).clients_view()[i].1, stanza@, r is Ok),
                    )
                },
            },
    {
        let ghost m = self.clients_view();
        let ghost keys = m.map_values(|e: (Seq<char>, UnboundedSender<String>)| e.0);
        let n = self.clients.len();
        let target = match self.find_client(to) {
            Some(i) => Some(i),
            None => {
                let tb = bare_of(to);
                let mut found: Option<usize> = None;
                let mut i: usize = 0;
                while i < n
                    invariant
                        i <= n,
                        n == m.len(),
                        m == self.clients_view(),
                        keys == m.map_values(|e: (Seq<char>, UnboundedSender<String>)| e.0),
                        tb@ == bare_jid(to@),
                        found is None ==> bare_pos(keys, tb@, 0) == bare_pos(keys, tb@, i as int),
                        found matches Some(q) ==> bare_pos(keys, tb@, 0) == Some(q as int) && q < n,
                    decreases n - i,
                {
                    if found.is_none() {
                        let kb = bare_of(self.clients.key(i));
                        if crate::text::chars_eq(kb.as_slice(), tb.as_slice()) {
                            found = Some(i);
                        }
                    }
                    i = i + 1;
                }
                found
            },
        };
        let r = match target {
            Some(i) => {
                let msg = copy_str(stanza);
                match self.clients.send_to(i, msg) {
                    Ok(()) => Ok(true),
                    Err(e) => Err(send_error_text(&e)),
                }
            },
            None => {
                let mut e = copy_str("No route found for JID: ");
                e.append(to);
                Err(e)
            },
        };
        proof {
            self.log@ = self.log@.push(RouterOp::Route { from: from@, to: to@, stanza: stanza@, delivered: r is Ok });
        }
        r
    }

    /// Sends a stanza to every session but the one registered under
    /// `exclude`: each of their queues is handed the stanza once, in the
    /// order of the sessions, and the answer counts those that queued it.
    pub fn broadcast(&mut self, stanza: &str, exclude: Option<&str>) -> (r: usize)
        ensures
            final(self).wf() == old(self).wf(),
            final(self).clients_view() == old(self).clients_view(),
            final(self).ops() == old(self).ops().push(
                RouterOp::Broadcast {
                    stanza: stanza@,
                    exclude: match exclude {
                        Some(x) => Some(x@),
                        None => None,
                    },
                    count: r as nat,
                },
            ),
            final(self).deliveries().len() >= old(self).deliveries().len(),
            final(self).deliveries().subrange(0, old(self).deliveries().len() as int) == old(self).deliveries(),
            hands_each(
                handed_since(final(self).deliveries(), old(self).deliveries().len()),
                broadcast_queues(
                    old(self).clients_view(),
                    match exclude {
                        Some(x) => Some(x@),
                        None => None,
                    },
                ),
                stanza@,
            ),
            r as nat == queued_count(handed_since(final(self).deliveries(), old(self).deliveries().len())),
    {
        let ghost ex = match exclude {
            Some(x) => Some(x@),
            None => None::<Seq<char>>,
        };
        let ghost m = self.clients_view();
        let ghost d0 = self.deliveries();
        let n = self.clients.len();
        let mut count: usize = 0;
        let mut i: usize = 0;
        while i < n
            invariant
                i <= n,
                n == m.len(),
                m == self.clients_view(),
                ex == match exclude {
                    Some(x) => Some(x@),
                    None => None::<Seq<char>>,
                },
                d0 == old(self).deliveries(),
                self.ops() == old(self).ops(),
                self.deliveries().len() >= d0.len(),
                self.deliveries().subrange(0, d0.len() as int) == d0,
                hands_each(
                    handed_since(self.deliveries(), d0.len()),
                    broadcast_queues(m.subrange(0, i as int), ex),
                    stanza@,
                ),
                count as nat == queued_count(handed_since(self.deliveries(), d0.len())),
                count <= i,
            decreases n - i,
        {
            assert(m.subrange(0, i + 1).drop_last() =~= m.subrange(0, i as int));
            assert(m.subrange(0, i + 1).last() == m[i as int]);
            let skip = match exclude {
                Some(x) => str_eq(self.clients.key(i), x),
                None => false,
            };
            if !skip {
                let ghost before = self.deliveries();
                let sent = self.clients.send_to(i, copy_str(stanza));
                let ghost after = self.deliveries();
                assert(after.subrange(0, d0.len() as int) =~= before.subrange(0, d0.len() as int));
                assert(handed_since(after, d0.len()) =~= handed_since(before, d0.len()).push(after.last()));
                assert(handed_since(after, d0.len()).drop_last() =~= handed_since(before, d0.len()));
                match sent {
                    Ok(()) => {
                        count = count + 1;
                    },
                    Err(_) => {},
                }
            }
            i = i + 1;
        }
        assert(m.subrange(0, n as int) =~= m);
        proof {
            self.log@ = self.log@.push(
                RouterOp::Broadcast {
                    stanza: stanza@,
                    exclude: match exclude {
                        Some(x) => Some(x@),
                        None => None,
                    },
                    count: count as nat,
                },
            );
        }
        count
    }
}

} // verus!

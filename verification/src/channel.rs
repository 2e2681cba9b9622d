//! The queues that carry stanzas to clients: the queue of one client
//! session, and the table of registered sessions that the router sends on.
//! Each keeps a ghost log of what was handed to a queue, which only the
//! sending calls write.

use vstd::prelude::*;
use tokio::sync::mpsc::error::SendError;
use tokio::sync::mpsc::UnboundedSender;

verus! {

broadcast use vstd::string::group_string_axioms;

#[verifier::external_type_specification]
#[verifier::external_body]
#[verifier::reject_recursive_types(T)]
pub struct ExUnboundedSender<T>(UnboundedSender<T>);

#[verifier::external_type_specification]
#[verifier::external_body]
#[verifier::reject_recursive_types(T)]
pub struct ExSendError<T>(SendError<T>);

/// Calls `ToString::to_string` on a `SendError`, whose `Display` writes
/// `channel closed`, as tokio's source shows.
#[verifier::external_body]
pub(crate) fn send_error_text(e: &SendError<String>) -> (r: String)
    ensures
        r@ == "channel closed"@,
{
    e.to_string()
}

/// Calls `UnboundedSender::clone`. In tokio's source the clone is a new
/// handle on the same shared channel (its one field, a `chan::Tx`, clones
/// the channel's `Arc` and counts one more sender), so the handle is taken
/// as the same value, as vstd takes a cloned `Arc`; the sender count is
/// left unsaid.
#[verifier::external_body]
pub(crate) fn sender_clone(s: &UnboundedSender<String>) -> (r: UnboundedSender<String>)
    ensures
        r == *s,
{
    s.clone()
}

/// The queue of stanzas to write to one client, with a ghost log of what
/// was handed to it and whether it was queued.
pub struct Link {
    sender: UnboundedSender<String>,
    log: Ghost<Seq<(Seq<char>, bool)>>,
}

impl Link {
    pub fn new(sender: UnboundedSender<String>) -> (r: Link)
        ensures
            r.sent().len() == 0,
            r.channel() == sender,
    {
        Link { sender, log: Ghost(Seq::empty()) }
    }

    /// What was handed to the queue so far, each with whether it was queued.
    pub closed spec fn sent(&self) -> Seq<(Seq<char>, bool)> {
        self.log@
    }

    /// The sending side of the client's queue.
    pub closed spec fn channel(&self) -> UnboundedSender<String> {
        self.sender
    }

    /// Another handle on the client's queue, for the router.
    pub(crate) fn handle(&self) -> (r: UnboundedSender<String>)
        ensures
            r == self.channel(),
    {
        sender_clone(&self.sender)
    }

    /// Calls `UnboundedSender::send` on the client's queue, which queues the
    /// message unless the receiving side is closed; the log records the
    /// message and whether it was queued. Whether it succeeds depends on
    /// the receiver, which is not modelled.
    #[verifier::external_body]
    pub(crate) fn send(&mut self, m: String) -> (r: Result<(), SendError<String>>)
        ensures
            final(self).sent() == old(self).sent().push((m@, r is Ok)),
            final(self).channel() == old(self).channel(),
    {
        self.sender.send(m)
    }
}

/// The registered sessions, keyed by full JID, with a ghost log of the
/// stanzas handed to their queues.
pub struct ClientTable {
    entries: Vec<(String, UnboundedSender<String>)>,
    sends: Ghost<Seq<(UnboundedSender<String>, Seq<char>, bool)>>,
}

impl ClientTable {
    /// The sessions, keyed by full JID, in the order they were added.
    pub closed spec fn entries_view(&self) -> Seq<(Seq<char>, UnboundedSender<String>)> {
        self.entries@.map_values(|e: (String, UnboundedSender<String>)| (e.0@, e.1))
    }

    /// The stanzas handed to the sessions' queues so far.
    pub closed spec fn deliveries(&self) -> Seq<(UnboundedSender<String>, Seq<char>, bool)> {
        self.sends@
    }

    pub(crate) fn new() -> (r: ClientTable)
        ensures
            r.entries_view().len() == 0,
            r.deliveries().len() == 0,
    {
        let r = ClientTable { entries: Vec::new(), sends: Ghost(Seq::empty()) };
        assert(r.entries_view() =~= seq![]);
        r
    }

    pub(crate) fn len(&self) -> (n: usize)
        ensures
            n == self.entries_view().len(),
    {
        self.entries.len()
    }

    /// The full JID of entry `i`.
    pub(crate) fn key(&self, i: usize) -> (k: &str)
        requires
            i < self.entries_view().len(),
        ensures
            k@ == self.entries_view()[i as int].0,
    {
        self.entries[i].0.as_str()
    }

    /// Puts a session in place of entry `i`.
    pub(crate) fn set(&mut self, i: usize, jid: String, s: UnboundedSender<String>)
        requires
            i < old(self).entries_view().len(),
        ensures
            final(self).entries_view() == old(self).entries_view().update(i as int, (jid@, s)),
            final(self).deliveries() == old(self).deliveries(),
    {
        let ghost m = self.entries_view();
        let ghost jv = jid@;
        self.entries.set(i, (jid, s));
        assert(self.entries_view() =~= m.update(i as int, (jv, s)));
    }

    /// Adds a session at the end.
    pub(crate) fn push(&mut self, jid: String, s: UnboundedSender<String>)
        ensures
            final(self).entries_view() == old(self).entries_view().push((jid@, s)),
            final(self).deliveries() == old(self).deliveries(),
    {
        let ghost m = self.entries_view();
        let ghost jv = jid@;
        self.entries.push((jid, s));
        assert(self.entries_view() =~= m.push((jv, s)));
    }

    /// Removes entry `i`.
    pub(crate) fn remove(&mut self, i: usize)
        requires
            i < old(self).entries_view().len(),
        ensures
            final(self).entries_view() == old(self).entries_view().remove(i as int),
            final(self).deliveries() == old(self).deliveries(),
    {
        let ghost m = self.entries_view();
        self.entries.remove(i);
        assert(self.entries_view() =~= m.remove(i as int));
    }

    /// Calls `UnboundedSender::send` on the queue of entry `i`, which queues
    /// the message unless the receiving side is closed; the log records the
    /// queue, the message and whether it was queued. Whether it succeeds
    /// depends on the receiver, which is not modelled.
    #[verifier::external_body]
    pub(crate) fn send_to(&mut self, i: usize, m: String) -> (r: Result<(), SendError<String>>)
        requires
            i < old(self).entries_view().len(),
        ensures
            final(self).entries_view() == old(self).entries_view(),
            final(self).deliveries() == old(self).deliveries().push(
                (old(self).entries_view()[i as int].1, m@, r is Ok),
            ),
    {
        self.entries[i].1.send(m)
    }
}

} // verus!

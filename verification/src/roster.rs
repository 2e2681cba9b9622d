//! Contact lists and presence of the users of the server.

use vstd::prelude::*;
use crate::text::{copy_opt, copy_str, str_eq};

verus! {

broadcast use vstd::string::group_string_axioms;

/// One contact of a user's roster.
#[derive(Debug)]
pub struct RosterItem {
    pub jid: String,
    pub name: Option<String>,
    pub subscription: SubscriptionState,
    pub groups: Vec<String>,
}

#[derive(Debug, Clone, Copy, PartialEq, Eq)]
pub enum SubscriptionState {
    NoSubscription,
    To,
    From,
    Both,
    PendingOut,
    PendingIn,
}

/// The presence of one resource of a user.
#[derive(Debug)]
pub struct PresenceInfo {
    pub jid: String,
    pub resource: String,
    pub priority: i32,
    pub show: Option<String>,
    pub status: Option<String>,
    pub available: bool,
}

pub struct RosterItemView {
    pub jid: Seq<char>,
    pub name: Option<Seq<char>>,
    pub subscription: SubscriptionState,
    pub groups: Seq<Seq<char>>,
}

pub struct PresenceView {
    pub jid: Seq<char>,
    pub resource: Seq<char>,
    pub priority: i32,
    pub show: Option<Seq<char>>,
    pub status: Option<Seq<char>>,
    pub available: bool,
}

pub open spec fn ov(o: Option<String>) -> Option<Seq<char>> {
    match o {
        Some(s) => Some(s@),
        None => None,
    }
}

impl View for RosterItem {
    type V = RosterItemView;

    open spec fn view(&self) -> RosterItemView {
        RosterItemView {
            jid: self.jid@,
            name: ov(self.name),
            subscription: self.subscription,
            groups: strings_view(self.groups@),
        }
    }
}

impl View for PresenceInfo {
    type V = PresenceView;

    open spec fn view(&self) -> PresenceView {
        PresenceView {
            jid: self.jid@,
            resource: self.resource@,
            priority: self.priority,
            show: ov(self.show),
            status: ov(self.status),
            available: self.available,
        }
    }
}

/// The character sequences of a list of strings.
pub open spec fn strings_view(v: Seq<String>) -> Seq<Seq<char>> {
    v.map_values(|g: String| g@)
}

fn copy_strings(v: &Vec<String>) -> (r: Vec<String>)
    ensures
        strings_view(r@) == strings_view(v@),
{
    let mut r: Vec<String> = Vec::new();
    let mut i: usize = 0;
    while i < v.len()
        invariant
            i <= v.len(),
            r@.len() == i,
            forall|k: int| 0 <= k < i ==> r@[k]@ == v@[k]@,
        decreases v.len() - i,
    {
        r.push(copy_str(v[i].as_str()));
        i = i + 1;
    }
    assert(strings_view(r@) =~= strings_view(v@));
    r
}

impl RosterItem {
    pub fn copy(&self) -> (r: RosterItem)
        ensures
            r@ == self@,
    {
        RosterItem {
            jid: copy_str(self.jid.as_str()),
            name: copy_opt(&self.name),
            subscription: self.subscription,
            groups: copy_strings(&self.groups),
        }
    }
}

impl PresenceInfo {
    pub fn copy(&self) -> (r: PresenceInfo)
        ensures
            r@ == self@,
    {
        PresenceInfo {
            jid: copy_str(self.jid.as_str()),
            resource: copy_str(self.resource.as_str()),
            priority: self.priority,
            show: copy_opt(&self.show),
            status: copy_opt(&self.status),
            available: self.available,
        }
    }
}

// ---------------------------------------------------------------------------
// Keyed lists
// ---------------------------------------------------------------------------

/// The position of the first entry from `i` on whose key is `k`.
pub open spec fn key_pos<V>(m: Seq<(Seq<char>, V)>, k: Seq<char>, i: int) -> Option<int>
    decreases m.len() - i,
{
    if 0 <= i < m.len() {
        if m[i].0 == k {
            Some(i)
        } else {
            key_pos(m, k, i + 1)
        }
    } else {
        None
    }
}

/// The value kept under `k`.
pub open spec fn assoc_get<V>(m: Seq<(Seq<char>, V)>, k: Seq<char>) -> Option<V> {
    match key_pos(m, k, 0) {
        Some(i) => Some(m[i].1),
        None => None,
    }
}

/// `m` with `v` kept under `k`, in place of any value kept under it.
pub open spec fn assoc_set<V>(m: Seq<(Seq<char>, V)>, k: Seq<char>, v: V) -> Seq<(Seq<char>, V)> {
    match key_pos(m, k, 0) {
        Some(i) => m.update(i, (k, v)),
        None => m.push((k, v)),
    }
}

/// `m` without the entry kept under `k`.
pub open spec fn assoc_remove<V>(m: Seq<(Seq<char>, V)>, k: Seq<char>) -> Seq<(Seq<char>, V)> {
    match key_pos(m, k, 0) {
        Some(i) => m.remove(i),
        None => m,
    }
}

/// No two entries share a key.
pub open spec fn assoc_distinct<V>(m: Seq<(Seq<char>, V)>) -> bool {
    forall|i: int, j: int| 0 <= i < j < m.len() ==> m[i].0 != m[j].0
}

pub proof fn lemma_key_pos_some<V>(m: Seq<(Seq<char>, V)>, k: Seq<char>, i: int, j: int)
    requires
        0 <= i,
        key_pos(m, k, i) == Some(j),
    ensures
        i <= j < m.len(),
        m[j].0 == k,
        forall|l: int| i <= l < j ==> m[l].0 != k,
    decreases m.len() - i,
{
    if i < m.len() && m[i].0 != k {
        lemma_key_pos_some(m, k, i + 1, j);
    }
}

pub proof fn lemma_key_pos_none<V>(m: Seq<(Seq<char>, V)>, k: Seq<char>, i: int)
    requires
        0 <= i,
        key_pos(m, k, i) is None,
    ensures
        forall|l: int| i <= l < m.len() ==> m[l].0 != k,
    decreases m.len() - i,
{
    if i < m.len() {
        lemma_key_pos_none(m, k, i + 1);
    }
}

pub proof fn lemma_key_pos_found<V>(m: Seq<(Seq<char>, V)>, k: Seq<char>, i: int, j: int)
    requires
        0 <= i <= j < m.len(),
        m[j].0 == k,
        forall|l: int| i <= l < j ==> m[l].0 != k,
    ensures
        key_pos(m, k, i) == Some(j),
    decreases j - i,
{
    if i < j {
        lemma_key_pos_found(m, k, i + 1, j);
    }
}

pub proof fn lemma_key_pos_absent<V>(m: Seq<(Seq<char>, V)>, k: Seq<char>, i: int)
    requires
        0 <= i,
        forall|l: int| 0 <= l < m.len() ==> m[l].0 != k,
    ensures
        key_pos(m, k, i) is None,
    decreases m.len() - i,
{
    if i < m.len() {
        lemma_key_pos_absent(m, k, i + 1);
    }
}

/// What is kept under a key is what was last set under it.
pub proof fn law_assoc_set_get<V>(m: Seq<(Seq<char>, V)>, k: Seq<char>, v: V)
    ensures
        assoc_get(assoc_set(m, k, v), k) == Some(v),
{
    match key_pos(m, k, 0) {
        Some(i) => {
            lemma_key_pos_some(m, k, 0, i);
            lemma_key_pos_found(m.update(i, (k, v)), k, 0, i);
        },
        None => {
            lemma_key_pos_none(m, k, 0);
            lemma_key_pos_found(m.push((k, v)), k, 0, m.len() as int);
        },
    }
}

/// Setting a key keeps the keys distinct.
pub proof fn lemma_assoc_set_distinct<V>(m: Seq<(Seq<char>, V)>, k: Seq<char>, v: V)
    requires
        assoc_distinct(m),
    ensures
        assoc_distinct(assoc_set(m, k, v)),
{
    match key_pos(m, k, 0) {
        Some(i) => {
            lemma_key_pos_some(m, k, 0, i);
        },
        None => {
            lemma_key_pos_none(m, k, 0);
        },
    }
}

/// Once a key is removed, nothing is kept under it.
pub proof fn law_assoc_remove_get<V>(m: Seq<(Seq<char>, V)>, k: Seq<char>)
    requires
        assoc_distinct(m),
    ensures
        assoc_get(assoc_remove(m, k), k) is None,
        assoc_distinct(assoc_remove(m, k)),
{
    match key_pos(m, k, 0) {
        Some(i) => {
            lemma_key_pos_some(m, k, 0, i);
            let r = m.remove(i);
            assert forall|l: int| 0 <= l < r.len() implies r[l].0 != k by {
                if l < i {
                    assert(r[l] == m[l]);
                } else {
                    assert(r[l] == m[l + 1]);
                }
            }
            lemma_key_pos_absent(r, k, 0);
            assert forall|a: int, b: int| 0 <= a < b < r.len() implies r[a].0 != r[b].0 by {
                let a2 = if a < i { a } else { a + 1 };
                let b2 = if b < i { b } else { b + 1 };
                assert(r[a] == m[a2]);
                assert(r[b] == m[b2]);
            }
        },
        None => {
            lemma_key_pos_none(m, k, 0);
            lemma_key_pos_absent(m, k, 0);
        },
    }
}

// ---------------------------------------------------------------------------
// Models
// ---------------------------------------------------------------------------

pub open spec fn roster_entries_view(v: Seq<(String, Vec<RosterItem>)>) -> Seq<(Seq<char>, Seq<RosterItemView>)> {
    v.map_values(|e: (String, Vec<RosterItem>)| (e.0@, e.1@.map_values(|r: RosterItem| r@)))
}

pub open spec fn presence_entries_view(v: Seq<(String, Vec<PresenceInfo>)>) -> Seq<(Seq<char>, Seq<PresenceView>)> {
    v.map_values(|e: (String, Vec<PresenceInfo>)| (e.0@, e.1@.map_values(|p: PresenceInfo| p@)))
}

/// All presences, entry after entry.
pub open spec fn all_presences(ps: Seq<(Seq<char>, Seq<PresenceView>)>) -> Seq<PresenceView>
    decreases ps.len(),
{
    if ps.len() == 0 {
        seq![]
    } else {
        all_presences(ps.drop_last()) + ps.last().1
    }
}

/// The presences of `s` whose bare JID is `jid`.
pub open spec fn presences_of(s: Seq<PresenceView>, jid: Seq<char>) -> Seq<PresenceView>
    decreases s.len(),
{
    if s.len() == 0 {
        seq![]
    } else if s.last().jid == jid {
        presences_of(s.drop_last(), jid).push(s.last())
    } else {
        presences_of(s.drop_last(), jid)
    }
}

/// Whether `p` is an available presence of `jid`.
pub open spec fn online_as(p: PresenceView, jid: Seq<char>) -> bool {
    p.jid == jid && p.available
}

/// The position of the first item from `i` on whose JID is `jid`.
pub open spec fn item_pos(items: Seq<RosterItemView>, jid: Seq<char>, i: int) -> Option<int>
    decreases items.len() - i,
{
    if 0 <= i < items.len() {
        if items[i].jid == jid {
            Some(i)
        } else {
            item_pos(items, jid, i + 1)
        }
    } else {
        None
    }
}

/// The roster after `add_contact`: a new item with no subscription, unless
/// an item with that JID is there already.
pub open spec fn roster_add_spec(items: Seq<RosterItemView>, jid: Seq<char>, name: Option<Seq<char>>) -> Seq<
    RosterItemView,
> {
    if exists|i: int| 0 <= i < items.len() && items[i].jid == jid {
        items
    } else {
        items.push(RosterItemView { jid, name, subscription: SubscriptionState::NoSubscription, groups: seq![] })
    }
}

/// The position of the first presence from `i` on for resource `res`.
pub open spec fn res_pos(ps: Seq<PresenceView>, res: Seq<char>, i: int) -> Option<int>
    decreases ps.len() - i,
{
    if 0 <= i < ps.len() {
        if ps[i].resource == res {
            Some(i)
        } else {
            res_pos(ps, res, i + 1)
        }
    } else {
        None
    }
}

/// The domain that presences are recorded under.
pub open spec fn server_domain() -> Seq<char> {
    "ossftw.com"@
}

/// The key of a resource's presences: `user/resource`.
pub open spec fn presence_key(user: Seq<char>, res: Seq<char>) -> Seq<char> {
    user + "/"@ + res
}

/// The presences of one key after `set_presence`: the presence of the
/// resource updated in place (its JID kept), or a new one added.
pub open spec fn presence_update_spec(
    ps: Seq<PresenceView>,
    user: Seq<char>,
    res: Seq<char>,
    priority: i32,
    show: Option<Seq<char>>,
    status: Option<Seq<char>>,
    available: bool,
) -> Seq<PresenceView> {
    match res_pos(ps, res, 0) {
        Some(i) => ps.update(
            i,
            PresenceView { priority, show, status, available, ..ps[i] },
        ),
        None => ps.push(
            PresenceView {
                jid: user + "@"@ + server_domain(),
                resource: res,
                priority,
                show,
                status,
                available,
            },
        ),
    }
}

/// Contact lists and presences of the users.
pub struct RosterManager {
    rosters: Vec<(String, Vec<RosterItem>)>,
    presence: Vec<(String, Vec<PresenceInfo>)>,
}

impl RosterManager {
    /// The rosters, keyed by user name.
    pub closed spec fn rosters_view(&self) -> Seq<(Seq<char>, Seq<RosterItemView>)> {
        roster_entries_view(self.rosters@)
    }

    /// The presences, keyed by `user/resource`.
    pub closed spec fn presence_view(&self) -> Seq<(Seq<char>, Seq<PresenceView>)> {
        presence_entries_view(self.presence@)
    }

    pub open spec fn wf(&self) -> bool {
        assoc_distinct(self.rosters_view()) && assoc_distinct(self.presence_view())
    }

    pub fn new() -> (r: RosterManager)
        ensures
            r.wf(),
            r.rosters_view().len() == 0,
            r.presence_view().len() == 0,
    {
        let r = RosterManager { rosters: Vec::new(), presence: Vec::new() };
        assert(r.rosters_view() =~= seq![]);
        assert(r.presence_view() =~= seq![]);
        r
    }

    fn find_roster(&self, user: &str) -> (r: Option<usize>)
        ensures
            r matches Some(j) ==> key_pos(self.rosters_view(), user@, 0) == Some(j as int) && j
                < self.rosters@.len(),
            r is None ==> key_pos(self.rosters_view(), user@, 0) is None,
    {
        let ghost m = self.rosters_view();
        let mut i: usize = 0;
        while i < self.rosters.len()
            invariant
                i <= self.rosters.len(),
                m == self.rosters_view(),
                m.len() == self.rosters@.len(),
                key_pos(m, user@, 0) == key_pos(m, user@, i as int),
            decreases self.rosters.len() - i,
        {
            assert(m[i as int].0 == self.rosters@[i as int].0@);
            if str_eq(self.rosters[i].0.as_str(), user) {
                return Some(i);
            }
            i = i + 1;
        }
        None
    }

    fn find_presence(&self, key: &str) -> (r: Option<usize>)
        ensures
            r matches Some(j) ==> key_pos(self.presence_view(), key@, 0) == Some(j as int) && j
                < self.presence@.len(),
            r is None ==> key_pos(self.presence_view(), key@, 0) is None,
    {
        let ghost m = self.presence_view();
        let mut i: usize = 0;
        while i < self.presence.len()
            invariant
                i <= self.presence.len(),
                m == self.presence_view(),
                m.len() == self.presence@.len(),
                key_pos(m, key@, 0) == key_pos(m, key@, i as int),
            decreases self.presence.len() - i,
        {
            assert(m[i as int].0 == self.presence@[i as int].0@);
            if str_eq(self.presence[i].0.as_str(), key) {
                return Some(i);
            }
            i = i + 1;
        }
        None
    }

    /// Adds a contact to a user's roster, with no subscription, unless the
    /// roster already holds that JID; the user gets a roster either way.
    pub fn add_contact(&mut self, username: &str, contact_jid: &str, name: Option<&str>)
        requires
            old(self).wf(),
        ensures
            final(self).wf(),
            final(self).presence_view() == old(self).presence_view(),
            final(self).rosters_view() == assoc_set(
                old(self).rosters_view(),
                username@,
                roster_add_spec(
                    match assoc_get(old(self).rosters_view(), username@) {
                        Some(items) => items,
                        None => seq![],
                    },
                    contact_jid@,
                    match name {
                        Some(n) => Some(n@),
                        None => None,
                    },
                ),
            ),
    {
        let ghost m = self.rosters_view();
        let ghost nv: Option<Seq<char>> = match name {
            Some(n) => Some(n@),
            None => None,
        };
        let idx = match self.find_roster(username) {
            Some(i) => i,
            None => {
                self.rosters.push((copy_str(username), Vec::new()));
                proof {
                    lemma_key_pos_none(m, username@, 0);
                    let e = self.rosters@[self.rosters@.len() - 1];
                    assert(e.1@.map_values(|r: RosterItem| r@) =~= seq![]);
                    assert(self.rosters_view() =~= m.push((username@, seq![])));
                    lemma_key_pos_found(self.rosters_view(), username@, 0, m.len() as int);
                }
                self.rosters.len() - 1
            },
        };
        let ghost m1 = self.rosters_view();
        proof {
            lemma_key_pos_some(m1, username@, 0, idx as int);
        }
        let ghost items = m1[idx as int].1;
        assert(items == self.rosters@[idx as int].1@.map_values(|r: RosterItem| r@));
        let mut found = false;
        let mut j: usize = 0;
        while j < self.rosters[idx].1.len()
            invariant
                idx < self.rosters@.len(),
                j <= self.rosters@[idx as int].1@.len(),
                items == self.rosters@[idx as int].1@.map_values(|r: RosterItem| r@),
                found == exists|k: int| 0 <= k < j && items[k].jid == contact_jid@,
            decreases self.rosters@[idx as int].1@.len() - j,
        {
            assert(items[j as int] == self.rosters@[idx as int].1@[j as int]@);
            if str_eq(self.rosters[idx].1[j].jid.as_str(), contact_jid) {
                found = true;
            }
            j = j + 1;
        }
        if !found {
            let item = RosterItem {
                jid: copy_str(contact_jid),
                name: match name {
                    Some(n) => Some(copy_str(n)),
                    None => None,
                },
                subscription: SubscriptionState::NoSubscription,
                groups: Vec::new(),
            };
            let ghost iv = item@;
            assert(iv.groups =~= seq![]);
            let mut entry = (String::new(), Vec::new());
            std::mem::swap(&mut entry, &mut self.rosters[idx]);
            entry.1.push(item);
            let ghost ev = entry.1@.map_values(|r: RosterItem| r@);
            assert(ev =~= items.push(iv));
            self.rosters.set(idx, entry);
        }
        proof {
            let newitems = roster_add_spec(items, contact_jid@, nv);
            assert(self.rosters_view() =~= m1.update(idx as int, (username@, newitems)));
            match key_pos(m, username@, 0) {
                Some(i) => {
                    assert(m1 == m);
                },
                None => {
                    lemma_key_pos_none(m, username@, 0);
                    assert(m1 =~= m.push((username@, seq![])));
                    assert(m1.update(idx as int, (username@, newitems)) =~= m.push((username@, newitems)));
                },
            }
            lemma_assoc_set_distinct(m, username@, newitems);
        }
        assert(self.presence_view() =~= old(self).presence_view());
    }

    /// A copy of a user's roster; empty for a user without one.
    pub fn get_roster(&self, username: &str) -> (r: Vec<RosterItem>)
        ensures
            r@.map_values(|x: RosterItem| x@) == match assoc_get(self.rosters_view(), username@) {
                Some(items) => items,
                None => seq![],
            },
    {
        match self.find_roster(username) {
            Some(i) => {
                let src = &self.rosters[i].1;
                let ghost items = self.rosters_view()[i as int].1;
                assert(items == src@.map_values(|x: RosterItem| x@));
                let mut r: Vec<RosterItem> = Vec::new();
                let mut j: usize = 0;
                while j < src.len()
                    invariant
                        j <= src.len(),
                        items == src@.map_values(|x: RosterItem| x@),
                        r@.map_values(|x: RosterItem| x@) == items.subrange(0, j as int),
                    decreases src.len() - j,
                {
                    let ghost pre = r@;
                    r.push(src[j].copy());
                    assert(r@.map_values(|x: RosterItem| x@).drop_last() =~= pre.map_values(|x: RosterItem| x@));
                    assert(r@.map_values(|x: RosterItem| x@) =~= items.subrange(0, j + 1));
                    j = j + 1;
                }
                assert(items.subrange(0, src.len() as int) =~= items);
                r
            },
            None => {
                let r: Vec<RosterItem> = Vec::new();
                assert(r@.map_values(|x: RosterItem| x@) =~= seq![]);
                r
            },
        }
    }
}


/// The best available presence: the highest priority, and of several with
/// that priority the last one, as `Iterator::max_by_key` picks.
pub open spec fn best_presence(s: Seq<PresenceView>) -> Option<int>
    decreases s.len(),
{
    if s.len() == 0 {
        None
    } else {
        let b = best_presence(s.drop_last());
        if !s.last().available {
            b
        } else {
            match b {
                None => Some(s.len() - 1),
                Some(i) => if s.last().priority >= s[i].priority {
                    Some(s.len() - 1)
                } else {
                    Some(i)
                },
            }
        }
    }
}

/// The distinct JIDs of the available presences, in order of first appearance.
pub open spec fn online_jids(s: Seq<PresenceView>) -> Seq<Seq<char>>
    decreases s.len(),
{
    if s.len() == 0 {
        seq![]
    } else {
        let o = online_jids(s.drop_last());
        if s.last().available && !o.contains(s.last().jid) {
            o.push(s.last().jid)
        } else {
            o
        }
    }
}

proof fn lemma_best_bounds(s: Seq<PresenceView>)
    ensures
        best_presence(s) matches Some(i) ==> 0 <= i < s.len(),
    decreases s.len(),
{
    if s.len() > 0 {
        lemma_best_bounds(s.drop_last());
    }
}

proof fn lemma_all_presences_step(ps: Seq<(Seq<char>, Seq<PresenceView>)>, i: int)
    requires
        0 <= i < ps.len(),
    ensures
        all_presences(ps.subrange(0, i + 1)) == all_presences(ps.subrange(0, i)) + ps[i].1,
{
    assert(ps.subrange(0, i + 1).drop_last() =~= ps.subrange(0, i));
}

impl RosterManager {
    /// Records the presence of a user's resource under `user/resource`,
    /// updating the resource's presence in place or adding one with the JID
    /// `user@ossftw.com`; `law_set_presence` states what is then kept.
    pub fn set_presence(
        &mut self,
        username: &str,
        resource: &str,
        priority: i32,
        show: Option<String>,
        status: Option<String>,
        available: bool,
    )
        requires
            old(self).wf(),
        ensures
            final(self).wf(),
            final(self).rosters_view() == old(self).rosters_view(),
            final(self).presence_view() == assoc_set(
                old(self).presence_view(),
                presence_key(username@, resource@),
                presence_update_spec(
                    match assoc_get(old(self).presence_view(), presence_key(username@, resource@)) {
                        Some(ps) => ps,
                        None => seq![],
                    },
                    username@,
                    resource@,
                    priority,
                    ov(show),
                    ov(status),
                    available,
                ),
            ),
    {
        let ghost m = self.presence_view();
        let mut key = copy_str(username);
        key.append("/");
        key.append(resource);
        let ghost k = key@;
        let idx = match self.find_presence(key.as_str()) {
            Some(i) => i,
            None => {
                self.presence.push((copy_str(key.as_str()), Vec::new()));
                proof {
                    lemma_key_pos_none(m, k, 0);
                    let e = self.presence@[self.presence@.len() - 1];
                    assert(e.1@.map_values(|p: PresenceInfo| p@) =~= seq![]);
                    assert(self.presence_view() =~= m.push((k, seq![])));
                    lemma_key_pos_found(self.presence_view(), k, 0, m.len() as int);
                }
                self.presence.len() - 1
            },
        };
        let ghost m1 = self.presence_view();
        proof {
            lemma_key_pos_some(m1, k, 0, idx as int);
        }
        let ghost entry_v = m1[idx as int].1;
        let mut jid = copy_str(username);
        jid.append("@");
        jid.append("ossftw.com");
        let mut entry = (String::new(), Vec::new());
        std::mem::swap(&mut entry, &mut self.presence[idx]);
        assert(entry_v == entry.1@.map_values(|p: PresenceInfo| p@));
        let mut pos: Option<usize> = None;
        let mut j: usize = 0;
        while j < entry.1.len()
            invariant
                j <= entry.1@.len(),
                entry_v == entry.1@.map_values(|p: PresenceInfo| p@),
                pos is None ==> res_pos(entry_v, resource@, 0) == res_pos(entry_v, resource@, j as int),
                pos matches Some(q) ==> res_pos(entry_v, resource@, 0) == Some(q as int) && q < entry.1@.len(),
            decreases entry.1@.len() - j,
        {
            if pos.is_none() {
                assert(entry_v[j as int] == entry.1@[j as int]@);
                if str_eq(entry.1[j].resource.as_str(), resource) {
                    pos = Some(j);
                }
            }
            j = j + 1;
        }
        let ghost sv = ov(show);
        let ghost stv = ov(status);
        match pos {
            Some(q) => {
                let mut p = PresenceInfo {
                    jid: String::new(),
                    resource: String::new(),
                    priority: 0,
                    show: None,
                    status: None,
                    available: false,
                };
                std::mem::swap(&mut p, &mut entry.1[q]);
                assert(p@ == entry_v[q as int]);
                p.priority = priority;
                p.show = show;
                p.status = status;
                p.available = available;
                let ghost pv = p@;
                entry.1.set(q, p);
                assert(entry.1@.map_values(|x: PresenceInfo| x@) =~= entry_v.update(
                    q as int,
                    pv,
                ));
            },
            None => {
                let p = PresenceInfo {
                    jid,
                    resource: copy_str(resource),
                    priority,
                    show,
                    status,
                    available,
                };
                let ghost pv = p@;
                entry.1.push(p);
                assert(entry.1@.map_values(|x: PresenceInfo| x@) =~= entry_v.push(pv));
            },
        }
        let ghost newv = entry.1@.map_values(|x: PresenceInfo| x@);
        assert(newv == presence_update_spec(entry_v, username@, resource@, priority, sv, stv, available));
        self.presence.set(idx, entry);
        proof {
            assert(self.presence_view() =~= m1.update(idx as int, (k, newv)));
            match key_pos(m, k, 0) {
                Some(i) => {
                    assert(m1 == m);
                },
                None => {
                    lemma_key_pos_none(m, k, 0);
                    assert(m1 =~= m.push((k, seq![])));
                    assert(m1.update(idx as int, (k, newv)) =~= m.push((k, newv)));
                },
            }
            lemma_assoc_set_distinct(m, k, newv);
        }
        assert(self.rosters_view() =~= old(self).rosters_view());
    }

    /// All presences whose bare JID is `bare_jid`.
    pub fn get_user_presence(&self, bare_jid: &str) -> (r: Vec<PresenceInfo>)
        ensures
            r@.map_values(|p: PresenceInfo| p@) == presences_of(all_presences(self.presence_view()), bare_jid@),
    {
        let ghost pv = self.presence_view();
        let mut r: Vec<PresenceInfo> = Vec::new();
        let mut i: usize = 0;
        while i < self.presence.len()
            invariant
                i <= self.presence.len(),
                pv == self.presence_view(),
                pv.len() == self.presence@.len(),
                r@.map_values(|p: PresenceInfo| p@) == presences_of(all_presences(pv.subrange(0, i as int)), bare_jid@),
            decreases self.presence.len() - i,
        {
            let list = &self.presence[i].1;
            let ghost lv = pv[i as int].1;
            assert(lv == list@.map_values(|p: PresenceInfo| p@));
            let ghost base = all_presences(pv.subrange(0, i as int));
            let mut j: usize = 0;
            while j < list.len()
                invariant
                    j <= list.len(),
                    lv == list@.map_values(|p: PresenceInfo| p@),
                    r@.map_values(|p: PresenceInfo| p@) == presences_of(base + lv.subrange(0, j as int), bare_jid@),
                decreases list.len() - j,
            {
                let ghost pre = r@;
                let ghost s1 = base + lv.subrange(0, j + 1);
                assert(s1.drop_last() =~= base + lv.subrange(0, j as int));
                assert(s1.last() == list@[j as int]@);
                if str_eq(list[j].jid.as_str(), bare_jid) {
                    r.push(list[j].copy());
                    assert(r@.map_values(|p: PresenceInfo| p@) =~= pre.map_values(|p: PresenceInfo| p@).push(
                        list@[j as int]@,
                    ));
                }
                j = j + 1;
            }
            assert(lv.subrange(0, list.len() as int) =~= lv);
            proof {
                lemma_all_presences_step(pv, i as int);
            }
            i = i + 1;
        }
        assert(pv.subrange(0, self.presence.len() as int) =~= pv);
        r
    }

    /// Forgets the presences recorded under `full_jid` (a `user/resource` key).
    pub fn remove_resource(&mut self, full_jid: &str)
        requires
            old(self).wf(),
        ensures
            final(self).wf(),
            final(self).rosters_view() == old(self).rosters_view(),
            final(self).presence_view() == assoc_remove(old(self).presence_view(), full_jid@),
    {
        let ghost m = self.presence_view();
        match self.find_presence(full_jid) {
            Some(i) => {
                self.presence.remove(i);
                assert(self.presence_view() =~= m.remove(i as int));
            },
            None => {},
        }
        proof {
            law_assoc_remove_get(m, full_jid@);
        }
        assert(self.rosters_view() =~= old(self).rosters_view());
    }

    /// The distinct JIDs that have an available presence.
    pub fn get_online_users(&self) -> (r: Vec<String>)
        ensures
            strings_view(r@) == online_jids(all_presences(self.presence_view())),
    {
        let ghost pv = self.presence_view();
        let mut r: Vec<String> = Vec::new();
        let mut i: usize = 0;
        while i < self.presence.len()
            invariant
                i <= self.presence.len(),
                pv == self.presence_view(),
                pv.len() == self.presence@.len(),
                strings_view(r@) == online_jids(all_presences(pv.subrange(0, i as int))),
            decreases self.presence.len() - i,
        {
            let list = &self.presence[i].1;
            let ghost lv = pv[i as int].1;
            assert(lv == list@.map_values(|p: PresenceInfo| p@));
            let ghost base = all_presences(pv.subrange(0, i as int));
            let mut j: usize = 0;
            while j < list.len()
                invariant
                    j <= list.len(),
                    lv == list@.map_values(|p: PresenceInfo| p@),
                    strings_view(r@) == online_jids(base + lv.subrange(0, j as int)),
                decreases list.len() - j,
            {
                let ghost s1 = base + lv.subrange(0, j + 1);
                assert(s1.drop_last() =~= base + lv.subrange(0, j as int));
                assert(s1.last() == list@[j as int]@);
                if list[j].available {
                    let mut seen = false;
                    let mut k: usize = 0;
                    while k < r.len()
                        invariant
                            k <= r.len(),
                            j < list@.len(),
                            seen == exists|q: int| 0 <= q < k && r@[q]@ == list@[j as int].jid@,
                        decreases r.len() - k,
                    {
                        if str_eq(r[k].as_str(), list[j].jid.as_str()) {
                            seen = true;
                        }
                        k = k + 1;
                    }
                    let ghost o = strings_view(r@);
                    assert(seen == o.contains(list@[j as int].jid@)) by {
                        if seen {
                            let q = choose|q: int| 0 <= q < r@.len() && r@[q]@ == list@[j as int].jid@;
                            assert(o[q] == list@[j as int].jid@);
                        }
                        if o.contains(list@[j as int].jid@) {
                            let q = choose|q: int| 0 <= q < o.len() && o[q] == list@[j as int].jid@;
                            assert(r@[q]@ == o[q]);
                        }
                    }
                    if !seen {
                        r.push(copy_str(list[j].jid.as_str()));
                        assert(strings_view(r@) =~= o.push(list@[j as int].jid@));
                    }
                }
                j = j + 1;
            }
            assert(lv.subrange(0, list.len() as int) =~= lv);
            proof {
                lemma_all_presences_step(pv, i as int);
            }
            i = i + 1;
        }
        assert(pv.subrange(0, self.presence.len() as int) =~= pv);
        r
    }

    /// Whether some presence of `bare_jid` is available.
    pub fn is_user_online(&self, bare_jid: &str) -> (r: bool)
        ensures
            r == exists|k: int|
                0 <= k < presences_of(all_presences(self.presence_view()), bare_jid@).len()
                    && (#[trigger] presences_of(all_presences(self.presence_view()), bare_jid@)[k]).available,
    {
        let ps = self.get_user_presence(bare_jid);
        let ghost s = presences_of(all_presences(self.presence_view()), bare_jid@);
        let mut i: usize = 0;
        while i < ps.len()
            invariant
                i <= ps.len(),
                s == ps@.map_values(|p: PresenceInfo| p@),
                s == presences_of(all_presences(self.presence_view()), bare_jid@),
                forall|k: int| 0 <= k < i ==> !(#[trigger] s[k]).available,
            decreases ps.len() - i,
        {
            assert(s[i as int] == ps@[i as int]@);
            if ps[i].available {
                assert(s[i as int].available);
                return true;
            }
            i = i + 1;
        }
        false
    }

    /// The resource of the best available presence of `bare_jid`.
    pub fn get_best_resource(&self, bare_jid: &str) -> (r: Option<String>)
        ensures
            ({
                let s = presences_of(all_presences(self.presence_view()), bare_jid@);
                match best_presence(s) {
                    Some(i) => r matches Some(x) && x@ == s[i].resource,
                    None => r is None,
                }
            }),
    {
        let ps = self.get_user_presence(bare_jid);
        let ghost s = presences_of(all_presences(self.presence_view()), bare_jid@);
        let mut best: Option<usize> = None;
        let mut i: usize = 0;
        while i < ps.len()
            invariant
                i <= ps.len(),
                s == ps@.map_values(|p: PresenceInfo| p@),
                match best_presence(s.subrange(0, i as int)) {
                    Some(b) => best == Some(b as usize) && 0 <= b < i,
                    None => best is None,
                },
            decreases ps.len() - i,
        {
            let ghost sub = s.subrange(0, i + 1);
            assert(sub.drop_last() =~= s.subrange(0, i as int));
            proof {
                lemma_best_bounds(s.subrange(0, i as int));
            }
            assert(sub.last() == ps@[i as int]@);
            if ps[i].available {
                match best {
                    None => {
                        best = Some(i);
                    },
                    Some(b) => {
                        assert(sub[b as int] == ps@[b as int]@);
                        if ps[i].priority >= ps[b].priority {
                            best = Some(i);
                        }
                    },
                }
            }
            i = i + 1;
        }
        assert(s.subrange(0, ps.len() as int) =~= s);
        match best {
            Some(b) => {
                assert(s[b as int] == ps@[b as int]@);
                Some(copy_str(ps[b].resource.as_str()))
            },
            None => None,
        }
    }
}

/// Every presence kept under some key is among all presences.
pub proof fn lemma_in_all_presences(pv: Seq<(Seq<char>, Seq<PresenceView>)>, i: int, j: int)
    requires
        0 <= i < pv.len(),
        0 <= j < pv[i].1.len(),
    ensures
        exists|n: int| 0 <= n < all_presences(pv).len() && all_presences(pv)[n] == pv[i].1[j],
    decreases pv.len(),
{
    if i == pv.len() - 1 {
        let pre = all_presences(pv.drop_last());
        let n = pre.len() + j;
        assert(all_presences(pv)[n] == pv[i].1[j]);
    } else {
        assert(pv.drop_last()[i] == pv[i]);
        lemma_in_all_presences(pv.drop_last(), i, j);
        let n = choose|n: int|
            0 <= n < all_presences(pv.drop_last()).len() && all_presences(pv.drop_last())[n] == pv[i].1[j];
        assert(all_presences(pv)[n] == pv[i].1[j]);
    }
}

/// A presence of `jid` in `s` is among the presences of `jid`.
pub proof fn lemma_in_presences_of(s: Seq<PresenceView>, jid: Seq<char>, n: int)
    requires
        0 <= n < s.len(),
        s[n].jid == jid,
    ensures
        exists|m: int| 0 <= m < presences_of(s, jid).len() && presences_of(s, jid)[m] == s[n],
    decreases s.len(),
{
    if n == s.len() - 1 {
        let m = presences_of(s.drop_last(), jid).len() as int;
        assert(presences_of(s, jid)[m] == s[n]);
    } else {
        assert(s.drop_last()[n] == s[n]);
        lemma_in_presences_of(s.drop_last(), jid, n);
        let m = choose|m: int|
            0 <= m < presences_of(s.drop_last(), jid).len() && presences_of(s.drop_last(), jid)[m] == s[n];
        if s.last().jid == jid {
            assert(presences_of(s, jid)[m] == s[n]);
        } else {
            assert(presences_of(s, jid)[m] == s[n]);
        }
    }
}

/// Once a resource of a user announces itself available, the user is
/// online: as long as the presences kept for that resource carry the
/// user's JID `user@ossftw.com`, as those that `set_presence` records do.
pub proof fn law_online_after_set_presence(
    pv: Seq<(Seq<char>, Seq<PresenceView>)>,
    user: Seq<char>,
    res: Seq<char>,
    priority: i32,
    show: Option<Seq<char>>,
    status: Option<Seq<char>>,
)
    requires
        forall|q: int|
            0 <= q < presences_kept(pv, presence_key(user, res)).len() ==> (#[trigger] presences_kept(
                pv,
                presence_key(user, res),
            )[q]).jid == user + "@"@ + server_domain(),
    ensures
        ({
            let key = presence_key(user, res);
            let pv2 = assoc_set(
                pv,
                key,
                presence_update_spec(presences_kept(pv, key), user, res, priority, show, status, true),
            );
            let s = presences_of(all_presences(pv2), user + "@"@ + server_domain());
            exists|k: int| 0 <= k < s.len() && (#[trigger] s[k]).available
        }),
{
    let key = presence_key(user, res);
    let jid = user + "@"@ + server_domain();
    let ps = presences_kept(pv, key);
    let ps2 = presence_update_spec(ps, user, res, priority, show, status, true);
    let pv2 = assoc_set(pv, key, ps2);
    let j: int = match res_pos(ps, res, 0) {
        Some(i) => {
            lemma_res_pos_bounds(ps, res, 0, i);
            i
        },
        None => ps.len() as int,
    };
    assert(0 <= j < ps2.len());
    assert(ps2[j].available && ps2[j].jid == jid);
    let i: int = match key_pos(pv, key, 0) {
        Some(i) => {
            lemma_key_pos_some(pv, key, 0, i);
            i
        },
        None => pv.len() as int,
    };
    assert(pv2[i].1 == ps2);
    lemma_in_all_presences(pv2, i, j);
    let n = choose|n: int| 0 <= n < all_presences(pv2).len() && all_presences(pv2)[n] == pv2[i].1[j];
    lemma_in_presences_of(all_presences(pv2), jid, n);
    let m = choose|m: int|
        0 <= m < presences_of(all_presences(pv2), jid).len() && presences_of(all_presences(pv2), jid)[m]
            == all_presences(pv2)[n];
    assert(presences_of(all_presences(pv2), jid)[m].available);
}

proof fn lemma_res_pos_bounds(ps: Seq<PresenceView>, res: Seq<char>, i: int, k: int)
    requires
        0 <= i,
        res_pos(ps, res, i) == Some(k),
    ensures
        i <= k < ps.len(),
    decreases ps.len() - i,
{
    if i < ps.len() && ps[i].resource != res {
        lemma_res_pos_bounds(ps, res, i + 1, k);
    }
}

/// The presences kept under `key`, none when there are none.
pub open spec fn presences_kept(pv: Seq<(Seq<char>, Seq<PresenceView>)>, key: Seq<char>) -> Seq<PresenceView> {
    match assoc_get(pv, key) {
        Some(x) => x,
        None => seq![],
    }
}

/// After a contact is added to a user's roster, the roster lists it, after
/// the items it held before, which are kept as they were.
pub proof fn law_contact_after_add(
    rv: Seq<(Seq<char>, Seq<RosterItemView>)>,
    user: Seq<char>,
    jid: Seq<char>,
    name: Option<Seq<char>>,
)
    ensures
        ({
            let before = match assoc_get(rv, user) {
                Some(items) => items,
                None => seq![],
            };
            let after = assoc_set(rv, user, roster_add_spec(before, jid, name));
            &&& lists_jid(assoc_get(after, user), jid)
            &&& assoc_get(after, user)->0.subrange(0, before.len() as int) == before
        }),
{
    let before = match assoc_get(rv, user) {
        Some(items) => items,
        None => seq![],
    };
    let items = roster_add_spec(before, jid, name);
    law_assoc_set_get(rv, user, items);
    assert(assoc_get(assoc_set(rv, user, items), user) == Some(items));
    if exists|i: int| 0 <= i < before.len() && before[i].jid == jid {
        let i = choose|i: int| 0 <= i < before.len() && before[i].jid == jid;
        assert(items[i].jid == jid);
    } else {
        assert(items[before.len() as int].jid == jid);
    }
    assert(items.subrange(0, before.len() as int) =~= before);
    assert(lists_jid(Some(items), jid));
}

/// Whether there is a roster and it has an item with the JID.
pub open spec fn lists_jid(r: Option<Seq<RosterItemView>>, jid: Seq<char>) -> bool {
    match r {
        Some(items) => exists|i: int| 0 <= i < items.len() && (#[trigger] items[i]).jid == jid,
        None => false,
    }
}

proof fn lemma_key_pos_same_keys<V>(m1: Seq<(Seq<char>, V)>, m2: Seq<(Seq<char>, V)>, k: Seq<char>, i: int)
    requires
        0 <= i,
        m1.len() == m2.len(),
        forall|j: int| 0 <= j < m1.len() ==> #[trigger] m1[j].0 == m2[j].0,
    ensures
        key_pos(m1, k, i) == key_pos(m2, k, i),
    decreases m1.len() - i,
{
    if i < m1.len() {
        lemma_key_pos_same_keys(m1, m2, k, i + 1);
    }
}

proof fn lemma_key_pos_push_other<V>(m: Seq<(Seq<char>, V)>, e: (Seq<char>, V), k: Seq<char>, i: int)
    requires
        0 <= i,
        e.0 != k,
    ensures
        key_pos(m.push(e), k, i) == key_pos(m, k, i),
    decreases m.len() + 1 - i,
{
    if i < m.len() {
        assert(m.push(e)[i] == m[i]);
        lemma_key_pos_push_other(m, e, k, i + 1);
    } else if i == m.len() {
        assert(m.push(e)[i] == e);
        assert(key_pos(m.push(e), k, i + 1) is None);
    }
}

/// Setting one key leaves what is kept under every other key as it was.
pub proof fn law_assoc_set_other<V>(m: Seq<(Seq<char>, V)>, key: Seq<char>, v: V, k: Seq<char>)
    requires
        k != key,
    ensures
        assoc_get(assoc_set(m, key, v), k) == assoc_get(m, k),
{
    match key_pos(m, key, 0) {
        Some(i0) => {
            lemma_key_pos_some(m, key, 0, i0);
            let m2 = m.update(i0, (key, v));
            lemma_key_pos_same_keys(m, m2, k, 0);
            match key_pos(m, k, 0) {
                Some(j) => {
                    lemma_key_pos_some(m, k, 0, j);
                    assert(m2[j] == m[j]);
                },
                None => {},
            }
        },
        None => {
            lemma_key_pos_push_other(m, (key, v), k, 0);
            match key_pos(m, k, 0) {
                Some(j) => {
                    lemma_key_pos_some(m, k, 0, j);
                    assert(m.push((key, v))[j] == m[j]);
                },
                None => {},
            }
        },
    }
}

/// After `set_presence`, the presences kept under `user/resource` are one
/// presence of that resource with the given priority, show, status and
/// availability (with the JID `user@ossftw.com` when it is new), as long as
/// at most one presence, of that resource, was kept there; what is kept
/// under every other key is unchanged.
pub proof fn law_set_presence(
    pv: Seq<(Seq<char>, Seq<PresenceView>)>,
    user: Seq<char>,
    res: Seq<char>,
    priority: i32,
    show: Option<Seq<char>>,
    status: Option<Seq<char>>,
    available: bool,
    other: Seq<char>,
)
    requires
        presences_kept(pv, presence_key(user, res)).len() <= 1,
        forall|q: int|
            0 <= q < presences_kept(pv, presence_key(user, res)).len() ==> (#[trigger] presences_kept(
                pv,
                presence_key(user, res),
            )[q]).resource == res,
    ensures
        ({
            let key = presence_key(user, res);
            let old_ps = presences_kept(pv, key);
            let pv2 = assoc_set(
                pv,
                key,
                presence_update_spec(old_ps, user, res, priority, show, status, available),
            );
            let ps = presences_kept(pv2, key);
            &&& assoc_get(pv2, key) == Some(ps)
            &&& ps.len() == 1
            &&& ps[0].resource == res
            &&& ps[0].priority == priority
            &&& ps[0].show == show
            &&& ps[0].status == status
            &&& ps[0].available == available
            &&& ps[0].jid == if old_ps.len() == 0 {
                user + "@"@ + server_domain()
            } else {
                old_ps[0].jid
            }
            &&& (other != key ==> assoc_get(pv2, other) == assoc_get(pv, other))
        }),
{
    let key = presence_key(user, res);
    let old_ps = presences_kept(pv, key);
    let ps2 = presence_update_spec(old_ps, user, res, priority, show, status, available);
    law_assoc_set_get(pv, key, ps2);
    if old_ps.len() == 1 {
        assert(old_ps[0].resource == res);
        assert(res_pos(old_ps, res, 0) == Some(0int));
    }
    if other != key {
        law_assoc_set_other(pv, key, ps2, other);
    }
}

/// The best presence is an available one whose priority no available
/// presence exceeds, and no later available presence has as high a
/// priority; there is none exactly when no presence is available.
pub proof fn law_best_presence_is_highest(s: Seq<PresenceView>)
    ensures
        best_presence(s) is None <==> (forall|i: int| 0 <= i < s.len() ==> !(#[trigger] s[i]).available),
        best_presence(s) matches Some(b) ==> {
            &&& 0 <= b < s.len()
            &&& s[b].available
            &&& forall|i: int| 0 <= i < s.len() && (#[trigger] s[i]).available ==> s[i].priority <= s[b].priority
            &&& forall|i: int| b < i < s.len() && (#[trigger] s[i]).available ==> s[i].priority < s[b].priority
        },
    decreases s.len(),
{
    if s.len() > 0 {
        let p = s.drop_last();
        law_best_presence_is_highest(p);
        assert forall|i: int| 0 <= i < p.len() implies p[i] == s[i] by {}
        match best_presence(p) {
            Some(b) => {
                assert(p[b] == s[b]);
            },
            None => {
                if !s.last().available {
                    assert forall|i: int| 0 <= i < s.len() implies !(#[trigger] s[i]).available by {
                        if i < p.len() {
                            assert(p[i] == s[i]);
                        }
                    }
                }
            },
        }
        if best_presence(s) is None {
            assert(!s[s.len() - 1].available);
        }
    }
}

/// The presences of a JID are the presences with that JID, in their order.
pub proof fn law_presences_of_filters(s: Seq<PresenceView>, jid: Seq<char>)
    ensures
        presences_of(s, jid) == s.filter(|p: PresenceView| p.jid == jid),
    decreases s.len(),
{
    reveal(Seq::filter);
    if s.len() > 0 {
        law_presences_of_filters(s.drop_last(), jid);
        s.drop_last().lemma_filter_push(s.last(), |p: PresenceView| p.jid == jid);
        assert(s.drop_last().push(s.last()) =~= s);
    }
}

/// All presences are those kept under each key, one list after the other,
/// in the keys' order.
pub proof fn law_all_presences_joins_each(ps: Seq<(Seq<char>, Seq<PresenceView>)>)
    ensures
        all_presences(ps) == ps.map_values(|e: (Seq<char>, Seq<PresenceView>)| e.1).flatten(),
    decreases ps.len(),
{
    let xs = ps.map_values(|e: (Seq<char>, Seq<PresenceView>)| e.1);
    if ps.len() == 0 {
        assert(xs =~= Seq::<Seq<PresenceView>>::empty());
    } else {
        let q = ps.drop_last();
        law_all_presences_joins_each(q);
        let qs = q.map_values(|e: (Seq<char>, Seq<PresenceView>)| e.1);
        assert(xs =~= qs.push(ps.last().1));
        qs.lemma_flatten_push(ps.last().1);
    }
}

} // verus!

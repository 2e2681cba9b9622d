//! Multi-user chat rooms.

use vstd::prelude::*;
use crate::roster::{assoc_distinct, assoc_get, assoc_set, key_pos, lemma_key_pos_found, lemma_key_pos_none, lemma_key_pos_some, lemma_assoc_set_distinct, strings_view};
use crate::text::{copy_opt, copy_str, str_eq};

verus! {

broadcast use vstd::string::group_string_axioms;

/// A participant of a room.
#[derive(Debug)]
pub struct MucOccupant {
    pub nick: String,
    pub jid: String,
    pub role: String,
    pub affiliation: String,
}

/// A chat room.
#[derive(Debug)]
pub struct MucRoom {
    pub name: String,
    pub title: Option<String>,
    pub occupants: Vec<MucOccupant>,
    pub subject: Option<String>,
    pub persistent: bool,
    pub password: Option<String>,
}

pub struct OccupantView {
    pub nick: Seq<char>,
    pub jid: Seq<char>,
    pub role: Seq<char>,
    pub affiliation: Seq<char>,
}

pub struct RoomView {
    pub name: Seq<char>,
    pub title: Option<Seq<char>>,
    pub occupants: Seq<OccupantView>,
    pub subject: Option<Seq<char>>,
    pub persistent: bool,
    pub password: Option<Seq<char>>,
}

pub open spec fn ostr(o: Option<String>) -> Option<Seq<char>> {
    match o {
        Some(s) => Some(s@),
        None => None,
    }
}

pub open spec fn oref(o: Option<&str>) -> Option<Seq<char>> {
    match o {
        Some(s) => Some(s@),
        None => None,
    }
}

impl View for MucOccupant {
    type V = OccupantView;

    open spec fn view(&self) -> OccupantView {
        OccupantView { nick: self.nick@, jid: self.jid@, role: self.role@, affiliation: self.affiliation@ }
    }
}

pub open spec fn occupants_view(v: Seq<MucOccupant>) -> Seq<OccupantView> {
    v.map_values(|o: MucOccupant| o@)
}

impl View for MucRoom {
    type V = RoomView;

    open spec fn view(&self) -> RoomView {
        RoomView {
            name: self.name@,
            title: ostr(self.title),
            occupants: occupants_view(self.occupants@),
            subject: ostr(self.subject),
            persistent: self.persistent,
            password: ostr(self.password),
        }
    }
}

impl MucOccupant {
    pub fn copy(&self) -> (r: MucOccupant)
        ensures
            r@ == self@,
    {
        MucOccupant {
            nick: copy_str(self.nick.as_str()),
            jid: copy_str(self.jid.as_str()),
            role: copy_str(self.role.as_str()),
            affiliation: copy_str(self.affiliation.as_str()),
        }
    }
}

impl MucRoom {
    pub fn copy(&self) -> (r: MucRoom)
        ensures
            r@ == self@,
    {
        let mut occ: Vec<MucOccupant> = Vec::new();
        let mut i: usize = 0;
        while i < self.occupants.len()
            invariant
                i <= self.occupants.len(),
                occ@.len() == i,
                forall|k: int| 0 <= k < i ==> occ@[k]@ == self.occupants@[k]@,
            decreases self.occupants.len() - i,
        {
            occ.push(self.occupants[i].copy());
            i = i + 1;
        }
        assert(occupants_view(occ@) =~= occupants_view(self.occupants@));
        MucRoom {
            name: copy_str(self.name.as_str()),
            title: copy_opt(&self.title),
            occupants: occ,
            subject: copy_opt(&self.subject),
            persistent: self.persistent,
            password: copy_opt(&self.password),
        }
    }
}

/// Whether a room has an occupant with the nick.
pub open spec fn nick_taken(occ: Seq<OccupantView>, nick: Seq<char>) -> bool {
    exists|i: int| 0 <= i < occ.len() && occ[i].nick == nick
}

/// The occupants without those with the nick, in order.
pub open spec fn without_nick(occ: Seq<OccupantView>, nick: Seq<char>) -> Seq<OccupantView>
    decreases occ.len(),
{
    if occ.len() == 0 {
        seq![]
    } else if occ.last().nick == nick {
        without_nick(occ.drop_last(), nick)
    } else {
        without_nick(occ.drop_last(), nick).push(occ.last())
    }
}

/// No two occupants of a room share a nick.
pub open spec fn nicks_distinct(occ: Seq<OccupantView>) -> bool {
    forall|i: int, j: int| 0 <= i < j < occ.len() ==> occ[i].nick != occ[j].nick
}

/// What `join_room` answers, given the room the name finds.
pub open spec fn join_outcome(room: Option<RoomView>, nick: Seq<char>, password: Option<Seq<char>>) -> Result<(), Seq<char>> {
    match room {
        None => Err("Room not found"@),
        Some(r) => if r.password is Some && password != r.password {
            Err("Incorrect password"@)
        } else if nick_taken(r.occupants, nick) {
            Err("Nick already taken"@)
        } else {
            Ok(())
        },
    }
}

/// The rooms after `join_room`: the occupant added with role
/// `participant` and affiliation `none` when the join is allowed.
pub open spec fn rooms_after_join(
    rooms: Seq<(Seq<char>, RoomView)>,
    room_name: Seq<char>,
    nick: Seq<char>,
    jid: Seq<char>,
    password: Option<Seq<char>>,
) -> Seq<(Seq<char>, RoomView)> {
    let room = assoc_get(rooms, room_name);
    if join_outcome(room, nick, password) is Ok {
        assoc_set(
            rooms,
            room_name,
            RoomView {
                occupants: room->0.occupants.push(
                    OccupantView { nick, jid, role: "participant"@, affiliation: "none"@ },
                ),
                ..room->0
            },
        )
    } else {
        rooms
    }
}

pub open spec fn unit_res(r: Result<(), String>) -> Result<(), Seq<char>> {
    match r {
        Ok(_) => Ok(()),
        Err(e) => Err(e@),
    }
}

/// The rooms a new server has: the empty, persistent room `lobby`,
/// titled `General Lobby`.
pub open spec fn default_rooms() -> Seq<(Seq<char>, RoomView)> {
    seq![(
        "lobby"@,
        RoomView {
            name: "lobby"@,
            title: Some("General Lobby"@),
            occupants: seq![],
            subject: None,
            persistent: true,
            password: None,
        },
    )]
}

/// The rooms of the server.
pub struct MucManager {
    rooms: Vec<(String, MucRoom)>,
}

impl MucManager {
    /// The rooms, keyed by name.
    pub closed spec fn rooms_view(&self) -> Seq<(Seq<char>, RoomView)> {
        self.rooms@.map_values(|e: (String, MucRoom)| (e.0@, e.1@))
    }

    pub open spec fn wf(&self) -> bool {
        &&& assoc_distinct(self.rooms_view())
        &&& forall|i: int| 0 <= i < self.rooms_view().len() ==> nicks_distinct(#[trigger] self.rooms_view()[i].1.occupants)
    }

    /// The server with its default room, `lobby`.
    pub fn new() -> (r: MucManager)
        ensures
            r.wf(),
            r.rooms_view() == default_rooms(),
    {
        let lobby = MucRoom {
            name: copy_str("lobby"),
            title: Some(copy_str("General Lobby")),
            occupants: Vec::new(),
            subject: None,
            persistent: true,
            password: None,
        };
        assert(occupants_view(lobby.occupants@) =~= seq![]);
        let mut rooms: Vec<(String, MucRoom)> = Vec::new();
        rooms.push((copy_str("lobby"), lobby));
        let r = MucManager { rooms };
        assert(r.rooms_view() =~= seq![(
            "lobby"@,
            RoomView {
                name: "lobby"@,
                title: Some("General Lobby"@),
                occupants: seq![],
                subject: None,
                persistent: true,
                password: None,
            },
        )]);
        r
    }

    fn find_room(&self, name: &str) -> (r: Option<usize>)
        ensures
            r matches Some(j) ==> key_pos(self.rooms_view(), name@, 0) == Some(j as int) && j < self.rooms@.len(),
            r is None ==> key_pos(self.rooms_view(), name@, 0) is None,
    {
        let ghost m = self.rooms_view();
        let mut i: usize = 0;
        while i < self.rooms.len()
            invariant
                i <= self.rooms.len(),
                m == self.rooms_view(),
                m.len() == self.rooms@.len(),
                key_pos(m, name@, 0) == key_pos(m, name@, i as int),
            decreases self.rooms.len() - i,
        {
            assert(m[i as int].0 == self.rooms@[i as int].0@);
            if str_eq(self.rooms[i].0.as_str(), name) {
                return Some(i);
            }
            i = i + 1;
        }
        None
    }

    /// Creates a room with no occupants; an existing name is refused.
    pub fn create_room(&mut self, name: &str, title: Option<&str>, password: Option<&str>) -> (r: Result<(), String>)
        requires
            old(self).wf(),
        ensures
            final(self).wf(),
            assoc_get(old(self).rooms_view(), name@) is Some ==> unit_res(r) == Err::<(), Seq<char>>("Room already exists"@)
                && final(self).rooms_view() == old(self).rooms_view(),
            assoc_get(old(self).rooms_view(), name@) is None ==> r is Ok && final(self).rooms_view()
                == old(self).rooms_view().push(
                (
                    name@,
                    RoomView {
                        name: name@,
                        title: oref(title),
                        occupants: seq![],
                        subject: None,
                        persistent: false,
                        password: oref(password),
                    },
                ),
            ),
    {
        let ghost m = self.rooms_view();
        if self.find_room(name).is_some() {
            return Err(copy_str("Room already exists"));
        }
        let room = MucRoom {
            name: copy_str(name),
            title: match title {
                Some(t) => Some(copy_str(t)),
                None => None,
            },
            occupants: Vec::new(),
            subject: None,
            persistent: false,
            password: match password {
                Some(p) => Some(copy_str(p)),
                None => None,
            },
        };
        let ghost rv = room@;
        assert(rv.occupants =~= seq![]);
        self.rooms.push((copy_str(name), room));
        proof {
            lemma_key_pos_none(m, name@, 0);
        }
        assert(self.rooms_view() =~= m.push((name@, rv)));
        assert forall|i: int| 0 <= i < self.rooms_view().len() implies nicks_distinct(
            #[trigger] self.rooms_view()[i].1.occupants,
        ) by {
            if i < m.len() {
                assert(self.rooms_view()[i] == m[i]);
            }
        }
        Ok(())
    }

    /// Adds an occupant with role `participant` and affiliation `none`.
    /// Refused for an unknown room, a wrong or missing password when the room
    /// has one, and a nick that is taken.
    pub fn join_room(&mut self, room_name: &str, nick: &str, jid: &str, password: Option<&str>) -> (r: Result<(), String>)
        requires
            old(self).wf(),
        ensures
            final(self).wf(),
            unit_res(r) == join_outcome(assoc_get(old(self).rooms_view(), room_name@), nick@, oref(password)),
            final(self).rooms_view() == rooms_after_join(old(self).rooms_view(), room_name@, nick@, jid@, oref(password)),
            r is Err ==> final(self).rooms_view() == old(self).rooms_view(),
            r is Ok ==> {
                let room = assoc_get(old(self).rooms_view(), room_name@)->0;
                final(self).rooms_view() == assoc_set(
                    old(self).rooms_view(),
                    room_name@,
                    RoomView {
                        occupants: room.occupants.push(
                            OccupantView {
                                nick: nick@,
                                jid: jid@,
                                role: "participant"@,
                                affiliation: "none"@,
                            },
                        ),
                        ..room
                    },
                )
            },
    {
        let ghost m = self.rooms_view();
        let i = match self.find_room(room_name) {
            Some(i) => i,
            None => {
                return Err(copy_str("Room not found"));
            },
        };
        proof {
            lemma_key_pos_some(m, room_name@, 0, i as int);
        }
        let ghost rv = m[i as int].1;
        assert(rv == self.rooms@[i as int].1@);
        match &self.rooms[i].1.password {
            Some(pw) => {
                let ok = match password {
                    Some(p) => str_eq(p, pw.as_str()),
                    None => false,
                };
                if !ok {
                    return Err(copy_str("Incorrect password"));
                }
            },
            None => {},
        }
        let mut taken = false;
        let mut k: usize = 0;
        while k < self.rooms[i].1.occupants.len()
            invariant
                i < self.rooms@.len(),
                k <= self.rooms@[i as int].1.occupants@.len(),
                rv.occupants == occupants_view(self.rooms@[i as int].1.occupants@),
                taken == exists|q: int| 0 <= q < k && rv.occupants[q].nick == nick@,
            decreases self.rooms@[i as int].1.occupants@.len() - k,
        {
            assert(rv.occupants[k as int] == self.rooms@[i as int].1.occupants@[k as int]@);
            if str_eq(self.rooms[i].1.occupants[k].nick.as_str(), nick) {
                taken = true;
            }
            k = k + 1;
        }
        if taken {
            return Err(copy_str("Nick already taken"));
        }
        let occ = MucOccupant {
            nick: copy_str(nick),
            jid: copy_str(jid),
            role: copy_str("participant"),
            affiliation: copy_str("none"),
        };
        let ghost ov = occ@;
        let mut entry = (String::new(), MucRoom {
            name: String::new(),
            title: None,
            occupants: Vec::new(),
            subject: None,
            persistent: false,
            password: None,
        });
        std::mem::swap(&mut entry, &mut self.rooms[i]);
        entry.1.occupants.push(occ);
        let ghost nv = entry.1@;
        assert(nv.occupants =~= rv.occupants.push(ov));
        assert(entry.0@ == room_name@);
        self.rooms.set(i, entry);
        assert(self.rooms_view() =~= m.update(i as int, (room_name@, nv)));
        assert(nv == RoomView { occupants: rv.occupants.push(ov), ..rv });
        proof {
            lemma_assoc_set_distinct(m, room_name@, nv);
        }
        assert forall|j: int| 0 <= j < self.rooms_view().len() implies nicks_distinct(
            #[trigger] self.rooms_view()[j].1.occupants,
        ) by {
            if j != i {
                assert(self.rooms_view()[j] == m[j]);
            } else {
                assert(nicks_distinct(rv.occupants));
            }
        }
        Ok(())
    }

    /// Removes the occupants with the nick from the room, if there is such a room.
    pub fn leave_room(&mut self, room_name: &str, nick: &str)
        requires
            old(self).wf(),
        ensures
            final(self).wf(),
            match assoc_get(old(self).rooms_view(), room_name@) {
                Some(room) => final(self).rooms_view() == assoc_set(
                    old(self).rooms_view(),
                    room_name@,
                    RoomView { occupants: without_nick(room.occupants, nick@), ..room },
                ),
                None => final(self).rooms_view() == old(self).rooms_view(),
            },
    {
        let ghost m = self.rooms_view();
        let i = match self.find_room(room_name) {
            Some(i) => i,
            None => {
                return;
            },
        };
        proof {
            lemma_key_pos_some(m, room_name@, 0, i as int);
        }
        let ghost rv = m[i as int].1;
        let mut entry = (String::new(), MucRoom {
            name: String::new(),
            title: None,
            occupants: Vec::new(),
            subject: None,
            persistent: false,
            password: None,
        });
        std::mem::swap(&mut entry, &mut self.rooms[i]);
        assert(rv == entry.1@);
        let mut old_occ: Vec<MucOccupant> = Vec::new();
        std::mem::swap(&mut old_occ, &mut entry.1.occupants);
        let ghost ovs = occupants_view(old_occ@);
        let mut kept: Vec<MucOccupant> = Vec::new();
        let mut k: usize = 0;
        while k < old_occ.len()
            invariant
                k <= old_occ.len(),
                ovs == occupants_view(old_occ@),
                occupants_view(kept@) == without_nick(ovs.subrange(0, k as int), nick@),
            decreases old_occ.len() - k,
        {
            let ghost pre = kept@;
            assert(ovs.subrange(0, k + 1).drop_last() =~= ovs.subrange(0, k as int));
            assert(ovs.subrange(0, k + 1).last() == old_occ@[k as int]@);
            if !str_eq(old_occ[k].nick.as_str(), nick) {
                kept.push(old_occ[k].copy());
                assert(occupants_view(kept@) =~= occupants_view(pre).push(old_occ@[k as int]@));
            }
            k = k + 1;
        }
        assert(ovs.subrange(0, old_occ.len() as int) =~= ovs);
        entry.1.occupants = kept;
        let ghost nv = entry.1@;
        assert(nv == RoomView { occupants: without_nick(rv.occupants, nick@), ..rv });
        self.rooms.set(i, entry);
        assert(self.rooms_view() =~= m.update(i as int, (room_name@, nv)));
        proof {
            lemma_assoc_set_distinct(m, room_name@, nv);
            lemma_without_nick_distinct(rv.occupants, nick@);
        }
        assert forall|j: int| 0 <= j < self.rooms_view().len() implies nicks_distinct(
            #[trigger] self.rooms_view()[j].1.occupants,
        ) by {
            if j != i {
                assert(self.rooms_view()[j] == m[j]);
            }
        }
    }

    /// A copy of the room.
    pub fn get_room(&self, room_name: &str) -> (r: Option<MucRoom>)
        ensures
            match assoc_get(self.rooms_view(), room_name@) {
                Some(room) => r matches Some(x) && x@ == room,
                None => r is None,
            },
    {
        match self.find_room(room_name) {
            Some(i) => {
                assert(self.rooms_view()[i as int].1 == self.rooms@[i as int].1@);
                Some(self.rooms[i].1.copy())
            },
            None => None,
        }
    }

    /// The names of all rooms.
    pub fn list_rooms(&self) -> (r: Vec<String>)
        ensures
            strings_view(r@) == self.rooms_view().map_values(|e: (Seq<char>, RoomView)| e.0),
    {
        let mut r: Vec<String> = Vec::new();
        let mut i: usize = 0;
        while i < self.rooms.len()
            invariant
                i <= self.rooms.len(),
                r@.len() == i,
                self.rooms_view().len() == self.rooms@.len(),
                forall|k: int| 0 <= k < i ==> r@[k]@ == self.rooms_view()[k].0,
            decreases self.rooms.len() - i,
        {
            assert(self.rooms_view()[i as int].0 == self.rooms@[i as int].0@);
            r.push(copy_str(self.rooms[i].0.as_str()));
            i = i + 1;
        }
        assert(strings_view(r@) =~= self.rooms_view().map_values(|e: (Seq<char>, RoomView)| e.0));
        r
    }

    /// The JIDs of the room's occupants; none for an unknown room.
    pub fn get_occupant_jids(&self, room_name: &str) -> (r: Vec<String>)
        ensures
            strings_view(r@) == room_occupants(self.rooms_view(), room_name@).map_values(|o: OccupantView| o.jid),
    {
        let mut r: Vec<String> = Vec::new();
        match self.find_room(room_name) {
            Some(i) => {
                let ghost occ = self.rooms_view()[i as int].1.occupants;
                assert(occ == occupants_view(self.rooms@[i as int].1.occupants@));
                let mut k: usize = 0;
                while k < self.rooms[i].1.occupants.len()
                    invariant
                        i < self.rooms@.len(),
                        k <= self.rooms@[i as int].1.occupants@.len(),
                        occ == occupants_view(self.rooms@[i as int].1.occupants@),
                        r@.len() == k,
                        forall|q: int| 0 <= q < k ==> r@[q]@ == occ[q].jid,
                    decreases self.rooms@[i as int].1.occupants@.len() - k,
                {
                    assert(occ[k as int] == self.rooms@[i as int].1.occupants@[k as int]@);
                    r.push(copy_str(self.rooms[i].1.occupants[k].jid.as_str()));
                    k = k + 1;
                }
                assert(strings_view(r@) =~= occ.map_values(|o: OccupantView| o.jid));
            },
            None => {
                assert(strings_view(r@) =~= seq![]);
            },
        }
        r
    }

    /// The nicks of the room's occupants; none for an unknown room.
    pub fn get_occupant_nicks(&self, room_name: &str) -> (r: Vec<String>)
        ensures
            strings_view(r@) == room_occupants(self.rooms_view(), room_name@).map_values(|o: OccupantView| o.nick),
    {
        let mut r: Vec<String> = Vec::new();
        match self.find_room(room_name) {
            Some(i) => {
                let ghost occ = self.rooms_view()[i as int].1.occupants;
                assert(occ == occupants_view(self.rooms@[i as int].1.occupants@));
                let mut k: usize = 0;
                while k < self.rooms[i].1.occupants.len()
                    invariant
                        i < self.rooms@.len(),
                        k <= self.rooms@[i as int].1.occupants@.len(),
                        occ == occupants_view(self.rooms@[i as int].1.occupants@),
                        r@.len() == k,
                        forall|q: int| 0 <= q < k ==> r@[q]@ == occ[q].nick,
                    decreases self.rooms@[i as int].1.occupants@.len() - k,
                {
                    assert(occ[k as int] == self.rooms@[i as int].1.occupants@[k as int]@);
                    r.push(copy_str(self.rooms[i].1.occupants[k].nick.as_str()));
                    k = k + 1;
                }
                assert(strings_view(r@) =~= occ.map_values(|o: OccupantView| o.nick));
            },
            None => {
                assert(strings_view(r@) =~= seq![]);
            },
        }
        r
    }

    /// The stanza addressed to each occupant of the room, as (JID, stanza) pairs.
    pub fn broadcast_to_room(&self, room_name: &str, stanza: &str) -> (r: Vec<(String, String)>)
        ensures
            r@.len() == room_occupants(self.rooms_view(), room_name@).len(),
            forall|q: int|
                0 <= q < r@.len() ==> r@[q].0@ == room_occupants(self.rooms_view(), room_name@)[q].jid
                    && (#[trigger] r@[q]).1@ == stanza@,
    {
        let jids = self.get_occupant_jids(room_name);
        let ghost occ = room_occupants(self.rooms_view(), room_name@);
        assert(strings_view(jids@).len() == jids@.len());
        let mut r: Vec<(String, String)> = Vec::new();
        let mut k: usize = 0;
        while k < jids.len()
            invariant
                k <= jids.len(),
                strings_view(jids@) == occ.map_values(|o: OccupantView| o.jid),
                jids@.len() == occ.len(),
                r@.len() == k,
                forall|q: int| 0 <= q < k ==> r@[q].0@ == occ[q].jid && (#[trigger] r@[q]).1@ == stanza@,
            decreases jids.len() - k,
        {
            assert(strings_view(jids@)[k as int] == jids@[k as int]@);
            r.push((copy_str(jids[k].as_str()), copy_str(stanza)));
            k = k + 1;
        }
        r
    }
}

/// The occupants of the room named `name`; none for an unknown room.
pub open spec fn room_occupants(rooms: Seq<(Seq<char>, RoomView)>, name: Seq<char>) -> Seq<OccupantView> {
    match assoc_get(rooms, name) {
        Some(room) => room.occupants,
        None => seq![],
    }
}

proof fn lemma_without_nick_sub(occ: Seq<OccupantView>, nick: Seq<char>)
    ensures
        forall|i: int| 0 <= i < without_nick(occ, nick).len() ==> exists|j: int| 0 <= j < occ.len() && #[trigger] without_nick(occ, nick)[i] == occ[j],
        forall|i: int| 0 <= i < without_nick(occ, nick).len() ==> (#[trigger] without_nick(occ, nick)[i]).nick != nick,
    decreases occ.len(),
{
    if occ.len() > 0 {
        let pre = occ.drop_last();
        lemma_without_nick_sub(pre, nick);
        let w = without_nick(occ, nick);
        let wp = without_nick(pre, nick);
        assert forall|i: int| 0 <= i < w.len() implies exists|j: int| 0 <= j < occ.len() && #[trigger] w[i] == occ[j] by {
            if i < wp.len() {
                let j = choose|j: int| 0 <= j < pre.len() && wp[i] == pre[j];
                assert(w[i] == occ[j]);
            } else {
                assert(w[i] == occ[occ.len() - 1]);
            }
        }
    }
}

proof fn lemma_without_nick_distinct(occ: Seq<OccupantView>, nick: Seq<char>)
    requires
        nicks_distinct(occ),
    ensures
        nicks_distinct(without_nick(occ, nick)),
    decreases occ.len(),
{
    if occ.len() > 0 {
        let pre = occ.drop_last();
        assert(nicks_distinct(pre));
        lemma_without_nick_distinct(pre, nick);
        lemma_without_nick_sub(pre, nick);
        let w = without_nick(occ, nick);
        let wp = without_nick(pre, nick);
        if occ.last().nick != nick {
            assert forall|i: int, j: int| 0 <= i < j < w.len() implies w[i].nick != w[j].nick by {
                if j == w.len() - 1 {
                    let k = choose|k: int| 0 <= k < pre.len() && wp[i] == pre[k];
                    assert(w[i] == occ[k]);
                    assert(w[j] == occ[occ.len() - 1]);
                } else {
                    assert(w[i] == wp[i] && w[j] == wp[j]);
                }
            }
        }
    }
}

/// After a successful join, the room's nicks are the old ones and the new
/// one, and still distinct.
pub proof fn law_join_adds_nick(occ: Seq<OccupantView>, o: OccupantView)
    requires
        nicks_distinct(occ),
        !nick_taken(occ, o.nick),
    ensures
        nicks_distinct(occ.push(o)),
        nick_taken(occ.push(o), o.nick),
{
    assert(occ.push(o)[occ.len() as int] == o);
}

/// After leaving, no occupant of the room has the nick.
pub proof fn law_leave_removes_nick(occ: Seq<OccupantView>, nick: Seq<char>)
    ensures
        !nick_taken(without_nick(occ, nick), nick),
{
    lemma_without_nick_sub(occ, nick);
}

/// Leaving a room keeps exactly the occupants whose nick is not the
/// leaver's, in their order: every other occupant stays.
pub proof fn law_without_nick_keeps_others(occ: Seq<OccupantView>, nick: Seq<char>)
    ensures
        without_nick(occ, nick) == occ.filter(|o: OccupantView| o.nick != nick),
    decreases occ.len(),
{
    reveal(Seq::filter);
    if occ.len() > 0 {
        law_without_nick_keeps_others(occ.drop_last(), nick);
        occ.drop_last().lemma_filter_push(occ.last(), |o: OccupantView| o.nick != nick);
        assert(occ.drop_last().push(occ.last()) =~= occ);
    }
}

} // verus!

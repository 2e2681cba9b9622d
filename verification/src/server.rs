//! The state that all sessions of the server share: accounts, rosters and
//! presences, rooms, and the routing table.

use vstd::prelude::*;
use tokio::sync::mpsc::UnboundedSender;
use crate::auth::{AuthManager, AuthStateView, UserView};
use crate::muc::{default_rooms, MucManager, RoomView};
use crate::roster::{PresenceView, RosterItemView, RosterManager};
use crate::router::{Router, RouterOp};

verus! {

/// The managers that the client and server sessions work on.
pub struct Services {
    pub router: Router,
    pub auth: AuthManager,
    pub roster: RosterManager,
    pub muc: MucManager,
}

/// The contents of the managers.
pub struct ServicesView {
    pub users: Seq<UserView>,
    pub pending: Seq<(Seq<char>, AuthStateView)>,
    pub rosters: Seq<(Seq<char>, Seq<RosterItemView>)>,
    pub presence: Seq<(Seq<char>, Seq<PresenceView>)>,
    pub rooms: Seq<(Seq<char>, RoomView)>,
    pub clients: Seq<(Seq<char>, UnboundedSender<String>)>,
    pub deliveries: Seq<(UnboundedSender<String>, Seq<char>, bool)>,
    pub ops: Seq<RouterOp>,
}

impl View for Services {
    type V = ServicesView;

    open spec fn view(&self) -> ServicesView {
        ServicesView {
            users: self.auth.users_view(),
            pending: self.auth.pending_view(),
            rosters: self.roster.rosters_view(),
            presence: self.roster.presence_view(),
            rooms: self.muc.rooms_view(),
            clients: self.router.clients_view(),
            deliveries: self.router.deliveries(),
            ops: self.router.ops(),
        }
    }
}

impl Services {
    pub open spec fn wf(&self) -> bool {
        &&& self.router.wf()
        &&& self.auth.wf()
        &&& self.roster.wf()
        &&& self.muc.wf()
    }

    /// The managers as a new server has them: no accounts, rosters,
    /// presences or sessions, and the default room.
    pub fn new() -> (r: Services)
        ensures
            r.wf(),
            r@.users.len() == 0,
            r@.pending.len() == 0,
            r@.rosters.len() == 0,
            r@.presence.len() == 0,
            r@.clients.len() == 0,
            r@.deliveries.len() == 0,
            r@.ops.len() == 0,
            r@.rooms == default_rooms(),
    {
        Services { router: Router::new(), auth: AuthManager::new(), roster: RosterManager::new(), muc: MucManager::new() }
    }
}

} // verus!

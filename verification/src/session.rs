//! Which simulation entity a client request acts for.

use std::collections::HashMap;
use vstd::prelude::*;

verus! {

broadcast use vstd::std_specs::hash::group_hash_axioms;

/// Who sent a request: a remote connection, or the application itself for its own player.
#[derive(Clone, Copy, Debug, PartialEq, Eq, Structural)]
pub enum ClientId {
    Server,
    Client(u64),
}

/// The simulation entity that a remote connection plays.
#[derive(Clone, Copy, Debug, PartialEq, Eq, Structural)]
pub struct PlayerDimensionSession(pub u64);

/// The sessions of all connections, by connection entity.
pub struct Sessions {
    entries: HashMap<u64, PlayerDimensionSession>,
}

impl View for Sessions {
    type V = Map<u64, PlayerDimensionSession>;

    closed spec fn view(&self) -> Map<u64, PlayerDimensionSession> {
        self.entries@
    }
}

impl Sessions {
    /// No sessions.
    pub fn new() -> (sessions: Sessions)
        ensures
            sessions@ == Map::<u64, PlayerDimensionSession>::empty(),
    {
        Sessions { entries: HashMap::new() }
    }

    /// Enters the session of a connection.
    pub fn open(&mut self, connection: u64, session: PlayerDimensionSession)
        ensures
            final(self)@ == old(self)@.insert(connection, session),
    {
        self.entries.insert(connection, session);
    }

    /// The session of a connection.
    pub fn get(&self, connection: u64) -> (session: Option<PlayerDimensionSession>)
        ensures
            session == if self@.contains_key(connection) {
                Some(self@[connection])
            } else {
                None
            },
    {
        match self.entries.get(&connection) {
            Some(session) => Some(*session),
            None => None,
        }
    }
}

/// The entity that a request acts for. A connection acts for the entity of its session, and
/// for nothing where it has none; the application acts for its own player.
pub open spec fn client_entity(
    client: ClientId,
    player: Option<u64>,
    sessions: Map<u64, PlayerDimensionSession>,
) -> Option<u64> {
    match client {
        ClientId::Client(connection) => if sessions.contains_key(connection) {
            Some(sessions[connection].0)
        } else {
            None
        },
        ClientId::Server => player,
    }
}

/// The entity that a request acts for.
pub fn resolve_client_entity(
    client_id: ClientId,
    player: Option<u64>,
    sessions: &Sessions,
) -> (entity: Option<u64>)
    ensures
        entity == client_entity(client_id, player, sessions@),
{
    match client_id {
        ClientId::Client(connection) => match sessions.get(connection) {
            Some(session) => Some(session.0),
            None => None,
        },
        ClientId::Server => player,
    }
}

/// A remote connection never acts for the application's own player by default: what it acts
/// for does not depend on that player.
pub proof fn law_connection_never_falls_back_to_the_local_player(
    connection: u64,
    player: Option<u64>,
    other: Option<u64>,
    sessions: Map<u64, PlayerDimensionSession>,
)
    ensures
        client_entity(ClientId::Client(connection), player, sessions) == client_entity(
            ClientId::Client(connection),
            other,
            sessions,
        ),
        !sessions.contains_key(connection) ==> client_entity(
            ClientId::Client(connection),
            player,
            sessions,
        ) is None,
{
}

/// A request, by its place in the list, and the entity that it acts for.
#[derive(Clone, Copy, Debug, PartialEq, Eq, Structural)]
pub struct RoutedRequest {
    pub request: usize,
    pub entity: u64,
}

/// The requests that act for an entity, in order. One that acts for none is left out and
/// stops no other.
pub open spec fn routed(
    clients: Seq<ClientId>,
    player: Option<u64>,
    sessions: Map<u64, PlayerDimensionSession>,
) -> Seq<RoutedRequest>
    decreases clients.len(),
{
    if clients.len() == 0 {
        Seq::empty()
    } else {
        let before = routed(clients.drop_last(), player, sessions);
        match client_entity(clients.last(), player, sessions) {
            Some(entity) => before.push(
                RoutedRequest { request: (clients.len() - 1) as usize, entity },
            ),
            None => before,
        }
    }
}

/// Finds the entity that each request acts for. Without a simulation all requests are
/// dropped.
pub fn route_requests(
    sim_present: bool,
    clients: &Vec<ClientId>,
    player: Option<u64>,
    sessions: &Sessions,
) -> (routes: Vec<RoutedRequest>)
    ensures
        routes@ == if sim_present {
            routed(clients@, player, sessions@)
        } else {
            Seq::empty()
        },
{
    let mut routes: Vec<RoutedRequest> = Vec::new();
    if !sim_present {
        return routes;
    }
    let mut i: usize = 0;
    while i < clients.len()
        invariant
            i <= clients.len(),
            routes@ == routed(clients@.take(i as int), player, sessions@),
        decreases clients.len() - i,
    {
        proof {
            assert(clients@.take(i as int + 1).drop_last() =~= clients@.take(i as int));
        }
        if let Some(entity) = resolve_client_entity(clients[i], player, sessions) {
            routes.push(RoutedRequest { request: i, entity });
        }
        i += 1;
    }
    assert(clients@.take(i as int) =~= clients@);
    routes
}

/// Every routed request is one of the list, and goes to the entity that it acts for.
pub proof fn law_requests_reach_their_own_entity(
    clients: Seq<ClientId>,
    player: Option<u64>,
    sessions: Map<u64, PlayerDimensionSession>,
    k: int,
)
    requires
        clients.len() <= usize::MAX,
        0 <= k < routed(clients, player, sessions).len(),
    ensures
        ({
            let route = routed(clients, player, sessions)[k];
            &&& route.request < clients.len()
            &&& client_entity(clients[route.request as int], player, sessions) == Some(route.entity)
        }),
    decreases clients.len(),
{
    let init = clients.drop_last();
    if k < routed(init, player, sessions).len() {
        law_requests_reach_their_own_entity(init, player, sessions, k);
        let route = routed(init, player, sessions)[k];
        assert(init[route.request as int] == clients[route.request as int]);
    }
}

/// Every request of a client that plays an entity is served, once and in the order of arrival,
/// and goes to that entity: the one of the connection's own session, or the local player where
/// the request comes from the server itself. Every other request is dropped.
pub proof fn law_every_playing_client_is_served(
    clients: Seq<ClientId>,
    player: Option<u64>,
    sessions: Map<u64, PlayerDimensionSession>,
    i: int,
)
    requires
        clients.len() <= usize::MAX,
        0 <= i < clients.len(),
    ensures
        ({
            let routes = routed(clients, player, sessions);
            let plays = match clients[i] {
                ClientId::Client(connection) => sessions.contains_key(connection),
                ClientId::Server => player is Some,
            };
            &&& plays <==> exists|k: int| 0 <= k < routes.len() && (#[trigger] routes[k]).request == i
            &&& forall|k: int|
                0 <= k < routes.len() && (#[trigger] routes[k]).request == i ==> match clients[i] {
                    ClientId::Client(connection) => routes[k].entity == sessions[connection].0,
                    ClientId::Server => player == Some(routes[k].entity),
                }
            &&& forall|j: int, k: int|
                0 <= j < k < routes.len() ==> (#[trigger] routes[j]).request < (
                #[trigger] routes[k]).request
        }),
{
    lemma_routed(clients, player, sessions, i);
}

proof fn lemma_routed(
    clients: Seq<ClientId>,
    player: Option<u64>,
    sessions: Map<u64, PlayerDimensionSession>,
    i: int,
)
    requires
        clients.len() <= usize::MAX,
    ensures
        ({
            let routes = routed(clients, player, sessions);
            &&& forall|k: int|
                0 <= k < routes.len() ==> (#[trigger] routes[k]).request < clients.len()
            &&& forall|k: int|
                0 <= k < routes.len() ==> client_entity(
                    clients[(#[trigger] routes[k]).request as int],
                    player,
                    sessions,
                ) == Some(routes[k].entity)
            &&& forall|j: int, k: int|
                0 <= j < k < routes.len() ==> (#[trigger] routes[j]).request < (
                #[trigger] routes[k]).request
            &&& 0 <= i < clients.len() && client_entity(clients[i], player, sessions) is Some
                ==> exists|k: int| 0 <= k < routes.len() && (#[trigger] routes[k]).request == i
        }),
    decreases clients.len(),
{
    if clients.len() > 0 {
        let init = clients.drop_last();
        lemma_routed(init, player, sessions, i);
        let before = routed(init, player, sessions);
        let routes = routed(clients, player, sessions);
        assert forall|k: int| 0 <= k < before.len() implies routes[k] == #[trigger] before[k]
            && init[before[k].request as int] == clients[before[k].request as int] by {}
        if 0 <= i < init.len() && client_entity(clients[i], player, sessions) is Some {
            assert(init[i] == clients[i]);
            let k = choose|k: int| 0 <= k < before.len() && (#[trigger] before[k]).request == i;
            assert(routes[k].request == i);
        }
        if i == init.len() && client_entity(clients[i], player, sessions) is Some {
            assert(routes[before.len() as int].request == i);
        }
    }
}

} // verus!

//! The client's session core: the decisions taken for each inbound server
//! message. A reliable message is answered with an acknowledgment naming its
//! sequence number; the first accepted login reply stores the client's own
//! identity; spawn packages for unknown identities become spawn
//! instructions; updates resolve their identity through the identity map and
//! are dropped silently when the object no longer exists; and updates that
//! would overwrite the locally controlled object's own prediction (rotation,
//! velocity) are suppressed for it. The core returns instructions — it
//! leaves constructing and mutating simulation objects to the caller.

use vstd::prelude::*;

use crate::NetIDType;
use crate::identity::{BindError, IdentityMap};
use crate::messages::{
    ClientMessage, ClientMessageInner, EntityPackage, EntityPackageView, HealthPackage,
    PlayerLookPackage, PositionPackage, ServerMessage, ServerMessageInner, VelocityPackage,
};

verus! {

/// One instruction to the simulation; package contents are referenced by
/// their index in the message that produced the instruction.
#[derive(Clone, Copy, Debug, PartialEq, Eq, Structural)]
pub enum ClientEvent {
    /// The server accepted this client's login under this identity: spawn
    /// the locally controlled player object, then bind it.
    SpawnSelf { net_id: NetIDType },
    /// A replicated object this client has never seen: construct it from
    /// the component descriptors of the indexed package, then bind it.
    SpawnRemote { net_id: NetIDType, package_index: usize },
    /// Re-apply the indexed package's component descriptors to a known
    /// object.
    UpdateEntity { handle: u64, package_index: usize },
    /// Apply the indexed position package; the rotation only when the
    /// object is not the locally controlled one.
    SetTransform { handle: u64, package_index: usize, apply_rotation: bool },
    /// Apply the indexed look package to a remote player's look anchor.
    SetLook { handle: u64, package_index: usize },
    /// Apply the indexed velocity package to a remote object.
    SetVelocity { handle: u64, package_index: usize },
    /// Apply the indexed health package.
    SetHealth { handle: u64, package_index: usize },
}

/// What one inbound server message demands: the acknowledgment owed for a
/// reliable message, and the instructions for the simulation, in package
/// order.
pub struct ClientDirectives {
    pub confirm: Option<ClientMessage>,
    pub events: Vec<ClientEvent>,
}

pub open spec fn spec_spawn_events(
    rev: Map<NetIDType, u64>,
    s: Seq<EntityPackageView>,
    base: int,
) -> Seq<ClientEvent>
    decreases s.len(),
{
    if s.len() == 0 {
        Seq::empty()
    } else {
        (if rev.dom().contains(s[0].net_id) {
            Seq::empty()
        } else {
            seq![ClientEvent::SpawnRemote { net_id: s[0].net_id, package_index: base as usize }]
        }) + spec_spawn_events(rev, s.drop_first(), base + 1)
    }
}

pub open spec fn spec_update_entity_events(
    rev: Map<NetIDType, u64>,
    s: Seq<EntityPackageView>,
    base: int,
) -> Seq<ClientEvent>
    decreases s.len(),
{
    if s.len() == 0 {
        Seq::empty()
    } else {
        (if rev.dom().contains(s[0].net_id) {
            seq![
                ClientEvent::UpdateEntity {
                    handle: rev[s[0].net_id],
                    package_index: base as usize,
                },
            ]
        } else {
            Seq::empty()
        }) + spec_update_entity_events(rev, s.drop_first(), base + 1)
    }
}

pub open spec fn spec_position_events(
    rev: Map<NetIDType, u64>,
    my: Option<NetIDType>,
    s: Seq<PositionPackage>,
    base: int,
) -> Seq<ClientEvent>
    decreases s.len(),
{
    if s.len() == 0 {
        Seq::empty()
    } else {
        (if rev.dom().contains(s[0].net_id) {
            seq![
                ClientEvent::SetTransform {
                    handle: rev[s[0].net_id],
                    package_index: base as usize,
                    apply_rotation: my != Some(s[0].net_id),
                },
            ]
        } else {
            Seq::empty()
        }) + spec_position_events(rev, my, s.drop_first(), base + 1)
    }
}

pub open spec fn spec_look_events(
    rev: Map<NetIDType, u64>,
    my: Option<NetIDType>,
    s: Seq<PlayerLookPackage>,
    base: int,
) -> Seq<ClientEvent>
    decreases s.len(),
{
    if s.len() == 0 {
        Seq::empty()
    } else {
        (if rev.dom().contains(s[0].net_id) && my != Some(s[0].net_id) {
            seq![
                ClientEvent::SetLook { handle: rev[s[0].net_id], package_index: base as usize },
            ]
        } else {
            Seq::empty()
        }) + spec_look_events(rev, my, s.drop_first(), base + 1)
    }
}

pub open spec fn spec_velocity_events(
    rev: Map<NetIDType, u64>,
    my: Option<NetIDType>,
    s: Seq<VelocityPackage>,
    base: int,
) -> Seq<ClientEvent>
    decreases s.len(),
{
    if s.len() == 0 {
        Seq::empty()
    } else {
        (if rev.dom().contains(s[0].net_id) && my != Some(s[0].net_id) {
            seq![
                ClientEvent::SetVelocity {
                    handle: rev[s[0].net_id],
                    package_index: base as usize,
                },
            ]
        } else {
            Seq::empty()
        }) + spec_velocity_events(rev, my, s.drop_first(), base + 1)
    }
}

pub open spec fn spec_health_events(
    rev: Map<NetIDType, u64>,
    s: Seq<HealthPackage>,
    base: int,
) -> Seq<ClientEvent>
    decreases s.len(),
{
    if s.len() == 0 {
        Seq::empty()
    } else {
        (if rev.dom().contains(s[0].net_id) {
            seq![
                ClientEvent::SetHealth { handle: rev[s[0].net_id], package_index: base as usize },
            ]
        } else {
            Seq::empty()
        }) + spec_health_events(rev, s.drop_first(), base + 1)
    }
}

/// The client-side session state: this client's own identity, once the
/// server has granted one, and the identity map of every replicated object
/// the client knows.
pub struct ClientCore {
    my_id: Option<NetIDType>,
    identities: IdentityMap,
}

impl ClientCore {
    /// This client's own identity, once granted.
    pub closed spec fn my(&self) -> Option<NetIDType> {
        self.my_id
    }

    /// The handle-to-identity direction of the identity map.
    pub closed spec fn forward(&self) -> Map<u64, NetIDType> {
        self.identities.forward()
    }

    /// The identity-to-handle direction of the identity map.
    pub closed spec fn reverse(&self) -> Map<NetIDType, u64> {
        self.identities.reverse()
    }

    pub closed spec fn wf(&self) -> bool {
        self.identities.wf()
    }

    pub fn new() -> (r: Self)
        ensures
            r.wf(),
            r.my() is None,
            r.forward() == Map::<u64, NetIDType>::empty(),
            r.reverse() == Map::<NetIDType, u64>::empty(),
    {
        ClientCore { my_id: None, identities: IdentityMap::new() }
    }

    /// This client's own identity, once granted.
    pub fn my_identity(&self) -> (r: Option<NetIDType>)
        ensures
            r == self.my(),
    {
        self.my_id
    }

    /// Binds a freshly spawned object (own player or remote) to the
    /// identity the server named for it; refused exactly when either side
    /// is already bound, and the core is then unchanged.
    pub fn bind_spawned(&mut self, net_id: NetIDType, handle: u64) -> (r: Result<(), BindError>)
        requires
            old(self).wf(),
        ensures
            final(self).wf(),
            final(self).my() == old(self).my(),
            r is Ok ==> {
                &&& !old(self).forward().dom().contains(handle)
                &&& !old(self).reverse().dom().contains(net_id)
                &&& final(self).forward() == old(self).forward().insert(handle, net_id)
                &&& final(self).reverse() == old(self).reverse().insert(net_id, handle)
            },
            r == Err::<(), BindError>(BindError::HandleInUse) <==> old(
                self,
            ).forward().dom().contains(handle),
            r == Err::<(), BindError>(BindError::IdentityInUse) <==> !old(
                self,
            ).forward().dom().contains(handle) && old(self).reverse().dom().contains(net_id),
            r is Err ==> *final(self) == *old(self),
    {
        self.identities.bind(handle, net_id)
    }

    /// Unbinds a despawned object's identity in both directions.
    pub fn unbind(&mut self, net_id: NetIDType)
        requires
            old(self).wf(),
        ensures
            final(self).wf(),
            final(self).my() == old(self).my(),
            final(self).reverse() == old(self).reverse().remove(net_id),
            final(self).forward() == (if old(self).reverse().dom().contains(net_id) {
                old(self).forward().remove(old(self).reverse()[net_id])
            } else {
                old(self).forward()
            }),
    {
        self.identities.unbind(net_id);
    }

    /// The handle bound to an identity, if any.
    pub fn resolve_handle(&self, net_id: NetIDType) -> (r: Option<u64>)
        requires
            self.wf(),
        ensures
            r matches Some(h) ==> self.reverse().dom().contains(net_id)
                && self.reverse()[net_id] == h,
            r is None ==> !self.reverse().dom().contains(net_id),
    {
        self.identities.resolve_handle(net_id)
    }

    /// Decides what one inbound server message demands.
    ///
    /// A reliable message is answered with an acknowledgment naming its
    /// sequence number. A login acceptance for an identity not yet known
    /// stores it as this client's own and asks the caller to spawn the
    /// player object; every other variant turns into instructions per
    /// package, in order, resolving identities through the identity map and
    /// dropping packages whose identity is unknown.
    pub fn handle_server_message(&mut self, msg: &ServerMessage) -> (r: ClientDirectives)
        requires
            old(self).wf(),
        ensures
            final(self).wf(),
            final(self).forward() == old(self).forward(),
            final(self).reverse() == old(self).reverse(),
            msg.reliable > 0 ==> r.confirm == Some(
                ClientMessage { reliable: 0, message: ClientMessageInner::Confirm(msg.reliable) },
            ),
            msg.reliable == 0 ==> r.confirm is None,
            msg.message matches ServerMessageInner::LoginOk(id) ==> (
            if old(self).reverse().dom().contains(id) {
                final(self).my() == old(self).my() && r.events@ == Seq::<ClientEvent>::empty()
            } else {
                final(self).my() == Some(id) && r.events@ == seq![
                    ClientEvent::SpawnSelf { net_id: id },
                ]
            }),
            msg.message matches ServerMessageInner::Confirm(n) ==> final(self).my() == old(
                self,
            ).my() && r.events@ == Seq::<ClientEvent>::empty(),
            msg.message matches ServerMessageInner::SpawnEntities(ps) ==> final(self).my() == old(
                self,
            ).my() && r.events@ == spec_spawn_events(
                old(self).reverse(),
                ps@.map_values(|p: EntityPackage| p@),
                0,
            ),
            msg.message matches ServerMessageInner::UpdateEntities(ps) ==> final(self).my()
                == old(self).my() && r.events@ == spec_update_entity_events(
                old(self).reverse(),
                ps@.map_values(|p: EntityPackage| p@),
                0,
            ),
            msg.message matches ServerMessageInner::UpdatePositions { unix_time: _, packages }
                ==> final(self).my() == old(self).my() && r.events@ == spec_position_events(
                old(self).reverse(),
                old(self).my(),
                packages@,
                0,
            ),
            msg.message matches ServerMessageInner::UpdatePlayerLooks(ps) ==> final(self).my()
                == old(self).my() && r.events@ == spec_look_events(
                old(self).reverse(),
                old(self).my(),
                ps@,
                0,
            ),
            msg.message matches ServerMessageInner::UpdateVelocities(ps) ==> final(self).my()
                == old(self).my() && r.events@ == spec_velocity_events(
                old(self).reverse(),
                old(self).my(),
                ps@,
                0,
            ),
            msg.message matches ServerMessageInner::UpdateHealths(ps) ==> final(self).my() == old(
                self,
            ).my() && r.events@ == spec_health_events(old(self).reverse(), ps@, 0),
    {
        let confirm: Option<ClientMessage> = if msg.reliable > 0 {
            Some(ClientMessage::confirm(msg.reliable))
        } else {
            None
        };
        let mut events: Vec<ClientEvent> = Vec::new();
        match &msg.message {
            ServerMessageInner::Confirm(_) => {},
            ServerMessageInner::LoginOk(id) => {
                match self.identities.resolve_handle(*id) {
                    Some(_) => {},
                    None => {
                        self.my_id = Some(*id);
                        events.push(ClientEvent::SpawnSelf { net_id: *id });
                    },
                }
            },
            ServerMessageInner::SpawnEntities(ps) => {
                let ghost s = ps@.map_values(|p: EntityPackage| p@);
                let ghost rev = old(self).reverse();
                let ghost my = old(self).my();
                let mut k: usize = 0;
                proof {
                    assert(s.skip(0) =~= s);
                    assert(Seq::<ClientEvent>::empty() + spec_spawn_events(rev, s, 0)
                        =~= spec_spawn_events(rev, s, 0));
                }
                while k < ps.len()
                    invariant
                        self == old(self),
                        old(self).wf(),
                        k <= s.len(),
                        s == ps@.map_values(|p: EntityPackage| p@),
                        rev == old(self).reverse(),
                        my == old(self).my(),
                        s.len() == ps@.len(),
                        spec_spawn_events(rev, s, 0) == events@ + spec_spawn_events(
                            rev, s.skip(k as int),
                            k as int,
                        ),
                    decreases s.len() - k,
                {
                    let ghost suffix = s.skip(k as int);
                    proof {
                        assert(suffix[0] == s[k as int]);
                        assert(suffix.drop_first() =~= s.skip(k as int + 1));
                    }
                    let net_id = ps[k].net_id;
                    proof {
                        assert(s[k as int].net_id == net_id);
                    }
                    let ghost events_before = events@;
                    match self.identities.resolve_handle(net_id) {
                        Some(_) => {},
                        None => {
                            events.push(
                                ClientEvent::SpawnRemote { net_id, package_index: k },
                            );
                        },
                    }
                    proof {
                        assert(events_before + (spec_spawn_events(rev, suffix, k as int))
                            =~= events@ + spec_spawn_events(rev, s.skip(k as int + 1), k as int + 1));
                    }
                    k += 1;
                }
                proof {
                    assert(s.skip(s.len() as int).len() == 0);
                    assert(events@ + Seq::<ClientEvent>::empty() =~= events@);
                }
            },
            ServerMessageInner::UpdateEntities(ps) => {
                let ghost s = ps@.map_values(|p: EntityPackage| p@);
                let ghost rev = old(self).reverse();
                let ghost my = old(self).my();
                let mut k: usize = 0;
                proof {
                    assert(s.skip(0) =~= s);
                    assert(Seq::<ClientEvent>::empty() + spec_update_entity_events(rev, s, 0)
                        =~= spec_update_entity_events(rev, s, 0));
                }
                while k < ps.len()
                    invariant
                        self == old(self),
                        old(self).wf(),
                        k <= s.len(),
                        s == ps@.map_values(|p: EntityPackage| p@),
                        rev == old(self).reverse(),
                        my == old(self).my(),
                        s.len() == ps@.len(),
                        spec_update_entity_events(rev, s, 0) == events@ + spec_update_entity_events(
                            rev, s.skip(k as int),
                            k as int,
                        ),
                    decreases s.len() - k,
                {
                    let ghost suffix = s.skip(k as int);
                    proof {
                        assert(suffix[0] == s[k as int]);
                        assert(suffix.drop_first() =~= s.skip(k as int + 1));
                    }
                    let net_id = ps[k].net_id;
                    proof {
                        assert(s[k as int].net_id == net_id);
                    }
                    let ghost events_before = events@;
                    match self.identities.resolve_handle(net_id) {
                        Some(handle) => {
                            events.push(ClientEvent::UpdateEntity { handle, package_index: k });
                        },
                        None => {},
                    }
                    proof {
                        assert(events_before + (spec_update_entity_events(rev, suffix, k as int))
                            =~= events@ + spec_update_entity_events(rev, s.skip(k as int + 1), k as int + 1));
                    }
                    k += 1;
                }
                proof {
                    assert(s.skip(s.len() as int).len() == 0);
                    assert(events@ + Seq::<ClientEvent>::empty() =~= events@);
                }
            },
            ServerMessageInner::UpdatePositions { unix_time: _, packages: ps } => {
                let ghost s = ps@;
                let ghost rev = old(self).reverse();
                let ghost my = old(self).my();
                let mut k: usize = 0;
                proof {
                    assert(s.skip(0) =~= s);
                    assert(Seq::<ClientEvent>::empty() + spec_position_events(rev, my, s, 0)
                        =~= spec_position_events(rev, my, s, 0));
                }
                while k < ps.len()
                    invariant
                        self == old(self),
                        old(self).wf(),
                        k <= s.len(),
                        s == ps@,
                        rev == old(self).reverse(),
                        my == old(self).my(),
                        s.len() == ps@.len(),
                        spec_position_events(rev, my, s, 0) == events@ + spec_position_events(
                            rev, my, s.skip(k as int),
                            k as int,
                        ),
                    decreases s.len() - k,
                {
                    let ghost suffix = s.skip(k as int);
                    proof {
                        assert(suffix[0] == s[k as int]);
                        assert(suffix.drop_first() =~= s.skip(k as int + 1));
                    }
                    let net_id = ps[k].net_id;
                    proof {
                        assert(s[k as int].net_id == net_id);
                    }
                    let ghost events_before = events@;
                    match self.identities.resolve_handle(net_id) {
                        Some(handle) => {
                            let controlled = match self.my_id {
                                Some(m) => m == net_id,
                                None => false,
                            };
                            events.push(
                                ClientEvent::SetTransform {
                                    handle,
                                    package_index: k,
                                    apply_rotation: !controlled,
                                },
                            );
                        },
                        None => {},
                    }
                    proof {
                        assert(events_before + (spec_position_events(rev, my, suffix, k as int))
                            =~= events@ + spec_position_events(rev, my, s.skip(k as int + 1), k as int + 1));
                    }
                    k += 1;
                }
                proof {
                    assert(s.skip(s.len() as int).len() == 0);
                    assert(events@ + Seq::<ClientEvent>::empty() =~= events@);
                }
            },
            ServerMessageInner::UpdatePlayerLooks(ps) => {
                let ghost s = ps@;
                let ghost rev = old(self).reverse();
                let ghost my = old(self).my();
                let mut k: usize = 0;
                proof {
                    assert(s.skip(0) =~= s);
                    assert(Seq::<ClientEvent>::empty() + spec_look_events(rev, my, s, 0)
                        =~= spec_look_events(rev, my, s, 0));
                }
                while k < ps.len()
                    invariant
                        self == old(self),
                        old(self).wf(),
                        k <= s.len(),
                        s == ps@,
                        rev == old(self).reverse(),
                        my == old(self).my(),
                        s.len() == ps@.len(),
                        spec_look_events(rev, my, s, 0) == events@ + spec_look_events(
                            rev, my, s.skip(k as int),
                            k as int,
                        ),
                    decreases s.len() - k,
                {
                    let ghost suffix = s.skip(k as int);
                    proof {
                        assert(suffix[0] == s[k as int]);
                        assert(suffix.drop_first() =~= s.skip(k as int + 1));
                    }
                    let net_id = ps[k].net_id;
                    proof {
                        assert(s[k as int].net_id == net_id);
                    }
                    let ghost events_before = events@;
                    match self.identities.resolve_handle(net_id) {
                        Some(handle) => {
                            let controlled = match self.my_id {
                                Some(m) => m == net_id,
                                None => false,
                            };
                            if !controlled {
                                events.push(ClientEvent::SetLook { handle, package_index: k });
                            }
                        },
                        None => {},
                    }
                    proof {
                        assert(events_before + (spec_look_events(rev, my, suffix, k as int))
                            =~= events@ + spec_look_events(rev, my, s.skip(k as int + 1), k as int + 1));
                    }
                    k += 1;
                }
                proof {
                    assert(s.skip(s.len() as int).len() == 0);
                    assert(events@ + Seq::<ClientEvent>::empty() =~= events@);
                }
            },
            ServerMessageInner::UpdateVelocities(ps) => {
                let ghost s = ps@;
                let ghost rev = old(self).reverse();
                let ghost my = old(self).my();
                let mut k: usize = 0;
                proof {
                    assert(s.skip(0) =~= s);
                    assert(Seq::<ClientEvent>::empty() + spec_velocity_events(rev, my, s, 0)
                        =~= spec_velocity_events(rev, my, s, 0));
                }
                while k < ps.len()
                    invariant
                        self == old(self),
                        old(self).wf(),
                        k <= s.len(),
                        s == ps@,
                        rev == old(self).reverse(),
                        my == old(self).my(),
                        s.len() == ps@.len(),
                        spec_velocity_events(rev, my, s, 0) == events@ + spec_velocity_events(
                            rev, my, s.skip(k as int),
                            k as int,
                        ),
                    decreases s.len() - k,
                {
                    let ghost suffix = s.skip(k as int);
                    proof {
                        assert(suffix[0] == s[k as int]);
                        assert(suffix.drop_first() =~= s.skip(k as int + 1));
                    }
                    let net_id = ps[k].net_id;
                    proof {
                        assert(s[k as int].net_id == net_id);
                    }
                    let ghost events_before = events@;
                    match self.identities.resolve_handle(net_id) {
                        Some(handle) => {
                            let controlled = match self.my_id {
                                Some(m) => m == net_id,
                                None => false,
                            };
                            if !controlled {
                                events.push(
                                    ClientEvent::SetVelocity { handle, package_index: k },
                                );
                            }
                        },
                        None => {},
                    }
                    proof {
                        assert(events_before + (spec_velocity_events(rev, my, suffix, k as int))
                            =~= events@ + spec_velocity_events(rev, my, s.skip(k as int + 1), k as int + 1));
                    }
                    k += 1;
                }
                proof {
                    assert(s.skip(s.len() as int).len() == 0);
                    assert(events@ + Seq::<ClientEvent>::empty() =~= events@);
                }
            },
            ServerMessageInner::UpdateHealths(ps) => {
                let ghost s = ps@;
                let ghost rev = old(self).reverse();
                let ghost my = old(self).my();
                let mut k: usize = 0;
                proof {
                    assert(s.skip(0) =~= s);
                    assert(Seq::<ClientEvent>::empty() + spec_health_events(rev, s, 0)
                        =~= spec_health_events(rev, s, 0));
                }
                while k < ps.len()
                    invariant
                        self == old(self),
                        old(self).wf(),
                        k <= s.len(),
                        s == ps@,
                        rev == old(self).reverse(),
                        my == old(self).my(),
                        s.len() == ps@.len(),
                        spec_health_events(rev, s, 0) == events@ + spec_health_events(
                            rev, s.skip(k as int),
                            k as int,
                        ),
                    decreases s.len() - k,
                {
                    let ghost suffix = s.skip(k as int);
                    proof {
                        assert(suffix[0] == s[k as int]);
                        assert(suffix.drop_first() =~= s.skip(k as int + 1));
                    }
                    let net_id = ps[k].net_id;
                    proof {
                        assert(s[k as int].net_id == net_id);
                    }
                    let ghost events_before = events@;
                    match self.identities.resolve_handle(net_id) {
                        Some(handle) => {
                            events.push(ClientEvent::SetHealth { handle, package_index: k });
                        },
                        None => {},
                    }
                    proof {
                        assert(events_before + (spec_health_events(rev, suffix, k as int))
                            =~= events@ + spec_health_events(rev, s.skip(k as int + 1), k as int + 1));
                    }
                    k += 1;
                }
                proof {
                    assert(s.skip(s.len() as int).len() == 0);
                    assert(events@ + Seq::<ClientEvent>::empty() =~= events@);
                }
            },
        }
        ClientDirectives { confirm, events }
    }
}

} // verus!

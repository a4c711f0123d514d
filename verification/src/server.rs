//! The server's session core: the decisions taken for each inbound client
//! message. Identity allocation is monotonic and never reuses a number; a
//! login binds the new player object in the identity map and is answered
//! with a reliable acknowledgment carrying the assigned identity; a second
//! login from the same address is rejected; updates naming an unknown
//! identity are dropped, not errors. The surrounding I/O is left to the
//! caller — this core only maps a message to the action it demands.

use vstd::prelude::*;

use crate::NetIDType;
use crate::identity::{BindError, IdentityMap};
use crate::messages::{
    ClientMessage, ClientMessageInner, MyQuat, MyVec2, MyVec3, ServerMessage, ServerMessageInner,
};

verus! {

/// What the simulation is asked to do with a player object in response to a
/// client's message.
#[derive(Clone, Copy, Debug, PartialEq, Eq, Structural)]
pub enum SimAction {
    SetVelocity { handle: u64, velocity: MyVec2 },
    SetRotation { handle: u64, rotation: MyQuat },
    Jump { handle: u64 },
    Shoot { handle: u64, direction: MyVec3 },
}

/// The server core's verdict on one inbound client message.
pub enum ServerOutcome {
    /// Nothing to do (acknowledgments are handled by the I/O thread).
    Ignored,
    /// A login was accepted: the newly assigned identity and the reliable
    /// reply that tells the client its identity.
    NewPlayer { net_id: NetIDType, reply: ServerMessage },
    /// A second login from an address that already has a player.
    DuplicateLogin,
    /// A command to apply to a live player object.
    Apply(SimAction),
    /// The message named an identity with no live object: the update is
    /// dropped.
    UnknownIdentity(NetIDType),
}

/// The acknowledgment a received client message is owed: a reliable message
/// is answered at once with an unreliable confirmation naming its sequence
/// number; anything else gets none.
pub fn acknowledge(msg: &ClientMessage) -> (r: Option<ServerMessage>)
    ensures
        msg.reliable > 0 ==> (r matches Some(a) && a.reliable == 0 && a.message
            == ServerMessageInner::Confirm(msg.reliable)),
        msg.reliable == 0 ==> r is None,
{
    if msg.reliable > 0 {
        Some(ServerMessage::confirm(msg.reliable))
    } else {
        None
    }
}

/// The server-side session state: the monotonic identity counter, the
/// identity map, and the addresses already bound to a player.
pub struct ServerCore {
    id_counter: NetIDType,
    identities: IdentityMap,
    clients: Vec<u64>,
}

impl ServerCore {
    /// The identity the next allocation will hand out.
    pub closed spec fn counter(&self) -> NetIDType {
        self.id_counter
    }

    /// The handle-to-identity direction of the identity map.
    pub closed spec fn forward(&self) -> Map<u64, NetIDType> {
        self.identities.forward()
    }

    /// The identity-to-handle direction of the identity map.
    pub closed spec fn reverse(&self) -> Map<NetIDType, u64> {
        self.identities.reverse()
    }

    /// The addresses that already own a player object.
    pub closed spec fn clients(&self) -> Seq<u64> {
        self.clients@
    }

    /// Internal consistency: the identity map is well-formed, every bound
    /// identity lies below the counter (so no identity is ever reused), and
    /// no address is recorded twice.
    pub closed spec fn wf(&self) -> bool {
        &&& self.identities.wf()
        &&& forall|n: NetIDType|
            #[trigger] self.identities.reverse().dom().contains(n) ==> n < self.id_counter
        &&& forall|i: int, j: int|
            0 <= i < j < self.clients@.len() ==> self.clients@[i] != self.clients@[j]
    }

    /// A fresh core: the first allocated identity is 0.
    pub fn new() -> (r: Self)
        ensures
            r.wf(),
            r.counter() == 0,
            r.forward() == Map::<u64, NetIDType>::empty(),
            r.reverse() == Map::<NetIDType, u64>::empty(),
            r.clients() == Seq::<u64>::empty(),
    {
        ServerCore { id_counter: 0, identities: IdentityMap::new(), clients: Vec::new() }
    }

    /// Allocates the next identity for a freshly spawned simulation object
    /// (an enemy or a player) and binds it to the object's handle. The
    /// returned identity equals the old counter and was never in use.
    pub fn register_entity(&mut self, handle: u64) -> (r: Result<NetIDType, BindError>)
        requires
            old(self).wf(),
            old(self).counter() < NetIDType::MAX,
        ensures
            final(self).wf(),
            r matches Ok(n) ==> {
                &&& n == old(self).counter()
                &&& !old(self).reverse().dom().contains(n)
                &&& !old(self).forward().dom().contains(handle)
                &&& final(self).counter() == n + 1
                &&& final(self).forward() == old(self).forward().insert(handle, n)
                &&& final(self).reverse() == old(self).reverse().insert(n, handle)
                &&& final(self).clients() == old(self).clients()
            },
            r matches Err(e) ==> e == BindError::HandleInUse && old(
                self,
            ).forward().dom().contains(handle) && *final(self) == *old(self),
    {
        let n = self.id_counter;
        match self.identities.bind(handle, n) {
            Ok(()) => {
                self.id_counter = n + 1;
                proof {
                    assert(self.identities.reverse() == old(self).identities.reverse().insert(
                        n,
                        handle,
                    ));
                    assert(self.identities.forward() == old(self).identities.forward().insert(
                        handle,
                        n,
                    ));
                    assert forall|m: NetIDType|
                        #[trigger] self.identities.reverse().dom().contains(m) implies m
                        < self.id_counter by {
                        if m != n {
                            assert(old(self).reverse().dom().contains(m));
                        }
                    }
                }
                Ok(n)
            },
            Err(e) => {
                proof {
                    if e == BindError::IdentityInUse {
                        assert(old(self).reverse().dom().contains(n));
                        assert(n < old(self).id_counter);
                    }
                }
                Err(e)
            },
        }
    }

    /// The identity the next allocation will hand out.
    pub fn counter_value(&self) -> (r: NetIDType)
        ensures
            r == self.counter(),
    {
        self.id_counter
    }

    /// Whether an address already owns a player.
    pub fn has_client(&self, addr: u64) -> (r: bool)
        ensures
            r == self.clients().contains(addr),
    {
        let mut i: usize = 0;
        while i < self.clients.len()
            invariant
                i <= self.clients@.len(),
                forall|j: int| 0 <= j < i ==> self.clients@[j] != addr,
                self.clients() == self.clients@,
            decreases self.clients@.len() - i,
        {
            if self.clients[i] == addr {
                assert(self.clients()[i as int] == addr);
                return true;
            }
            i += 1;
        }
        false
    }

    /// Decides what one inbound client message demands. `new_handle` is the
    /// simulation handle a login would bind; it must not be bound yet.
    ///
    /// A first login from an address allocates the next identity, binds it,
    /// records the address, and is answered with a reliable reply naming the
    /// identity; a repeated login is rejected. Movement commands resolve
    /// their identity; an identity with no live object drops the update.
    /// Acknowledgments are ignored here (the I/O thread owns the pending
    /// table).
    pub fn handle_client_message(
        &mut self,
        addr: u64,
        new_handle: u64,
        msg: &ClientMessage,
    ) -> (r: ServerOutcome)
        requires
            old(self).wf(),
            old(self).counter() < NetIDType::MAX,
            !old(self).forward().dom().contains(new_handle),
        ensures
            final(self).wf(),
            msg.message == ClientMessageInner::Login && !old(self).clients().contains(addr)
                ==> {
                &&& r matches ServerOutcome::NewPlayer { net_id, reply } ==> {
                    &&& net_id == old(self).counter()
                    &&& !old(self).reverse().dom().contains(net_id)
                    &&& reply.reliable == 1
                    &&& reply.message == ServerMessageInner::LoginOk(net_id)
                    &&& final(self).counter() == net_id + 1
                    &&& final(self).forward() == old(self).forward().insert(new_handle, net_id)
                    &&& final(self).reverse() == old(self).reverse().insert(net_id, new_handle)
                    &&& final(self).clients() == old(self).clients().push(addr)
                }
                &&& r is NewPlayer
            },
            msg.message == ClientMessageInner::Login && old(self).clients().contains(addr) ==> r
                is DuplicateLogin && *final(self) == *old(self),
            msg.message matches ClientMessageInner::SetVelocity(id, v) ==> *final(self) == *old(
                self,
            ) && (if old(self).reverse().dom().contains(id) {
                r == ServerOutcome::Apply(
                    SimAction::SetVelocity { handle: old(self).reverse()[id], velocity: v },
                )
            } else {
                r == ServerOutcome::UnknownIdentity(id)
            }),
            msg.message matches ClientMessageInner::Rotation(id, q) ==> *final(self) == *old(self)
                && (if old(self).reverse().dom().contains(id) {
                r == ServerOutcome::Apply(
                    SimAction::SetRotation { handle: old(self).reverse()[id], rotation: q },
                )
            } else {
                r == ServerOutcome::UnknownIdentity(id)
            }),
            msg.message matches ClientMessageInner::Jump(id) ==> *final(self) == *old(self) && (
            if old(self).reverse().dom().contains(id) {
                r == ServerOutcome::Apply(SimAction::Jump { handle: old(self).reverse()[id] })
            } else {
                r == ServerOutcome::UnknownIdentity(id)
            }),
            msg.message matches ClientMessageInner::Shoot(id, d) ==> *final(self) == *old(self)
                && (if old(self).reverse().dom().contains(id) {
                r == ServerOutcome::Apply(
                    SimAction::Shoot { handle: old(self).reverse()[id], direction: d },
                )
            } else {
                r == ServerOutcome::UnknownIdentity(id)
            }),
            msg.message matches ClientMessageInner::Confirm(n) ==> r is Ignored && *final(self)
                == *old(self),
    {
        match &msg.message {
            ClientMessageInner::Confirm(_) => ServerOutcome::Ignored,
            ClientMessageInner::Login => {
                if self.has_client(addr) {
                    return ServerOutcome::DuplicateLogin;
                }
                match self.register_entity(new_handle) {
                    Ok(net_id) => {
                        self.clients.push(addr);
                        proof {
                            assert forall|i: int, j: int|
                                0 <= i < j < self.clients@.len() implies self.clients@[i]
                                != self.clients@[j] by {
                                if j < self.clients@.len() - 1 {
                                    assert(old(self).clients@[i] != old(self).clients@[j]);
                                } else {
                                    assert(self.clients@[i] == old(self).clients@[i]);
                                    assert(!old(self).clients().contains(addr));
                                }
                            }
                        }
                        let reply = ServerMessage::ok(1, net_id);
                        ServerOutcome::NewPlayer { net_id, reply }
                    },
                    Err(_) => {
                        // unreachable: the caller's fresh handle is unbound
                        ServerOutcome::Ignored
                    },
                }
            },
            ClientMessageInner::SetVelocity(id, v) => {
                match self.identities.resolve_handle(*id) {
                    Some(handle) => ServerOutcome::Apply(
                        SimAction::SetVelocity { handle, velocity: *v },
                    ),
                    None => ServerOutcome::UnknownIdentity(*id),
                }
            },
            ClientMessageInner::Rotation(id, q) => {
                match self.identities.resolve_handle(*id) {
                    Some(handle) => ServerOutcome::Apply(
                        SimAction::SetRotation { handle, rotation: *q },
                    ),
                    None => ServerOutcome::UnknownIdentity(*id),
                }
            },
            ClientMessageInner::Jump(id) => {
                match self.identities.resolve_handle(*id) {
                    Some(handle) => ServerOutcome::Apply(SimAction::Jump { handle }),
                    None => ServerOutcome::UnknownIdentity(*id),
                }
            },
            ClientMessageInner::Shoot(id, d) => {
                match self.identities.resolve_handle(*id) {
                    Some(handle) => ServerOutcome::Apply(
                        SimAction::Shoot { handle, direction: *d },
                    ),
                    None => ServerOutcome::UnknownIdentity(*id),
                }
            },
        }
    }

    /// The identity bound to a handle, if any.
    pub fn resolve_identity(&self, handle: u64) -> (r: Option<NetIDType>)
        requires
            self.wf(),
        ensures
            r matches Some(n) ==> self.forward().dom().contains(handle) && self.forward()[handle]
                == n,
            r is None ==> !self.forward().dom().contains(handle),
    {
        self.identities.resolve_identity(handle)
    }

    /// The handle bound to an identity, if any.
    pub fn resolve_handle(&self, identity: NetIDType) -> (r: Option<u64>)
        requires
            self.wf(),
        ensures
            r matches Some(h) ==> self.reverse().dom().contains(identity)
                && self.reverse()[identity] == h,
            r is None ==> !self.reverse().dom().contains(identity),
    {
        self.identities.resolve_handle(identity)
    }

    /// Unbinds a despawned object's identity in both directions.
    pub fn unbind(&mut self, identity: NetIDType)
        requires
            old(self).wf(),
        ensures
            final(self).wf(),
            final(self).counter() == old(self).counter(),
            final(self).clients() == old(self).clients(),
            final(self).reverse() == old(self).reverse().remove(identity),
            final(self).forward() == (if old(self).reverse().dom().contains(identity) {
                old(self).forward().remove(old(self).reverse()[identity])
            } else {
                old(self).forward()
            }),
    {
        self.identities.unbind(identity);
        proof {
            assert forall|m: NetIDType|
                #[trigger] self.identities.reverse().dom().contains(m) implies m
                < self.id_counter by {
                assert(old(self).reverse().dom().contains(m));
            }
        }
    }
}

} // verus!

//! The message types of the wire protocol: two independent value spaces
//! (`ClientMessage` and `ServerMessage`), the per-entity component
//! descriptors, and the update packages they carry.
//!
//! Numeric fields that the simulation treats as single-precision values
//! (positions, normalized quaternion components, velocities, health) are held
//! here as their raw 32-bit patterns: the core carries the data without
//! interpreting it.

use vstd::prelude::*;

use crate::NetIDType;

verus! {

/// A three-component vector; each field is the raw 32-bit pattern of one
/// single-precision coordinate.
#[derive(Clone, Copy, Debug, PartialEq, Eq, Structural)]
pub struct MyVec3 {
    pub x: u32,
    pub y: u32,
    pub z: u32,
}

/// A quaternion; each field is the raw 32-bit pattern of one normalized
/// component.
#[derive(Clone, Copy, Debug, PartialEq, Eq, Structural)]
pub struct MyQuat {
    pub x: u32,
    pub y: u32,
    pub z: u32,
    pub w: u32,
}

/// A two-component vector; each field is the raw 32-bit pattern of one
/// single-precision coordinate.
#[derive(Clone, Copy, Debug, PartialEq, Eq, Structural)]
pub struct MyVec2 {
    pub x: u32,
    pub y: u32,
}

/// One positional update: where a replicated object is and how it is turned.
#[derive(Clone, Copy, Debug, PartialEq, Eq, Structural)]
pub struct PositionPackage {
    pub net_id: NetIDType,
    pub position: MyVec3,
    pub rotation: MyQuat,
}

/// One look-direction update for a player object.
#[derive(Clone, Copy, Debug, PartialEq, Eq, Structural)]
pub struct PlayerLookPackage {
    pub net_id: NetIDType,
    pub rotation: MyQuat,
}

/// One velocity update for a replicated object.
#[derive(Clone, Copy, Debug, PartialEq, Eq, Structural)]
pub struct VelocityPackage {
    pub net_id: NetIDType,
    pub velocity: MyVec3,
}

/// One health update; `health` is the raw 32-bit pattern of the value.
#[derive(Clone, Copy, Debug, PartialEq, Eq, Structural)]
pub struct HealthPackage {
    pub net_id: NetIDType,
    pub health: u32,
}

/// A generic, serializable description of one aspect of a replicated object;
/// the receiver reconstructs the corresponding local sub-object from it.
/// Scalar parameters (radii, heights, color channels, health, light size)
/// are raw 32-bit patterns of single-precision values.
#[derive(Clone, Copy, Debug, PartialEq, Eq, Structural)]
pub enum NetComponent {
    LinearVelocity(MyVec3),
    Transform { translation: MyVec3, rotation: MyQuat, scale: MyVec3 },
    Sphere(u32),
    SphereCollider(u32),
    Capsule(u32, u32),
    CapsuleCollider(u32, u32),
    ColorMaterial { r: u32, g: u32, b: u32 },
    Health(u32),
    Player,
    Enemy,
    Radius(u32),
    SpotLight(u32),
}

/// A replicated object described generically: its stable identity and the
/// list of component descriptors that reconstruct it remotely.
#[derive(Clone, Debug, PartialEq, Eq)]
pub struct EntityPackage {
    pub net_id: NetIDType,
    pub components: Vec<NetComponent>,
}

/// A message from the server. `reliable == 0` means fire-and-forget;
/// `reliable > 0` is a sequence number requiring acknowledgment. Callers
/// request reliability with any positive placeholder; the sending side
/// assigns the real sequence number.
#[derive(Clone, Debug, PartialEq, Eq)]
pub struct ServerMessage {
    pub reliable: u64,
    pub message: ServerMessageInner,
}

#[derive(Clone, Debug, PartialEq, Eq)]
pub enum ServerMessageInner {
    /// Tells a freshly logged-in client which identity is its own.
    LoginOk(NetIDType),
    SpawnEntities(Vec<EntityPackage>),
    UpdateEntities(Vec<EntityPackage>),
    /// Positional state as of the carried authoritative timestamp
    /// (milliseconds on the server's clock), so clients can reconcile
    /// predictions against the right instant.
    UpdatePositions { unix_time: u64, packages: Vec<PositionPackage> },
    UpdatePlayerLooks(Vec<PlayerLookPackage>),
    UpdateVelocities(Vec<VelocityPackage>),
    UpdateHealths(Vec<HealthPackage>),
    /// Acknowledges the reliable client message with this sequence number.
    Confirm(u64),
}

/// A message from a client; `reliable` as in [`ServerMessage`].
#[derive(Clone, Copy, Debug, PartialEq, Eq, Structural)]
pub struct ClientMessage {
    pub reliable: u64,
    pub message: ClientMessageInner,
}

#[derive(Clone, Copy, Debug, PartialEq, Eq, Structural)]
pub enum ClientMessageInner {
    Login,
    SetVelocity(NetIDType, MyVec2),
    Rotation(NetIDType, MyQuat),
    /// Acknowledges the reliable server message with this sequence number,
    /// so the server stops resending it.
    Confirm(u64),
    Jump(NetIDType),
    Shoot(NetIDType, MyVec3),
}

/// The mathematical model of an [`EntityPackage`]: the component list as a
/// sequence.
pub struct EntityPackageView {
    pub net_id: NetIDType,
    pub components: Seq<NetComponent>,
}

impl View for EntityPackage {
    type V = EntityPackageView;

    open spec fn view(&self) -> EntityPackageView {
        EntityPackageView { net_id: self.net_id, components: self.components@ }
    }
}

/// The mathematical model of a [`ServerMessageInner`]: every package list as
/// a sequence.
pub enum ServerMessageInnerView {
    LoginOk(NetIDType),
    SpawnEntities(Seq<EntityPackageView>),
    UpdateEntities(Seq<EntityPackageView>),
    UpdatePositions { unix_time: u64, packages: Seq<PositionPackage> },
    UpdatePlayerLooks(Seq<PlayerLookPackage>),
    UpdateVelocities(Seq<VelocityPackage>),
    UpdateHealths(Seq<HealthPackage>),
    Confirm(u64),
}

impl View for ServerMessageInner {
    type V = ServerMessageInnerView;

    open spec fn view(&self) -> ServerMessageInnerView {
        match *self {
            ServerMessageInner::LoginOk(id) => ServerMessageInnerView::LoginOk(id),
            ServerMessageInner::SpawnEntities(ps) => ServerMessageInnerView::SpawnEntities(
                ps@.map_values(|p: EntityPackage| p@),
            ),
            ServerMessageInner::UpdateEntities(ps) => ServerMessageInnerView::UpdateEntities(
                ps@.map_values(|p: EntityPackage| p@),
            ),
            ServerMessageInner::UpdatePositions { unix_time, packages } => ServerMessageInnerView::UpdatePositions {
                unix_time,
                packages: packages@,
            },
            ServerMessageInner::UpdatePlayerLooks(ps) => ServerMessageInnerView::UpdatePlayerLooks(
                ps@,
            ),
            ServerMessageInner::UpdateVelocities(ps) => ServerMessageInnerView::UpdateVelocities(
                ps@,
            ),
            ServerMessageInner::UpdateHealths(ps) => ServerMessageInnerView::UpdateHealths(ps@),
            ServerMessageInner::Confirm(n) => ServerMessageInnerView::Confirm(n),
        }
    }
}

/// The mathematical model of a [`ServerMessage`].
pub struct ServerMessageView {
    pub reliable: u64,
    pub message: ServerMessageInnerView,
}

impl View for ServerMessage {
    type V = ServerMessageView;

    open spec fn view(&self) -> ServerMessageView {
        ServerMessageView { reliable: self.reliable, message: self.message@ }
    }
}

impl ServerMessage {
    pub fn ok(reliable: u64, net_id: NetIDType) -> (r: Self)
        ensures
            r.reliable == reliable,
            r.message == ServerMessageInner::LoginOk(net_id),
    {
        Self { reliable, message: ServerMessageInner::LoginOk(net_id) }
    }

    /// Acknowledges a reliable client message. An acknowledgment is never
    /// itself reliable: escalating it would demand an acknowledgment of the
    /// acknowledgment, without end.
    pub fn confirm(id: u64) -> (r: Self)
        ensures
            r.reliable == 0,
            r.message == ServerMessageInner::Confirm(id),
    {
        Self { reliable: 0, message: ServerMessageInner::Confirm(id) }
    }

    /// Health updates bypass the distance throttle but, like the other
    /// state channels, drift is corrected by the next update, so they go
    /// unreliably.
    pub fn update_healths(packages: Vec<HealthPackage>) -> (r: Self)
        ensures
            r.reliable == 0,
            r.message == ServerMessageInner::UpdateHealths(packages),
    {
        Self { reliable: 0, message: ServerMessageInner::UpdateHealths(packages) }
    }

    pub fn spawn_entities(reliable: u64, packages: Vec<EntityPackage>) -> (r: Self)
        ensures
            r.reliable == reliable,
            r.message == ServerMessageInner::SpawnEntities(packages),
    {
        Self { reliable, message: ServerMessageInner::SpawnEntities(packages) }
    }

    pub fn update_entities(reliable: u64, packages: Vec<EntityPackage>) -> (r: Self)
        ensures
            r.reliable == reliable,
            r.message == ServerMessageInner::UpdateEntities(packages),
    {
        Self { reliable, message: ServerMessageInner::UpdateEntities(packages) }
    }

    /// A positional broadcast stamped with the authoritative instant it
    /// describes.
    pub fn update_positions(unix_time: u64, packages: Vec<PositionPackage>) -> (r: Self)
        ensures
            r.reliable == 0,
            r.message == (ServerMessageInner::UpdatePositions { unix_time, packages }),
    {
        Self { reliable: 0, message: ServerMessageInner::UpdatePositions { unix_time, packages } }
    }

    pub fn update_velocities(packages: Vec<VelocityPackage>) -> (r: Self)
        ensures
            r.reliable == 0,
            r.message == ServerMessageInner::UpdateVelocities(packages),
    {
        Self { reliable: 0, message: ServerMessageInner::UpdateVelocities(packages) }
    }

    pub fn update_player_looks(packages: Vec<PlayerLookPackage>) -> (r: Self)
        ensures
            r.reliable == 0,
            r.message == ServerMessageInner::UpdatePlayerLooks(packages),
    {
        Self { reliable: 0, message: ServerMessageInner::UpdatePlayerLooks(packages) }
    }
}

impl ClientMessage {
    pub fn login() -> (r: Self)
        ensures
            r.reliable == 1,
            r.message == ClientMessageInner::Login,
    {
        Self { reliable: 1, message: ClientMessageInner::Login }
    }

    pub fn setvelocity(me: NetIDType, velocity: MyVec2) -> (r: Self)
        ensures
            r.reliable == 0,
            r.message == ClientMessageInner::SetVelocity(me, velocity),
    {
        Self { reliable: 0, message: ClientMessageInner::SetVelocity(me, velocity) }
    }

    pub fn jump(me: NetIDType) -> (r: Self)
        ensures
            r.reliable == 1,
            r.message == ClientMessageInner::Jump(me),
    {
        Self { reliable: 1, message: ClientMessageInner::Jump(me) }
    }

    pub fn shoot(me: NetIDType, direction: MyVec3) -> (r: Self)
        ensures
            r.reliable == 1,
            r.message == ClientMessageInner::Shoot(me, direction),
    {
        Self { reliable: 1, message: ClientMessageInner::Shoot(me, direction) }
    }

    pub fn rotation(me: NetIDType, rotation: MyQuat) -> (r: Self)
        ensures
            r.reliable == 0,
            r.message == ClientMessageInner::Rotation(me, rotation),
    {
        Self { reliable: 0, message: ClientMessageInner::Rotation(me, rotation) }
    }

    pub fn confirm(id: u64) -> (r: Self)
        ensures
            r.reliable == 0,
            r.message == ClientMessageInner::Confirm(id),
    {
        Self { reliable: 0, message: ClientMessageInner::Confirm(id) }
    }
}

} // verus!

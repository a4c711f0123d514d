//! The wire codec: a self-describing tagged binary encoding of every message
//! type into a fixed-size, zero-padded frame, and a total decoder that
//! rejects malformed input by returning nothing.
//!
//! The format, little-endian throughout: a message is its `reliable` sequence
//! number (8 bytes), a variant tag (1 byte), then the payload. A list is a
//! 2-byte element count followed by the elements. Identities are 16 bytes;
//! 32-bit numeric fields are 4 bytes.

use vstd::prelude::*;
use vstd::bytes::*;

use crate::FRAME_LEN;
use crate::messages::{
    ClientMessage, ClientMessageInner, EntityPackage, EntityPackageView, HealthPackage, MyQuat,
    MyVec2, MyVec3, NetComponent, PlayerLookPackage, PositionPackage, ServerMessage,
    ServerMessageInner, ServerMessageInnerView, ServerMessageView, VelocityPackage,
};
use crate::wire::{
    lemma_sp_u128_at, lemma_sp_u16_at, lemma_sp_u32_at, lemma_sp_u64_at, lemma_sp_u8_at,
    lemma_subrange_split, put_u128, put_u16, put_u32, put_u64, put_u8, sp_u128, sp_u16, sp_u32,
    sp_u64, sp_u8,
};

verus! {

// ---------------------------------------------------------------------------
// Spec-level encoders.
// ---------------------------------------------------------------------------

pub open spec fn spec_enc_vec2(v: MyVec2) -> Seq<u8> {
    spec_u32_to_le_bytes(v.x) + spec_u32_to_le_bytes(v.y)
}

pub open spec fn spec_enc_vec3(v: MyVec3) -> Seq<u8> {
    spec_u32_to_le_bytes(v.x) + spec_u32_to_le_bytes(v.y) + spec_u32_to_le_bytes(v.z)
}

pub open spec fn spec_enc_quat(q: MyQuat) -> Seq<u8> {
    spec_u32_to_le_bytes(q.x) + spec_u32_to_le_bytes(q.y) + spec_u32_to_le_bytes(q.z)
        + spec_u32_to_le_bytes(q.w)
}

pub open spec fn spec_enc_component(c: NetComponent) -> Seq<u8> {
    match c {
        NetComponent::LinearVelocity(v) => seq![0u8] + spec_enc_vec3(v),
        NetComponent::Transform { translation, rotation, scale } => seq![1u8] + spec_enc_vec3(
            translation,
        ) + spec_enc_quat(rotation) + spec_enc_vec3(scale),
        NetComponent::Sphere(r) => seq![2u8] + spec_u32_to_le_bytes(r),
        NetComponent::SphereCollider(r) => seq![3u8] + spec_u32_to_le_bytes(r),
        NetComponent::Capsule(r, h) => seq![4u8] + spec_u32_to_le_bytes(r) + spec_u32_to_le_bytes(
            h,
        ),
        NetComponent::CapsuleCollider(r, h) => seq![5u8] + spec_u32_to_le_bytes(r)
            + spec_u32_to_le_bytes(h),
        NetComponent::ColorMaterial { r, g, b } => seq![6u8] + spec_u32_to_le_bytes(r)
            + spec_u32_to_le_bytes(g) + spec_u32_to_le_bytes(b),
        NetComponent::Health(v) => seq![7u8] + spec_u32_to_le_bytes(v),
        NetComponent::Player => seq![8u8],
        NetComponent::Enemy => seq![9u8],
        NetComponent::Radius(v) => seq![10u8] + spec_u32_to_le_bytes(v),
        NetComponent::SpotLight(v) => seq![11u8] + spec_u32_to_le_bytes(v),
    }
}

pub open spec fn spec_enc_components(s: Seq<NetComponent>) -> Seq<u8>
    decreases s.len(),
{
    if s.len() == 0 {
        Seq::empty()
    } else {
        spec_enc_component(s[0]) + spec_enc_components(s.drop_first())
    }
}

pub open spec fn spec_enc_entity_package(p: EntityPackageView) -> Seq<u8> {
    spec_u128_to_le_bytes(p.net_id) + spec_u16_to_le_bytes(p.components.len() as u16)
        + spec_enc_components(p.components)
}

pub open spec fn spec_enc_entity_packages(s: Seq<EntityPackageView>) -> Seq<u8>
    decreases s.len(),
{
    if s.len() == 0 {
        Seq::empty()
    } else {
        spec_enc_entity_package(s[0]) + spec_enc_entity_packages(s.drop_first())
    }
}

pub open spec fn spec_enc_position_package(p: PositionPackage) -> Seq<u8> {
    spec_u128_to_le_bytes(p.net_id) + spec_enc_vec3(p.position) + spec_enc_quat(p.rotation)
}

pub open spec fn spec_enc_position_packages(s: Seq<PositionPackage>) -> Seq<u8>
    decreases s.len(),
{
    if s.len() == 0 {
        Seq::empty()
    } else {
        spec_enc_position_package(s[0]) + spec_enc_position_packages(s.drop_first())
    }
}

pub open spec fn spec_enc_look_package(p: PlayerLookPackage) -> Seq<u8> {
    spec_u128_to_le_bytes(p.net_id) + spec_enc_quat(p.rotation)
}

pub open spec fn spec_enc_look_packages(s: Seq<PlayerLookPackage>) -> Seq<u8>
    decreases s.len(),
{
    if s.len() == 0 {
        Seq::empty()
    } else {
        spec_enc_look_package(s[0]) + spec_enc_look_packages(s.drop_first())
    }
}

pub open spec fn spec_enc_velocity_package(p: VelocityPackage) -> Seq<u8> {
    spec_u128_to_le_bytes(p.net_id) + spec_enc_vec3(p.velocity)
}

pub open spec fn spec_enc_velocity_packages(s: Seq<VelocityPackage>) -> Seq<u8>
    decreases s.len(),
{
    if s.len() == 0 {
        Seq::empty()
    } else {
        spec_enc_velocity_package(s[0]) + spec_enc_velocity_packages(s.drop_first())
    }
}

pub open spec fn spec_enc_health_package(p: HealthPackage) -> Seq<u8> {
    spec_u128_to_le_bytes(p.net_id) + spec_u32_to_le_bytes(p.health)
}

pub open spec fn spec_enc_health_packages(s: Seq<HealthPackage>) -> Seq<u8>
    decreases s.len(),
{
    if s.len() == 0 {
        Seq::empty()
    } else {
        spec_enc_health_package(s[0]) + spec_enc_health_packages(s.drop_first())
    }
}

pub open spec fn spec_enc_server_inner(m: ServerMessageInnerView) -> Seq<u8> {
    match m {
        ServerMessageInnerView::LoginOk(id) => seq![0u8] + spec_u128_to_le_bytes(id),
        ServerMessageInnerView::SpawnEntities(ps) => seq![1u8] + spec_u16_to_le_bytes(
            ps.len() as u16,
        ) + spec_enc_entity_packages(ps),
        ServerMessageInnerView::UpdateEntities(ps) => seq![2u8] + spec_u16_to_le_bytes(
            ps.len() as u16,
        ) + spec_enc_entity_packages(ps),
        ServerMessageInnerView::UpdatePositions { unix_time, packages } => seq![3u8]
            + spec_u64_to_le_bytes(unix_time) + spec_u16_to_le_bytes(packages.len() as u16)
            + spec_enc_position_packages(packages),
        ServerMessageInnerView::UpdatePlayerLooks(ps) => seq![4u8] + spec_u16_to_le_bytes(
            ps.len() as u16,
        ) + spec_enc_look_packages(ps),
        ServerMessageInnerView::UpdateVelocities(ps) => seq![5u8] + spec_u16_to_le_bytes(
            ps.len() as u16,
        ) + spec_enc_velocity_packages(ps),
        ServerMessageInnerView::UpdateHealths(ps) => seq![6u8] + spec_u16_to_le_bytes(
            ps.len() as u16,
        ) + spec_enc_health_packages(ps),
        ServerMessageInnerView::Confirm(n) => seq![7u8] + spec_u64_to_le_bytes(n),
    }
}

pub open spec fn spec_enc_server(m: ServerMessageView) -> Seq<u8> {
    spec_u64_to_le_bytes(m.reliable) + spec_enc_server_inner(m.message)
}

pub open spec fn spec_enc_client_inner(m: ClientMessageInner) -> Seq<u8> {
    match m {
        ClientMessageInner::Login => seq![0u8],
        ClientMessageInner::SetVelocity(id, v) => seq![1u8] + spec_u128_to_le_bytes(id)
            + spec_enc_vec2(v),
        ClientMessageInner::Rotation(id, q) => seq![2u8] + spec_u128_to_le_bytes(id)
            + spec_enc_quat(q),
        ClientMessageInner::Confirm(n) => seq![3u8] + spec_u64_to_le_bytes(n),
        ClientMessageInner::Jump(id) => seq![4u8] + spec_u128_to_le_bytes(id),
        ClientMessageInner::Shoot(id, v) => seq![5u8] + spec_u128_to_le_bytes(id) + spec_enc_vec3(
            v,
        ),
    }
}

pub open spec fn spec_enc_client(m: ClientMessage) -> Seq<u8> {
    spec_u64_to_le_bytes(m.reliable) + spec_enc_client_inner(m.message)
}

/// The frame actually sent: the encoding, zero-padded to [`FRAME_LEN`] bytes.
pub open spec fn spec_server_frame(m: ServerMessageView) -> Seq<u8> {
    spec_enc_server(m) + Seq::new((FRAME_LEN - spec_enc_server(m).len()) as nat, |j: int| 0u8)
}

/// The frame actually sent: the encoding, zero-padded to [`FRAME_LEN`] bytes.
pub open spec fn spec_client_frame(m: ClientMessage) -> Seq<u8> {
    spec_enc_client(m) + Seq::new((FRAME_LEN - spec_enc_client(m).len()) as nat, |j: int| 0u8)
}

// ---------------------------------------------------------------------------
// Spec-level parsers. Trailing bytes after a complete message are ignored,
// so zero-padding never disturbs a decode.
// ---------------------------------------------------------------------------

pub open spec fn sp_vec2(b: Seq<u8>, i: int) -> Option<(MyVec2, int)> {
    match sp_u32(b, i) {
        Some((x, j)) => match sp_u32(b, j) {
            Some((y, k)) => Some((MyVec2 { x, y }, k)),
            None => None,
        },
        None => None,
    }
}

pub open spec fn sp_vec3(b: Seq<u8>, i: int) -> Option<(MyVec3, int)> {
    match sp_u32(b, i) {
        Some((x, j)) => match sp_u32(b, j) {
            Some((y, k)) => match sp_u32(b, k) {
                Some((z, l)) => Some((MyVec3 { x, y, z }, l)),
                None => None,
            },
            None => None,
        },
        None => None,
    }
}

pub open spec fn sp_quat(b: Seq<u8>, i: int) -> Option<(MyQuat, int)> {
    match sp_u32(b, i) {
        Some((x, j)) => match sp_u32(b, j) {
            Some((y, k)) => match sp_u32(b, k) {
                Some((z, l)) => match sp_u32(b, l) {
                    Some((w, m)) => Some((MyQuat { x, y, z, w }, m)),
                    None => None,
                },
                None => None,
            },
            None => None,
        },
        None => None,
    }
}

pub open spec fn sp_component(b: Seq<u8>, i: int) -> Option<(NetComponent, int)> {
    match sp_u8(b, i) {
        Some((tag, j)) => if tag == 0 {
            match sp_vec3(b, j) {
                Some((v, k)) => Some((NetComponent::LinearVelocity(v), k)),
                None => None,
            }
        } else if tag == 1 {
            match sp_vec3(b, j) {
                Some((translation, k)) => match sp_quat(b, k) {
                    Some((rotation, l)) => match sp_vec3(b, l) {
                        Some((scale, m)) => Some(
                            (NetComponent::Transform { translation, rotation, scale }, m),
                        ),
                        None => None,
                    },
                    None => None,
                },
                None => None,
            }
        } else if tag == 2 {
            match sp_u32(b, j) {
                Some((r, k)) => Some((NetComponent::Sphere(r), k)),
                None => None,
            }
        } else if tag == 3 {
            match sp_u32(b, j) {
                Some((r, k)) => Some((NetComponent::SphereCollider(r), k)),
                None => None,
            }
        } else if tag == 4 {
            match sp_u32(b, j) {
                Some((r, k)) => match sp_u32(b, k) {
                    Some((h, l)) => Some((NetComponent::Capsule(r, h), l)),
                    None => None,
                },
                None => None,
            }
        } else if tag == 5 {
            match sp_u32(b, j) {
                Some((r, k)) => match sp_u32(b, k) {
                    Some((h, l)) => Some((NetComponent::CapsuleCollider(r, h), l)),
                    None => None,
                },
                None => None,
            }
        } else if tag == 6 {
            match sp_u32(b, j) {
                Some((r, k)) => match sp_u32(b, k) {
                    Some((g, l)) => match sp_u32(b, l) {
                        Some((bl, m)) => Some((NetComponent::ColorMaterial { r, g, b: bl }, m)),
                        None => None,
                    },
                    None => None,
                },
                None => None,
            }
        } else if tag == 7 {
            match sp_u32(b, j) {
                Some((v, k)) => Some((NetComponent::Health(v), k)),
                None => None,
            }
        } else if tag == 8 {
            Some((NetComponent::Player, j))
        } else if tag == 9 {
            Some((NetComponent::Enemy, j))
        } else if tag == 10 {
            match sp_u32(b, j) {
                Some((v, k)) => Some((NetComponent::Radius(v), k)),
                None => None,
            }
        } else if tag == 11 {
            match sp_u32(b, j) {
                Some((v, k)) => Some((NetComponent::SpotLight(v), k)),
                None => None,
            }
        } else {
            None
        },
        None => None,
    }
}

pub open spec fn sp_components(b: Seq<u8>, i: int, n: nat) -> Option<(Seq<NetComponent>, int)>
    decreases n,
{
    if n == 0 {
        Some((Seq::empty(), i))
    } else {
        match sp_component(b, i) {
            Some((c, j)) => match sp_components(b, j, (n - 1) as nat) {
                Some((s, k)) => Some((seq![c] + s, k)),
                None => None,
            },
            None => None,
        }
    }
}

pub open spec fn sp_entity_package(b: Seq<u8>, i: int) -> Option<(EntityPackageView, int)> {
    match sp_u128(b, i) {
        Some((net_id, j)) => match sp_u16(b, j) {
            Some((n, k)) => match sp_components(b, k, n as nat) {
                Some((s, l)) => Some((EntityPackageView { net_id, components: s }, l)),
                None => None,
            },
            None => None,
        },
        None => None,
    }
}


pub open spec fn sp_entity_packages(b: Seq<u8>, i: int, n: nat) -> Option<
    (Seq<EntityPackageView>, int),
>
    decreases n,
{
    if n == 0 {
        Some((Seq::empty(), i))
    } else {
        match sp_entity_package(b, i) {
            Some((p, j)) => match sp_entity_packages(b, j, (n - 1) as nat) {
                Some((s, k)) => Some((seq![p] + s, k)),
                None => None,
            },
            None => None,
        }
    }
}

pub open spec fn sp_position_package(b: Seq<u8>, i: int) -> Option<(PositionPackage, int)> {
    match sp_u128(b, i) {
        Some((net_id, j)) => match sp_vec3(b, j) {
            Some((position, k)) => match sp_quat(b, k) {
                Some((rotation, l)) => Some((PositionPackage { net_id, position, rotation }, l)),
                None => None,
            },
            None => None,
        },
        None => None,
    }
}

pub open spec fn sp_position_packages(b: Seq<u8>, i: int, n: nat) -> Option<
    (Seq<PositionPackage>, int),
>
    decreases n,
{
    if n == 0 {
        Some((Seq::empty(), i))
    } else {
        match sp_position_package(b, i) {
            Some((p, j)) => match sp_position_packages(b, j, (n - 1) as nat) {
                Some((s, k)) => Some((seq![p] + s, k)),
                None => None,
            },
            None => None,
        }
    }
}

pub open spec fn sp_look_package(b: Seq<u8>, i: int) -> Option<(PlayerLookPackage, int)> {
    match sp_u128(b, i) {
        Some((net_id, j)) => match sp_quat(b, j) {
            Some((rotation, k)) => Some((PlayerLookPackage { net_id, rotation }, k)),
            None => None,
        },
        None => None,
    }
}

pub open spec fn sp_look_packages(b: Seq<u8>, i: int, n: nat) -> Option<
    (Seq<PlayerLookPackage>, int),
>
    decreases n,
{
    if n == 0 {
        Some((Seq::empty(), i))
    } else {
        match sp_look_package(b, i) {
            Some((p, j)) => match sp_look_packages(b, j, (n - 1) as nat) {
                Some((s, k)) => Some((seq![p] + s, k)),
                None => None,
            },
            None => None,
        }
    }
}

pub open spec fn sp_velocity_package(b: Seq<u8>, i: int) -> Option<(VelocityPackage, int)> {
    match sp_u128(b, i) {
        Some((net_id, j)) => match sp_vec3(b, j) {
            Some((velocity, k)) => Some((VelocityPackage { net_id, velocity }, k)),
            None => None,
        },
        None => None,
    }
}

pub open spec fn sp_velocity_packages(b: Seq<u8>, i: int, n: nat) -> Option<
    (Seq<VelocityPackage>, int),
>
    decreases n,
{
    if n == 0 {
        Some((Seq::empty(), i))
    } else {
        match sp_velocity_package(b, i) {
            Some((p, j)) => match sp_velocity_packages(b, j, (n - 1) as nat) {
                Some((s, k)) => Some((seq![p] + s, k)),
                None => None,
            },
            None => None,
        }
    }
}

pub open spec fn sp_health_package(b: Seq<u8>, i: int) -> Option<(HealthPackage, int)> {
    match sp_u128(b, i) {
        Some((net_id, j)) => match sp_u32(b, j) {
            Some((health, k)) => Some((HealthPackage { net_id, health }, k)),
            None => None,
        },
        None => None,
    }
}

pub open spec fn sp_health_packages(b: Seq<u8>, i: int, n: nat) -> Option<
    (Seq<HealthPackage>, int),
>
    decreases n,
{
    if n == 0 {
        Some((Seq::empty(), i))
    } else {
        match sp_health_package(b, i) {
            Some((p, j)) => match sp_health_packages(b, j, (n - 1) as nat) {
                Some((s, k)) => Some((seq![p] + s, k)),
                None => None,
            },
            None => None,
        }
    }
}

pub open spec fn sp_server_inner(b: Seq<u8>, i: int) -> Option<(ServerMessageInnerView, int)> {
    match sp_u8(b, i) {
        Some((tag, j)) => if tag == 0 {
            match sp_u128(b, j) {
                Some((id, k)) => Some((ServerMessageInnerView::LoginOk(id), k)),
                None => None,
            }
        } else if tag == 1 {
            match sp_u16(b, j) {
                Some((n, k)) => match sp_entity_packages(b, k, n as nat) {
                    Some((s, l)) => Some((ServerMessageInnerView::SpawnEntities(s), l)),
                    None => None,
                },
                None => None,
            }
        } else if tag == 2 {
            match sp_u16(b, j) {
                Some((n, k)) => match sp_entity_packages(b, k, n as nat) {
                    Some((s, l)) => Some((ServerMessageInnerView::UpdateEntities(s), l)),
                    None => None,
                },
                None => None,
            }
        } else if tag == 3 {
            match sp_u64(b, j) {
                Some((unix_time, j2)) => match sp_u16(b, j2) {
                    Some((n, k)) => match sp_position_packages(b, k, n as nat) {
                        Some((s, l)) => Some(
                            (ServerMessageInnerView::UpdatePositions { unix_time, packages: s }, l),
                        ),
                        None => None,
                    },
                    None => None,
                },
                None => None,
            }
        } else if tag == 4 {
            match sp_u16(b, j) {
                Some((n, k)) => match sp_look_packages(b, k, n as nat) {
                    Some((s, l)) => Some((ServerMessageInnerView::UpdatePlayerLooks(s), l)),
                    None => None,
                },
                None => None,
            }
        } else if tag == 5 {
            match sp_u16(b, j) {
                Some((n, k)) => match sp_velocity_packages(b, k, n as nat) {
                    Some((s, l)) => Some((ServerMessageInnerView::UpdateVelocities(s), l)),
                    None => None,
                },
                None => None,
            }
        } else if tag == 6 {
            match sp_u16(b, j) {
                Some((n, k)) => match sp_health_packages(b, k, n as nat) {
                    Some((s, l)) => Some((ServerMessageInnerView::UpdateHealths(s), l)),
                    None => None,
                },
                None => None,
            }
        } else if tag == 7 {
            match sp_u64(b, j) {
                Some((n, k)) => Some((ServerMessageInnerView::Confirm(n), k)),
                None => None,
            }
        } else {
            None
        },
        None => None,
    }
}

/// What any byte buffer decodes to as a server message, if anything.
pub open spec fn spec_decode_server(b: Seq<u8>) -> Option<ServerMessageView> {
    match sp_u64(b, 0) {
        Some((reliable, j)) => match sp_server_inner(b, j) {
            Some((message, _k)) => Some(ServerMessageView { reliable, message }),
            None => None,
        },
        None => None,
    }
}

pub open spec fn sp_client_inner(b: Seq<u8>, i: int) -> Option<(ClientMessageInner, int)> {
    match sp_u8(b, i) {
        Some((tag, j)) => if tag == 0 {
            Some((ClientMessageInner::Login, j))
        } else if tag == 1 {
            match sp_u128(b, j) {
                Some((id, k)) => match sp_vec2(b, k) {
                    Some((v, l)) => Some((ClientMessageInner::SetVelocity(id, v), l)),
                    None => None,
                },
                None => None,
            }
        } else if tag == 2 {
            match sp_u128(b, j) {
                Some((id, k)) => match sp_quat(b, k) {
                    Some((q, l)) => Some((ClientMessageInner::Rotation(id, q), l)),
                    None => None,
                },
                None => None,
            }
        } else if tag == 3 {
            match sp_u64(b, j) {
                Some((n, k)) => Some((ClientMessageInner::Confirm(n), k)),
                None => None,
            }
        } else if tag == 4 {
            match sp_u128(b, j) {
                Some((id, k)) => Some((ClientMessageInner::Jump(id), k)),
                None => None,
            }
        } else if tag == 5 {
            match sp_u128(b, j) {
                Some((id, k)) => match sp_vec3(b, k) {
                    Some((v, l)) => Some((ClientMessageInner::Shoot(id, v), l)),
                    None => None,
                },
                None => None,
            }
        } else {
            None
        },
        None => None,
    }
}

/// What any byte buffer decodes to as a client message, if anything.
pub open spec fn spec_decode_client(b: Seq<u8>) -> Option<ClientMessage> {
    match sp_u64(b, 0) {
        Some((reliable, j)) => match sp_client_inner(b, j) {
            Some((message, _k)) => Some(ClientMessage { reliable, message }),
            None => None,
        },
        None => None,
    }
}


// ---------------------------------------------------------------------------
// Round-trip: parsing where an encoding lies yields the encoded value.
// ---------------------------------------------------------------------------

pub proof fn lemma_sp_vec2_at(b: Seq<u8>, i: int, v: MyVec2)
    requires
        0 <= i,
        i + spec_enc_vec2(v).len() <= b.len(),
        b.subrange(i, i + spec_enc_vec2(v).len()) == spec_enc_vec2(v),
    ensures
        sp_vec2(b, i) == Some((v, i + spec_enc_vec2(v).len())),
{
    lemma_auto_spec_u32_to_from_le_bytes();
    lemma_subrange_split(b, i, spec_u32_to_le_bytes(v.x), spec_u32_to_le_bytes(v.y));
    lemma_sp_u32_at(b, i, v.x);
    lemma_sp_u32_at(b, i + 4, v.y);
}

pub proof fn lemma_sp_vec3_at(b: Seq<u8>, i: int, v: MyVec3)
    requires
        0 <= i,
        i + spec_enc_vec3(v).len() <= b.len(),
        b.subrange(i, i + spec_enc_vec3(v).len()) == spec_enc_vec3(v),
    ensures
        sp_vec3(b, i) == Some((v, i + spec_enc_vec3(v).len())),
{
    lemma_auto_spec_u32_to_from_le_bytes();
    lemma_subrange_split(
        b,
        i,
        spec_u32_to_le_bytes(v.x) + spec_u32_to_le_bytes(v.y),
        spec_u32_to_le_bytes(v.z),
    );
    lemma_subrange_split(b, i, spec_u32_to_le_bytes(v.x), spec_u32_to_le_bytes(v.y));
    lemma_sp_u32_at(b, i, v.x);
    lemma_sp_u32_at(b, i + 4, v.y);
    lemma_sp_u32_at(b, i + 8, v.z);
}

pub proof fn lemma_sp_quat_at(b: Seq<u8>, i: int, q: MyQuat)
    requires
        0 <= i,
        i + spec_enc_quat(q).len() <= b.len(),
        b.subrange(i, i + spec_enc_quat(q).len()) == spec_enc_quat(q),
    ensures
        sp_quat(b, i) == Some((q, i + spec_enc_quat(q).len())),
{
    lemma_auto_spec_u32_to_from_le_bytes();
    lemma_subrange_split(
        b,
        i,
        spec_u32_to_le_bytes(q.x) + spec_u32_to_le_bytes(q.y) + spec_u32_to_le_bytes(q.z),
        spec_u32_to_le_bytes(q.w),
    );
    lemma_subrange_split(
        b,
        i,
        spec_u32_to_le_bytes(q.x) + spec_u32_to_le_bytes(q.y),
        spec_u32_to_le_bytes(q.z),
    );
    lemma_subrange_split(b, i, spec_u32_to_le_bytes(q.x), spec_u32_to_le_bytes(q.y));
    lemma_sp_u32_at(b, i, q.x);
    lemma_sp_u32_at(b, i + 4, q.y);
    lemma_sp_u32_at(b, i + 8, q.z);
    lemma_sp_u32_at(b, i + 12, q.w);
}

pub proof fn lemma_sp_component_at(b: Seq<u8>, i: int, c: NetComponent)
    requires
        0 <= i,
        i + spec_enc_component(c).len() <= b.len(),
        b.subrange(i, i + spec_enc_component(c).len()) == spec_enc_component(c),
    ensures
        sp_component(b, i) == Some((c, i + spec_enc_component(c).len())),
{
    lemma_auto_spec_u32_to_from_le_bytes();
    match c {
        NetComponent::LinearVelocity(v) => {
            lemma_subrange_split(b, i, seq![0u8], spec_enc_vec3(v));
            lemma_sp_u8_at(b, i, 0u8);
            lemma_sp_vec3_at(b, i + 1, v);
        },
        NetComponent::Transform { translation, rotation, scale } => {
            lemma_subrange_split(
                b,
                i,
                seq![1u8] + spec_enc_vec3(translation) + spec_enc_quat(rotation),
                spec_enc_vec3(scale),
            );
            lemma_subrange_split(
                b,
                i,
                seq![1u8] + spec_enc_vec3(translation),
                spec_enc_quat(rotation),
            );
            lemma_subrange_split(b, i, seq![1u8], spec_enc_vec3(translation));
            lemma_sp_u8_at(b, i, 1u8);
            lemma_sp_vec3_at(b, i + 1, translation);
            lemma_sp_quat_at(b, i + 13, rotation);
            lemma_sp_vec3_at(b, i + 29, scale);
        },
        NetComponent::Sphere(r) => {
            lemma_subrange_split(b, i, seq![2u8], spec_u32_to_le_bytes(r));
            lemma_sp_u8_at(b, i, 2u8);
            lemma_sp_u32_at(b, i + 1, r);
        },
        NetComponent::SphereCollider(r) => {
            lemma_subrange_split(b, i, seq![3u8], spec_u32_to_le_bytes(r));
            lemma_sp_u8_at(b, i, 3u8);
            lemma_sp_u32_at(b, i + 1, r);
        },
        NetComponent::Capsule(r, h) => {
            lemma_subrange_split(
                b,
                i,
                seq![4u8] + spec_u32_to_le_bytes(r),
                spec_u32_to_le_bytes(h),
            );
            lemma_subrange_split(b, i, seq![4u8], spec_u32_to_le_bytes(r));
            lemma_sp_u8_at(b, i, 4u8);
            lemma_sp_u32_at(b, i + 1, r);
            lemma_sp_u32_at(b, i + 5, h);
        },
        NetComponent::CapsuleCollider(r, h) => {
            lemma_subrange_split(
                b,
                i,
                seq![5u8] + spec_u32_to_le_bytes(r),
                spec_u32_to_le_bytes(h),
            );
            lemma_subrange_split(b, i, seq![5u8], spec_u32_to_le_bytes(r));
            lemma_sp_u8_at(b, i, 5u8);
            lemma_sp_u32_at(b, i + 1, r);
            lemma_sp_u32_at(b, i + 5, h);
        },
        NetComponent::ColorMaterial { r, g, b: bl } => {
            lemma_subrange_split(
                b,
                i,
                seq![6u8] + spec_u32_to_le_bytes(r) + spec_u32_to_le_bytes(g),
                spec_u32_to_le_bytes(bl),
            );
            lemma_subrange_split(
                b,
                i,
                seq![6u8] + spec_u32_to_le_bytes(r),
                spec_u32_to_le_bytes(g),
            );
            lemma_subrange_split(b, i, seq![6u8], spec_u32_to_le_bytes(r));
            lemma_sp_u8_at(b, i, 6u8);
            lemma_sp_u32_at(b, i + 1, r);
            lemma_sp_u32_at(b, i + 5, g);
            lemma_sp_u32_at(b, i + 9, bl);
        },
        NetComponent::Health(v) => {
            lemma_subrange_split(b, i, seq![7u8], spec_u32_to_le_bytes(v));
            lemma_sp_u8_at(b, i, 7u8);
            lemma_sp_u32_at(b, i + 1, v);
        },
        NetComponent::Player => {
            lemma_sp_u8_at(b, i, 8u8);
        },
        NetComponent::Enemy => {
            lemma_sp_u8_at(b, i, 9u8);
        },
        NetComponent::Radius(v) => {
            lemma_subrange_split(b, i, seq![10u8], spec_u32_to_le_bytes(v));
            lemma_sp_u8_at(b, i, 10u8);
            lemma_sp_u32_at(b, i + 1, v);
        },
        NetComponent::SpotLight(v) => {
            lemma_subrange_split(b, i, seq![11u8], spec_u32_to_le_bytes(v));
            lemma_sp_u8_at(b, i, 11u8);
            lemma_sp_u32_at(b, i + 1, v);
        },
    }
}

pub proof fn lemma_sp_components_at(b: Seq<u8>, i: int, s: Seq<NetComponent>)
    requires
        0 <= i,
        i + spec_enc_components(s).len() <= b.len(),
        b.subrange(i, i + spec_enc_components(s).len()) == spec_enc_components(s),
    ensures
        sp_components(b, i, s.len()) == Some((s, i + spec_enc_components(s).len())),
    decreases s.len(),
{
    if s.len() == 0 {
        assert(s =~= Seq::<NetComponent>::empty());
    } else {
        let e1 = spec_enc_component(s[0]);
        let e2 = spec_enc_components(s.drop_first());
        lemma_subrange_split(b, i, e1, e2);
        lemma_sp_component_at(b, i, s[0]);
        lemma_sp_components_at(b, i + e1.len(), s.drop_first());
        assert(seq![s[0]] + s.drop_first() =~= s);
    }
}

pub proof fn lemma_sp_entity_package_at(b: Seq<u8>, i: int, p: EntityPackageView)
    requires
        0 <= i,
        p.components.len() < 65536,
        i + spec_enc_entity_package(p).len() <= b.len(),
        b.subrange(i, i + spec_enc_entity_package(p).len()) == spec_enc_entity_package(p),
    ensures
        sp_entity_package(b, i) == Some((p, i + spec_enc_entity_package(p).len())),
{
    lemma_auto_spec_u128_to_from_le_bytes();
    lemma_auto_spec_u16_to_from_le_bytes();
    let n = p.components.len() as u16;
    lemma_subrange_split(
        b,
        i,
        spec_u128_to_le_bytes(p.net_id) + spec_u16_to_le_bytes(n),
        spec_enc_components(p.components),
    );
    lemma_subrange_split(b, i, spec_u128_to_le_bytes(p.net_id), spec_u16_to_le_bytes(n));
    lemma_sp_u128_at(b, i, p.net_id);
    lemma_sp_u16_at(b, i + 16, n);
    lemma_sp_components_at(b, i + 18, p.components);
}

pub proof fn lemma_sp_entity_packages_at(b: Seq<u8>, i: int, s: Seq<EntityPackageView>)
    requires
        0 <= i,
        forall|k: int| 0 <= k < s.len() ==> #[trigger] s[k].components.len() < 65536,
        i + spec_enc_entity_packages(s).len() <= b.len(),
        b.subrange(i, i + spec_enc_entity_packages(s).len()) == spec_enc_entity_packages(s),
    ensures
        sp_entity_packages(b, i, s.len()) == Some((s, i + spec_enc_entity_packages(s).len())),
    decreases s.len(),
{
    if s.len() == 0 {
        assert(s =~= Seq::<EntityPackageView>::empty());
    } else {
        let e1 = spec_enc_entity_package(s[0]);
        let e2 = spec_enc_entity_packages(s.drop_first());
        lemma_subrange_split(b, i, e1, e2);
        lemma_sp_entity_package_at(b, i, s[0]);
        lemma_sp_entity_packages_at(b, i + e1.len(), s.drop_first());
        assert(seq![s[0]] + s.drop_first() =~= s);
    }
}

pub proof fn lemma_sp_position_package_at(b: Seq<u8>, i: int, p: PositionPackage)
    requires
        0 <= i,
        i + spec_enc_position_package(p).len() <= b.len(),
        b.subrange(i, i + spec_enc_position_package(p).len()) == spec_enc_position_package(p),
    ensures
        sp_position_package(b, i) == Some((p, i + spec_enc_position_package(p).len())),
{
    lemma_auto_spec_u128_to_from_le_bytes();
    lemma_subrange_split(
        b,
        i,
        spec_u128_to_le_bytes(p.net_id) + spec_enc_vec3(p.position),
        spec_enc_quat(p.rotation),
    );
    lemma_subrange_split(b, i, spec_u128_to_le_bytes(p.net_id), spec_enc_vec3(p.position));
    lemma_sp_u128_at(b, i, p.net_id);
    lemma_sp_vec3_at(b, i + 16, p.position);
    lemma_sp_quat_at(b, i + 28, p.rotation);
}

pub proof fn lemma_sp_position_packages_at(b: Seq<u8>, i: int, s: Seq<PositionPackage>)
    requires
        0 <= i,
        i + spec_enc_position_packages(s).len() <= b.len(),
        b.subrange(i, i + spec_enc_position_packages(s).len()) == spec_enc_position_packages(s),
    ensures
        sp_position_packages(b, i, s.len()) == Some((s, i + spec_enc_position_packages(s).len())),
    decreases s.len(),
{
    if s.len() == 0 {
        assert(s =~= Seq::<PositionPackage>::empty());
    } else {
        let e1 = spec_enc_position_package(s[0]);
        let e2 = spec_enc_position_packages(s.drop_first());
        lemma_subrange_split(b, i, e1, e2);
        lemma_sp_position_package_at(b, i, s[0]);
        lemma_sp_position_packages_at(b, i + e1.len(), s.drop_first());
        assert(seq![s[0]] + s.drop_first() =~= s);
    }
}

pub proof fn lemma_sp_look_package_at(b: Seq<u8>, i: int, p: PlayerLookPackage)
    requires
        0 <= i,
        i + spec_enc_look_package(p).len() <= b.len(),
        b.subrange(i, i + spec_enc_look_package(p).len()) == spec_enc_look_package(p),
    ensures
        sp_look_package(b, i) == Some((p, i + spec_enc_look_package(p).len())),
{
    lemma_auto_spec_u128_to_from_le_bytes();
    lemma_subrange_split(b, i, spec_u128_to_le_bytes(p.net_id), spec_enc_quat(p.rotation));
    lemma_sp_u128_at(b, i, p.net_id);
    lemma_sp_quat_at(b, i + 16, p.rotation);
}

pub proof fn lemma_sp_look_packages_at(b: Seq<u8>, i: int, s: Seq<PlayerLookPackage>)
    requires
        0 <= i,
        i + spec_enc_look_packages(s).len() <= b.len(),
        b.subrange(i, i + spec_enc_look_packages(s).len()) == spec_enc_look_packages(s),
    ensures
        sp_look_packages(b, i, s.len()) == Some((s, i + spec_enc_look_packages(s).len())),
    decreases s.len(),
{
    if s.len() == 0 {
        assert(s =~= Seq::<PlayerLookPackage>::empty());
    } else {
        let e1 = spec_enc_look_package(s[0]);
        let e2 = spec_enc_look_packages(s.drop_first());
        lemma_subrange_split(b, i, e1, e2);
        lemma_sp_look_package_at(b, i, s[0]);
        lemma_sp_look_packages_at(b, i + e1.len(), s.drop_first());
        assert(seq![s[0]] + s.drop_first() =~= s);
    }
}

pub proof fn lemma_sp_velocity_package_at(b: Seq<u8>, i: int, p: VelocityPackage)
    requires
        0 <= i,
        i + spec_enc_velocity_package(p).len() <= b.len(),
        b.subrange(i, i + spec_enc_velocity_package(p).len()) == spec_enc_velocity_package(p),
    ensures
        sp_velocity_package(b, i) == Some((p, i + spec_enc_velocity_package(p).len())),
{
    lemma_auto_spec_u128_to_from_le_bytes();
    lemma_subrange_split(b, i, spec_u128_to_le_bytes(p.net_id), spec_enc_vec3(p.velocity));
    lemma_sp_u128_at(b, i, p.net_id);
    lemma_sp_vec3_at(b, i + 16, p.velocity);
}

pub proof fn lemma_sp_velocity_packages_at(b: Seq<u8>, i: int, s: Seq<VelocityPackage>)
    requires
        0 <= i,
        i + spec_enc_velocity_packages(s).len() <= b.len(),
        b.subrange(i, i + spec_enc_velocity_packages(s).len()) == spec_enc_velocity_packages(s),
    ensures
        sp_velocity_packages(b, i, s.len()) == Some(
            (s, i + spec_enc_velocity_packages(s).len()),
        ),
    decreases s.len(),
{
    if s.len() == 0 {
        assert(s =~= Seq::<VelocityPackage>::empty());
    } else {
        let e1 = spec_enc_velocity_package(s[0]);
        let e2 = spec_enc_velocity_packages(s.drop_first());
        lemma_subrange_split(b, i, e1, e2);
        lemma_sp_velocity_package_at(b, i, s[0]);
        lemma_sp_velocity_packages_at(b, i + e1.len(), s.drop_first());
        assert(seq![s[0]] + s.drop_first() =~= s);
    }
}

pub proof fn lemma_sp_health_package_at(b: Seq<u8>, i: int, p: HealthPackage)
    requires
        0 <= i,
        i + spec_enc_health_package(p).len() <= b.len(),
        b.subrange(i, i + spec_enc_health_package(p).len()) == spec_enc_health_package(p),
    ensures
        sp_health_package(b, i) == Some((p, i + spec_enc_health_package(p).len())),
{
    lemma_auto_spec_u128_to_from_le_bytes();
    lemma_auto_spec_u32_to_from_le_bytes();
    lemma_subrange_split(b, i, spec_u128_to_le_bytes(p.net_id), spec_u32_to_le_bytes(p.health));
    lemma_sp_u128_at(b, i, p.net_id);
    lemma_sp_u32_at(b, i + 16, p.health);
}

pub proof fn lemma_sp_health_packages_at(b: Seq<u8>, i: int, s: Seq<HealthPackage>)
    requires
        0 <= i,
        i + spec_enc_health_packages(s).len() <= b.len(),
        b.subrange(i, i + spec_enc_health_packages(s).len()) == spec_enc_health_packages(s),
    ensures
        sp_health_packages(b, i, s.len()) == Some((s, i + spec_enc_health_packages(s).len())),
    decreases s.len(),
{
    if s.len() == 0 {
        assert(s =~= Seq::<HealthPackage>::empty());
    } else {
        let e1 = spec_enc_health_package(s[0]);
        let e2 = spec_enc_health_packages(s.drop_first());
        lemma_subrange_split(b, i, e1, e2);
        lemma_sp_health_package_at(b, i, s[0]);
        lemma_sp_health_packages_at(b, i + e1.len(), s.drop_first());
        assert(seq![s[0]] + s.drop_first() =~= s);
    }
}


// ---------------------------------------------------------------------------
// Length bounds: a message that fits the frame has small element counts, so
// the 2-byte counts on the wire are exact.
// ---------------------------------------------------------------------------

pub proof fn lemma_enc_component_len(c: NetComponent)
    ensures
        1 <= spec_enc_component(c).len(),
{
    lemma_auto_spec_u32_to_from_le_bytes();
}

pub proof fn lemma_enc_components_len(s: Seq<NetComponent>)
    ensures
        spec_enc_components(s).len() >= s.len(),
    decreases s.len(),
{
    if s.len() > 0 {
        lemma_enc_component_len(s[0]);
        lemma_enc_components_len(s.drop_first());
    }
}

pub proof fn lemma_enc_entity_packages_len(s: Seq<EntityPackageView>)
    ensures
        spec_enc_entity_packages(s).len() >= s.len(),
        forall|k: int|
            0 <= k < s.len() ==> #[trigger] s[k].components.len()
                <= spec_enc_entity_packages(s).len(),
    decreases s.len(),
{
    if s.len() > 0 {
        lemma_auto_spec_u128_to_from_le_bytes();
        lemma_auto_spec_u16_to_from_le_bytes();
        lemma_enc_components_len(s[0].components);
        lemma_enc_entity_packages_len(s.drop_first());
        assert forall|k: int| 0 <= k < s.len() implies #[trigger] s[k].components.len()
            <= spec_enc_entity_packages(s).len() by {
            if k > 0 {
                assert(s[k] == s.drop_first()[k - 1]);
            }
        }
    }
}

pub proof fn lemma_enc_position_packages_len(s: Seq<PositionPackage>)
    ensures
        spec_enc_position_packages(s).len() >= s.len(),
    decreases s.len(),
{
    if s.len() > 0 {
        lemma_auto_spec_u128_to_from_le_bytes();
        lemma_enc_position_packages_len(s.drop_first());
    }
}

pub proof fn lemma_enc_look_packages_len(s: Seq<PlayerLookPackage>)
    ensures
        spec_enc_look_packages(s).len() >= s.len(),
    decreases s.len(),
{
    if s.len() > 0 {
        lemma_auto_spec_u128_to_from_le_bytes();
        lemma_enc_look_packages_len(s.drop_first());
    }
}

pub proof fn lemma_enc_velocity_packages_len(s: Seq<VelocityPackage>)
    ensures
        spec_enc_velocity_packages(s).len() >= s.len(),
    decreases s.len(),
{
    if s.len() > 0 {
        lemma_auto_spec_u128_to_from_le_bytes();
        lemma_enc_velocity_packages_len(s.drop_first());
    }
}

pub proof fn lemma_enc_health_packages_len(s: Seq<HealthPackage>)
    ensures
        spec_enc_health_packages(s).len() >= s.len(),
    decreases s.len(),
{
    if s.len() > 0 {
        lemma_auto_spec_u128_to_from_le_bytes();
        lemma_enc_health_packages_len(s.drop_first());
    }
}

/// Element counts small enough that the 2-byte counts on the wire are exact.
pub open spec fn counts_exact(m: ServerMessageInnerView) -> bool {
    match m {
        ServerMessageInnerView::LoginOk(_) => true,
        ServerMessageInnerView::SpawnEntities(s) => s.len() < 65536 && (forall|k: int|
            0 <= k < s.len() ==> #[trigger] s[k].components.len() < 65536),
        ServerMessageInnerView::UpdateEntities(s) => s.len() < 65536 && (forall|k: int|
            0 <= k < s.len() ==> #[trigger] s[k].components.len() < 65536),
        ServerMessageInnerView::UpdatePositions { unix_time, packages } => packages.len()
            < 65536,
        ServerMessageInnerView::UpdatePlayerLooks(s) => s.len() < 65536,
        ServerMessageInnerView::UpdateVelocities(s) => s.len() < 65536,
        ServerMessageInnerView::UpdateHealths(s) => s.len() < 65536,
        ServerMessageInnerView::Confirm(_) => true,
    }
}

/// A message that fits the fixed frame cannot have counts that overflow the
/// wire's 2-byte count fields.
pub proof fn lemma_fits_counts_exact(m: ServerMessageView)
    requires
        spec_enc_server(m).len() <= FRAME_LEN,
    ensures
        counts_exact(m.message),
{
    match m.message {
        ServerMessageInnerView::SpawnEntities(s) => {
            lemma_enc_entity_packages_len(s);
        },
        ServerMessageInnerView::UpdateEntities(s) => {
            lemma_enc_entity_packages_len(s);
        },
        ServerMessageInnerView::UpdatePositions { unix_time, packages } => {
            lemma_enc_position_packages_len(packages);
        },
        ServerMessageInnerView::UpdatePlayerLooks(s) => {
            lemma_enc_look_packages_len(s);
        },
        ServerMessageInnerView::UpdateVelocities(s) => {
            lemma_enc_velocity_packages_len(s);
        },
        ServerMessageInnerView::UpdateHealths(s) => {
            lemma_enc_health_packages_len(s);
        },
        _ => {},
    }
}

// ---------------------------------------------------------------------------
// Top-level round trips.
// ---------------------------------------------------------------------------

pub proof fn lemma_sp_server_inner_at(b: Seq<u8>, i: int, m: ServerMessageInnerView)
    requires
        0 <= i,
        counts_exact(m),
        i + spec_enc_server_inner(m).len() <= b.len(),
        b.subrange(i, i + spec_enc_server_inner(m).len()) == spec_enc_server_inner(m),
    ensures
        sp_server_inner(b, i) == Some((m, i + spec_enc_server_inner(m).len())),
{
    lemma_auto_spec_u16_to_from_le_bytes();
    match m {
        ServerMessageInnerView::LoginOk(id) => {
            lemma_subrange_split(b, i, seq![0u8], spec_u128_to_le_bytes(id));
            lemma_sp_u8_at(b, i, 0u8);
            lemma_auto_spec_u128_to_from_le_bytes();
            lemma_sp_u128_at(b, i + 1, id);
        },
        ServerMessageInnerView::SpawnEntities(s) => {
            let n = s.len() as u16;
            lemma_subrange_split(
                b,
                i,
                seq![1u8] + spec_u16_to_le_bytes(n),
                spec_enc_entity_packages(s),
            );
            lemma_subrange_split(b, i, seq![1u8], spec_u16_to_le_bytes(n));
            lemma_sp_u8_at(b, i, 1u8);
            lemma_sp_u16_at(b, i + 1, n);
            lemma_sp_entity_packages_at(b, i + 3, s);
        },
        ServerMessageInnerView::UpdateEntities(s) => {
            let n = s.len() as u16;
            lemma_subrange_split(
                b,
                i,
                seq![2u8] + spec_u16_to_le_bytes(n),
                spec_enc_entity_packages(s),
            );
            lemma_subrange_split(b, i, seq![2u8], spec_u16_to_le_bytes(n));
            lemma_sp_u8_at(b, i, 2u8);
            lemma_sp_u16_at(b, i + 1, n);
            lemma_sp_entity_packages_at(b, i + 3, s);
        },
        ServerMessageInnerView::UpdatePositions { unix_time, packages } => {
            let n = packages.len() as u16;
            lemma_auto_spec_u64_to_from_le_bytes();
            lemma_subrange_split(
                b,
                i,
                seq![3u8] + spec_u64_to_le_bytes(unix_time) + spec_u16_to_le_bytes(n),
                spec_enc_position_packages(packages),
            );
            lemma_subrange_split(
                b,
                i,
                seq![3u8] + spec_u64_to_le_bytes(unix_time),
                spec_u16_to_le_bytes(n),
            );
            lemma_subrange_split(b, i, seq![3u8], spec_u64_to_le_bytes(unix_time));
            lemma_sp_u8_at(b, i, 3u8);
            lemma_sp_u64_at(b, i + 1, unix_time);
            lemma_sp_u16_at(b, i + 9, n);
            lemma_sp_position_packages_at(b, i + 11, packages);
        },
        ServerMessageInnerView::UpdatePlayerLooks(s) => {
            let n = s.len() as u16;
            lemma_subrange_split(
                b,
                i,
                seq![4u8] + spec_u16_to_le_bytes(n),
                spec_enc_look_packages(s),
            );
            lemma_subrange_split(b, i, seq![4u8], spec_u16_to_le_bytes(n));
            lemma_sp_u8_at(b, i, 4u8);
            lemma_sp_u16_at(b, i + 1, n);
            lemma_sp_look_packages_at(b, i + 3, s);
        },
        ServerMessageInnerView::UpdateVelocities(s) => {
            let n = s.len() as u16;
            lemma_subrange_split(
                b,
                i,
                seq![5u8] + spec_u16_to_le_bytes(n),
                spec_enc_velocity_packages(s),
            );
            lemma_subrange_split(b, i, seq![5u8], spec_u16_to_le_bytes(n));
            lemma_sp_u8_at(b, i, 5u8);
            lemma_sp_u16_at(b, i + 1, n);
            lemma_sp_velocity_packages_at(b, i + 3, s);
        },
        ServerMessageInnerView::UpdateHealths(s) => {
            let n = s.len() as u16;
            lemma_subrange_split(
                b,
                i,
                seq![6u8] + spec_u16_to_le_bytes(n),
                spec_enc_health_packages(s),
            );
            lemma_subrange_split(b, i, seq![6u8], spec_u16_to_le_bytes(n));
            lemma_sp_u8_at(b, i, 6u8);
            lemma_sp_u16_at(b, i + 1, n);
            lemma_sp_health_packages_at(b, i + 3, s);
        },
        ServerMessageInnerView::Confirm(c) => {
            lemma_subrange_split(b, i, seq![7u8], spec_u64_to_le_bytes(c));
            lemma_sp_u8_at(b, i, 7u8);
            lemma_auto_spec_u64_to_from_le_bytes();
            lemma_sp_u64_at(b, i + 1, c);
        },
    }
}

pub proof fn lemma_sp_client_inner_at(b: Seq<u8>, i: int, m: ClientMessageInner)
    requires
        0 <= i,
        i + spec_enc_client_inner(m).len() <= b.len(),
        b.subrange(i, i + spec_enc_client_inner(m).len()) == spec_enc_client_inner(m),
    ensures
        sp_client_inner(b, i) == Some((m, i + spec_enc_client_inner(m).len())),
{
    lemma_auto_spec_u128_to_from_le_bytes();
    match m {
        ClientMessageInner::Login => {
            lemma_sp_u8_at(b, i, 0u8);
        },
        ClientMessageInner::SetVelocity(id, v) => {
            lemma_subrange_split(
                b,
                i,
                seq![1u8] + spec_u128_to_le_bytes(id),
                spec_enc_vec2(v),
            );
            lemma_subrange_split(b, i, seq![1u8], spec_u128_to_le_bytes(id));
            lemma_sp_u8_at(b, i, 1u8);
            lemma_sp_u128_at(b, i + 1, id);
            lemma_sp_vec2_at(b, i + 17, v);
        },
        ClientMessageInner::Rotation(id, q) => {
            lemma_subrange_split(
                b,
                i,
                seq![2u8] + spec_u128_to_le_bytes(id),
                spec_enc_quat(q),
            );
            lemma_subrange_split(b, i, seq![2u8], spec_u128_to_le_bytes(id));
            lemma_sp_u8_at(b, i, 2u8);
            lemma_sp_u128_at(b, i + 1, id);
            lemma_sp_quat_at(b, i + 17, q);
        },
        ClientMessageInner::Confirm(c) => {
            lemma_subrange_split(b, i, seq![3u8], spec_u64_to_le_bytes(c));
            lemma_sp_u8_at(b, i, 3u8);
            lemma_auto_spec_u64_to_from_le_bytes();
            lemma_sp_u64_at(b, i + 1, c);
        },
        ClientMessageInner::Jump(id) => {
            lemma_subrange_split(b, i, seq![4u8], spec_u128_to_le_bytes(id));
            lemma_sp_u8_at(b, i, 4u8);
            lemma_sp_u128_at(b, i + 1, id);
        },
        ClientMessageInner::Shoot(id, v) => {
            lemma_subrange_split(
                b,
                i,
                seq![5u8] + spec_u128_to_le_bytes(id),
                spec_enc_vec3(v),
            );
            lemma_subrange_split(b, i, seq![5u8], spec_u128_to_le_bytes(id));
            lemma_sp_u8_at(b, i, 5u8);
            lemma_sp_u128_at(b, i + 1, id);
            lemma_sp_vec3_at(b, i + 17, v);
        },
    }
}

/// Decoding any buffer that begins with the encoding of a server message
/// yields exactly that message, whatever follows the encoding.
pub proof fn lemma_decode_server_prefix(b: Seq<u8>, m: ServerMessageView)
    requires
        spec_enc_server(m).len() <= FRAME_LEN,
        spec_enc_server(m).len() <= b.len(),
        b.subrange(0, spec_enc_server(m).len() as int) == spec_enc_server(m),
    ensures
        spec_decode_server(b) == Some(m),
{
    lemma_fits_counts_exact(m);
    lemma_auto_spec_u64_to_from_le_bytes();
    lemma_subrange_split(
        b,
        0,
        spec_u64_to_le_bytes(m.reliable),
        spec_enc_server_inner(m.message),
    );
    lemma_sp_u64_at(b, 0, m.reliable);
    lemma_sp_server_inner_at(b, 8, m.message);
}

/// Encode-then-decode is the identity for every server message that fits
/// the frame: the zero-padded frame of a message decodes to that message.
pub proof fn lemma_server_round_trip(m: ServerMessageView)
    requires
        spec_enc_server(m).len() <= FRAME_LEN,
    ensures
        spec_server_frame(m).len() == FRAME_LEN,
        spec_decode_server(spec_server_frame(m)) == Some(m),
{
    let f = spec_server_frame(m);
    let e = spec_enc_server(m);
    assert(f.subrange(0, e.len() as int) =~= e);
    lemma_decode_server_prefix(f, m);
}

/// Every client message fits the frame with room to spare.
pub proof fn lemma_enc_client_len(m: ClientMessage)
    ensures
        spec_enc_client(m).len() <= 41,
{
    lemma_auto_spec_u64_to_from_le_bytes();
    lemma_auto_spec_u128_to_from_le_bytes();
    lemma_auto_spec_u32_to_from_le_bytes();
}

/// Decoding any buffer that begins with the encoding of a client message
/// yields exactly that message, whatever follows the encoding.
pub proof fn lemma_decode_client_prefix(b: Seq<u8>, m: ClientMessage)
    requires
        spec_enc_client(m).len() <= b.len(),
        b.subrange(0, spec_enc_client(m).len() as int) == spec_enc_client(m),
    ensures
        spec_decode_client(b) == Some(m),
{
    lemma_auto_spec_u64_to_from_le_bytes();
    lemma_subrange_split(
        b,
        0,
        spec_u64_to_le_bytes(m.reliable),
        spec_enc_client_inner(m.message),
    );
    lemma_sp_u64_at(b, 0, m.reliable);
    lemma_sp_client_inner_at(b, 8, m.message);
}

/// Encode-then-decode is the identity for every client message.
pub proof fn lemma_client_round_trip(m: ClientMessage)
    ensures
        spec_client_frame(m).len() == FRAME_LEN,
        spec_decode_client(spec_client_frame(m)) == Some(m),
{
    lemma_enc_client_len(m);
    let f = spec_client_frame(m);
    let e = spec_enc_client(m);
    assert(f.subrange(0, e.len() as int) =~= e);
    lemma_decode_client_prefix(f, m);
}


// ---------------------------------------------------------------------------
// Appending one element to a list appends its encoding.
// ---------------------------------------------------------------------------

pub proof fn lemma_enc_component_push(s: Seq<NetComponent>, p: NetComponent)
    ensures
        spec_enc_components(s.push(p)) == spec_enc_components(s) + spec_enc_component(p),
    decreases s.len(),
{
    if s.len() == 0 {
        let sp = s.push(p);
        assert(sp[0] == p);
        assert(sp.drop_first() =~= Seq::<NetComponent>::empty());
        assert(spec_enc_components(sp.drop_first()) == Seq::<u8>::empty());
        assert(spec_enc_component(p) + Seq::<u8>::empty() =~= spec_enc_component(p));
        assert(spec_enc_components(s) == Seq::<u8>::empty());
        assert(Seq::<u8>::empty() + spec_enc_component(p) =~= spec_enc_component(p));
    } else {
        assert(s.push(p).drop_first() =~= s.drop_first().push(p));
        lemma_enc_component_push(s.drop_first(), p);
        assert(spec_enc_component(s[0]) + (spec_enc_components(s.drop_first()) + spec_enc_component(p))
            =~= (spec_enc_component(s[0]) + spec_enc_components(s.drop_first())) + spec_enc_component(p));
    }
}

pub proof fn lemma_enc_entity_package_push(s: Seq<EntityPackageView>, p: EntityPackageView)
    ensures
        spec_enc_entity_packages(s.push(p)) == spec_enc_entity_packages(s) + spec_enc_entity_package(p),
    decreases s.len(),
{
    if s.len() == 0 {
        let sp = s.push(p);
        assert(sp[0] == p);
        assert(sp.drop_first() =~= Seq::<EntityPackageView>::empty());
        assert(spec_enc_entity_packages(sp.drop_first()) == Seq::<u8>::empty());
        assert(spec_enc_entity_package(p) + Seq::<u8>::empty() =~= spec_enc_entity_package(p));
        assert(spec_enc_entity_packages(s) == Seq::<u8>::empty());
        assert(Seq::<u8>::empty() + spec_enc_entity_package(p) =~= spec_enc_entity_package(p));
    } else {
        assert(s.push(p).drop_first() =~= s.drop_first().push(p));
        lemma_enc_entity_package_push(s.drop_first(), p);
        assert(spec_enc_entity_package(s[0]) + (spec_enc_entity_packages(s.drop_first()) + spec_enc_entity_package(p))
            =~= (spec_enc_entity_package(s[0]) + spec_enc_entity_packages(s.drop_first())) + spec_enc_entity_package(p));
    }
}

pub proof fn lemma_enc_position_package_push(s: Seq<PositionPackage>, p: PositionPackage)
    ensures
        spec_enc_position_packages(s.push(p)) == spec_enc_position_packages(s) + spec_enc_position_package(p),
    decreases s.len(),
{
    if s.len() == 0 {
        let sp = s.push(p);
        assert(sp[0] == p);
        assert(sp.drop_first() =~= Seq::<PositionPackage>::empty());
        assert(spec_enc_position_packages(sp.drop_first()) == Seq::<u8>::empty());
        assert(spec_enc_position_package(p) + Seq::<u8>::empty() =~= spec_enc_position_package(p));
        assert(spec_enc_position_packages(s) == Seq::<u8>::empty());
        assert(Seq::<u8>::empty() + spec_enc_position_package(p) =~= spec_enc_position_package(p));
    } else {
        assert(s.push(p).drop_first() =~= s.drop_first().push(p));
        lemma_enc_position_package_push(s.drop_first(), p);
        assert(spec_enc_position_package(s[0]) + (spec_enc_position_packages(s.drop_first()) + spec_enc_position_package(p))
            =~= (spec_enc_position_package(s[0]) + spec_enc_position_packages(s.drop_first())) + spec_enc_position_package(p));
    }
}

pub proof fn lemma_enc_look_package_push(s: Seq<PlayerLookPackage>, p: PlayerLookPackage)
    ensures
        spec_enc_look_packages(s.push(p)) == spec_enc_look_packages(s) + spec_enc_look_package(p),
    decreases s.len(),
{
    if s.len() == 0 {
        let sp = s.push(p);
        assert(sp[0] == p);
        assert(sp.drop_first() =~= Seq::<PlayerLookPackage>::empty());
        assert(spec_enc_look_packages(sp.drop_first()) == Seq::<u8>::empty());
        assert(spec_enc_look_package(p) + Seq::<u8>::empty() =~= spec_enc_look_package(p));
        assert(spec_enc_look_packages(s) == Seq::<u8>::empty());
        assert(Seq::<u8>::empty() + spec_enc_look_package(p) =~= spec_enc_look_package(p));
    } else {
        assert(s.push(p).drop_first() =~= s.drop_first().push(p));
        lemma_enc_look_package_push(s.drop_first(), p);
        assert(spec_enc_look_package(s[0]) + (spec_enc_look_packages(s.drop_first()) + spec_enc_look_package(p))
            =~= (spec_enc_look_package(s[0]) + spec_enc_look_packages(s.drop_first())) + spec_enc_look_package(p));
    }
}

pub proof fn lemma_enc_velocity_package_push(s: Seq<VelocityPackage>, p: VelocityPackage)
    ensures
        spec_enc_velocity_packages(s.push(p)) == spec_enc_velocity_packages(s) + spec_enc_velocity_package(p),
    decreases s.len(),
{
    if s.len() == 0 {
        let sp = s.push(p);
        assert(sp[0] == p);
        assert(sp.drop_first() =~= Seq::<VelocityPackage>::empty());
        assert(spec_enc_velocity_packages(sp.drop_first()) == Seq::<u8>::empty());
        assert(spec_enc_velocity_package(p) + Seq::<u8>::empty() =~= spec_enc_velocity_package(p));
        assert(spec_enc_velocity_packages(s) == Seq::<u8>::empty());
        assert(Seq::<u8>::empty() + spec_enc_velocity_package(p) =~= spec_enc_velocity_package(p));
    } else {
        assert(s.push(p).drop_first() =~= s.drop_first().push(p));
        lemma_enc_velocity_package_push(s.drop_first(), p);
        assert(spec_enc_velocity_package(s[0]) + (spec_enc_velocity_packages(s.drop_first()) + spec_enc_velocity_package(p))
            =~= (spec_enc_velocity_package(s[0]) + spec_enc_velocity_packages(s.drop_first())) + spec_enc_velocity_package(p));
    }
}

pub proof fn lemma_enc_health_package_push(s: Seq<HealthPackage>, p: HealthPackage)
    ensures
        spec_enc_health_packages(s.push(p)) == spec_enc_health_packages(s) + spec_enc_health_package(p),
    decreases s.len(),
{
    if s.len() == 0 {
        let sp = s.push(p);
        assert(sp[0] == p);
        assert(sp.drop_first() =~= Seq::<HealthPackage>::empty());
        assert(spec_enc_health_packages(sp.drop_first()) == Seq::<u8>::empty());
        assert(spec_enc_health_package(p) + Seq::<u8>::empty() =~= spec_enc_health_package(p));
        assert(spec_enc_health_packages(s) == Seq::<u8>::empty());
        assert(Seq::<u8>::empty() + spec_enc_health_package(p) =~= spec_enc_health_package(p));
    } else {
        assert(s.push(p).drop_first() =~= s.drop_first().push(p));
        lemma_enc_health_package_push(s.drop_first(), p);
        assert(spec_enc_health_package(s[0]) + (spec_enc_health_packages(s.drop_first()) + spec_enc_health_package(p))
            =~= (spec_enc_health_package(s[0]) + spec_enc_health_packages(s.drop_first())) + spec_enc_health_package(p));
    }
}

// ---------------------------------------------------------------------------
// Exec encoders.
// ---------------------------------------------------------------------------

fn enc_vec2_into(out: &mut Vec<u8>, v: &MyVec2)
    ensures
        final(out)@ == old(out)@ + spec_enc_vec2(*v),
{
    put_u32(out, v.x);
    put_u32(out, v.y);
}

fn enc_vec3_into(out: &mut Vec<u8>, v: &MyVec3)
    ensures
        final(out)@ == old(out)@ + spec_enc_vec3(*v),
{
    put_u32(out, v.x);
    put_u32(out, v.y);
    put_u32(out, v.z);
}

fn enc_quat_into(out: &mut Vec<u8>, q: &MyQuat)
    ensures
        final(out)@ == old(out)@ + spec_enc_quat(*q),
{
    put_u32(out, q.x);
    put_u32(out, q.y);
    put_u32(out, q.z);
    put_u32(out, q.w);
}

fn enc_component_into(out: &mut Vec<u8>, c: &NetComponent)
    ensures
        final(out)@ == old(out)@ + spec_enc_component(*c),
{
    match c {
        NetComponent::LinearVelocity(v) => {
            put_u8(out, 0);
            enc_vec3_into(out, v);
        },
        NetComponent::Transform { translation, rotation, scale } => {
            put_u8(out, 1);
            enc_vec3_into(out, translation);
            enc_quat_into(out, rotation);
            enc_vec3_into(out, scale);
        },
        NetComponent::Sphere(r) => {
            put_u8(out, 2);
            put_u32(out, *r);
        },
        NetComponent::SphereCollider(r) => {
            put_u8(out, 3);
            put_u32(out, *r);
        },
        NetComponent::Capsule(r, h) => {
            put_u8(out, 4);
            put_u32(out, *r);
            put_u32(out, *h);
        },
        NetComponent::CapsuleCollider(r, h) => {
            put_u8(out, 5);
            put_u32(out, *r);
            put_u32(out, *h);
        },
        NetComponent::ColorMaterial { r, g, b } => {
            put_u8(out, 6);
            put_u32(out, *r);
            put_u32(out, *g);
            put_u32(out, *b);
        },
        NetComponent::Health(v) => {
            put_u8(out, 7);
            put_u32(out, *v);
        },
        NetComponent::Player => {
            put_u8(out, 8);
        },
        NetComponent::Enemy => {
            put_u8(out, 9);
        },
        NetComponent::Radius(v) => {
            put_u8(out, 10);
            put_u32(out, *v);
        },
        NetComponent::SpotLight(v) => {
            put_u8(out, 11);
            put_u32(out, *v);
        },
    }
}

fn enc_components_into(out: &mut Vec<u8>, cs: &Vec<NetComponent>)
    ensures
        final(out)@ == old(out)@ + spec_enc_components(cs@),
{
    let mut k: usize = 0;
    while k < cs.len()
        invariant
            k <= cs@.len(),
            out@ == old(out)@ + spec_enc_components(cs@.subrange(0, k as int)),
        decreases cs@.len() - k,
    {
        enc_component_into(out, &cs[k]);
        proof {
            lemma_enc_component_push(cs@.subrange(0, k as int), cs@[k as int]);
            assert(cs@.subrange(0, k as int).push(cs@[k as int]) =~= cs@.subrange(
                0,
                k as int + 1,
            ));
            assert(old(out)@ + spec_enc_components(cs@.subrange(0, k as int))
                + spec_enc_component(cs@[k as int]) =~= old(out)@ + (spec_enc_components(
                cs@.subrange(0, k as int),
            ) + spec_enc_component(cs@[k as int])));
        }
        k += 1;
    }
    assert(cs@.subrange(0, cs@.len() as int) =~= cs@);
}


fn enc_position_package_into(out: &mut Vec<u8>, p: &PositionPackage)
    ensures
        final(out)@ == old(out)@ + spec_enc_position_package(*p),
{
    put_u128(out, p.net_id);
    enc_vec3_into(out, &p.position);
    enc_quat_into(out, &p.rotation);
}

fn enc_look_package_into(out: &mut Vec<u8>, p: &PlayerLookPackage)
    ensures
        final(out)@ == old(out)@ + spec_enc_look_package(*p),
{
    put_u128(out, p.net_id);
    enc_quat_into(out, &p.rotation);
}

fn enc_velocity_package_into(out: &mut Vec<u8>, p: &VelocityPackage)
    ensures
        final(out)@ == old(out)@ + spec_enc_velocity_package(*p),
{
    put_u128(out, p.net_id);
    enc_vec3_into(out, &p.velocity);
}

fn enc_health_package_into(out: &mut Vec<u8>, p: &HealthPackage)
    ensures
        final(out)@ == old(out)@ + spec_enc_health_package(*p),
{
    put_u128(out, p.net_id);
    put_u32(out, p.health);
}

fn enc_position_packages_into(out: &mut Vec<u8>, ps: &Vec<PositionPackage>)
    ensures
        final(out)@ == old(out)@ + spec_enc_position_packages(ps@),
{
    let mut k: usize = 0;
    while k < ps.len()
        invariant
            k <= ps@.len(),
            out@ == old(out)@ + spec_enc_position_packages(ps@.subrange(0, k as int)),
        decreases ps@.len() - k,
    {
        enc_position_package_into(out, &ps[k]);
        proof {
            lemma_enc_position_package_push(ps@.subrange(0, k as int), ps@[k as int]);
            assert(ps@.subrange(0, k as int).push(ps@[k as int]) =~= ps@.subrange(
                0,
                k as int + 1,
            ));
            assert(old(out)@ + spec_enc_position_packages(ps@.subrange(0, k as int)) + spec_enc_position_package(
                ps@[k as int],
            ) =~= old(out)@ + (spec_enc_position_packages(ps@.subrange(0, k as int)) + spec_enc_position_package(
                ps@[k as int],
            )));
        }
        k += 1;
    }
    assert(ps@.subrange(0, ps@.len() as int) =~= ps@);
}

fn enc_look_packages_into(out: &mut Vec<u8>, ps: &Vec<PlayerLookPackage>)
    ensures
        final(out)@ == old(out)@ + spec_enc_look_packages(ps@),
{
    let mut k: usize = 0;
    while k < ps.len()
        invariant
            k <= ps@.len(),
            out@ == old(out)@ + spec_enc_look_packages(ps@.subrange(0, k as int)),
        decreases ps@.len() - k,
    {
        enc_look_package_into(out, &ps[k]);
        proof {
            lemma_enc_look_package_push(ps@.subrange(0, k as int), ps@[k as int]);
            assert(ps@.subrange(0, k as int).push(ps@[k as int]) =~= ps@.subrange(
                0,
                k as int + 1,
            ));
            assert(old(out)@ + spec_enc_look_packages(ps@.subrange(0, k as int)) + spec_enc_look_package(
                ps@[k as int],
            ) =~= old(out)@ + (spec_enc_look_packages(ps@.subrange(0, k as int)) + spec_enc_look_package(
                ps@[k as int],
            )));
        }
        k += 1;
    }
    assert(ps@.subrange(0, ps@.len() as int) =~= ps@);
}

fn enc_velocity_packages_into(out: &mut Vec<u8>, ps: &Vec<VelocityPackage>)
    ensures
        final(out)@ == old(out)@ + spec_enc_velocity_packages(ps@),
{
    let mut k: usize = 0;
    while k < ps.len()
        invariant
            k <= ps@.len(),
            out@ == old(out)@ + spec_enc_velocity_packages(ps@.subrange(0, k as int)),
        decreases ps@.len() - k,
    {
        enc_velocity_package_into(out, &ps[k]);
        proof {
            lemma_enc_velocity_package_push(ps@.subrange(0, k as int), ps@[k as int]);
            assert(ps@.subrange(0, k as int).push(ps@[k as int]) =~= ps@.subrange(
                0,
                k as int + 1,
            ));
            assert(old(out)@ + spec_enc_velocity_packages(ps@.subrange(0, k as int)) + spec_enc_velocity_package(
                ps@[k as int],
            ) =~= old(out)@ + (spec_enc_velocity_packages(ps@.subrange(0, k as int)) + spec_enc_velocity_package(
                ps@[k as int],
            )));
        }
        k += 1;
    }
    assert(ps@.subrange(0, ps@.len() as int) =~= ps@);
}

fn enc_health_packages_into(out: &mut Vec<u8>, ps: &Vec<HealthPackage>)
    ensures
        final(out)@ == old(out)@ + spec_enc_health_packages(ps@),
{
    let mut k: usize = 0;
    while k < ps.len()
        invariant
            k <= ps@.len(),
            out@ == old(out)@ + spec_enc_health_packages(ps@.subrange(0, k as int)),
        decreases ps@.len() - k,
    {
        enc_health_package_into(out, &ps[k]);
        proof {
            lemma_enc_health_package_push(ps@.subrange(0, k as int), ps@[k as int]);
            assert(ps@.subrange(0, k as int).push(ps@[k as int]) =~= ps@.subrange(
                0,
                k as int + 1,
            ));
            assert(old(out)@ + spec_enc_health_packages(ps@.subrange(0, k as int)) + spec_enc_health_package(
                ps@[k as int],
            ) =~= old(out)@ + (spec_enc_health_packages(ps@.subrange(0, k as int)) + spec_enc_health_package(
                ps@[k as int],
            )));
        }
        k += 1;
    }
    assert(ps@.subrange(0, ps@.len() as int) =~= ps@);
}


fn enc_entity_packages_into(out: &mut Vec<u8>, ps: &Vec<EntityPackage>)
    ensures
        final(out)@ == old(out)@ + spec_enc_entity_packages(
            ps@.map_values(|p: EntityPackage| p@),
        ),
{
    let ghost vs = ps@.map_values(|p: EntityPackage| p@);
    let mut k: usize = 0;
    while k < ps.len()
        invariant
            k <= ps@.len(),
            vs == ps@.map_values(|p: EntityPackage| p@),
            out@ == old(out)@ + spec_enc_entity_packages(vs.subrange(0, k as int)),
        decreases ps@.len() - k,
    {
        enc_entity_package_into_checked(out, &ps[k]);
        proof {
            assert(vs[k as int] == ps@[k as int]@);
            lemma_enc_entity_package_push(vs.subrange(0, k as int), vs[k as int]);
            assert(vs.subrange(0, k as int).push(vs[k as int]) =~= vs.subrange(0, k as int + 1));
            assert(old(out)@ + spec_enc_entity_packages(vs.subrange(0, k as int))
                + spec_enc_entity_package(vs[k as int]) =~= old(out)@ + (spec_enc_entity_packages(
                vs.subrange(0, k as int),
            ) + spec_enc_entity_package(vs[k as int])));
        }
        k += 1;
    }
    assert(vs.subrange(0, vs.len() as int) =~= vs);
}

/// Writes one entity package; an overlong component list has its count
/// written modulo the 2-byte field, exactly as the encoding specifies.
fn enc_entity_package_into_checked(out: &mut Vec<u8>, p: &EntityPackage)
    ensures
        final(out)@ == old(out)@ + spec_enc_entity_package(p@),
{
    put_u128(out, p.net_id);
    put_count(out, p.components.len());
    enc_components_into(out, &p.components);
}

fn enc_server_inner_into(out: &mut Vec<u8>, m: &ServerMessageInner)
    ensures
        final(out)@ == old(out)@ + spec_enc_server_inner(m@),
{
    match m {
        ServerMessageInner::LoginOk(id) => {
            put_u8(out, 0);
            put_u128(out, *id);
        },
        ServerMessageInner::SpawnEntities(ps) => {
            put_u8(out, 1);
            put_count(out, ps.len());
            enc_entity_packages_into(out, ps);
        },
        ServerMessageInner::UpdateEntities(ps) => {
            put_u8(out, 2);
            put_count(out, ps.len());
            enc_entity_packages_into(out, ps);
        },
        ServerMessageInner::UpdatePositions { unix_time, packages } => {
            put_u8(out, 3);
            put_u64(out, *unix_time);
            put_count(out, packages.len());
            enc_position_packages_into(out, packages);
        },
        ServerMessageInner::UpdatePlayerLooks(ps) => {
            put_u8(out, 4);
            put_count(out, ps.len());
            enc_look_packages_into(out, ps);
        },
        ServerMessageInner::UpdateVelocities(ps) => {
            put_u8(out, 5);
            put_count(out, ps.len());
            enc_velocity_packages_into(out, ps);
        },
        ServerMessageInner::UpdateHealths(ps) => {
            put_u8(out, 6);
            put_count(out, ps.len());
            enc_health_packages_into(out, ps);
        },
        ServerMessageInner::Confirm(n) => {
            put_u8(out, 7);
            put_u64(out, *n);
        },
    }
}

/// Writes a list's element count into its 2-byte wire field, modulo the
/// field's range, exactly as the encoding specifies.
fn put_count(out: &mut Vec<u8>, n: usize)
    ensures
        final(out)@ == old(out)@ + spec_u16_to_le_bytes(n as u16),
{
    let c: u16 = (n % 65536) as u16;
    proof {
        assert(n as u16 == (n % 65536) as u16) by (bit_vector);
    }
    put_u16(out, c);
}

fn enc_client_inner_into(out: &mut Vec<u8>, m: &ClientMessageInner)
    ensures
        final(out)@ == old(out)@ + spec_enc_client_inner(*m),
{
    match m {
        ClientMessageInner::Login => {
            put_u8(out, 0);
        },
        ClientMessageInner::SetVelocity(id, v) => {
            put_u8(out, 1);
            put_u128(out, *id);
            enc_vec2_into(out, v);
        },
        ClientMessageInner::Rotation(id, q) => {
            put_u8(out, 2);
            put_u128(out, *id);
            enc_quat_into(out, q);
        },
        ClientMessageInner::Confirm(n) => {
            put_u8(out, 3);
            put_u64(out, *n);
        },
        ClientMessageInner::Jump(id) => {
            put_u8(out, 4);
            put_u128(out, *id);
        },
        ClientMessageInner::Shoot(id, v) => {
            put_u8(out, 5);
            put_u128(out, *id);
            enc_vec3_into(out, v);
        },
    }
}

/// Pads the encoded message with zero bytes up to the frame length.
fn pad_frame(out: &mut Vec<u8>)
    requires
        old(out)@.len() <= FRAME_LEN,
    ensures
        final(out)@.len() == FRAME_LEN,
        final(out)@ == old(out)@ + Seq::new(
            (FRAME_LEN - old(out)@.len()) as nat,
            |j: int| 0u8,
        ),
{
    while out.len() < FRAME_LEN
        invariant
            old(out)@.len() <= out@.len() <= FRAME_LEN,
            out@ == old(out)@ + Seq::new((out@.len() - old(out)@.len()) as nat, |j: int| 0u8),
        decreases FRAME_LEN - out@.len(),
    {
        out.push(0u8);
        proof {
            let n = (out@.len() - old(out)@.len()) as nat;
            assert(old(out)@ + Seq::new((n - 1) as nat, |j: int| 0u8) + seq![0u8] =~= old(out)@
                + Seq::new(n, |j: int| 0u8));
        }
    }
}

impl ServerMessage {
    /// Encodes the message into a zero-padded fixed-size frame; callers must
    /// already know that the encoding fits the frame (see
    /// [`Self::encode_checked`] for the total variant).
    pub fn encode(&self) -> (r: Vec<u8>)
        requires
            spec_enc_server(self@).len() <= FRAME_LEN,
        ensures
            r@.len() == FRAME_LEN,
            r@ == spec_server_frame(self@),
    {
        let mut out: Vec<u8> = Vec::new();
        put_u64(&mut out, self.reliable);
        enc_server_inner_into(&mut out, &self.message);
        assert(out@ =~= spec_enc_server(self@));
        pad_frame(&mut out);
        out
    }

    /// Encodes the message into a zero-padded fixed-size frame, or returns
    /// nothing exactly when the encoding does not fit the frame.
    pub fn encode_checked(&self) -> (r: Option<Vec<u8>>)
        ensures
            r matches Some(f) ==> spec_enc_server(self@).len() <= FRAME_LEN && f@
                == spec_server_frame(self@) && f@.len() == FRAME_LEN,
            r is None ==> spec_enc_server(self@).len() > FRAME_LEN,
    {
        let mut out: Vec<u8> = Vec::new();
        put_u64(&mut out, self.reliable);
        enc_server_inner_into(&mut out, &self.message);
        assert(out@ =~= spec_enc_server(self@));
        if out.len() <= FRAME_LEN {
            pad_frame(&mut out);
            Some(out)
        } else {
            None
        }
    }
}

impl ClientMessage {
    /// Encodes the message into a zero-padded fixed-size frame; every client
    /// message fits.
    pub fn encode(&self) -> (r: Vec<u8>)
        ensures
            r@.len() == FRAME_LEN,
            r@ == spec_client_frame(*self),
    {
        proof {
            lemma_enc_client_len(*self);
        }
        let mut out: Vec<u8> = Vec::new();
        put_u64(&mut out, self.reliable);
        enc_client_inner_into(&mut out, &self.message);
        assert(out@ =~= spec_enc_client(*self));
        pad_frame(&mut out);
        out
    }
}

} // verus!

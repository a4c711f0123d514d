//! The executable decoder: total parsers over byte slices, each proved to
//! agree exactly with the codec's specification-level parser, so a frame
//! either yields the message it encodes or nothing, and never a panic.

use vstd::prelude::*;

use crate::codec::{
    sp_component, sp_components, sp_entity_package, sp_entity_packages, sp_health_package,
    sp_health_packages, sp_look_package, sp_look_packages, sp_position_package,
    sp_position_packages, sp_quat, sp_server_inner, sp_vec2, sp_vec3, sp_velocity_package,
    sp_velocity_packages, spec_decode_client, spec_decode_server, sp_client_inner,
};
use crate::messages::{
    ClientMessage, ClientMessageInner, EntityPackage, EntityPackageView, HealthPackage, MyQuat,
    MyVec2, MyVec3, NetComponent, PlayerLookPackage, PositionPackage, ServerMessage,
    ServerMessageInner, VelocityPackage,
};
use crate::wire::{parse_u128, parse_u16, parse_u32, parse_u64, parse_u8};

verus! {

fn parse_vec2(bytes: &[u8], i: usize) -> (r: Option<(MyVec2, usize)>)
    ensures
        r matches Some((v, j)) ==> sp_vec2(bytes@, i as int) == Some((v, j as int)) && j
            <= bytes@.len(),
        r is None ==> sp_vec2(bytes@, i as int) is None,
{
    match parse_u32(bytes, i) {
        Some((x, j)) => match parse_u32(bytes, j) {
            Some((y, k)) => Some((MyVec2 { x, y }, k)),
            None => None,
        },
        None => None,
    }
}

fn parse_vec3(bytes: &[u8], i: usize) -> (r: Option<(MyVec3, usize)>)
    ensures
        r matches Some((v, j)) ==> sp_vec3(bytes@, i as int) == Some((v, j as int)) && j
            <= bytes@.len(),
        r is None ==> sp_vec3(bytes@, i as int) is None,
{
    match parse_u32(bytes, i) {
        Some((x, j)) => match parse_u32(bytes, j) {
            Some((y, k)) => match parse_u32(bytes, k) {
                Some((z, l)) => Some((MyVec3 { x, y, z }, l)),
                None => None,
            },
            None => None,
        },
        None => None,
    }
}

fn parse_quat(bytes: &[u8], i: usize) -> (r: Option<(MyQuat, usize)>)
    ensures
        r matches Some((q, j)) ==> sp_quat(bytes@, i as int) == Some((q, j as int)) && j
            <= bytes@.len(),
        r is None ==> sp_quat(bytes@, i as int) is None,
{
    match parse_u32(bytes, i) {
        Some((x, j)) => match parse_u32(bytes, j) {
            Some((y, k)) => match parse_u32(bytes, k) {
                Some((z, l)) => match parse_u32(bytes, l) {
                    Some((w, m)) => Some((MyQuat { x, y, z, w }, m)),
                    None => None,
                },
                None => None,
            },
            None => None,
        },
        None => None,
    }
}

fn parse_component(bytes: &[u8], i: usize) -> (r: Option<(NetComponent, usize)>)
    ensures
        r matches Some((c, j)) ==> sp_component(bytes@, i as int) == Some((c, j as int)) && j
            <= bytes@.len(),
        r is None ==> sp_component(bytes@, i as int) is None,
{
    match parse_u8(bytes, i) {
        Some((tag, j)) => {
            if tag == 0 {
                match parse_vec3(bytes, j) {
                    Some((v, k)) => Some((NetComponent::LinearVelocity(v), k)),
                    None => None,
                }
            } else if tag == 1 {
                match parse_vec3(bytes, j) {
                    Some((translation, k)) => match parse_quat(bytes, k) {
                        Some((rotation, l)) => match parse_vec3(bytes, l) {
                            Some((scale, m)) => Some(
                                (NetComponent::Transform { translation, rotation, scale }, m),
                            ),
                            None => None,
                        },
                        None => None,
                    },
                    None => None,
                }
            } else if tag == 2 {
                match parse_u32(bytes, j) {
                    Some((v, k)) => Some((NetComponent::Sphere(v), k)),
                    None => None,
                }
            } else if tag == 3 {
                match parse_u32(bytes, j) {
                    Some((v, k)) => Some((NetComponent::SphereCollider(v), k)),
                    None => None,
                }
            } else if tag == 4 {
                match parse_u32(bytes, j) {
                    Some((v, k)) => match parse_u32(bytes, k) {
                        Some((h, l)) => Some((NetComponent::Capsule(v, h), l)),
                        None => None,
                    },
                    None => None,
                }
            } else if tag == 5 {
                match parse_u32(bytes, j) {
                    Some((v, k)) => match parse_u32(bytes, k) {
                        Some((h, l)) => Some((NetComponent::CapsuleCollider(v, h), l)),
                        None => None,
                    },
                    None => None,
                }
            } else if tag == 6 {
                match parse_u32(bytes, j) {
                    Some((r0, k)) => match parse_u32(bytes, k) {
                        Some((g, l)) => match parse_u32(bytes, l) {
                            Some((b, m)) => Some((NetComponent::ColorMaterial { r: r0, g, b }, m)),
                            None => None,
                        },
                        None => None,
                    },
                    None => None,
                }
            } else if tag == 7 {
                match parse_u32(bytes, j) {
                    Some((v, k)) => Some((NetComponent::Health(v), k)),
                    None => None,
                }
            } else if tag == 8 {
                Some((NetComponent::Player, j))
            } else if tag == 9 {
                Some((NetComponent::Enemy, j))
            } else if tag == 10 {
                match parse_u32(bytes, j) {
                    Some((v, k)) => Some((NetComponent::Radius(v), k)),
                    None => None,
                }
            } else if tag == 11 {
                match parse_u32(bytes, j) {
                    Some((v, k)) => Some((NetComponent::SpotLight(v), k)),
                    None => None,
                }
            } else {
                None
            }
        },
        None => None,
    }
}

/// The whole parse of a list, given a prefix already parsed and the parse of
/// what remains.
spec fn join_components(
    acc: Seq<NetComponent>,
    r: Option<(Seq<NetComponent>, int)>,
) -> Option<(Seq<NetComponent>, int)> {
    match r {
        Some((s, j)) => Some((acc + s, j)),
        None => None,
    }
}

fn parse_components(bytes: &[u8], i0: usize, n: u16) -> (r: Option<(Vec<NetComponent>, usize)>)
    requires
        i0 <= bytes@.len(),
    ensures
        r matches Some((v, j)) ==> sp_components(bytes@, i0 as int, n as nat) == Some(
            (v@, j as int),
        ) && j <= bytes@.len(),
        r is None ==> sp_components(bytes@, i0 as int, n as nat) is None,
{
    let mut acc: Vec<NetComponent> = Vec::new();
    let mut i: usize = i0;
    let mut k: u16 = 0;
    proof {
        match sp_components(bytes@, i0 as int, n as nat) {
            Some((s, j)) => {
                assert(Seq::<NetComponent>::empty() + s =~= s);
            },
            None => {},
        }
    }
    while k < n
        invariant
            k <= n,
            i <= bytes@.len(),
            sp_components(bytes@, i0 as int, n as nat) == join_components(
                acc@,
                sp_components(bytes@, i as int, (n - k) as nat),
            ),
        decreases n - k,
    {
        match parse_component(bytes, i) {
            Some((c, j)) => {
                let ghost prev = acc@;
                acc.push(c);
                proof {
                    match sp_components(bytes@, j as int, (n - k - 1) as nat) {
                        Some((s, l)) => {
                            assert(prev + (seq![c] + s) =~= acc@ + s);
                        },
                        None => {},
                    }
                }
                i = j;
            },
            None => {
                return None;
            },
        }
        k += 1;
    }
    proof {
        assert(acc@ + Seq::<NetComponent>::empty() =~= acc@);
    }
    Some((acc, i))
}

fn parse_entity_package(bytes: &[u8], i: usize) -> (r: Option<(EntityPackage, usize)>)
    ensures
        r matches Some((p, j)) ==> sp_entity_package(bytes@, i as int) == Some((p@, j as int))
            && j <= bytes@.len(),
        r is None ==> sp_entity_package(bytes@, i as int) is None,
{
    match parse_u128(bytes, i) {
        Some((net_id, j)) => match parse_u16(bytes, j) {
            Some((n, k)) => match parse_components(bytes, k, n) {
                Some((components, l)) => Some((EntityPackage { net_id, components }, l)),
                None => None,
            },
            None => None,
        },
        None => None,
    }
}

/// The whole parse of a package list, given a prefix already parsed and the
/// parse of what remains.
spec fn join_entity_packages(
    acc: Seq<EntityPackageView>,
    r: Option<(Seq<EntityPackageView>, int)>,
) -> Option<(Seq<EntityPackageView>, int)> {
    match r {
        Some((s, j)) => Some((acc + s, j)),
        None => None,
    }
}

fn parse_entity_packages(bytes: &[u8], i0: usize, n: u16) -> (r: Option<
    (Vec<EntityPackage>, usize),
>)
    requires
        i0 <= bytes@.len(),
    ensures
        r matches Some((v, j)) ==> sp_entity_packages(bytes@, i0 as int, n as nat) == Some(
            (v@.map_values(|p: EntityPackage| p@), j as int),
        ) && j <= bytes@.len(),
        r is None ==> sp_entity_packages(bytes@, i0 as int, n as nat) is None,
{
    let mut acc: Vec<EntityPackage> = Vec::new();
    let mut i: usize = i0;
    let mut k: u16 = 0;
    proof {
        assert(acc@.map_values(|p: EntityPackage| p@) =~= Seq::<EntityPackageView>::empty());
        match sp_entity_packages(bytes@, i0 as int, n as nat) {
            Some((s, j)) => {
                assert(Seq::<EntityPackageView>::empty() + s =~= s);
            },
            None => {},
        }
    }
    while k < n
        invariant
            k <= n,
            i <= bytes@.len(),
            sp_entity_packages(bytes@, i0 as int, n as nat) == join_entity_packages(
                acc@.map_values(|p: EntityPackage| p@),
                sp_entity_packages(bytes@, i as int, (n - k) as nat),
            ),
        decreases n - k,
    {
        match parse_entity_package(bytes, i) {
            Some((p, j)) => {
                let ghost prev = acc@.map_values(|q: EntityPackage| q@);
                let ghost pv = p@;
                acc.push(p);
                proof {
                    assert(acc@.map_values(|q: EntityPackage| q@) =~= prev.push(pv));
                    match sp_entity_packages(bytes@, j as int, (n - k - 1) as nat) {
                        Some((s, l)) => {
                            assert(prev + (seq![pv] + s) =~= prev.push(pv) + s);
                        },
                        None => {},
                    }
                }
                i = j;
            },
            None => {
                return None;
            },
        }
        k += 1;
    }
    proof {
        assert(acc@.map_values(|p: EntityPackage| p@) + Seq::<EntityPackageView>::empty()
            =~= acc@.map_values(|p: EntityPackage| p@));
    }
    Some((acc, i))
}

fn parse_position_package(bytes: &[u8], i: usize) -> (r: Option<(PositionPackage, usize)>)
    ensures
        r matches Some((p, j)) ==> sp_position_package(bytes@, i as int) == Some((p, j as int))
            && j <= bytes@.len(),
        r is None ==> sp_position_package(bytes@, i as int) is None,
{
    match parse_u128(bytes, i) {
        Some((net_id, j)) => match parse_vec3(bytes, j) {
            Some((position, k)) => match parse_quat(bytes, k) {
                Some((rotation, l)) => Some((PositionPackage { net_id, position, rotation }, l)),
                None => None,
            },
            None => None,
        },
        None => None,
    }
}

fn parse_look_package(bytes: &[u8], i: usize) -> (r: Option<(PlayerLookPackage, usize)>)
    ensures
        r matches Some((p, j)) ==> sp_look_package(bytes@, i as int) == Some((p, j as int)) && j
            <= bytes@.len(),
        r is None ==> sp_look_package(bytes@, i as int) is None,
{
    match parse_u128(bytes, i) {
        Some((net_id, j)) => match parse_quat(bytes, j) {
            Some((rotation, k)) => Some((PlayerLookPackage { net_id, rotation }, k)),
            None => None,
        },
        None => None,
    }
}

fn parse_velocity_package(bytes: &[u8], i: usize) -> (r: Option<(VelocityPackage, usize)>)
    ensures
        r matches Some((p, j)) ==> sp_velocity_package(bytes@, i as int) == Some((p, j as int))
            && j <= bytes@.len(),
        r is None ==> sp_velocity_package(bytes@, i as int) is None,
{
    match parse_u128(bytes, i) {
        Some((net_id, j)) => match parse_vec3(bytes, j) {
            Some((velocity, k)) => Some((VelocityPackage { net_id, velocity }, k)),
            None => None,
        },
        None => None,
    }
}

fn parse_health_package(bytes: &[u8], i: usize) -> (r: Option<(HealthPackage, usize)>)
    ensures
        r matches Some((p, j)) ==> sp_health_package(bytes@, i as int) == Some((p, j as int))
            && j <= bytes@.len(),
        r is None ==> sp_health_package(bytes@, i as int) is None,
{
    match parse_u128(bytes, i) {
        Some((net_id, j)) => match parse_u32(bytes, j) {
            Some((health, k)) => Some((HealthPackage { net_id, health }, k)),
            None => None,
        },
        None => None,
    }
}

/// The whole parse of a package list, given a prefix already parsed and the
/// parse of what remains.
spec fn join_position_packages(
    acc: Seq<PositionPackage>,
    r: Option<(Seq<PositionPackage>, int)>,
) -> Option<(Seq<PositionPackage>, int)> {
    match r {
        Some((s, j)) => Some((acc + s, j)),
        None => None,
    }
}

fn parse_position_packages(bytes: &[u8], i0: usize, n: u16) -> (r: Option<(Vec<PositionPackage>, usize)>)
    requires
        i0 <= bytes@.len(),
    ensures
        r matches Some((v, j)) ==> sp_position_packages(bytes@, i0 as int, n as nat) == Some(
            (v@, j as int),
        ) && j <= bytes@.len(),
        r is None ==> sp_position_packages(bytes@, i0 as int, n as nat) is None,
{
    let mut acc: Vec<PositionPackage> = Vec::new();
    let mut i: usize = i0;
    let mut k: u16 = 0;
    proof {
        match sp_position_packages(bytes@, i0 as int, n as nat) {
            Some((s, j)) => {
                assert(Seq::<PositionPackage>::empty() + s =~= s);
            },
            None => {},
        }
    }
    while k < n
        invariant
            k <= n,
            i <= bytes@.len(),
            sp_position_packages(bytes@, i0 as int, n as nat) == join_position_packages(
                acc@,
                sp_position_packages(bytes@, i as int, (n - k) as nat),
            ),
        decreases n - k,
    {
        match parse_position_package(bytes, i) {
            Some((p, j)) => {
                let ghost prev = acc@;
                acc.push(p);
                proof {
                    match sp_position_packages(bytes@, j as int, (n - k - 1) as nat) {
                        Some((s, l)) => {
                            assert(prev + (seq![p] + s) =~= acc@ + s);
                        },
                        None => {},
                    }
                }
                i = j;
            },
            None => {
                return None;
            },
        }
        k += 1;
    }
    proof {
        assert(acc@ + Seq::<PositionPackage>::empty() =~= acc@);
    }
    Some((acc, i))
}

/// The whole parse of a package list, given a prefix already parsed and the
/// parse of what remains.
spec fn join_look_packages(
    acc: Seq<PlayerLookPackage>,
    r: Option<(Seq<PlayerLookPackage>, int)>,
) -> Option<(Seq<PlayerLookPackage>, int)> {
    match r {
        Some((s, j)) => Some((acc + s, j)),
        None => None,
    }
}

fn parse_look_packages(bytes: &[u8], i0: usize, n: u16) -> (r: Option<(Vec<PlayerLookPackage>, usize)>)
    requires
        i0 <= bytes@.len(),
    ensures
        r matches Some((v, j)) ==> sp_look_packages(bytes@, i0 as int, n as nat) == Some(
            (v@, j as int),
        ) && j <= bytes@.len(),
        r is None ==> sp_look_packages(bytes@, i0 as int, n as nat) is None,
{
    let mut acc: Vec<PlayerLookPackage> = Vec::new();
    let mut i: usize = i0;
    let mut k: u16 = 0;
    proof {
        match sp_look_packages(bytes@, i0 as int, n as nat) {
            Some((s, j)) => {
                assert(Seq::<PlayerLookPackage>::empty() + s =~= s);
            },
            None => {},
        }
    }
    while k < n
        invariant
            k <= n,
            i <= bytes@.len(),
            sp_look_packages(bytes@, i0 as int, n as nat) == join_look_packages(
                acc@,
                sp_look_packages(bytes@, i as int, (n - k) as nat),
            ),
        decreases n - k,
    {
        match parse_look_package(bytes, i) {
            Some((p, j)) => {
                let ghost prev = acc@;
                acc.push(p);
                proof {
                    match sp_look_packages(bytes@, j as int, (n - k - 1) as nat) {
                        Some((s, l)) => {
                            assert(prev + (seq![p] + s) =~= acc@ + s);
                        },
                        None => {},
                    }
                }
                i = j;
            },
            None => {
                return None;
            },
        }
        k += 1;
    }
    proof {
        assert(acc@ + Seq::<PlayerLookPackage>::empty() =~= acc@);
    }
    Some((acc, i))
}

/// The whole parse of a package list, given a prefix already parsed and the
/// parse of what remains.
spec fn join_velocity_packages(
    acc: Seq<VelocityPackage>,
    r: Option<(Seq<VelocityPackage>, int)>,
) -> Option<(Seq<VelocityPackage>, int)> {
    match r {
        Some((s, j)) => Some((acc + s, j)),
        None => None,
    }
}

fn parse_velocity_packages(bytes: &[u8], i0: usize, n: u16) -> (r: Option<(Vec<VelocityPackage>, usize)>)
    requires
        i0 <= bytes@.len(),
    ensures
        r matches Some((v, j)) ==> sp_velocity_packages(bytes@, i0 as int, n as nat) == Some(
            (v@, j as int),
        ) && j <= bytes@.len(),
        r is None ==> sp_velocity_packages(bytes@, i0 as int, n as nat) is None,
{
    let mut acc: Vec<VelocityPackage> = Vec::new();
    let mut i: usize = i0;
    let mut k: u16 = 0;
    proof {
        match sp_velocity_packages(bytes@, i0 as int, n as nat) {
            Some((s, j)) => {
                assert(Seq::<VelocityPackage>::empty() + s =~= s);
            },
            None => {},
        }
    }
    while k < n
        invariant
            k <= n,
            i <= bytes@.len(),
            sp_velocity_packages(bytes@, i0 as int, n as nat) == join_velocity_packages(
                acc@,
                sp_velocity_packages(bytes@, i as int, (n - k) as nat),
            ),
        decreases n - k,
    {
        match parse_velocity_package(bytes, i) {
            Some((p, j)) => {
                let ghost prev = acc@;
                acc.push(p);
                proof {
                    match sp_velocity_packages(bytes@, j as int, (n - k - 1) as nat) {
                        Some((s, l)) => {
                            assert(prev + (seq![p] + s) =~= acc@ + s);
                        },
                        None => {},
                    }
                }
                i = j;
            },
            None => {
                return None;
            },
        }
        k += 1;
    }
    proof {
        assert(acc@ + Seq::<VelocityPackage>::empty() =~= acc@);
    }
    Some((acc, i))
}

/// The whole parse of a package list, given a prefix already parsed and the
/// parse of what remains.
spec fn join_health_packages(
    acc: Seq<HealthPackage>,
    r: Option<(Seq<HealthPackage>, int)>,
) -> Option<(Seq<HealthPackage>, int)> {
    match r {
        Some((s, j)) => Some((acc + s, j)),
        None => None,
    }
}

fn parse_health_packages(bytes: &[u8], i0: usize, n: u16) -> (r: Option<(Vec<HealthPackage>, usize)>)
    requires
        i0 <= bytes@.len(),
    ensures
        r matches Some((v, j)) ==> sp_health_packages(bytes@, i0 as int, n as nat) == Some(
            (v@, j as int),
        ) && j <= bytes@.len(),
        r is None ==> sp_health_packages(bytes@, i0 as int, n as nat) is None,
{
    let mut acc: Vec<HealthPackage> = Vec::new();
    let mut i: usize = i0;
    let mut k: u16 = 0;
    proof {
        match sp_health_packages(bytes@, i0 as int, n as nat) {
            Some((s, j)) => {
                assert(Seq::<HealthPackage>::empty() + s =~= s);
            },
            None => {},
        }
    }
    while k < n
        invariant
            k <= n,
            i <= bytes@.len(),
            sp_health_packages(bytes@, i0 as int, n as nat) == join_health_packages(
                acc@,
                sp_health_packages(bytes@, i as int, (n - k) as nat),
            ),
        decreases n - k,
    {
        match parse_health_package(bytes, i) {
            Some((p, j)) => {
                let ghost prev = acc@;
                acc.push(p);
                proof {
                    match sp_health_packages(bytes@, j as int, (n - k - 1) as nat) {
                        Some((s, l)) => {
                            assert(prev + (seq![p] + s) =~= acc@ + s);
                        },
                        None => {},
                    }
                }
                i = j;
            },
            None => {
                return None;
            },
        }
        k += 1;
    }
    proof {
        assert(acc@ + Seq::<HealthPackage>::empty() =~= acc@);
    }
    Some((acc, i))
}

fn parse_server_inner(bytes: &[u8], i: usize) -> (r: Option<(ServerMessageInner, usize)>)
    ensures
        r matches Some((m, j)) ==> sp_server_inner(bytes@, i as int) == Some((m@, j as int)) && j
            <= bytes@.len(),
        r is None ==> sp_server_inner(bytes@, i as int) is None,
{
    match parse_u8(bytes, i) {
        Some((tag, j)) => {
            if tag == 0 {
                match parse_u128(bytes, j) {
                    Some((id, k)) => Some((ServerMessageInner::LoginOk(id), k)),
                    None => None,
                }
            } else if tag == 1 {
                match parse_u16(bytes, j) {
                    Some((n, k)) => match parse_entity_packages(bytes, k, n) {
                        Some((ps, l)) => Some((ServerMessageInner::SpawnEntities(ps), l)),
                        None => None,
                    },
                    None => None,
                }
            } else if tag == 2 {
                match parse_u16(bytes, j) {
                    Some((n, k)) => match parse_entity_packages(bytes, k, n) {
                        Some((ps, l)) => Some((ServerMessageInner::UpdateEntities(ps), l)),
                        None => None,
                    },
                    None => None,
                }
            } else if tag == 3 {
                match parse_u64(bytes, j) {
                    Some((unix_time, j2)) => match parse_u16(bytes, j2) {
                        Some((n, k)) => match parse_position_packages(bytes, k, n) {
                            Some((ps, l)) => Some(
                                (
                                    ServerMessageInner::UpdatePositions {
                                        unix_time,
                                        packages: ps,
                                    },
                                    l,
                                ),
                            ),
                            None => None,
                        },
                        None => None,
                    },
                    None => None,
                }
            } else if tag == 4 {
                match parse_u16(bytes, j) {
                    Some((n, k)) => match parse_look_packages(bytes, k, n) {
                        Some((ps, l)) => Some((ServerMessageInner::UpdatePlayerLooks(ps), l)),
                        None => None,
                    },
                    None => None,
                }
            } else if tag == 5 {
                match parse_u16(bytes, j) {
                    Some((n, k)) => match parse_velocity_packages(bytes, k, n) {
                        Some((ps, l)) => Some((ServerMessageInner::UpdateVelocities(ps), l)),
                        None => None,
                    },
                    None => None,
                }
            } else if tag == 6 {
                match parse_u16(bytes, j) {
                    Some((n, k)) => match parse_health_packages(bytes, k, n) {
                        Some((ps, l)) => Some((ServerMessageInner::UpdateHealths(ps), l)),
                        None => None,
                    },
                    None => None,
                }
            } else if tag == 7 {
                match parse_u64(bytes, j) {
                    Some((n, k)) => Some((ServerMessageInner::Confirm(n), k)),
                    None => None,
                }
            } else {
                None
            }
        },
        None => None,
    }
}

impl ServerMessage {
    /// Decodes a received buffer; malformed input yields nothing rather than
    /// a failure, and bytes past a complete message are ignored.
    pub fn decode(bytes: &[u8]) -> (r: Option<ServerMessage>)
        ensures
            r matches Some(m) ==> spec_decode_server(bytes@) == Some(m@),
            r is None ==> spec_decode_server(bytes@) is None,
    {
        match parse_u64(bytes, 0) {
            Some((reliable, j)) => match parse_server_inner(bytes, j) {
                Some((message, _k)) => Some(ServerMessage { reliable, message }),
                None => None,
            },
            None => None,
        }
    }
}

fn parse_client_inner(bytes: &[u8], i: usize) -> (r: Option<(ClientMessageInner, usize)>)
    ensures
        r matches Some((m, j)) ==> sp_client_inner(bytes@, i as int) == Some((m, j as int)) && j
            <= bytes@.len(),
        r is None ==> sp_client_inner(bytes@, i as int) is None,
{
    match parse_u8(bytes, i) {
        Some((tag, j)) => {
            if tag == 0 {
                Some((ClientMessageInner::Login, j))
            } else if tag == 1 {
                match parse_u128(bytes, j) {
                    Some((id, k)) => match parse_vec2(bytes, k) {
                        Some((v, l)) => Some((ClientMessageInner::SetVelocity(id, v), l)),
                        None => None,
                    },
                    None => None,
                }
            } else if tag == 2 {
                match parse_u128(bytes, j) {
                    Some((id, k)) => match parse_quat(bytes, k) {
                        Some((q, l)) => Some((ClientMessageInner::Rotation(id, q), l)),
                        None => None,
                    },
                    None => None,
                }
            } else if tag == 3 {
                match parse_u64(bytes, j) {
                    Some((n, k)) => Some((ClientMessageInner::Confirm(n), k)),
                    None => None,
                }
            } else if tag == 4 {
                match parse_u128(bytes, j) {
                    Some((id, k)) => Some((ClientMessageInner::Jump(id), k)),
                    None => None,
                }
            } else if tag == 5 {
                match parse_u128(bytes, j) {
                    Some((id, k)) => match parse_vec3(bytes, k) {
                        Some((v, l)) => Some((ClientMessageInner::Shoot(id, v), l)),
                        None => None,
                    },
                    None => None,
                }
            } else {
                None
            }
        },
        None => None,
    }
}

impl ClientMessage {
    /// Decodes a received buffer; malformed input yields nothing rather than
    /// a failure, and bytes past a complete message are ignored.
    pub fn decode(bytes: &[u8]) -> (r: Option<ClientMessage>)
        ensures
            r == spec_decode_client(bytes@),
    {
        match parse_u64(bytes, 0) {
            Some((reliable, j)) => match parse_client_inner(bytes, j) {
                Some((message, _k)) => Some(ClientMessage { reliable, message }),
                None => None,
            },
            None => None,
        }
    }
}

} // verus!

//! Output batching: once a tick's eligible updates are collected for an
//! observer, they are packed into the fewest fixed-size frames possible and
//! sent unreliably (positions and velocities are self-correcting on the
//! next tick). Spawn descriptions are batched the same way but reliably.

use vstd::prelude::*;
use vstd::bytes::{
    lemma_auto_spec_u128_to_from_le_bytes, lemma_auto_spec_u16_to_from_le_bytes,
    lemma_auto_spec_u32_to_from_le_bytes, lemma_auto_spec_u64_to_from_le_bytes,
};
use vstd::arithmetic::div_mod::lemma_fundamental_div_mod;
use vstd::arithmetic::mul::lemma_mul_inequality;

use crate::FRAME_LEN;
use crate::codec::{
    spec_enc_component, spec_enc_components, spec_enc_entity_package, spec_enc_entity_packages,
    spec_enc_position_package, spec_enc_position_packages, spec_enc_server,
    spec_enc_velocity_package, spec_enc_velocity_packages,
};
use crate::messages::{
    EntityPackage, EntityPackageView, NetComponent, PositionPackage, ServerMessage,
    ServerMessageInnerView, ServerMessageView, VelocityPackage,
};

verus! {

/// How many position packages one frame can carry.
pub const POSITION_PACKAGES_PER_MESSAGE: usize = 22;

/// How many velocity packages one frame can carry.
pub const VELOCITY_PACKAGES_PER_MESSAGE: usize = 35;

proof fn lemma_position_package_len(p: PositionPackage)
    ensures
        spec_enc_position_package(p).len() == 44,
{
    lemma_auto_spec_u128_to_from_le_bytes();
    lemma_auto_spec_u32_to_from_le_bytes();
}

proof fn lemma_position_packages_len(s: Seq<PositionPackage>)
    ensures
        spec_enc_position_packages(s).len() == 44 * s.len(),
    decreases s.len(),
{
    if s.len() > 0 {
        lemma_position_package_len(s[0]);
        lemma_position_packages_len(s.drop_first());
    }
}

proof fn lemma_velocity_package_len(p: VelocityPackage)
    ensures
        spec_enc_velocity_package(p).len() == 28,
{
    lemma_auto_spec_u128_to_from_le_bytes();
    lemma_auto_spec_u32_to_from_le_bytes();
}

proof fn lemma_velocity_packages_len(s: Seq<VelocityPackage>)
    ensures
        spec_enc_velocity_packages(s).len() == 28 * s.len(),
    decreases s.len(),
{
    if s.len() > 0 {
        lemma_velocity_package_len(s[0]);
        lemma_velocity_packages_len(s.drop_first());
    }
}

/// The frame cost of a whole position-update message: header, tag,
/// timestamp and count, then the packages.
pub proof fn lemma_update_positions_msg_len(reliable: u64, unix_time: u64, s: Seq<
    PositionPackage,
>)
    ensures
        spec_enc_server(
            ServerMessageView {
                reliable,
                message: ServerMessageInnerView::UpdatePositions { unix_time, packages: s },
            },
        ).len() == 19 + 44 * s.len(),
{
    lemma_auto_spec_u64_to_from_le_bytes();
    lemma_auto_spec_u16_to_from_le_bytes();
    lemma_position_packages_len(s);
}

/// The frame cost of a whole velocity-update message.
pub proof fn lemma_update_velocities_msg_len(reliable: u64, s: Seq<VelocityPackage>)
    ensures
        spec_enc_server(
            ServerMessageView { reliable, message: ServerMessageInnerView::UpdateVelocities(s) },
        ).len() == 11 + 28 * s.len(),
{
    lemma_auto_spec_u64_to_from_le_bytes();
    lemma_auto_spec_u16_to_from_le_bytes();
    lemma_velocity_packages_len(s);
}

/// Where chunk `i` of a list of `n` elements, cut every `cap`, ends.
pub open spec fn chunk_end(i: int, cap: int, n: int) -> int {
    if (i + 1) * cap <= n {
        (i + 1) * cap
    } else {
        n
    }
}

/// Splits a tick's eligible position updates into unreliable messages, in
/// order, each filled to the frame's capacity and stamped with the
/// authoritative instant; every produced message fits the frame.
pub fn chunk_positions(unix_time: u64, packages: Vec<PositionPackage>) -> (r: Vec<ServerMessage>)
    ensures
        r@.len() == (packages@.len() + POSITION_PACKAGES_PER_MESSAGE - 1) as int / (POSITION_PACKAGES_PER_MESSAGE as int),
        forall|i: int|
            0 <= i < r@.len() ==> {
                &&& (#[trigger] r@[i]).reliable == 0
                &&& r@[i]@.message == (ServerMessageInnerView::UpdatePositions {
                    unix_time,
                    packages: packages@.subrange(
                        i * (POSITION_PACKAGES_PER_MESSAGE as int),
                        chunk_end(i, POSITION_PACKAGES_PER_MESSAGE as int, packages@.len() as int),
                    ),
                })
                &&& spec_enc_server(r@[i]@).len() <= FRAME_LEN
            },
{
    let cap = POSITION_PACKAGES_PER_MESSAGE;
    let n = packages.len();
    let mut out: Vec<ServerMessage> = Vec::new();
    let mut c: usize = 0;
    let mut k: usize = 0;
    while k < n
        invariant
            cap == POSITION_PACKAGES_PER_MESSAGE,
            n == packages@.len(),
            k <= n,
            out@.len() == c,
            k < n ==> k == c * cap,
            k == n ==> c == (n + cap - 1) as int / (cap as int),
            forall|i: int|
                0 <= i < out@.len() ==> {
                    &&& (#[trigger] out@[i]).reliable == 0
                    &&& out@[i]@.message == (ServerMessageInnerView::UpdatePositions {
                        unix_time,
                        packages: packages@.subrange(
                            i * (cap as int),
                            chunk_end(i, cap as int, n as int),
                        ),
                    })
                    &&& spec_enc_server(out@[i]@).len() <= FRAME_LEN
                },
        decreases n - k,
    {
        let hi = if n - k >= cap {
            k + cap
        } else {
            n
        };
        let mut chunk: Vec<PositionPackage> = Vec::new();
        let mut j: usize = k;
        while j < hi
            invariant
                k <= j <= hi <= n,
                n == packages@.len(),
                chunk@ == packages@.subrange(k as int, j as int),
            decreases hi - j,
        {
            chunk.push(packages[j]);
            proof {
                assert(packages@.subrange(k as int, j as int).push(packages@[j as int])
                    =~= packages@.subrange(k as int, j as int + 1));
            }
            j += 1;
        }
        let ghost chunk_view = chunk@;
        let msg = ServerMessage::update_positions(unix_time, chunk);
        proof {
            lemma_update_positions_msg_len(0, unix_time, chunk_view);
        }
        let ghost out_before = out@;
        out.push(msg);
        proof {
            assert(hi as int == chunk_end(c as int, cap as int, n as int)) by (nonlinear_arith)
                requires
                    k == c * cap,
                    cap == POSITION_PACKAGES_PER_MESSAGE,
                    k < n,
                    n <= usize::MAX,
                    hi == if n - k >= cap {
                        (k + cap) as int
                    } else {
                        n as int
                    },
            ;
            assert(forall|i: int| 0 <= i < out_before.len() ==> out@[i] == out_before[i]);
            assert(out@[c as int] == msg);
            if hi < n {
                assert(hi == (c + 1) * cap) by (nonlinear_arith)
                    requires
                        k == c * cap,
                        cap == POSITION_PACKAGES_PER_MESSAGE,
                        hi == k + cap,
                ;
            } else {
                assert(c + 1 == (n + cap - 1) as int / (cap as int)) by (nonlinear_arith)
                    requires
                        k == c * cap,
                        cap == POSITION_PACKAGES_PER_MESSAGE,
                        k < n,
                        n <= hi,
                        hi as int == chunk_end(c as int, cap as int, n as int),
                        n <= usize::MAX,
                ;
            }
        }
        c += 1;
        k = hi;
    }
    proof {
        if n == 0 {
            assert((n + cap - 1) as int / (cap as int) == 0);
        }
    }
    out
}

/// Splits a tick's eligible velocity updates into unreliable messages, in
/// order, each filled to the frame's capacity; every produced message fits
/// the frame.
pub fn chunk_velocities(packages: Vec<VelocityPackage>) -> (r: Vec<ServerMessage>)
    ensures
        r@.len() == (packages@.len() + VELOCITY_PACKAGES_PER_MESSAGE - 1) as int / (VELOCITY_PACKAGES_PER_MESSAGE as int),
        forall|i: int|
            0 <= i < r@.len() ==> {
                &&& (#[trigger] r@[i]).reliable == 0
                &&& r@[i]@.message == ServerMessageInnerView::UpdateVelocities(
                    packages@.subrange(
                        i * (VELOCITY_PACKAGES_PER_MESSAGE as int),
                        chunk_end(i, VELOCITY_PACKAGES_PER_MESSAGE as int, packages@.len() as int),
                    ),
                )
                &&& spec_enc_server(r@[i]@).len() <= FRAME_LEN
            },
{
    let cap = VELOCITY_PACKAGES_PER_MESSAGE;
    let n = packages.len();
    let mut out: Vec<ServerMessage> = Vec::new();
    let mut c: usize = 0;
    let mut k: usize = 0;
    while k < n
        invariant
            cap == VELOCITY_PACKAGES_PER_MESSAGE,
            n == packages@.len(),
            k <= n,
            out@.len() == c,
            k < n ==> k == c * cap,
            k == n ==> c == (n + cap - 1) as int / (cap as int),
            forall|i: int|
                0 <= i < out@.len() ==> {
                    &&& (#[trigger] out@[i]).reliable == 0
                    &&& out@[i]@.message == ServerMessageInnerView::UpdateVelocities(
                        packages@.subrange(i * (cap as int), chunk_end(i, cap as int, n as int)),
                    )
                    &&& spec_enc_server(out@[i]@).len() <= FRAME_LEN
                },
        decreases n - k,
    {
        let hi = if n - k >= cap {
            k + cap
        } else {
            n
        };
        let mut chunk: Vec<VelocityPackage> = Vec::new();
        let mut j: usize = k;
        while j < hi
            invariant
                k <= j <= hi <= n,
                n == packages@.len(),
                chunk@ == packages@.subrange(k as int, j as int),
            decreases hi - j,
        {
            chunk.push(packages[j]);
            proof {
                assert(packages@.subrange(k as int, j as int).push(packages@[j as int])
                    =~= packages@.subrange(k as int, j as int + 1));
            }
            j += 1;
        }
        let msg = ServerMessage::update_velocities(chunk);
        proof {
            lemma_update_velocities_msg_len(0, msg@.message->UpdateVelocities_0);
        }
        let ghost out_before = out@;
        out.push(msg);
        proof {
            assert(hi as int == chunk_end(c as int, cap as int, n as int)) by (nonlinear_arith)
                requires
                    k == c * cap,
                    cap == VELOCITY_PACKAGES_PER_MESSAGE,
                    k < n,
                    n <= usize::MAX,
                    hi == if n - k >= cap {
                        (k + cap) as int
                    } else {
                        n as int
                    },
            ;
            assert(forall|i: int| 0 <= i < out_before.len() ==> out@[i] == out_before[i]);
            assert(out@[c as int] == msg);
            if hi < n {
                assert(hi == (c + 1) * cap) by (nonlinear_arith)
                    requires
                        k == c * cap,
                        cap == VELOCITY_PACKAGES_PER_MESSAGE,
                        hi == k + cap,
                ;
            } else {
                assert(c + 1 == (n + cap - 1) as int / (cap as int)) by (nonlinear_arith)
                    requires
                        k == c * cap,
                        cap == VELOCITY_PACKAGES_PER_MESSAGE,
                        k < n,
                        n <= hi,
                        hi as int == chunk_end(c as int, cap as int, n as int),
                        n <= usize::MAX,
                ;
            }
        }
        c += 1;
        k = hi;
    }
    proof {
        if n == 0 {
            assert((n + cap - 1) as int / (cap as int) == 0);
        }
    }
    out
}


/// The frame cost of a whole spawn message.
pub proof fn lemma_spawn_entities_msg_len(reliable: u64, s: Seq<EntityPackageView>)
    ensures
        spec_enc_server(
            ServerMessageView { reliable, message: ServerMessageInnerView::SpawnEntities(s) },
        ).len() == 11 + spec_enc_entity_packages(s).len(),
{
    lemma_auto_spec_u64_to_from_le_bytes();
    lemma_auto_spec_u16_to_from_le_bytes();
}

/// A list of packages each within a per-package budget stays within the
/// budget times its length.
proof fn lemma_enc_entity_packages_len_ub(s: Seq<EntityPackageView>, limit: int)
    requires
        limit >= 0,
        forall|i: int|
            0 <= i < s.len() ==> spec_enc_entity_package(#[trigger] s[i]).len() <= limit,
    ensures
        spec_enc_entity_packages(s).len() <= s.len() * limit,
    decreases s.len(),
{
    if s.len() == 0 {
        assert(s.len() * limit == 0) by (nonlinear_arith)
            requires
                s.len() == 0,
        ;
    } else {
        let d = s.drop_first();
        assert forall|i: int|
            0 <= i < d.len() implies spec_enc_entity_package(#[trigger] d[i]).len() <= limit by {
            assert(d[i] == s[i + 1]);
        }
        lemma_enc_entity_packages_len_ub(d, limit);
        assert(limit + (s.len() - 1) * limit == s.len() * limit) by (nonlinear_arith);
    }
}

/// The encoded size of one component descriptor.
fn component_enc_len(c: &NetComponent) -> (r: u64)
    ensures
        r == spec_enc_component(*c).len(),
        1 <= r <= 41,
{
    proof {
        lemma_auto_spec_u32_to_from_le_bytes();
    }
    match c {
        NetComponent::LinearVelocity(_) => 13,
        NetComponent::Transform { .. } => 41,
        NetComponent::Sphere(_) => 5,
        NetComponent::SphereCollider(_) => 5,
        NetComponent::Capsule(_, _) => 9,
        NetComponent::CapsuleCollider(_, _) => 9,
        NetComponent::ColorMaterial { .. } => 13,
        NetComponent::Health(_) => 5,
        NetComponent::Player => 1,
        NetComponent::Enemy => 1,
        NetComponent::Radius(_) => 5,
        NetComponent::SpotLight(_) => 5,
    }
}

/// Whether one entity package's encoding stays within a byte budget, so a
/// caller can check a package against the chunker's per-package budget
/// before batching.
pub fn entity_package_fits(p: &EntityPackage, limit: u64) -> (r: bool)
    requires
        limit < u64::MAX,
    ensures
        r == (spec_enc_entity_package(p@).len() <= limit),
{
    proof {
        lemma_auto_spec_u128_to_from_le_bytes();
        lemma_auto_spec_u16_to_from_le_bytes();
    }
    let mut acc: u64 = 18;
    let mut k: usize = 0;
    let n = p.components.len();
    while k < n
        invariant
            n == p.components@.len(),
            k <= n,
            ({
                let tl = 18 + spec_enc_components(p.components@.subrange(0, k as int)).len();
                acc == if tl > u64::MAX {
                    u64::MAX
                } else {
                    tl as u64
                }
            }),
        decreases n - k,
    {
        let step = component_enc_len(&p.components[k]);
        proof {
            crate::codec::lemma_enc_component_push(
                p.components@.subrange(0, k as int),
                p.components@[k as int],
            );
            assert(p.components@.subrange(0, k as int).push(p.components@[k as int])
                =~= p.components@.subrange(0, k as int + 1));
        }
        acc = if acc <= u64::MAX - step {
            acc + step
        } else {
            u64::MAX
        };
        k += 1;
    }
    proof {
        assert(p.components@.subrange(0, n as int) =~= p.components@);
    }
    acc <= limit
}

/// Splits freshly described objects into reliable spawn messages of at most
/// `chunk_size` packages each, in order; with every package within the
/// per-package budget for that chunk size, every produced message fits the
/// frame.
pub fn chunk_spawn_entities(packages: Vec<EntityPackage>, chunk_size: usize) -> (r: Vec<
    ServerMessage,
>)
    requires
        chunk_size >= 1,
        forall|i: int|
            0 <= i < packages@.len() ==> spec_enc_entity_package(
                (#[trigger] packages@[i])@,
            ).len() <= (FRAME_LEN - 11) as int / (chunk_size as int),
    ensures
        r@.len() == (packages@.len() + chunk_size - 1) as int / (chunk_size as int),
        forall|i: int|
            0 <= i < r@.len() ==> {
                &&& (#[trigger] r@[i]).reliable == 1
                &&& r@[i]@.message == ServerMessageInnerView::SpawnEntities(
                    packages@.map_values(|p: EntityPackage| p@).subrange(
                        i * (chunk_size as int),
                        chunk_end(i, chunk_size as int, packages@.len() as int),
                    ),
                )
                &&& spec_enc_server(r@[i]@).len() <= FRAME_LEN
            },
{
    let cap = chunk_size;
    let ghost orig = packages@;
    let ghost vs = packages@.map_values(|p: EntityPackage| p@);
    let n = packages.len();
    let mut rest = packages;
    let mut out: Vec<ServerMessage> = Vec::new();
    let mut c: usize = 0;
    let mut k: usize = 0;
    proof {
        if n == 0 {
            assert((n + cap - 1) as int / (cap as int) == 0) by (nonlinear_arith)
                requires
                    cap >= 1,
                    n == 0,
            ;
        }
        assert(orig.skip(0) =~= orig);
    }
    while k < n
        invariant
            cap == chunk_size,
            cap >= 1,
            c <= k,
            n == orig.len(),
            vs == orig.map_values(|p: EntityPackage| p@),
            forall|i: int|
                0 <= i < orig.len() ==> spec_enc_entity_package((#[trigger] orig[i])@).len() <= (
                FRAME_LEN - 11) as int / (cap as int),
            k <= n,
            rest@ == orig.skip(k as int),
            out@.len() == c,
            k < n ==> k == c * cap,
            k == n ==> c == (n + cap - 1) as int / (cap as int),
            forall|i: int|
                0 <= i < out@.len() ==> {
                    &&& (#[trigger] out@[i]).reliable == 1
                    &&& out@[i]@.message == ServerMessageInnerView::SpawnEntities(
                        vs.subrange(i * (cap as int), chunk_end(i, cap as int, n as int)),
                    )
                    &&& spec_enc_server(out@[i]@).len() <= FRAME_LEN
                },
        decreases n - k,
    {
        let hi = if n - k >= cap {
            k + cap
        } else {
            n
        };
        let mut chunk: Vec<EntityPackage> = Vec::new();
        let mut j: usize = k;
        while j < hi
            invariant
                k <= j <= hi <= n,
                n == orig.len(),
                rest@ == orig.skip(j as int),
                chunk@ == orig.subrange(k as int, j as int),
            decreases hi - j,
        {
            let item = rest.remove(0);
            proof {
                assert(orig.skip(j as int)[0] == orig[j as int]);
                assert(orig.skip(j as int).remove(0) =~= orig.skip(j as int + 1));
                assert(orig.subrange(k as int, j as int).push(orig[j as int]) =~= orig.subrange(
                    k as int,
                    j as int + 1,
                ));
            }
            chunk.push(item);
            j += 1;
        }
        proof {
            let cvs = chunk@.map_values(|p: EntityPackage| p@);
            assert(cvs =~= vs.subrange(k as int, hi as int));
            assert forall|i: int|
                0 <= i < cvs.len() implies spec_enc_entity_package(#[trigger] cvs[i]).len() <= (
            FRAME_LEN - 11) as int / (cap as int) by {
                assert(cvs[i] == orig[k + i]@);
            }
            lemma_enc_entity_packages_len_ub(cvs, (FRAME_LEN - 11) as int / (cap as int));
            lemma_spawn_entities_msg_len(1, cvs);
            assert(cvs.len() * ((FRAME_LEN - 11) as int / (cap as int)) <= (cap as int) * ((
            FRAME_LEN - 11) as int / (cap as int))) by {
                lemma_mul_inequality(
                    cvs.len() as int,
                    cap as int,
                    (FRAME_LEN - 11) as int / (cap as int),
                );
            }
            assert((cap as int) * ((FRAME_LEN - 11) as int / (cap as int)) <= (FRAME_LEN
                - 11) as int) by {
                lemma_fundamental_div_mod((FRAME_LEN - 11) as int, cap as int);
                assert((FRAME_LEN - 11) as int % (cap as int) >= 0);
            }
        }
        let msg = ServerMessage::spawn_entities(1, chunk);
        let ghost out_before = out@;
        out.push(msg);
        proof {
            assert(hi as int == chunk_end(c as int, cap as int, n as int)) by (nonlinear_arith)
                requires
                    k == c * cap,
                    cap >= 1,
                    k < n,
                    n <= usize::MAX,
                    hi == if n - k >= cap {
                        (k + cap) as int
                    } else {
                        n as int
                    },
            ;
            assert(forall|i: int| 0 <= i < out_before.len() ==> out@[i] == out_before[i]);
            assert(out@[c as int] == msg);
            if hi < n {
                assert(hi == (c + 1) * cap) by (nonlinear_arith)
                    requires
                        k == c * cap,
                        hi == k + cap,
                ;
            } else {
                assert(c + 1 == (n + cap - 1) as int / (cap as int)) by (nonlinear_arith)
                    requires
                        k == c * cap,
                        cap >= 1,
                        k < n,
                        n <= hi,
                        hi as int == chunk_end(c as int, cap as int, n as int),
                        n <= usize::MAX,
                ;
            }
        }
        c += 1;
        k = hi;
    }
    out
}

} // verus!

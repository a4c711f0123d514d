use bevy_royal::batch::{
    chunk_positions, chunk_spawn_entities, chunk_velocities, entity_package_fits,
    POSITION_PACKAGES_PER_MESSAGE, VELOCITY_PACKAGES_PER_MESSAGE,
};
use bevy_royal::messages::{
    EntityPackage, MyQuat, MyVec3, NetComponent, PositionPackage, ServerMessage,
    ServerMessageInner, VelocityPackage,
};

fn position(net_id: u128) -> PositionPackage {
    PositionPackage {
        net_id,
        position: MyVec3 { x: 1, y: 2, z: 3 },
        rotation: MyQuat { x: 0, y: 0, z: 0, w: 0 },
    }
}

#[test]
fn positions_chunk_to_the_frame_capacity() {
    let packages: Vec<PositionPackage> = (0..50).map(|k| position(k as u128)).collect();
    let messages = chunk_positions(777, packages.clone());
    assert_eq!(messages.len(), 3); // 22 + 22 + 6
    let mut seen = Vec::new();
    for msg in &messages {
        assert_eq!(msg.reliable, 0);
        match &msg.message {
            ServerMessageInner::UpdatePositions { unix_time, packages: chunk } => {
                assert_eq!(*unix_time, 777);
                assert!(chunk.len() <= POSITION_PACKAGES_PER_MESSAGE);
                seen.extend(chunk.iter().cloned());
            },
            _ => panic!("a position chunk must be a position update"),
        }
        // every produced message fits the fixed frame
        let frame = msg.encode_checked().expect("chunk must fit the frame");
        assert_eq!(frame.len(), 1000);
        assert_eq!(ServerMessage::decode(&frame).as_ref(), Some(msg));
    }
    // the chunks concatenate back to the input, in order
    assert_eq!(seen, packages);
}

#[test]
fn velocities_chunk_to_the_frame_capacity() {
    let packages: Vec<VelocityPackage> = (0..36)
        .map(|k| VelocityPackage { net_id: k as u128, velocity: MyVec3 { x: 0, y: 0, z: 0 } })
        .collect();
    let messages = chunk_velocities(packages.clone());
    assert_eq!(messages.len(), 2); // 35 + 1
    match &messages[1].message {
        ServerMessageInner::UpdateVelocities(chunk) => {
            assert_eq!(chunk.len(), 36 - VELOCITY_PACKAGES_PER_MESSAGE);
        },
        _ => panic!("a velocity chunk must be a velocity update"),
    }
}

#[test]
fn empty_input_produces_no_messages() {
    assert_eq!(chunk_positions(0, Vec::new()).len(), 0);
    assert_eq!(chunk_velocities(Vec::new()).len(), 0);
}

#[test]
fn spawns_chunk_reliably_and_round_trip() {
    // the enemy description the server broadcasts, one package per object
    let package = EntityPackage {
        net_id: 0,
        components: vec![
            NetComponent::Transform {
                translation: MyVec3 { x: 1, y: 2, z: 3 },
                rotation: MyQuat { x: 0, y: 0, z: 0, w: 0 },
                scale: MyVec3 { x: 1, y: 1, z: 1 },
            },
            NetComponent::Sphere(7),
            NetComponent::SphereCollider(7),
            NetComponent::LinearVelocity(MyVec3 { x: 1, y: 1, z: 0 }),
            NetComponent::ColorMaterial { r: 1, g: 2, b: 3 },
            NetComponent::Enemy,
            NetComponent::Radius(7),
        ],
    };
    let per_package_budget = (1000 - 11) / 5;
    assert!(entity_package_fits(&package, per_package_budget as u64));
    let packages: Vec<EntityPackage> = (0..12)
        .map(|k| EntityPackage { net_id: k as u128, components: package.components.clone() })
        .collect();
    let messages = chunk_spawn_entities(packages, 5);
    assert_eq!(messages.len(), 3); // 5 + 5 + 2
    for msg in &messages {
        assert_eq!(msg.reliable, 1);
        let frame = msg.encode_checked().expect("spawn chunk must fit the frame");
        assert_eq!(ServerMessage::decode(&frame).as_ref(), Some(msg));
    }
    match &messages[2].message {
        ServerMessageInner::SpawnEntities(chunk) => {
            assert_eq!(chunk.len(), 2);
            assert_eq!(chunk[0].net_id, 10);
            assert_eq!(chunk[1].net_id, 11);
        },
        _ => panic!("a spawn chunk must be a spawn message"),
    }
}

#[test]
fn entity_package_fits_is_exact() {
    // 18 bytes of header plus one 1-byte marker component: 19 in all
    let p = EntityPackage { net_id: 1, components: vec![NetComponent::Player] };
    assert!(entity_package_fits(&p, 19));
    assert!(!entity_package_fits(&p, 18));
}

use bevy_royal::messages::{
    ClientMessage, ClientMessageInner, EntityPackage, HealthPackage, MyQuat, MyVec2, MyVec3,
    NetComponent, PlayerLookPackage, PositionPackage, ServerMessage, ServerMessageInner,
    VelocityPackage,
};

fn v3(x: f32, y: f32, z: f32) -> MyVec3 {
    MyVec3 { x: x.to_bits(), y: y.to_bits(), z: z.to_bits() }
}

fn quat(x: f32, y: f32, z: f32, w: f32) -> MyQuat {
    MyQuat { x: x.to_bits(), y: y.to_bits(), z: z.to_bits(), w: w.to_bits() }
}

#[test]
fn client_login_round_trip() {
    let m = ClientMessage::login();
    let frame = m.encode();
    assert_eq!(frame.len(), 1000);
    let back = ClientMessage::decode(&frame).expect("login frame must decode");
    assert_eq!(back, m);
}

#[test]
fn client_all_variants_round_trip() {
    let msgs = vec![
        ClientMessage::login(),
        ClientMessage::setvelocity(7, MyVec2 { x: 1.5f32.to_bits(), y: (-2.5f32).to_bits() }),
        ClientMessage::rotation(8, quat(0.0, 0.0, 0.7071, 0.7071)),
        ClientMessage::confirm(42),
        ClientMessage::jump(9),
        ClientMessage::shoot(10, v3(0.0, 1.0, 0.0)),
    ];
    for m in msgs {
        let frame = m.encode();
        assert_eq!(frame.len(), 1000);
        assert_eq!(ClientMessage::decode(&frame), Some(m));
    }
}

#[test]
fn client_identity_boundaries_round_trip() {
    for id in [0u128, 1, u128::MAX] {
        let m = ClientMessage::jump(id);
        let back = ClientMessage::decode(&m.encode()).unwrap();
        assert_eq!(back.message, ClientMessageInner::Jump(id));
    }
}

#[test]
fn server_ok_round_trip_boundaries() {
    for id in [0u128, 7, u128::MAX] {
        let m = ServerMessage::ok(1, id);
        let frame = m.encode();
        assert_eq!(frame.len(), 1000);
        let back = ServerMessage::decode(&frame).expect("ok frame must decode");
        assert_eq!(back, m);
    }
}

#[test]
fn server_confirm_round_trip() {
    let m = ServerMessage::confirm(u64::MAX);
    assert_eq!(ServerMessage::decode(&m.encode()), Some(m));
}

#[test]
fn server_empty_lists_round_trip() {
    let msgs = vec![
        ServerMessage::spawn_entities(1, vec![]),
        ServerMessage::update_entities(1, vec![]),
        ServerMessage::update_positions(0, vec![]),
        ServerMessage::update_player_looks(vec![]),
        ServerMessage::update_velocities(vec![]),
        ServerMessage::update_healths(vec![]),
    ];
    for m in msgs {
        let frame = m.encode();
        assert_eq!(ServerMessage::decode(&frame), Some(m));
    }
}

#[test]
fn server_update_positions_round_trip() {
    let p = PositionPackage {
        net_id: 3,
        position: v3(1.0, -2.0, 3.5),
        rotation: quat(0.1, 0.2, 0.3, 0.9),
    };
    let q = PositionPackage {
        net_id: u128::MAX,
        position: v3(0.0, 0.0, 0.0),
        rotation: quat(0.0, 0.0, 0.0, 1.0),
    };
    let m = ServerMessage::update_positions(123_456, vec![p, q]);
    let back = ServerMessage::decode(&m.encode()).unwrap();
    assert_eq!(back, m);
}

#[test]
fn server_update_velocities_and_healths_round_trip() {
    let m = ServerMessage::update_velocities(vec![
        VelocityPackage { net_id: 5, velocity: v3(9.0, -9.0, 0.0) },
    ]);
    assert_eq!(ServerMessage::decode(&m.encode()), Some(m));
    let h = ServerMessage::update_healths(vec![
        HealthPackage { net_id: 6, health: 100.0f32.to_bits() },
        HealthPackage { net_id: 7, health: 0.0f32.to_bits() },
    ]);
    assert_eq!(ServerMessage::decode(&h.encode()), Some(h));
}

#[test]
fn server_player_looks_round_trip() {
    let m = ServerMessage::update_player_looks(vec![
        PlayerLookPackage { net_id: 11, rotation: quat(0.5, 0.5, 0.5, 0.5) },
    ]);
    assert_eq!(ServerMessage::decode(&m.encode()), Some(m));
}

#[test]
fn server_spawn_entities_all_components_round_trip() {
    let components = vec![
        NetComponent::Transform {
            translation: v3(1.0, 2.0, 3.0),
            rotation: quat(0.0, 0.0, 0.0, 1.0),
            scale: v3(1.0, 1.0, 1.0),
        },
        NetComponent::LinearVelocity(v3(10.0, -10.0, 0.0)),
        NetComponent::Sphere(1.5f32.to_bits()),
        NetComponent::SphereCollider(1.5f32.to_bits()),
        NetComponent::Capsule(0.4f32.to_bits(), 1.5f32.to_bits()),
        NetComponent::CapsuleCollider(0.4f32.to_bits(), 1.5f32.to_bits()),
        NetComponent::ColorMaterial {
            r: 0.0f32.to_bits(),
            g: 1.0f32.to_bits(),
            b: 0.0f32.to_bits(),
        },
        NetComponent::Health(100.0f32.to_bits()),
        NetComponent::Player,
        NetComponent::Enemy,
        NetComponent::Radius(1.5f32.to_bits()),
        NetComponent::SpotLight(1.5f32.to_bits()),
    ];
    let m = ServerMessage::spawn_entities(1, vec![
        EntityPackage { net_id: 0, components },
        EntityPackage { net_id: 1, components: vec![] },
    ]);
    let frame = m.encode();
    assert_eq!(frame.len(), 1000);
    assert_eq!(ServerMessage::decode(&frame), Some(m));
}

#[test]
fn decode_rejects_malformed() {
    // empty buffer: not even a sequence number
    assert_eq!(ServerMessage::decode(&[]), None);
    assert_eq!(ClientMessage::decode(&[]), None);
    // sequence number but no tag
    assert_eq!(ServerMessage::decode(&[0u8; 8]), None);
    // unknown tag
    let mut buf = [0u8; 1000];
    buf[8] = 0xff;
    assert_eq!(ServerMessage::decode(&buf), None);
    assert_eq!(ClientMessage::decode(&buf), None);
}

#[test]
fn decode_rejects_truncated() {
    let m = ServerMessage::ok(1, u128::MAX);
    let frame = m.encode();
    // cut inside the identity field
    assert_eq!(ServerMessage::decode(&frame[..12]), None);
}

#[test]
fn decode_ignores_trailing_bytes() {
    // a received datagram is always a full frame; the zero padding after the
    // message must not disturb the decode, nor must nonzero trailing bytes
    let m = ClientMessage::confirm(5);
    let mut frame = m.encode();
    for b in frame.iter_mut().skip(500) {
        *b = 0xab;
    }
    assert_eq!(ClientMessage::decode(&frame), Some(m));
}

#[test]
fn encode_checked_rejects_oversize() {
    // 23 position packages need 19 + 23 * 44 = 1031 bytes > 1000
    let p = PositionPackage {
        net_id: 1,
        position: v3(0.0, 0.0, 0.0),
        rotation: quat(0.0, 0.0, 0.0, 1.0),
    };
    let m = ServerMessage::update_positions(0, vec![p; 23]);
    assert!(m.encode_checked().is_none());
    let m = ServerMessage::update_positions(0, vec![p; 22]);
    let frame = m.encode_checked().expect("22 packages fit the frame");
    assert_eq!(frame.len(), 1000);
    assert_eq!(ServerMessage::decode(&frame), Some(m));
}

#[test]
fn wire_format_is_little_endian_tagged() {
    // one exact frame: Confirm(5) reliable 0
    let m = ClientMessage::confirm(5);
    let frame = m.encode();
    assert_eq!(&frame[..8], &[0, 0, 0, 0, 0, 0, 0, 0]); // reliable = 0
    assert_eq!(frame[8], 3); // client Confirm tag
    assert_eq!(&frame[9..17], &[5, 0, 0, 0, 0, 0, 0, 0]); // sequence 5
    assert!(frame[17..].iter().all(|&b| b == 0));
}

#[test]
fn position_frame_carries_the_authoritative_timestamp() {
    // tag 3 is followed by the 8-byte authoritative instant, then the count
    let p = PositionPackage {
        net_id: 2,
        position: v3(0.0, 0.0, 0.0),
        rotation: quat(0.0, 0.0, 0.0, 1.0),
    };
    let m = ServerMessage::update_positions(0x0102030405060708, vec![p]);
    let frame = m.encode();
    assert_eq!(frame[8], 3); // UpdatePositions tag
    assert_eq!(&frame[9..17], &[8, 7, 6, 5, 4, 3, 2, 1]); // timestamp, little-endian
    assert_eq!(&frame[17..19], &[1, 0]); // one package
    match ServerMessage::decode(&frame).expect("frame must decode").message {
        ServerMessageInner::UpdatePositions { unix_time, packages } => {
            assert_eq!(unix_time, 0x0102030405060708);
            assert_eq!(packages, vec![p]);
        },
        _ => panic!("the variant must survive the round trip"),
    }
}

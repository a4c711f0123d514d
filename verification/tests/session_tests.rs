use bevy_royal::client::{ClientCore, ClientEvent};
use bevy_royal::messages::{
    ClientMessage, ClientMessageInner, EntityPackage, HealthPackage, MyQuat, MyVec2, MyVec3,
    NetComponent, PlayerLookPackage, PositionPackage, ServerMessage, ServerMessageInner,
    VelocityPackage,
};
use bevy_royal::server::{acknowledge, ServerCore, ServerOutcome, SimAction};

const ADDR_A: u64 = 0xa;
const ADDR_B: u64 = 0xb;

#[test]
fn login_allocates_monotonic_identities_without_reuse() {
    let mut server = ServerCore::new();
    // seven objects spawned before any login occupy identities 0..=6
    for handle in 0..7u64 {
        let id = server.register_entity(handle).unwrap();
        assert_eq!(id, handle as u128);
    }

    // first client logs in: identity 7, acknowledged reliably
    let login = ClientMessage::login();
    let (net_id_a, reply_a) = match server.handle_client_message(ADDR_A, 100, &login) {
        ServerOutcome::NewPlayer { net_id, reply } => (net_id, reply),
        other_outcome => panic!("login must create a player, got {:?}", discriminant(&other_outcome)),
    };
    assert_eq!(net_id_a, 7);
    assert_eq!(reply_a.reliable, 1);
    assert_eq!(reply_a.message, ServerMessageInner::LoginOk(7));

    // a second client's later login gets 8 and must not reuse 7
    let (net_id_b, reply_b) = match server.handle_client_message(ADDR_B, 101, &ClientMessage::login()) {
        ServerOutcome::NewPlayer { net_id, reply } => (net_id, reply),
        _ => panic!("second login must create a player"),
    };
    assert_eq!(net_id_b, 8);
    assert_eq!(reply_b.message, ServerMessageInner::LoginOk(8));
    assert_ne!(net_id_a, net_id_b);
}

fn discriminant(o: &ServerOutcome) -> &'static str {
    match o {
        ServerOutcome::Ignored => "Ignored",
        ServerOutcome::NewPlayer { .. } => "NewPlayer",
        ServerOutcome::DuplicateLogin => "DuplicateLogin",
        ServerOutcome::Apply(_) => "Apply",
        ServerOutcome::UnknownIdentity(_) => "UnknownIdentity",
    }
}

#[test]
fn duplicate_login_is_rejected() {
    let mut server = ServerCore::new();
    assert!(matches!(
        server.handle_client_message(ADDR_A, 100, &ClientMessage::login()),
        ServerOutcome::NewPlayer { .. }
    ));
    assert!(matches!(
        server.handle_client_message(ADDR_A, 101, &ClientMessage::login()),
        ServerOutcome::DuplicateLogin
    ));
}

#[test]
fn client_learns_its_identity_and_then_references_it() {
    let mut server = ServerCore::new();
    for handle in 0..7u64 {
        server.register_entity(handle).unwrap();
    }
    let reply = match server.handle_client_message(ADDR_A, 100, &ClientMessage::login()) {
        ServerOutcome::NewPlayer { reply, .. } => reply,
        _ => panic!("login must create a player"),
    };

    // the reply travels over the wire to the client
    let frame = reply.encode();
    let received = ServerMessage::decode(&frame).expect("reply must decode");

    let mut client = ClientCore::new();
    assert_eq!(client.my_identity(), None);
    let directives = client.handle_server_message(&received);
    // the reliable reply is acknowledged by its assigned sequence number
    assert_eq!(directives.confirm, Some(ClientMessage::confirm(received.reliable)));
    assert_eq!(directives.events, vec![ClientEvent::SpawnSelf { net_id: 7 }]);
    assert_eq!(client.my_identity(), Some(7));
    client.bind_spawned(7, 1).unwrap();

    // future movement messages reference the learned identity
    let me = client.my_identity().unwrap();
    let m = ClientMessage::setvelocity(me, MyVec2 { x: 0, y: 0 });
    assert_eq!(m.message, ClientMessageInner::SetVelocity(7, MyVec2 { x: 0, y: 0 }));

    // and the server routes them to the player object it spawned
    match server.handle_client_message(ADDR_A, 999, &m) {
        ServerOutcome::Apply(SimAction::SetVelocity { handle, .. }) => assert_eq!(handle, 100),
        _ => panic!("a known identity must be applied"),
    }
}

#[test]
fn unknown_identity_updates_are_dropped() {
    let mut server = ServerCore::new();
    let m = ClientMessage::setvelocity(12345, MyVec2 { x: 0, y: 0 });
    assert!(matches!(
        server.handle_client_message(ADDR_A, 100, &m),
        ServerOutcome::UnknownIdentity(12345)
    ));
    let m = ClientMessage::rotation(9, MyQuat { x: 0, y: 0, z: 0, w: 0 });
    assert!(matches!(
        server.handle_client_message(ADDR_A, 100, &m),
        ServerOutcome::UnknownIdentity(9)
    ));
}

#[test]
fn jump_and_shoot_route_to_the_player() {
    let mut server = ServerCore::new();
    let net_id = match server.handle_client_message(ADDR_A, 100, &ClientMessage::login()) {
        ServerOutcome::NewPlayer { net_id, .. } => net_id,
        _ => panic!("login must create a player"),
    };
    match server.handle_client_message(ADDR_A, 999, &ClientMessage::jump(net_id)) {
        ServerOutcome::Apply(SimAction::Jump { handle }) => assert_eq!(handle, 100),
        _ => panic!("jump must be applied"),
    }
    let dir = MyVec3 { x: 1, y: 2, z: 3 };
    match server.handle_client_message(ADDR_A, 999, &ClientMessage::shoot(net_id, dir)) {
        ServerOutcome::Apply(SimAction::Shoot { handle, direction }) => {
            assert_eq!(handle, 100);
            assert_eq!(direction, dir);
        },
        _ => panic!("shoot must be applied"),
    }
}

#[test]
fn client_position_updates_resolve_and_suppress_own_rotation() {
    let mut client = ClientCore::new();
    // the client knows itself (identity 7, handle 1) and a remote (9, 2)
    let ok = ServerMessage::ok(0, 7);
    client.handle_server_message(&ok);
    client.bind_spawned(7, 1).unwrap();
    client.bind_spawned(9, 2).unwrap();

    let zero3 = MyVec3 { x: 0, y: 0, z: 0 };
    let q = MyQuat { x: 0, y: 0, z: 0, w: 0 };
    let update = ServerMessage::update_positions(5_000, vec![
        PositionPackage { net_id: 7, position: zero3, rotation: q },
        PositionPackage { net_id: 9, position: zero3, rotation: q },
        PositionPackage { net_id: 55, position: zero3, rotation: q }, // unknown: dropped
    ]);
    let directives = client.handle_server_message(&update);
    assert_eq!(directives.confirm, None); // unreliable: no acknowledgment
    assert_eq!(
        directives.events,
        vec![
            // own object: position only, the local prediction owns rotation
            ClientEvent::SetTransform { handle: 1, package_index: 0, apply_rotation: false },
            ClientEvent::SetTransform { handle: 2, package_index: 1, apply_rotation: true },
        ]
    );
}

#[test]
fn client_velocity_updates_skip_the_controlled_object() {
    let mut client = ClientCore::new();
    client.handle_server_message(&ServerMessage::ok(0, 7));
    client.bind_spawned(7, 1).unwrap();
    client.bind_spawned(9, 2).unwrap();
    let v = MyVec3 { x: 1, y: 0, z: 0 };
    let update = ServerMessage::update_velocities(vec![
        VelocityPackage { net_id: 7, velocity: v },
        VelocityPackage { net_id: 9, velocity: v },
    ]);
    let directives = client.handle_server_message(&update);
    assert_eq!(
        directives.events,
        vec![ClientEvent::SetVelocity { handle: 2, package_index: 1 }]
    );
}

#[test]
fn client_spawn_packages_skip_already_known_objects() {
    let mut client = ClientCore::new();
    client.bind_spawned(9, 2).unwrap();
    let spawn = ServerMessage::spawn_entities(1, vec![
        EntityPackage { net_id: 9, components: vec![] },
        EntityPackage { net_id: 10, components: vec![] },
    ]);
    let directives = client.handle_server_message(&spawn);
    assert_eq!(directives.confirm, Some(ClientMessage::confirm(spawn.reliable)));
    assert_eq!(
        directives.events,
        vec![ClientEvent::SpawnRemote { net_id: 10, package_index: 1 }]
    );
}

#[test]
fn repeated_login_reply_does_not_respawn() {
    let mut client = ClientCore::new();
    let ok = ServerMessage::ok(3, 7);
    let first = client.handle_server_message(&ok);
    assert_eq!(first.events.len(), 1);
    client.bind_spawned(7, 1).unwrap();
    // the reliable reply may be resent before the acknowledgment lands:
    // a known identity spawns nothing, but is still acknowledged
    let again = client.handle_server_message(&ok);
    assert_eq!(again.confirm, Some(ClientMessage::confirm(3)));
    assert_eq!(again.events, Vec::<ClientEvent>::new());
    assert_eq!(client.my_identity(), Some(7));
}

#[test]
fn reliable_client_messages_are_acknowledged_unreliably() {
    // a reliable message (sequence already assigned by the sender) is owed
    // an immediate acknowledgment, which is itself fire-and-forget
    let mut login = ClientMessage::login();
    login.reliable = 9;
    let ack = acknowledge(&login).expect("a reliable message is acknowledged");
    assert_eq!(ack.reliable, 0);
    assert_eq!(ack.message, ServerMessageInner::Confirm(9));
    // an unreliable message is not
    let unreliable = ClientMessage::setvelocity(1, MyVec2 { x: 0, y: 0 });
    assert!(acknowledge(&unreliable).is_none());
}

#[test]
fn confirms_are_never_escalated_to_reliable() {
    assert_eq!(ServerMessage::confirm(5).reliable, 0);
    assert_eq!(ClientMessage::confirm(5).reliable, 0);
}

#[test]
fn client_update_entities_reach_only_known_objects() {
    let mut client = ClientCore::new();
    client.bind_spawned(9, 2).unwrap();
    let update = ServerMessage::update_entities(1, vec![
        EntityPackage { net_id: 42, components: vec![NetComponent::Player] }, // unknown
        EntityPackage { net_id: 9, components: vec![NetComponent::Health(0)] },
    ]);
    let directives = client.handle_server_message(&update);
    assert_eq!(
        directives.events,
        vec![ClientEvent::UpdateEntity { handle: 2, package_index: 1 }]
    );
}

#[test]
fn client_look_updates_skip_the_controlled_player() {
    let mut client = ClientCore::new();
    client.handle_server_message(&ServerMessage::ok(0, 7));
    client.bind_spawned(7, 1).unwrap();
    client.bind_spawned(9, 2).unwrap();
    let q = MyQuat { x: 1, y: 2, z: 3, w: 4 };
    let update = ServerMessage::update_player_looks(vec![
        PlayerLookPackage { net_id: 7, rotation: q },
        PlayerLookPackage { net_id: 9, rotation: q },
    ]);
    let directives = client.handle_server_message(&update);
    assert_eq!(
        directives.events,
        vec![ClientEvent::SetLook { handle: 2, package_index: 1 }]
    );
}

#[test]
fn client_health_updates_reach_the_controlled_player_too() {
    let mut client = ClientCore::new();
    client.handle_server_message(&ServerMessage::ok(0, 7));
    client.bind_spawned(7, 1).unwrap();
    client.bind_spawned(9, 2).unwrap();
    let update = ServerMessage::update_healths(vec![
        HealthPackage { net_id: 7, health: 1 },
        HealthPackage { net_id: 9, health: 2 },
        HealthPackage { net_id: 55, health: 3 }, // unknown: dropped
    ]);
    let directives = client.handle_server_message(&update);
    assert_eq!(
        directives.events,
        vec![
            ClientEvent::SetHealth { handle: 1, package_index: 0 },
            ClientEvent::SetHealth { handle: 2, package_index: 1 },
        ]
    );
}

#[test]
fn client_drops_updates_for_unbound_identities_after_despawn() {
    let mut client = ClientCore::new();
    client.bind_spawned(9, 2).unwrap();
    client.unbind(9);
    let update = ServerMessage::update_velocities(vec![
        VelocityPackage { net_id: 9, velocity: MyVec3 { x: 0, y: 0, z: 0 } },
    ]);
    let directives = client.handle_server_message(&update);
    assert_eq!(directives.events, Vec::<ClientEvent>::new());
}

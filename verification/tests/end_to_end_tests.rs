//! One full exchange over a fake transport and a fake clock: a login
//! travels to the server, the reliable reply is lost once, resent after the
//! resend interval, held in the client's jitter buffer, delivered, applied,
//! and acknowledged — after which the server stops resending.

use bevy_royal::client::{ClientCore, ClientEvent};
use bevy_royal::jitter::{JitterBuffer, JITTER_THRESHOLD_MS};
use bevy_royal::messages::{ClientMessage, ClientMessageInner, ServerMessage, ServerMessageInner};
use bevy_royal::reliability::{PendingTable, RESEND_INTERVAL_MS};
use bevy_royal::server::{ServerCore, ServerOutcome};

#[test]
fn reliable_login_reply_survives_loss_and_stops_after_ack() {
    let addr_key = 0u64;

    // --- client sends Login; the transport delivers it ---
    let login_frame = ClientMessage::login().encode();
    let login = ClientMessage::decode(&login_frame).expect("login must decode");

    // --- server handles it and queues the reliable reply ---
    let mut server = ServerCore::new();
    let reply = match server.handle_client_message(addr_key, 100, &login) {
        ServerOutcome::NewPlayer { reply, .. } => reply,
        _ => panic!("login must create a player"),
    };
    let mut server_pending = PendingTable::new();
    let mut outbound = reply.clone();
    // the network thread assigns the real sequence number before encoding
    outbound.reliable = server_pending.peek_next_sequence();
    let reply_frame = outbound.encode_checked().expect("the reply fits a frame");
    let seq = server_pending.insert(reply_frame.clone(), addr_key, 0);
    assert_eq!(seq, outbound.reliable);

    // --- the first transmission is lost; at 301 ms the resend fires ---
    assert_eq!(server_pending.due_resends(200, RESEND_INTERVAL_MS), Vec::<u64>::new());
    assert_eq!(server_pending.due_resends(301, RESEND_INTERVAL_MS), vec![seq]);
    let resent_frame = server_pending.bytes_of(seq).expect("still pending").clone();
    assert_eq!(resent_frame, reply_frame); // retransmitted unchanged

    // --- the client receives the resend into its jitter buffer ---
    let received = ServerMessage::decode(&resent_frame).expect("the frame must decode");
    let mut delay_pool: JitterBuffer<ServerMessage> = JitterBuffer::new();
    delay_pool.push(received);
    // not released before the hold threshold has elapsed
    assert_eq!(delay_pool.tick(JITTER_THRESHOLD_MS - 1, JITTER_THRESHOLD_MS).len(), 0);
    let released = delay_pool.tick(1, JITTER_THRESHOLD_MS);
    assert_eq!(released.len(), 1);

    // --- the simulation applies it and owes an acknowledgment ---
    let mut client = ClientCore::new();
    let directives = client.handle_server_message(&released[0]);
    assert_eq!(client.my_identity(), Some(0));
    assert_eq!(directives.events, vec![ClientEvent::SpawnSelf { net_id: 0 }]);
    let confirm = directives.confirm.expect("a reliable message is acknowledged");
    assert_eq!(confirm.message, ClientMessageInner::Confirm(seq));

    // --- the acknowledgment reaches the server: resends stop for good ---
    let confirm_frame = confirm.encode();
    let confirm_received = ClientMessage::decode(&confirm_frame).expect("ack must decode");
    if let ClientMessageInner::Confirm(n) = confirm_received.message {
        server_pending.confirm(n);
    } else {
        panic!("the acknowledgment must carry the sequence number");
    }
    assert!(!server_pending.contains(seq));
    assert_eq!(server_pending.due_resends(100_000, RESEND_INTERVAL_MS), Vec::<u64>::new());

    // and the server still routes the new player's commands
    match server.handle_client_message(addr_key, 999, &ClientMessage::jump(0)) {
        ServerOutcome::Apply(_) => {},
        _ => panic!("the spawned player's identity must stay routable"),
    }
}

#[test]
fn duplicate_delivery_after_resend_is_idempotent() {
    // the reply was resent just before the acknowledgment landed: the
    // client sees it twice, spawns once, and acknowledges both times
    let reply = ServerMessage::ok(4, 7);
    let mut client = ClientCore::new();
    let first = client.handle_server_message(&reply);
    assert_eq!(first.events.len(), 1);
    client.bind_spawned(7, 1).unwrap();
    let second = client.handle_server_message(&reply);
    assert_eq!(second.events.len(), 0);
    assert_eq!(second.confirm, Some(ClientMessage::confirm(4)));
    assert_eq!(client.my_identity(), Some(7));
}

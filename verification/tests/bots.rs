use rust_mc_bot::buffer::Buf;
use rust_mc_bot::codec::encode_frame;
use rust_mc_bot::packets::{
    gameplay_packet, write_animation, write_chat_message, write_current_pos, write_entity_action,
    write_handshake_packet, write_held_slot, write_login_start_packet, write_teleport_confirm,
    STATE_LOGIN, STATE_PLAY,
};
use rust_mc_bot::{Bot, BotManager};

fn varint(v: u32) -> Vec<u8> {
    let mut b = Buf::new();
    b.write_varint(v);
    b.into_bytes()
}

/// Build the unframed payload of a clientbound packet: id then body.
fn payload(id: u32, body: &[u8]) -> Vec<u8> {
    let mut p = varint(id);
    p.extend_from_slice(body);
    p
}

fn feed(bot: &mut Bot, frames: &[u8]) -> Vec<Vec<u8>> {
    rust_mc_bot::bot::process_incoming(bot, &frames.to_vec())
}

#[test]
fn handshake_bytes_exact() {
    // protocol 763, empty address, port 0, next state 2 (login)
    let p = write_handshake_packet(763, &Vec::new(), 0, 2);
    assert_eq!(p, vec![0x00, 0xFB, 0x05, 0x00, 0x00, 0x00, 0x02]);
    // with an address and the default port: the port is big-endian
    let p = write_handshake_packet(763, &b"hi".to_vec(), 25565, 2);
    assert_eq!(p, vec![0x00, 0xFB, 0x05, 0x02, b'h', b'i', 0x63, 0xDD, 0x02]);
}

#[test]
fn login_start_bytes_exact() {
    let p = write_login_start_packet(&b"Bot_0".to_vec());
    assert_eq!(p, vec![0x00, 0x05, b'B', b'o', b't', b'_', b'0', 0x00]);
}

#[test]
fn set_compression_then_login_success() {
    // S1: the server enables compression at 256, then accepts the login;
    // the second frame already uses the compressed framing
    let mut bot = Bot::new(0, b"Bot_0".to_vec());
    assert_eq!(bot.state, STATE_LOGIN);
    assert_eq!(bot.compression_threshold, -1);
    let mut wire = encode_frame(&payload(0x03, &varint(256)), -1).unwrap();
    wire.extend_from_slice(&encode_frame(&payload(0x02, &[0u8; 17]), 256).unwrap());
    let out = feed(&mut bot, &wire);
    assert!(out.is_empty());
    assert_eq!(bot.compression_threshold, 256);
    assert_eq!(bot.state, STATE_PLAY);
    assert!(!bot.kicked);
    // every frame the bot now emits uses the compressed framing: a small
    // payload gets the zero uncompressed-length marker after the header
    let f = encode_frame(&vec![1u8, 2, 3], bot.compression_threshold).unwrap();
    assert_eq!(f[1], 0);
}

#[test]
fn login_disconnect_kicks() {
    let mut bot = Bot::new(0, b"Bot_0".to_vec());
    let wire = encode_frame(&payload(0x00, b"gone"), -1).unwrap();
    let out = feed(&mut bot, &wire);
    assert!(out.is_empty());
    assert!(bot.kicked);
}

#[test]
fn encryption_request_kicks() {
    let mut bot = Bot::new(0, b"Bot_0".to_vec());
    let wire = encode_frame(&payload(0x01, &[1, 2, 3]), -1).unwrap();
    feed(&mut bot, &wire);
    assert!(bot.kicked, "online-mode servers are unsupported");
}

#[test]
fn join_game_stores_entity_id() {
    // S2: JoinGame with entityId 42
    let mut bot = Bot::new(0, b"Bot_0".to_vec());
    bot.state = STATE_PLAY;
    let wire = encode_frame(&payload(0x28, &42u32.to_be_bytes()), -1).unwrap();
    let out = feed(&mut bot, &wire);
    assert!(out.is_empty());
    assert_eq!(bot.entity_id, 42);
}

#[test]
fn keep_alive_is_echoed() {
    let mut bot = Bot::new(0, b"Bot_0".to_vec());
    bot.state = STATE_PLAY;
    let id = 0x1122334455667788u64;
    let wire = encode_frame(&payload(0x23, &id.to_be_bytes()), -1).unwrap();
    let out = feed(&mut bot, &wire);
    assert_eq!(out.len(), 1);
    let mut expected = varint(0x12);
    expected.extend_from_slice(&id.to_be_bytes());
    assert_eq!(out[0], expected);
}

#[test]
fn sync_position_confirms_teleport() {
    // S3: x=1.5 y=64.0 z=-2.5, flags 0, teleport id 7
    let mut bot = Bot::new(0, b"Bot_0".to_vec());
    bot.state = STATE_PLAY;
    let mut body = Vec::new();
    body.extend_from_slice(&1.5f64.to_bits().to_be_bytes());
    body.extend_from_slice(&64.0f64.to_bits().to_be_bytes());
    body.extend_from_slice(&(-2.5f64).to_bits().to_be_bytes());
    body.extend_from_slice(&[0u8; 8]); // yaw and pitch
    body.push(0); // flags: all absolute
    body.extend_from_slice(&varint(7));
    let wire = encode_frame(&payload(0x3C, &body), -1).unwrap();
    let out = feed(&mut bot, &wire);
    assert_eq!(out, vec![vec![0x00u8, 0x07]], "teleport confirm with id 7");
    assert!(bot.teleported);
    assert!(!bot.kicked);
    assert_eq!(f64::from_bits(bot.x_bits), 1.5);
    assert_eq!(f64::from_bits(bot.y_bits), 64.0);
    assert_eq!(f64::from_bits(bot.z_bits), -2.5);
}

#[test]
fn truncated_sync_position_kicks() {
    let mut bot = Bot::new(0, b"Bot_0".to_vec());
    bot.state = STATE_PLAY;
    let wire = encode_frame(&payload(0x3C, &[0u8; 10]), -1).unwrap();
    feed(&mut bot, &wire);
    assert!(bot.kicked);
}

#[test]
fn play_disconnect_kicks_and_partial_frames_buffer() {
    // S5 at the library's edge: the disconnect frame marks the bot kicked;
    // fed byte by byte, nothing happens until the frame completes
    let mut bot = Bot::new(0, b"Bot_0".to_vec());
    bot.state = STATE_PLAY;
    let wire = encode_frame(&payload(0x1A, b"{}"), -1).unwrap();
    for b in &wire[..wire.len() - 1] {
        feed(&mut bot, &[*b]);
        assert!(!bot.kicked);
    }
    feed(&mut bot, &wire[wire.len() - 1..]);
    assert!(bot.kicked);
}

#[test]
fn unknown_packets_are_ignored() {
    let mut bot = Bot::new(0, b"Bot_0".to_vec());
    bot.state = STATE_PLAY;
    let wire = encode_frame(&payload(0x37, &[1, 2, 3]), -1).unwrap();
    let out = feed(&mut bot, &wire);
    assert!(out.is_empty());
    assert!(!bot.kicked);
}

#[test]
fn action_cadence_hundred_ticks() {
    // S4: 100 ticks, action every 4th, bot id 0: 100 moves, 25 actions
    let mut m = BotManager::create(1);
    assert_eq!(m.action_tick, 4);
    let mut moves = 0u32;
    let mut actions = 0u32;
    for _ in 0..100 {
        let pos = write_current_pos(0, 0, 0, false);
        assert_eq!(pos.len(), 26);
        moves += 1;
        if m.action_due(0) {
            actions += 1;
        }
        m.advance_tick();
    }
    assert_eq!(moves, 100);
    assert_eq!(actions, 25);
}

#[test]
fn action_cadence_offset_bot() {
    let mut m = BotManager::create(1);
    let mut actions = 0u32;
    for _ in 0..100 {
        if m.action_due(3) {
            actions += 1;
        }
        m.advance_tick();
    }
    assert_eq!(actions, 25);
}

#[test]
fn admission_cap_four_workers() {
    // S6: 4 workers race for 10 slots, one reservation per tick each;
    // exactly 10 connections are opened over all workers
    let managers: Vec<BotManager> = (0..4).map(|_| BotManager::create(10)).collect();
    let mut counter: u32 = 0;
    let mut opened = [0u32; 4];
    let mut all_ids = Vec::new();
    for round in 0..20 {
        for (w, m) in managers.iter().enumerate() {
            let prior = counter;
            counter += m.bots_per_tick;
            let (s, e) = m.admission_range(prior);
            if s == e {
                counter -= m.bots_per_tick;
            }
            for id in s..e {
                all_ids.push(id);
            }
            opened[w] += e - s;
            let _ = round;
        }
    }
    assert_eq!(opened.iter().sum::<u32>(), 10);
    all_ids.sort();
    assert_eq!(all_ids, (0..10).collect::<Vec<u32>>());
}

#[test]
fn admission_larger_batches() {
    let m = BotManager { count: 10, bots_per_tick: 4, action_tick: 4, tick_counter: 0 };
    assert_eq!(m.admission_range(0), (0, 4));
    assert_eq!(m.admission_range(8), (8, 10));
    assert_eq!(m.admission_range(10), (10, 10));
    assert_eq!(m.admission_range(12), (12, 12));
}

#[test]
fn gameplay_packet_kinds() {
    let msg = b"Wow".to_vec();
    assert_eq!(gameplay_packet(0, 7, false, 0, &msg, 1, 2), write_chat_message(&msg, 1, 2));
    assert_eq!(gameplay_packet(1, 7, true, 0, &msg, 0, 0), write_animation(true));
    assert_eq!(gameplay_packet(2, 7, true, 0, &msg, 0, 0), write_entity_action(7, 1));
    assert_eq!(gameplay_packet(2, 7, false, 0, &msg, 0, 0), write_entity_action(7, 0));
    assert_eq!(gameplay_packet(3, 7, true, 0, &msg, 0, 0), write_entity_action(7, 3));
    assert_eq!(gameplay_packet(3, 7, false, 0, &msg, 0, 0), write_entity_action(7, 4));
    assert_eq!(gameplay_packet(4, 7, false, 8, &msg, 0, 0), write_held_slot(8));
}

#[test]
fn gameplay_packet_bytes() {
    assert_eq!(write_entity_action(2, 3), vec![0x1E, 0x02, 0x03, 0x00]);
    assert_eq!(write_held_slot(5), vec![0x28, 0x00, 0x05]);
    assert_eq!(write_animation(false), vec![0x2F, 0x00]);
    assert_eq!(write_teleport_confirm(300), vec![0x00, 0xAC, 0x02]);
    let chat = write_chat_message(&b"Wow".to_vec(), 0, 0);
    let mut expected = vec![0x05u8, 0x03, b'W', b'o', b'w'];
    expected.extend_from_slice(&[0u8; 8]); // timestamp
    expected.extend_from_slice(&[0u8; 8]); // salt
    expected.push(0); // no signature
    expected.push(0); // message count
    expected.extend_from_slice(&[0, 0, 0]); // acknowledged bitset
    assert_eq!(chat, expected);
}

#[test]
fn compressed_session_after_threshold() {
    // the bot keeps decoding after SetCompression: a compressed JoinGame
    let mut bot = Bot::new(1, b"Bot_1".to_vec());
    let mut wire = encode_frame(&payload(0x03, &varint(0)), -1).unwrap();
    wire.extend_from_slice(&encode_frame(&payload(0x02, &[0u8; 17]), 0).unwrap());
    feed(&mut bot, &wire);
    assert_eq!(bot.state, STATE_PLAY);
    assert_eq!(bot.compression_threshold, 0);
    let wire2 = encode_frame(&payload(0x28, &99u32.to_be_bytes()), 0).unwrap();
    feed(&mut bot, &wire2);
    assert_eq!(bot.entity_id, 99);
    assert!(!bot.kicked);
}

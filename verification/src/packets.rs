//! The packets the bot speaks, protocol version 763 (Minecraft 1.20.1). Each
//! builder returns the unframed payload: packet id VarInt followed by the
//! body. Framing (and compression) is the codec's business.

use vstd::prelude::*;
use crate::buffer::{be16, be64, Buf};
use crate::varint::varint_bytes;

verus! {

/// Protocol version 763, Minecraft Java Edition 1.20.1.
pub const PROTOCOL_VERSION: u32 = 763;

/// Handshake next-state selector for login.
pub const NEXT_STATE_LOGIN: u32 = 2;

/// Protocol phase: waiting in the login flow.
pub const STATE_LOGIN: u8 = 0;

/// Protocol phase: in the world, play packets apply.
pub const STATE_PLAY: u8 = 1;

/// Clientbound login: connection refused.
pub const L_DISCONNECT: u32 = 0x00;

/// Clientbound login: online-mode encryption request (unsupported).
pub const L_ENCRYPTION_REQUEST: u32 = 0x01;

/// Clientbound login: login accepted, switch to play.
pub const L_LOGIN_SUCCESS: u32 = 0x02;

/// Clientbound login: compression threshold for all further frames.
pub const L_SET_COMPRESSION: u32 = 0x03;

/// Clientbound play: kicked from the world.
pub const C_DISCONNECT: u32 = 0x1A;

/// Clientbound play: keep-alive probe to echo back.
pub const C_KEEP_ALIVE: u32 = 0x23;

/// Clientbound play: join game, carrying the bot's entity id.
pub const C_JOIN_GAME: u32 = 0x28;

/// Clientbound play: synchronize player position, expects a confirm.
pub const C_SYNC_PLAYER_POSITION: u32 = 0x3C;

/// Serverbound play: confirm a position synchronization.
pub const S_TELEPORT_CONFIRM: u32 = 0x00;

/// Serverbound play: chat message.
pub const S_CHAT_MESSAGE: u32 = 0x05;

/// Serverbound play: keep-alive echo.
pub const S_KEEP_ALIVE: u32 = 0x12;

/// Serverbound play: set player position.
pub const S_SET_PLAYER_POSITION: u32 = 0x14;

/// Serverbound play: player command (sneak and sprint toggles).
pub const S_PLAYER_COMMAND: u32 = 0x1E;

/// Serverbound play: change the held hotbar slot.
pub const S_SET_HELD_ITEM: u32 = 0x28;

/// Serverbound play: swing an arm.
pub const S_SWING_ARM: u32 = 0x2F;

/// Handshake: protocol version, server address, port, next state.
pub open spec fn handshake_pkt(proto: u32, addr: Seq<u8>, port: u16, next: u32) -> Seq<u8> {
    varint_bytes(0) + varint_bytes(proto as int) + varint_bytes(addr.len() as int) + addr + be16(
        port,
    ) + varint_bytes(next as int)
}

/// Login start: player name and a false "has player UUID" flag.
pub open spec fn login_start_pkt(name: Seq<u8>) -> Seq<u8> {
    varint_bytes(0) + varint_bytes(name.len() as int) + name + seq![0u8]
}

/// Teleport confirm, echoing the server's teleport id.
pub open spec fn teleport_confirm_pkt(id: u32) -> Seq<u8> {
    varint_bytes(S_TELEPORT_CONFIRM as int) + varint_bytes(id as int)
}

/// Keep-alive echo, carrying the server's 8-byte id.
pub open spec fn keep_alive_pkt(id: u64) -> Seq<u8> {
    varint_bytes(S_KEEP_ALIVE as int) + be64(id)
}

/// Player position: three doubles (as raw bit patterns) and an on-ground flag.
pub open spec fn position_pkt(x_bits: u64, y_bits: u64, z_bits: u64, on_ground: bool) -> Seq<u8> {
    varint_bytes(S_SET_PLAYER_POSITION as int) + be64(x_bits) + be64(y_bits) + be64(z_bits) + seq![
        if on_ground {
            1u8
        } else {
            0u8
        },
    ]
}

/// Chat message: text, timestamp, salt, no signature, no acknowledgements
/// (an empty fixed bitset of 20 bits, three zero bytes).
pub open spec fn chat_pkt(msg: Seq<u8>, timestamp: u64, salt: u64) -> Seq<u8> {
    varint_bytes(S_CHAT_MESSAGE as int) + varint_bytes(msg.len() as int) + msg + be64(timestamp)
        + be64(salt) + seq![0u8] + varint_bytes(0) + seq![0u8, 0u8, 0u8]
}

/// Swing arm: 0 for the main hand, 1 for the off hand.
pub open spec fn swing_pkt(offhand: bool) -> Seq<u8> {
    varint_bytes(S_SWING_ARM as int) + varint_bytes(
        if offhand {
            1
        } else {
            0
        },
    )
}

/// Player command: entity id, action id, zero jump boost.
pub open spec fn entity_action_pkt(entity_id: u32, action: u32) -> Seq<u8> {
    varint_bytes(S_PLAYER_COMMAND as int) + varint_bytes(entity_id as int) + varint_bytes(
        action as int,
    ) + varint_bytes(0)
}

/// Held item change: hotbar slot as a 16-bit integer.
pub open spec fn held_slot_pkt(slot: u16) -> Seq<u8> {
    varint_bytes(S_SET_HELD_ITEM as int) + be16(slot)
}

pub fn write_handshake_packet(proto: u32, addr: &Vec<u8>, port: u16, next: u32) -> (r: Vec<u8>)
    requires
        addr@.len() <= 0x7FFF,
    ensures
        r@ == handshake_pkt(proto, addr@, port, next),
{
    let mut b = Buf::new();
    b.write_varint(0);
    b.write_varint(proto);
    b.write_str_bytes(addr);
    b.write_u16(port);
    b.write_varint(next);
    let r = b.into_bytes();
    proof {
        assert(r@ =~= handshake_pkt(proto, addr@, port, next));
    }
    r
}

pub fn write_login_start_packet(name: &Vec<u8>) -> (r: Vec<u8>)
    requires
        name@.len() <= 0x7FFF,
    ensures
        r@ == login_start_pkt(name@),
{
    let mut b = Buf::new();
    b.write_varint(0);
    b.write_str_bytes(name);
    b.write_u8(0);
    let r = b.into_bytes();
    proof {
        assert(r@ =~= login_start_pkt(name@));
    }
    r
}

pub fn write_teleport_confirm(id: u32) -> (r: Vec<u8>)
    ensures
        r@ == teleport_confirm_pkt(id),
{
    let mut b = Buf::new();
    b.write_varint(S_TELEPORT_CONFIRM);
    b.write_varint(id);
    let r = b.into_bytes();
    proof {
        assert(r@ =~= teleport_confirm_pkt(id));
    }
    r
}

pub fn write_keep_alive(id: u64) -> (r: Vec<u8>)
    ensures
        r@ == keep_alive_pkt(id),
{
    let mut b = Buf::new();
    b.write_varint(S_KEEP_ALIVE);
    b.write_u64(id);
    let r = b.into_bytes();
    proof {
        assert(r@ =~= keep_alive_pkt(id));
    }
    r
}

/// The per-tick movement packet, from the position's raw bit patterns.
pub fn write_current_pos(x_bits: u64, y_bits: u64, z_bits: u64, on_ground: bool) -> (r: Vec<u8>)
    ensures
        r@ == position_pkt(x_bits, y_bits, z_bits, on_ground),
{
    let mut b = Buf::new();
    b.write_varint(S_SET_PLAYER_POSITION);
    b.write_u64(x_bits);
    b.write_u64(y_bits);
    b.write_u64(z_bits);
    b.write_u8(if on_ground {
        1
    } else {
        0
    });
    let r = b.into_bytes();
    proof {
        assert(r@ =~= position_pkt(x_bits, y_bits, z_bits, on_ground));
    }
    r
}

pub fn write_chat_message(msg: &Vec<u8>, timestamp: u64, salt: u64) -> (r: Vec<u8>)
    requires
        msg@.len() <= 256,
    ensures
        r@ == chat_pkt(msg@, timestamp, salt),
{
    let mut b = Buf::new();
    b.write_varint(S_CHAT_MESSAGE);
    b.write_str_bytes(msg);
    b.write_u64(timestamp);
    b.write_u64(salt);
    b.write_u8(0);
    b.write_varint(0);
    b.write_u8(0);
    b.write_u8(0);
    b.write_u8(0);
    let r = b.into_bytes();
    proof {
        assert(r@ =~= chat_pkt(msg@, timestamp, salt));
    }
    r
}

pub fn write_animation(offhand: bool) -> (r: Vec<u8>)
    ensures
        r@ == swing_pkt(offhand),
{
    let mut b = Buf::new();
    b.write_varint(S_SWING_ARM);
    b.write_varint(if offhand {
        1
    } else {
        0
    });
    let r = b.into_bytes();
    proof {
        assert(r@ =~= swing_pkt(offhand));
    }
    r
}

pub fn write_entity_action(entity_id: u32, action: u32) -> (r: Vec<u8>)
    ensures
        r@ == entity_action_pkt(entity_id, action),
{
    let mut b = Buf::new();
    b.write_varint(S_PLAYER_COMMAND);
    b.write_varint(entity_id);
    b.write_varint(action);
    b.write_varint(0);
    let r = b.into_bytes();
    proof {
        assert(r@ =~= entity_action_pkt(entity_id, action));
    }
    r
}

pub fn write_held_slot(slot: u16) -> (r: Vec<u8>)
    ensures
        r@ == held_slot_pkt(slot),
{
    let mut b = Buf::new();
    b.write_varint(S_SET_HELD_ITEM);
    b.write_u16(slot);
    let r = b.into_bytes();
    proof {
        assert(r@ =~= held_slot_pkt(slot));
    }
    r
}

/// The randomized gameplay packet of an action tick, picked by `kind`:
/// 0 chat, 1 swing, 2 sneak toggle, 3 sprint toggle, 4 held slot. `flag`
/// picks the sub-variant (off hand; start or stop).
pub open spec fn gameplay_pkt(
    kind: u8,
    entity_id: u32,
    flag: bool,
    slot: u16,
    msg: Seq<u8>,
    timestamp: u64,
    salt: u64,
) -> Seq<u8> {
    if kind == 0 {
        chat_pkt(msg, timestamp, salt)
    } else if kind == 1 {
        swing_pkt(flag)
    } else if kind == 2 {
        entity_action_pkt(
            entity_id,
            if flag {
                1
            } else {
                0
            },
        )
    } else if kind == 3 {
        entity_action_pkt(
            entity_id,
            if flag {
                3
            } else {
                4
            },
        )
    } else {
        held_slot_pkt(slot)
    }
}

/// Build the gameplay packet of an action tick. The caller supplies the
/// random draws: the kind, the sub-variant flag, the hotbar slot and the
/// chat text with its timestamp and salt.
pub fn gameplay_packet(
    kind: u8,
    entity_id: u32,
    flag: bool,
    slot: u16,
    msg: &Vec<u8>,
    timestamp: u64,
    salt: u64,
) -> (r: Vec<u8>)
    requires
        kind <= 4,
        slot <= 8,
        msg@.len() <= 256,
    ensures
        r@ == gameplay_pkt(kind, entity_id, flag, slot, msg@, timestamp, salt),
{
    if kind == 0 {
        write_chat_message(msg, timestamp, salt)
    } else if kind == 1 {
        write_animation(flag)
    } else if kind == 2 {
        write_entity_action(
            entity_id,
            if flag {
                1
            } else {
                0
            },
        )
    } else if kind == 3 {
        write_entity_action(
            entity_id,
            if flag {
                3
            } else {
                4
            },
        )
    } else {
        write_held_slot(slot)
    }
}

} // verus!

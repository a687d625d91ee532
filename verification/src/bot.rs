//! One simulated player: its state record, the Login and Play packet
//! handlers, and the drain loop that pulls complete frames out of the bot's
//! buffering buffer and dispatches each. Handlers never block; on any parse
//! error the bot is marked kicked, the only recovery path.

use vstd::prelude::*;
use crate::buffer::{be32_val, be64_val, Buf};
use crate::codec::{frame_parse, read_frame, FRes};
use crate::packets::{
    keep_alive_pkt, teleport_confirm_pkt, write_keep_alive, write_teleport_confirm,
    C_DISCONNECT, C_JOIN_GAME, C_KEEP_ALIVE, C_SYNC_PLAYER_POSITION, L_DISCONNECT,
    L_ENCRYPTION_REQUEST, L_LOGIN_SUCCESS, L_SET_COMPRESSION, STATE_LOGIN, STATE_PLAY,
};
use crate::varint::{varint_parse, VarIntRes};

verus! {

/// The mathematical state of one bot. Coordinates are carried as the raw bit
/// patterns of the wire doubles; `buffer` is the unread tail of the bot's
/// buffering buffer.
pub struct BotView {
    pub id: u32,
    pub name: Seq<u8>,
    pub entity_id: u32,
    pub compression_threshold: i32,
    pub state: u8,
    pub kicked: bool,
    pub teleported: bool,
    pub joined: bool,
    pub x_bits: u64,
    pub y_bits: u64,
    pub z_bits: u64,
    pub buffer: Seq<u8>,
}

/// The same bot, marked kicked.
pub open spec fn kick(b: BotView) -> BotView {
    BotView { kicked: true, ..b }
}

/// The same bot with its buffering buffer holding `buf`.
pub open spec fn with_buffer(b: BotView, buf: Seq<u8>) -> BotView {
    BotView { buffer: buf, ..b }
}

/// One simulated player connection's protocol state. The socket itself, the
/// poller registration and the random draws live with the caller.
pub struct Bot {
    pub id: u32,
    pub name: Vec<u8>,
    pub entity_id: u32,
    pub compression_threshold: i32,
    pub state: u8,
    pub kicked: bool,
    pub teleported: bool,
    pub joined: bool,
    pub x_bits: u64,
    pub y_bits: u64,
    pub z_bits: u64,
    pub buffering_buf: Buf,
}

impl View for Bot {
    type V = BotView;

    open spec fn view(&self) -> BotView {
        BotView {
            id: self.id,
            name: self.name@,
            entity_id: self.entity_id,
            compression_threshold: self.compression_threshold,
            state: self.state,
            kicked: self.kicked,
            teleported: self.teleported,
            joined: self.joined,
            x_bits: self.x_bits,
            y_bits: self.y_bits,
            z_bits: self.z_bits,
            buffer: self.buffering_buf.unread(),
        }
    }
}

impl Bot {
    pub open spec fn wf(self) -> bool {
        self.buffering_buf.wf()
    }

    /// A fresh bot in the login phase. Compression starts disabled; only a
    /// `SetCompression` packet from the server turns it on.
    pub fn new(id: u32, name: Vec<u8>) -> (r: Bot)
        ensures
            r.wf(),
            r@ == (BotView {
                id,
                name: name@,
                entity_id: 0,
                compression_threshold: -1i32,
                state: STATE_LOGIN,
                kicked: false,
                teleported: false,
                joined: false,
                x_bits: 0,
                y_bits: 0,
                z_bits: 0,
                buffer: Seq::<u8>::empty(),
            }),
    {
        let r = Bot {
            id,
            name,
            entity_id: 0,
            compression_threshold: -1,
            state: STATE_LOGIN,
            kicked: false,
            teleported: false,
            joined: false,
            x_bits: 0,
            y_bits: 0,
            z_bits: 0,
            buffering_buf: Buf::new(),
        };
        proof {
            assert(r@.buffer =~= Seq::<u8>::empty());
        }
        r
    }
}

/// What a login-state packet with id `id` (whose VarInt occupied the first
/// `n` bytes of `p`) does to the bot. Disconnect and the unsupported
/// encryption request kick; login success moves to play; set-compression
/// stores the threshold; anything else is ignored.
pub open spec fn login_step(b: BotView, p: Seq<u8>, id: int, n: int) -> BotView {
    if id == L_DISCONNECT {
        kick(b)
    } else if id == L_ENCRYPTION_REQUEST {
        kick(b)
    } else if id == L_LOGIN_SUCCESS {
        BotView { state: STATE_PLAY, ..b }
    } else if id == L_SET_COMPRESSION {
        match varint_parse(p.skip(n)) {
            VarIntRes::Val { v, n: m } => BotView {
                compression_threshold: (v as u32) as i32,
                ..b
            },
            _ => kick(b),
        }
    } else {
        b
    }
}

/// What a play-state packet with id `id` (whose VarInt occupied the first
/// `n` bytes of `p`) does to the bot, and the unframed packets it answers
/// with. Join-game stores the entity id; keep-alive is echoed; synchronize-
/// player-position stores the received coordinates on axes whose flag bit
/// marks them absolute, marks the bot teleported and confirms the teleport
/// id; disconnect kicks; anything else is ignored. Any truncated packet
/// kicks. An axis whose flag bit marks it relative keeps its stored
/// coordinate: the offset is floating-point arithmetic, which this crate
/// cannot hold, and the embedding application owns the live position.
pub open spec fn play_step(b: BotView, p: Seq<u8>, id: int, n: int) -> (BotView, Seq<Seq<u8>>) {
    if id == C_JOIN_GAME {
        if p.len() >= n + 4 {
            (BotView { entity_id: be32_val(p.skip(n)) as u32, ..b }, seq![])
        } else {
            (kick(b), seq![])
        }
    } else if id == C_KEEP_ALIVE {
        if p.len() >= n + 8 {
            (b, seq![keep_alive_pkt(be64_val(p.skip(n)) as u64)])
        } else {
            (kick(b), seq![])
        }
    } else if id == C_SYNC_PLAYER_POSITION {
        sync_step(b, p, n)
    } else if id == C_DISCONNECT {
        (kick(b), seq![])
    } else {
        (b, seq![])
    }
}

proof fn lemma_vec_u8_deep_view(v: &Vec<u8>)
    ensures
        v.deep_view() == v@,
{
    assert(v.deep_view() =~= v@);
}

/// What a synchronize-player-position packet does: store the received
/// coordinate bits on axes whose flag bit marks them absolute, mark the bot
/// teleported, and answer with a teleport confirm carrying the server's id.
pub open spec fn sync_step(b: BotView, p: Seq<u8>, n: int) -> (BotView, Seq<Seq<u8>>) {
    if p.len() >= n + 33 {
        let x = be64_val(p.skip(n)) as u64;
        let y = be64_val(p.skip(n + 8)) as u64;
        let z = be64_val(p.skip(n + 16)) as u64;
        let flags = p[n + 32];
        match varint_parse(p.skip(n + 33)) {
            VarIntRes::Val { v: k, n: m } => (
                BotView {
                    x_bits: if flags % 2 == 1 {
                        b.x_bits
                    } else {
                        x
                    },
                    y_bits: if (flags / 2) % 2 == 1 {
                        b.y_bits
                    } else {
                        y
                    },
                    z_bits: if (flags / 4) % 2 == 1 {
                        b.z_bits
                    } else {
                        z
                    },
                    teleported: true,
                    ..b
                },
                seq![teleport_confirm_pkt(k as u32)],
            ),
            _ => (kick(b), seq![]),
        }
    } else {
        (kick(b), seq![])
    }
}

/// Dispatch one decoded frame payload against the bot's current state. A
/// payload without a readable packet id kicks.
pub open spec fn dispatch_step(b: BotView, p: Seq<u8>) -> (BotView, Seq<Seq<u8>>) {
    match varint_parse(p) {
        VarIntRes::Val { v: id, n } => if b.state == STATE_LOGIN {
            (login_step(b, p, id, n), seq![])
        } else {
            play_step(b, p, id, n)
        },
        _ => (kick(b), seq![]),
    }
}

/// Dispatch touches every bot field but the buffering buffer.
pub proof fn lemma_dispatch_buffer(b: BotView, p: Seq<u8>)
    ensures
        dispatch_step(b, p).0.buffer == b.buffer,
{
}

/// Drain every complete frame out of the bot's buffer, dispatching each in
/// turn, until the buffer holds no complete frame, a frame is malformed
/// (which kicks), or the bot is kicked. Yields the bot afterwards and the
/// unframed packets it answered with, in order.
pub open spec fn drain_spec(b: BotView) -> (BotView, Seq<Seq<u8>>)
    decreases b.buffer.len(),
{
    if b.kicked {
        (b, seq![])
    } else {
        match frame_parse(b.buffer, b.compression_threshold as int) {
            FRes::Incomplete => (b, seq![]),
            FRes::Malformed => (kick(b), seq![]),
            FRes::Frame { p, n } => {
                proof {
                    crate::codec::lemma_frame_parse_consumes(
                        b.buffer,
                        b.compression_threshold as int,
                    );
                    lemma_dispatch_buffer(with_buffer(b, b.buffer.skip(n)), p);
                }
                let stepped = dispatch_step(with_buffer(b, b.buffer.skip(n)), p);
                let after = drain_spec(stepped.0);
                (after.0, stepped.1 + after.1)
            },
        }
    }
}

fn handle_login(bot: &mut Bot, pb: &mut Buf, id: u32, Ghost(p): Ghost<Seq<u8>>, Ghost(n): Ghost<int>)
    requires
        old(bot).wf(),
        old(pb).wf(),
        old(bot)@.state == STATE_LOGIN,
        varint_parse(p) == (VarIntRes::Val { v: id as int, n: n }),
        old(pb).all_bytes() == p,
        old(pb).pos() == n,
    ensures
        final(bot).wf(),
        final(bot)@ == login_step(old(bot)@, p, id as int, n),
{
    if id == L_DISCONNECT || id == L_ENCRYPTION_REQUEST {
        bot.kicked = true;
    } else if id == L_LOGIN_SUCCESS {
        bot.state = STATE_PLAY;
    } else if id == L_SET_COMPRESSION {
        match pb.read_varint() {
            Ok(v) => {
                bot.compression_threshold = v as i32;
            },
            Err(_) => {
                bot.kicked = true;
            },
        }
    }
}

#[verifier::rlimit(100)]
fn handle_sync(bot: &mut Bot, pb: &mut Buf, Ghost(p): Ghost<Seq<u8>>, Ghost(n): Ghost<int>) -> (out: Vec<
    Vec<u8>,
>)
    requires
        old(bot).wf(),
        old(pb).wf(),
        0 <= n,
        old(pb).all_bytes() == p,
        old(pb).pos() == n,
    ensures
        final(bot).wf(),
        final(bot)@ == sync_step(old(bot)@, p, n).0,
        out.deep_view() == sync_step(old(bot)@, p, n).1,
{
    broadcast use vstd::seq::group_seq_axioms;

    let ghost b0 = bot@;
    let out: Vec<Vec<u8>> = Vec::new();
    proof {
        assert(out.deep_view() =~= Seq::<Seq<u8>>::empty());
    }
    let x = match pb.read_u64() {
        Ok(v) => v,
        Err(_) => {
            bot.kicked = true;
            return out;
        },
    };
    let y = match pb.read_u64() {
        Ok(v) => v,
        Err(_) => {
            bot.kicked = true;
            return out;
        },
    };
    let z = match pb.read_u64() {
        Ok(v) => v,
        Err(_) => {
            bot.kicked = true;
            return out;
        },
    };
    // yaw and pitch, four bytes each, are read past and ignored
    match pb.skip(8) {
        Ok(_) => (),
        Err(_) => {
            bot.kicked = true;
            return out;
        },
    }
    let flags = match pb.read_u8() {
        Ok(v) => v,
        Err(_) => {
            bot.kicked = true;
            return out;
        },
    };
    let k = match pb.read_varint() {
        Ok(v) => v,
        Err(_) => {
            bot.kicked = true;
            return out;
        },
    };
    proof {
        assert(p.skip(n + 32)[0] == p[n + 32]);
    }
    if flags % 2 == 0 {
        bot.x_bits = x;
    }
    if (flags / 2) % 2 == 0 {
        bot.y_bits = y;
    }
    if (flags / 4) % 2 == 0 {
        bot.z_bits = z;
    }
    bot.teleported = true;
    let tc = write_teleport_confirm(k);
    proof {
        lemma_vec_u8_deep_view(&tc);
    }
    let mut out2: Vec<Vec<u8>> = Vec::new();
    out2.push(tc);
    proof {
        assert(out2.deep_view() =~= sync_step(b0, p, n).1);
    }
    out2
}

#[verifier::rlimit(100)]
fn handle_play(bot: &mut Bot, pb: &mut Buf, id: u32, Ghost(p): Ghost<Seq<u8>>, Ghost(n): Ghost<int>) -> (out: Vec<
    Vec<u8>,
>)
    requires
        old(bot).wf(),
        old(pb).wf(),
        old(bot)@.state != STATE_LOGIN,
        varint_parse(p) == (VarIntRes::Val { v: id as int, n: n }),
        old(pb).all_bytes() == p,
        old(pb).pos() == n,
    ensures
        final(bot).wf(),
        final(bot)@ == play_step(old(bot)@, p, id as int, n).0,
        out.deep_view() == play_step(old(bot)@, p, id as int, n).1,
{
    broadcast use vstd::seq::group_seq_axioms;

    let ghost b0 = bot@;
    let out: Vec<Vec<u8>> = Vec::new();
    proof {
        assert(out.deep_view() =~= Seq::<Seq<u8>>::empty());
        crate::varint::lemma_varint_parse_bounds(p);
    }
    if id == C_JOIN_GAME {
        match pb.read_u32() {
            Ok(e) => {
                bot.entity_id = e;
            },
            Err(_) => {
                bot.kicked = true;
            },
        }
        out
    } else if id == C_KEEP_ALIVE {
        match pb.read_u64() {
            Ok(k) => {
                let ka = write_keep_alive(k);
                proof {
                    lemma_vec_u8_deep_view(&ka);
                }
                let mut out2: Vec<Vec<u8>> = Vec::new();
                out2.push(ka);
                proof {
                    assert(out2.deep_view() =~= play_step(b0, p, id as int, n).1);
                }
                out2
            },
            Err(_) => {
                bot.kicked = true;
                out
            },
        }
    } else if id == C_SYNC_PLAYER_POSITION {
        handle_sync(bot, pb, Ghost(p), Ghost(n))
    } else if id == C_DISCONNECT {
        bot.kicked = true;
        out
    } else {
        out
    }
}

/// Handle one decoded frame payload: the executable face of
/// [`dispatch_step`].
pub fn handle_packet(bot: &mut Bot, payload: &Vec<u8>) -> (out: Vec<Vec<u8>>)
    requires
        old(bot).wf(),
    ensures
        final(bot).wf(),
        final(bot)@ == dispatch_step(old(bot)@, payload@).0,
        out.deep_view() == dispatch_step(old(bot)@, payload@).1,
{
    broadcast use vstd::seq::group_seq_axioms;

    let ghost p = payload@;
    let mut pb = Buf::from_vec(payload.clone());
    proof {
        assert(pb.unread() =~= p);
    }
    let out: Vec<Vec<u8>> = Vec::new();
    proof {
        assert(out.deep_view() =~= Seq::<Seq<u8>>::empty());
    }
    let id = match pb.read_varint() {
        Err(_) => {
            bot.kicked = true;
            return out;
        },
        Ok(v) => v,
    };
    let ghost n = pb.pos();
    proof {
        assert(pb.all_bytes() =~= p);
    }
    if bot.state == STATE_LOGIN {
        handle_login(bot, &mut pb, id, Ghost(p), Ghost(n));
        out
    } else {
        handle_play(bot, &mut pb, id, Ghost(p), Ghost(n))
    }
}

fn drain_exec(bot: &mut Bot) -> (out: Vec<Vec<u8>>)
    requires
        old(bot).wf(),
    ensures
        final(bot).wf(),
        final(bot)@ == drain_spec(old(bot)@).0,
        out.deep_view() == drain_spec(old(bot)@).1,
    decreases old(bot)@.buffer.len(),
{
    broadcast use vstd::seq::group_seq_axioms;

    let ghost b0 = bot@;
    let mut out: Vec<Vec<u8>> = Vec::new();
    proof {
        assert(out.deep_view() =~= Seq::<Seq<u8>>::empty());
    }
    if bot.kicked {
        return out;
    }
    proof {
        crate::codec::lemma_frame_parse_consumes(b0.buffer, b0.compression_threshold as int);
    }
    let payload = match read_frame(&mut bot.buffering_buf, bot.compression_threshold) {
        Ok(None) => {
            return out;
        },
        Err(_) => {
            bot.kicked = true;
            return out;
        },
        Ok(Some(p)) => p,
    };
    let ghost fr = frame_parse(b0.buffer, b0.compression_threshold as int);
    proof {
        assert(bot@.buffer =~= b0.buffer.skip(fr->n));
        assert(bot@ == with_buffer(b0, b0.buffer.skip(fr->n)));
    }
    let mut out1 = handle_packet(bot, &payload);
    proof {
        lemma_dispatch_buffer(with_buffer(b0, b0.buffer.skip(fr->n)), payload@);
    }
    let mut out2 = drain_exec(bot);
    let ghost o1 = out1.deep_view();
    let ghost o2 = out2.deep_view();
    out1.append(&mut out2);
    proof {
        assert(out1.deep_view() =~= o1 + o2);
    }
    out1
}

/// Feed freshly read bytes to the bot: append them to its buffering buffer,
/// drain and dispatch every complete frame, and compact the buffer so any
/// trailing partial frame survives to the next read. Yields the unframed
/// packets the bot answers with, in order; the caller frames and sends them.
pub fn process_incoming(bot: &mut Bot, data: &Vec<u8>) -> (out: Vec<Vec<u8>>)
    requires
        old(bot).wf(),
    ensures
        final(bot).wf(),
        final(bot)@ == drain_spec(with_buffer(old(bot)@, old(bot)@.buffer + data@)).0,
        out.deep_view() == drain_spec(with_buffer(old(bot)@, old(bot)@.buffer + data@)).1,
{
    broadcast use vstd::seq::group_seq_axioms;

    let ghost b0 = bot@;
    bot.buffering_buf.write_bytes(data);
    proof {
        assert(bot@.buffer =~= b0.buffer + data@);
        assert(bot@ == with_buffer(b0, b0.buffer + data@));
    }
    let out = drain_exec(bot);
    let ghost bmid = bot@;
    bot.buffering_buf.compact();
    proof {
        assert(bot@ == bmid);
    }
    out
}

/// Teleport handshake: a synchronize-player-position packet carrying
/// teleport id `k` makes the bot answer with exactly one packet, a teleport
/// confirm carrying the same `k`; the bot is then marked teleported, and
/// each axis the flags byte marks absolute holds exactly the received
/// coordinate bits.
pub proof fn lemma_teleport_handshake(b: BotView, p: Seq<u8>, id: int, n: int, k: int, m: int)
    requires
        b.state != STATE_LOGIN,
        varint_parse(p) == (VarIntRes::Val { v: id, n: n }),
        id == C_SYNC_PLAYER_POSITION,
        p.len() >= n + 33,
        varint_parse(p.skip(n + 33)) == (VarIntRes::Val { v: k, n: m }),
    ensures
        dispatch_step(b, p).1 == seq![teleport_confirm_pkt(k as u32)],
        dispatch_step(b, p).0.teleported,
        dispatch_step(b, p).0.kicked == b.kicked,
        p[n + 32] % 2 == 0 ==> dispatch_step(b, p).0.x_bits == be64_val(p.skip(n)) as u64,
        (p[n + 32] / 2) % 2 == 0 ==> dispatch_step(b, p).0.y_bits == be64_val(p.skip(n + 8)) as u64,
        (p[n + 32] / 4) % 2 == 0 ==> dispatch_step(b, p).0.z_bits == be64_val(p.skip(n + 16)) as u64,
{
}

} // verus!

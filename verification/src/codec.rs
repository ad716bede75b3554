//! The binary wire protocol: every client-to-server and server-to-client
//! message, its exact byte layout, and proofs that decoding inverts encoding.
//!
//! All multi-byte numeric fields are big-endian and every message begins with
//! a one-byte tag.  Fields that are IEEE 754 single-precision values on the
//! wire are carried here as their 32-bit patterns: the codec moves the four
//! bytes unchanged, so nothing here depends on floating-point semantics.

use vstd::prelude::*;
use vstd::arithmetic::div_mod::{
    lemma_breakdown, lemma_fundamental_div_mod, lemma_small_mod,
};
use vstd::arithmetic::power::{lemma_pow_increases, lemma_pow_positive, pow};

verus! {

broadcast use vstd::slice::axiom_spec_len;

/// The big-endian byte string of length `n` denoting `x % 256^n`.
pub open spec fn be_bytes(x: int, n: nat) -> Seq<u8>
    decreases n,
{
    if n == 0 {
        Seq::empty()
    } else {
        be_bytes(x / 256, (n - 1) as nat).push((x % 256) as u8)
    }
}

/// The value that a big-endian byte string denotes.
pub open spec fn be_val(s: Seq<u8>) -> int
    decreases s.len(),
{
    if s.len() == 0 {
        0
    } else {
        be_val(s.drop_last()) * 256 + s.last()
    }
}

pub proof fn lemma_be_bytes_len(x: int, n: nat)
    ensures
        be_bytes(x, n).len() == n,
    decreases n,
{
    if n > 0 {
        lemma_be_bytes_len(x / 256, (n - 1) as nat);
    }
}

pub proof fn lemma_be_val_bound(s: Seq<u8>)
    ensures
        0 <= be_val(s) < pow(256, s.len()),
    decreases s.len(),
{
    reveal(pow);
    if s.len() == 0 {
    } else {
        lemma_be_val_bound(s.drop_last());
    }
}

/// Reading back the big-endian bytes of a value recovers the value.
pub proof fn lemma_be_val_be_bytes(x: int, n: nat)
    requires
        0 <= x,
    ensures
        be_val(be_bytes(x, n)) == x % pow(256, n),
    decreases n,
{
    reveal(pow);
    if n == 0 {
        assert(x % pow(256, 0) == x % 1);
        lemma_fundamental_div_mod(x, 1);
    } else {
        let m = (n - 1) as nat;
        let b = be_bytes(x / 256, m);
        lemma_be_val_be_bytes(x / 256, m);
        lemma_pow_positive(256, m);
        assert(b.push((x % 256) as u8).drop_last() =~= b);
        lemma_breakdown(x, 256, pow(256, m));
    }
}

/// `lemma_be_val_be_bytes` for a value that fits in `n` bytes.
pub proof fn lemma_be_round_trip(x: int, n: nat)
    requires
        0 <= x < pow(256, n),
    ensures
        be_bytes(x, n).len() == n,
        be_val(be_bytes(x, n)) == x,
{
    lemma_be_bytes_len(x, n);
    lemma_be_val_be_bytes(x, n);
    lemma_small_mod(x as nat, pow(256, n) as nat);
}

/// Appends the `n`-byte big-endian form of `x` to `out`.
pub fn push_be(out: &mut Vec<u8>, x: u128, n: usize)
    requires
        n <= 16,
    ensures
        final(out)@ == old(out)@ + be_bytes(x as int, n as nat),
    decreases n,
{
    if n == 0 {
        proof {
            assert(old(out)@ + be_bytes(x as int, 0) =~= old(out)@);
        }
        return ;
    }
    push_be(out, x / 256, n - 1);
    out.push((x % 256) as u8);
    proof {
        assert(out@ =~= old(out)@ + be_bytes(x as int, n as nat));
    }
}

/// Reads the `n`-byte big-endian field of `buf` that starts at `start`.
pub fn read_be(buf: &[u8], start: usize, n: usize) -> (r: u128)
    requires
        n <= 16,
        start + n <= buf@.len(),
    ensures
        r as int == be_val(buf@.subrange(start as int, start + n)),
{
    proof {
        reveal_with_fuel(pow, 17);
        assert(pow(256, 16) == 0x100000000000000000000000000000000int);
    }
    let blen = buf.len();
    let mut r: u128 = 0;
    let mut i: usize = 0;
    while i < n
        invariant
            i <= n,
            n <= 16,
            start + n <= blen,
            blen == buf@.len(),
            r as int == be_val(buf@.subrange(start as int, start + i)),
            (r as int) < pow(256, i as nat),
            pow(256, 16) == 0x100000000000000000000000000000000int,
        decreases n - i,
    {
        proof {
            reveal(pow);
            lemma_pow_increases(256, (i + 1) as nat, 16);
            assert(pow(256, (i + 1) as nat) == 256 * pow(256, i as nat));
            assert(buf@.subrange(start as int, start + i + 1).drop_last() =~= buf@.subrange(
                start as int,
                start + i,
            ));
        }
        let b = buf[start + i];
        r = r * 256 + b as u128;
        i = i + 1;
    }
    r
}

} // verus!

verus! {

/// A pair of 32-bit wire scalars (bit patterns of IEEE 754 single-precision
/// values; the codec never interprets them).
#[derive(Debug, Clone, Copy, PartialEq, Eq, Structural)]
pub struct WireVec {
    pub x: u32,
    pub y: u32,
}

/// Why a buffer was rejected: too short for its tag, or an unknown tag.
#[derive(Debug, Clone, Copy, PartialEq, Eq, Structural)]
pub enum DecodeError {
    Truncated,
    UnknownTag,
}

/// Everything a client can send to the server.
#[derive(Debug, Clone, Copy, PartialEq, Eq, Structural)]
pub enum ClientMessages {
    Connect {
        self_port: u16,
    },
    Control {
        self_port: u16,
        secret: u128,
        tracks_acceleration_target: WireVec,
        turret_acceleration_target: u32,
        shoot: bool,
    },
}

/// The exact wire bytes of a client message.
pub open spec fn client_bytes(m: ClientMessages) -> Seq<u8> {
    match m {
        ClientMessages::Connect { self_port } => seq![0x00u8] + be_bytes(self_port as int, 2),
        ClientMessages::Control {
            self_port,
            secret,
            tracks_acceleration_target,
            turret_acceleration_target,
            shoot,
        } => seq![0x01u8] + be_bytes(self_port as int, 2) + be_bytes(secret as int, 16) + be_bytes(
            tracks_acceleration_target.x as int,
            4,
        ) + be_bytes(tracks_acceleration_target.y as int, 4) + be_bytes(
            turret_acceleration_target as int,
            4,
        ) + seq![(if shoot { 1u8 } else { 0u8 })],
    }
}

/// Fixed minimum buffer length for a client tag.
pub open spec fn client_msg_len(tag: u8) -> int {
    if tag == 0 {
        3
    } else {
        32
    }
}

/// Whether the buffer holds a complete client message.
pub open spec fn client_decode_ok(b: Seq<u8>) -> bool {
    b.len() > 0 && (b[0] == 0 || b[0] == 1) && b.len() >= client_msg_len(b[0])
}

/// The client message that a complete buffer denotes.
pub open spec fn client_decoded(b: Seq<u8>) -> ClientMessages
    recommends
        client_decode_ok(b),
{
    if b[0] == 0 {
        ClientMessages::Connect { self_port: be_val(b.subrange(1, 3)) as u16 }
    } else {
        ClientMessages::Control {
            self_port: be_val(b.subrange(1, 3)) as u16,
            secret: be_val(b.subrange(3, 19)) as u128,
            tracks_acceleration_target: WireVec {
                x: be_val(b.subrange(19, 23)) as u32,
                y: be_val(b.subrange(23, 27)) as u32,
            },
            turret_acceleration_target: be_val(b.subrange(27, 31)) as u32,
            shoot: b[31] != 0,
        }
    }
}

/// What decoding returns for every possible buffer.
pub open spec fn spec_client_decode(b: Seq<u8>) -> Result<ClientMessages, DecodeError> {
    if b.len() == 0 {
        Err(DecodeError::Truncated)
    } else if b[0] != 0 && b[0] != 1 {
        Err(DecodeError::UnknownTag)
    } else if b.len() < client_msg_len(b[0]) {
        Err(DecodeError::Truncated)
    } else {
        Ok(client_decoded(b))
    }
}

impl ClientMessages {
    /// A connect request; the caller fills the port in with `set_port`.
    pub fn connect() -> (r: Self)
        ensures
            r == (ClientMessages::Connect { self_port: 0u16 }),
    {
        ClientMessages::Connect { self_port: 0 }
    }

    /// A control message without identity; the caller fills port and secret in.
    pub fn control(
        tracks_acceleration_target: WireVec,
        turret_acceleration_target: u32,
        shoot: bool,
    ) -> (r: Self)
        ensures
            r == (ClientMessages::Control {
                self_port: 0u16,
                secret: 0u128,
                tracks_acceleration_target,
                turret_acceleration_target,
                shoot,
            }),
    {
        ClientMessages::Control {
            self_port: 0,
            secret: 0,
            tracks_acceleration_target,
            turret_acceleration_target,
            shoot,
        }
    }

    /// Overwrites the claimed source port of any message kind.
    pub fn set_port(&mut self, n_self_port: u16)
        ensures
            *final(self) == (match *old(self) {
                ClientMessages::Connect { self_port } => ClientMessages::Connect {
                    self_port: n_self_port,
                },
                ClientMessages::Control {
                    self_port,
                    secret,
                    tracks_acceleration_target,
                    turret_acceleration_target,
                    shoot,
                } => ClientMessages::Control {
                    self_port: n_self_port,
                    secret,
                    tracks_acceleration_target,
                    turret_acceleration_target,
                    shoot,
                },
            }),
    {
        match self {
            ClientMessages::Connect { self_port } => {
                *self_port = n_self_port;
            },
            ClientMessages::Control { self_port, .. } => {
                *self_port = n_self_port;
            },
        }
    }

    /// Overwrites the secret of a control message; a connect has none.
    pub fn set_secret(&mut self, n_secret: u128)
        ensures
            *final(self) == (match *old(self) {
                ClientMessages::Connect { self_port } => ClientMessages::Connect { self_port },
                ClientMessages::Control {
                    self_port,
                    secret,
                    tracks_acceleration_target,
                    turret_acceleration_target,
                    shoot,
                } => ClientMessages::Control {
                    self_port,
                    secret: n_secret,
                    tracks_acceleration_target,
                    turret_acceleration_target,
                    shoot,
                },
            }),
    {
        match self {
            ClientMessages::Control { secret, .. } => {
                *secret = n_secret;
            },
            _ => (),
        }
    }

    /// Encodes the message into its exact wire bytes.
    pub fn to_vec(&self) -> (r: Vec<u8>)
        ensures
            r@ == client_bytes(*self),
    {
        let mut out: Vec<u8> = Vec::new();
        match self {
            ClientMessages::Connect { self_port } => {
                out.push(0x00);
                push_be(&mut out, *self_port as u128, 2);
            },
            ClientMessages::Control {
                self_port,
                secret,
                tracks_acceleration_target,
                turret_acceleration_target,
                shoot,
            } => {
                out.push(0x01);
                push_be(&mut out, *self_port as u128, 2);
                push_be(&mut out, *secret, 16);
                push_be(&mut out, tracks_acceleration_target.x as u128, 4);
                push_be(&mut out, tracks_acceleration_target.y as u128, 4);
                push_be(&mut out, *turret_acceleration_target as u128, 4);
                out.push(if *shoot { 1 } else { 0 });
            },
        }
        proof {
            assert(out@ =~= client_bytes(*self));
        }
        out
    }

    /// Decodes a buffer; a short buffer or an unknown tag is an error, never
    /// a panic.
    pub fn try_from_bytes(v: &[u8]) -> (r: Result<Self, DecodeError>)
        ensures
            r == spec_client_decode(v@),
    {
        proof {
            reveal_with_fuel(pow, 17);
        }
        if v.len() == 0 {
            return Err(DecodeError::Truncated);
        }
        let tag = v[0];
        if tag == 0x00 {
            if v.len() < 3 {
                return Err(DecodeError::Truncated);
            }
            proof {
                lemma_be_val_bound(v@.subrange(1, 3));
            }
            let self_port = read_be(v, 1, 2) as u16;
            Ok(ClientMessages::Connect { self_port })
        } else if tag == 0x01 {
            if v.len() < 32 {
                return Err(DecodeError::Truncated);
            }
            proof {
                lemma_be_val_bound(v@.subrange(1, 3));
                lemma_be_val_bound(v@.subrange(3, 19));
                lemma_be_val_bound(v@.subrange(19, 23));
                lemma_be_val_bound(v@.subrange(23, 27));
                lemma_be_val_bound(v@.subrange(27, 31));
            }
            let self_port = read_be(v, 1, 2) as u16;
            let secret = read_be(v, 3, 16);
            let ax = read_be(v, 19, 4) as u32;
            let ay = read_be(v, 23, 4) as u32;
            let at = read_be(v, 27, 4) as u32;
            let shoot = v[31] != 0;
            Ok(ClientMessages::Control {
                self_port,
                secret,
                tracks_acceleration_target: WireVec { x: ax, y: ay },
                turret_acceleration_target: at,
                shoot,
            })
        } else {
            Err(DecodeError::UnknownTag)
        }
    }
}

/// Round trip: decoding the encoding of any client message gives it back.
pub proof fn lemma_client_round_trip(m: ClientMessages)
    ensures
        spec_client_decode(client_bytes(m)) == Ok::<ClientMessages, DecodeError>(m),
{
    reveal_with_fuel(pow, 17);
    let b = client_bytes(m);
    match m {
        ClientMessages::Connect { self_port } => {
            lemma_be_round_trip(self_port as int, 2);
            assert(b.subrange(1, 3) =~= be_bytes(self_port as int, 2));
        },
        ClientMessages::Control {
            self_port,
            secret,
            tracks_acceleration_target,
            turret_acceleration_target,
            shoot,
        } => {
            lemma_be_round_trip(self_port as int, 2);
            lemma_be_round_trip(secret as int, 16);
            lemma_be_round_trip(tracks_acceleration_target.x as int, 4);
            lemma_be_round_trip(tracks_acceleration_target.y as int, 4);
            lemma_be_round_trip(turret_acceleration_target as int, 4);
            assert(b.len() == 32);
            assert(b.subrange(1, 3) =~= be_bytes(self_port as int, 2));
            assert(b.subrange(3, 19) =~= be_bytes(secret as int, 16));
            assert(b.subrange(19, 23) =~= be_bytes(tracks_acceleration_target.x as int, 4));
            assert(b.subrange(23, 27) =~= be_bytes(tracks_acceleration_target.y as int, 4));
            assert(b.subrange(27, 31) =~= be_bytes(turret_acceleration_target as int, 4));
            assert(b[31] == (if shoot { 1u8 } else { 0u8 }));
        },
    }
}

} // verus!

verus! {

/// One wall entry of a map-change message (16 bytes on the wire).
#[derive(Debug, Clone, Copy, PartialEq, Eq, Structural)]
pub struct Wall {
    pub origin: WireVec,
    pub direction_length: WireVec,
}

/// One tank entry of a state message (24 bytes on the wire).
#[derive(Debug, Clone, Copy, PartialEq, Eq, Structural)]
pub struct Tank {
    pub position: WireVec,
    pub tank_direction: WireVec,
    pub turret_direction: WireVec,
}

/// One bullet entry of a state message (16 bytes on the wire).
#[derive(Debug, Clone, Copy, PartialEq, Eq, Structural)]
pub struct Bullet {
    pub position: WireVec,
    pub direction: WireVec,
}

/// Everything the server can send to a client.
#[derive(Debug, PartialEq)]
pub enum ServerMessages {
    MapChange { secret: u128, walls: Vec<Wall> },
    State { secret: u128, tanks: Vec<Tank>, bullets: Vec<Bullet> },
    Disconnected,
}

pub open spec fn wall_bytes(w: Wall) -> Seq<u8> {
    be_bytes(w.origin.x as int, 4) + be_bytes(w.origin.y as int, 4) + be_bytes(
        w.direction_length.x as int,
        4,
    ) + be_bytes(w.direction_length.y as int, 4)
}

pub open spec fn tank_bytes(t: Tank) -> Seq<u8> {
    be_bytes(t.position.x as int, 4) + be_bytes(t.position.y as int, 4) + be_bytes(
        t.tank_direction.x as int,
        4,
    ) + be_bytes(t.tank_direction.y as int, 4) + be_bytes(t.turret_direction.x as int, 4)
        + be_bytes(t.turret_direction.y as int, 4)
}

pub open spec fn bullet_bytes(t: Bullet) -> Seq<u8> {
    be_bytes(t.position.x as int, 4) + be_bytes(t.position.y as int, 4) + be_bytes(
        t.direction.x as int,
        4,
    ) + be_bytes(t.direction.y as int, 4)
}

pub open spec fn walls_bytes(ws: Seq<Wall>) -> Seq<u8>
    decreases ws.len(),
{
    if ws.len() == 0 {
        Seq::empty()
    } else {
        walls_bytes(ws.drop_last()) + wall_bytes(ws.last())
    }
}

pub open spec fn tanks_bytes(ts: Seq<Tank>) -> Seq<u8>
    decreases ts.len(),
{
    if ts.len() == 0 {
        Seq::empty()
    } else {
        tanks_bytes(ts.drop_last()) + tank_bytes(ts.last())
    }
}

pub open spec fn bullets_bytes(bs: Seq<Bullet>) -> Seq<u8>
    decreases bs.len(),
{
    if bs.len() == 0 {
        Seq::empty()
    } else {
        bullets_bytes(bs.drop_last()) + bullet_bytes(bs.last())
    }
}

pub proof fn lemma_wall_bytes_len(w: Wall)
    ensures
        wall_bytes(w).len() == 16,
{
    lemma_be_bytes_len(w.origin.x as int, 4);
    lemma_be_bytes_len(w.origin.y as int, 4);
    lemma_be_bytes_len(w.direction_length.x as int, 4);
    lemma_be_bytes_len(w.direction_length.y as int, 4);
}

pub proof fn lemma_tank_bytes_len(t: Tank)
    ensures
        tank_bytes(t).len() == 24,
{
    lemma_be_bytes_len(t.position.x as int, 4);
    lemma_be_bytes_len(t.position.y as int, 4);
    lemma_be_bytes_len(t.tank_direction.x as int, 4);
    lemma_be_bytes_len(t.tank_direction.y as int, 4);
    lemma_be_bytes_len(t.turret_direction.x as int, 4);
    lemma_be_bytes_len(t.turret_direction.y as int, 4);
}

pub proof fn lemma_bullet_bytes_len(t: Bullet)
    ensures
        bullet_bytes(t).len() == 16,
{
    lemma_be_bytes_len(t.position.x as int, 4);
    lemma_be_bytes_len(t.position.y as int, 4);
    lemma_be_bytes_len(t.direction.x as int, 4);
    lemma_be_bytes_len(t.direction.y as int, 4);
}

pub proof fn lemma_walls_bytes_len(ws: Seq<Wall>)
    ensures
        walls_bytes(ws).len() == 16 * ws.len(),
    decreases ws.len(),
{
    if ws.len() > 0 {
        lemma_walls_bytes_len(ws.drop_last());
        lemma_wall_bytes_len(ws.last());
    }
}

pub proof fn lemma_tanks_bytes_len(ts: Seq<Tank>)
    ensures
        tanks_bytes(ts).len() == 24 * ts.len(),
    decreases ts.len(),
{
    if ts.len() > 0 {
        lemma_tanks_bytes_len(ts.drop_last());
        lemma_tank_bytes_len(ts.last());
    }
}

pub proof fn lemma_bullets_bytes_len(bs: Seq<Bullet>)
    ensures
        bullets_bytes(bs).len() == 16 * bs.len(),
    decreases bs.len(),
{
    if bs.len() > 0 {
        lemma_bullets_bytes_len(bs.drop_last());
        lemma_bullet_bytes_len(bs.last());
    }
}

pub proof fn lemma_walls_bytes_index(ws: Seq<Wall>, i: int)
    requires
        0 <= i < ws.len(),
    ensures
        walls_bytes(ws).subrange(16 * i, 16 * i + 16) == wall_bytes(ws[i]),
    decreases ws.len(),
{
    lemma_walls_bytes_len(ws);
    lemma_walls_bytes_len(ws.drop_last());
    lemma_wall_bytes_len(ws.last());
    if i == ws.len() - 1 {
        assert(walls_bytes(ws).subrange(16 * i, 16 * i + 16) =~= wall_bytes(ws.last()));
    } else {
        lemma_walls_bytes_index(ws.drop_last(), i);
        assert(walls_bytes(ws).subrange(16 * i, 16 * i + 16) =~= walls_bytes(
            ws.drop_last(),
        ).subrange(16 * i, 16 * i + 16));
    }
}

pub proof fn lemma_tanks_bytes_index(ts: Seq<Tank>, i: int)
    requires
        0 <= i < ts.len(),
    ensures
        tanks_bytes(ts).subrange(24 * i, 24 * i + 24) == tank_bytes(ts[i]),
    decreases ts.len(),
{
    lemma_tanks_bytes_len(ts);
    lemma_tanks_bytes_len(ts.drop_last());
    lemma_tank_bytes_len(ts.last());
    if i == ts.len() - 1 {
        assert(tanks_bytes(ts).subrange(24 * i, 24 * i + 24) =~= tank_bytes(ts.last()));
    } else {
        lemma_tanks_bytes_index(ts.drop_last(), i);
        assert(tanks_bytes(ts).subrange(24 * i, 24 * i + 24) =~= tanks_bytes(
            ts.drop_last(),
        ).subrange(24 * i, 24 * i + 24));
    }
}

pub proof fn lemma_bullets_bytes_index(bs: Seq<Bullet>, i: int)
    requires
        0 <= i < bs.len(),
    ensures
        bullets_bytes(bs).subrange(16 * i, 16 * i + 16) == bullet_bytes(bs[i]),
    decreases bs.len(),
{
    lemma_bullets_bytes_len(bs);
    lemma_bullets_bytes_len(bs.drop_last());
    lemma_bullet_bytes_len(bs.last());
    if i == bs.len() - 1 {
        assert(bullets_bytes(bs).subrange(16 * i, 16 * i + 16) =~= bullet_bytes(bs.last()));
    } else {
        lemma_bullets_bytes_index(bs.drop_last(), i);
        assert(bullets_bytes(bs).subrange(16 * i, 16 * i + 16) =~= bullets_bytes(
            bs.drop_last(),
        ).subrange(16 * i, 16 * i + 16));
    }
}

/// The exact wire bytes of a server message.
pub open spec fn server_bytes(m: ServerMessages) -> Seq<u8> {
    match m {
        ServerMessages::MapChange { secret, walls } => seq![0x00u8] + be_bytes(secret as int, 16)
            + seq![walls@.len() as u8] + walls_bytes(walls@),
        ServerMessages::State { secret, tanks, bullets } => seq![0x01u8] + be_bytes(
            secret as int,
            16,
        ) + seq![tanks@.len() as u8] + tanks_bytes(tanks@) + seq![bullets@.len() as u8]
            + bullets_bytes(bullets@),
        ServerMessages::Disconnected => seq![0x02u8],
    }
}

/// Every list of a message fits its one count byte.
pub open spec fn counts_ok(m: ServerMessages) -> bool {
    match m {
        ServerMessages::MapChange { walls, .. } => walls@.len() <= 255,
        ServerMessages::State { tanks, bullets, .. } => tanks@.len() <= 255 && bullets@.len()
            <= 255,
        ServerMessages::Disconnected => true,
    }
}

/// Whether the buffer holds a complete server message.
pub open spec fn server_decode_ok(b: Seq<u8>) -> bool {
    b.len() > 0 && {
        if b[0] == 0 {
            b.len() >= 18 && b.len() >= 18 + 16 * (b[17] as int)
        } else if b[0] == 1 {
            b.len() >= 19 && b.len() >= 19 + 24 * (b[17] as int) && b.len() >= 19 + 24 * (
            b[17] as int) + 16 * (b[18 + 24 * (b[17] as int)] as int)
        } else {
            b[0] == 2
        }
    }
}

pub open spec fn wall_at(b: Seq<u8>, off: int) -> Wall {
    Wall {
        origin: WireVec {
            x: be_val(b.subrange(off, off + 4)) as u32,
            y: be_val(b.subrange(off + 4, off + 8)) as u32,
        },
        direction_length: WireVec {
            x: be_val(b.subrange(off + 8, off + 12)) as u32,
            y: be_val(b.subrange(off + 12, off + 16)) as u32,
        },
    }
}

pub open spec fn tank_at(b: Seq<u8>, off: int) -> Tank {
    Tank {
        position: WireVec {
            x: be_val(b.subrange(off, off + 4)) as u32,
            y: be_val(b.subrange(off + 4, off + 8)) as u32,
        },
        tank_direction: WireVec {
            x: be_val(b.subrange(off + 8, off + 12)) as u32,
            y: be_val(b.subrange(off + 12, off + 16)) as u32,
        },
        turret_direction: WireVec {
            x: be_val(b.subrange(off + 16, off + 20)) as u32,
            y: be_val(b.subrange(off + 20, off + 24)) as u32,
        },
    }
}

pub open spec fn bullet_at(b: Seq<u8>, off: int) -> Bullet {
    Bullet {
        position: WireVec {
            x: be_val(b.subrange(off, off + 4)) as u32,
            y: be_val(b.subrange(off + 4, off + 8)) as u32,
        },
        direction: WireVec {
            x: be_val(b.subrange(off + 8, off + 12)) as u32,
            y: be_val(b.subrange(off + 12, off + 16)) as u32,
        },
    }
}

/// Whether `m` is exactly the message that a complete buffer denotes.
pub open spec fn is_server_decoded(b: Seq<u8>, m: ServerMessages) -> bool
    recommends
        server_decode_ok(b),
{
    match m {
        ServerMessages::MapChange { secret, walls } => {
            &&& b[0] == 0
            &&& secret as int == be_val(b.subrange(1, 17))
            &&& walls@.len() == b[17] as int
            &&& forall|i: int|
                0 <= i < walls@.len() ==> walls@[i] == wall_at(b, 18 + 16 * i)
        },
        ServerMessages::State { secret, tanks, bullets } => {
            &&& b[0] == 1
            &&& secret as int == be_val(b.subrange(1, 17))
            &&& tanks@.len() == b[17] as int
            &&& forall|i: int|
                0 <= i < tanks@.len() ==> tanks@[i] == tank_at(b, 18 + 24 * i)
            &&& bullets@.len() == b[18 + 24 * (b[17] as int)] as int
            &&& forall|i: int|
                0 <= i < bullets@.len() ==> bullets@[i] == bullet_at(
                    b,
                    19 + 24 * (b[17] as int) + 16 * i,
                )
        },
        ServerMessages::Disconnected => b[0] == 2,
    }
}

/// The error that decoding an incomplete buffer reports.
pub open spec fn spec_server_err(b: Seq<u8>) -> DecodeError {
    if b.len() > 0 && b[0] > 2 {
        DecodeError::UnknownTag
    } else {
        DecodeError::Truncated
    }
}

} // verus!

verus! {

impl ServerMessages {
    /// Encodes the message into its exact wire bytes.
    pub fn to_vec(&self) -> (r: Vec<u8>)
        requires
            counts_ok(*self),
        ensures
            r@ == server_bytes(*self),
    {
        let mut out: Vec<u8> = Vec::new();
        match self {
            ServerMessages::MapChange { secret, walls } => {
                out.push(0x00);
                push_be(&mut out, *secret, 16);
                out.push(walls.len() as u8);
                let ghost prefix = out@;
                let mut i: usize = 0;
                while i < walls.len()
                    invariant
                        i <= walls@.len(),
                        walls@.len() <= 255,
                        out@ == prefix + walls_bytes(walls@.subrange(0, i as int)),
                    decreases walls@.len() - i,
                {
                    let w = walls[i];
                    push_be(&mut out, w.origin.x as u128, 4);
                    push_be(&mut out, w.origin.y as u128, 4);
                    push_be(&mut out, w.direction_length.x as u128, 4);
                    push_be(&mut out, w.direction_length.y as u128, 4);
                    proof {
                        assert(walls@.subrange(0, i + 1).drop_last() =~= walls@.subrange(
                            0,
                            i as int,
                        ));
                        assert(out@ =~= prefix + walls_bytes(walls@.subrange(0, i + 1)));
                    }
                    i = i + 1;
                }
                proof {
                    assert(walls@.subrange(0, walls@.len() as int) =~= walls@);
                    assert(out@ =~= server_bytes(*self));
                }
            },
            ServerMessages::State { secret, tanks, bullets } => {
                out.push(0x01);
                push_be(&mut out, *secret, 16);
                out.push(tanks.len() as u8);
                let ghost prefix = out@;
                let mut i: usize = 0;
                while i < tanks.len()
                    invariant
                        i <= tanks@.len(),
                        tanks@.len() <= 255,
                        out@ == prefix + tanks_bytes(tanks@.subrange(0, i as int)),
                    decreases tanks@.len() - i,
                {
                    let t = tanks[i];
                    push_be(&mut out, t.position.x as u128, 4);
                    push_be(&mut out, t.position.y as u128, 4);
                    push_be(&mut out, t.tank_direction.x as u128, 4);
                    push_be(&mut out, t.tank_direction.y as u128, 4);
                    push_be(&mut out, t.turret_direction.x as u128, 4);
                    push_be(&mut out, t.turret_direction.y as u128, 4);
                    proof {
                        assert(tanks@.subrange(0, i + 1).drop_last() =~= tanks@.subrange(
                            0,
                            i as int,
                        ));
                        assert(out@ =~= prefix + tanks_bytes(tanks@.subrange(0, i + 1)));
                    }
                    i = i + 1;
                }
                proof {
                    assert(tanks@.subrange(0, tanks@.len() as int) =~= tanks@);
                }
                out.push(bullets.len() as u8);
                let ghost prefix2 = out@;
                let mut i: usize = 0;
                while i < bullets.len()
                    invariant
                        i <= bullets@.len(),
                        bullets@.len() <= 255,
                        out@ == prefix2 + bullets_bytes(bullets@.subrange(0, i as int)),
                    decreases bullets@.len() - i,
                {
                    let u = bullets[i];
                    push_be(&mut out, u.position.x as u128, 4);
                    push_be(&mut out, u.position.y as u128, 4);
                    push_be(&mut out, u.direction.x as u128, 4);
                    push_be(&mut out, u.direction.y as u128, 4);
                    proof {
                        assert(bullets@.subrange(0, i + 1).drop_last() =~= bullets@.subrange(
                            0,
                            i as int,
                        ));
                        assert(out@ =~= prefix2 + bullets_bytes(bullets@.subrange(0, i + 1)));
                    }
                    i = i + 1;
                }
                proof {
                    assert(bullets@.subrange(0, bullets@.len() as int) =~= bullets@);
                    assert(out@ =~= server_bytes(*self));
                }
            },
            ServerMessages::Disconnected => {
                out.push(0x02);
                proof {
                    assert(out@ =~= server_bytes(*self));
                }
            },
        }
        out
    }

    /// Decodes a buffer; a short buffer or an unknown tag is an error, never
    /// a panic.
    pub fn try_from_bytes(v: &[u8]) -> (r: Result<Self, DecodeError>)
        ensures
            match r {
                Ok(m) => server_decode_ok(v@) && is_server_decoded(v@, m),
                Err(e) => !server_decode_ok(v@) && e == spec_server_err(v@),
            },
    {
        proof {
            reveal_with_fuel(pow, 17);
        }
        if v.len() == 0 {
            return Err(DecodeError::Truncated);
        }
        let tag = v[0];
        if tag == 0x00 {
            if v.len() < 18 {
                return Err(DecodeError::Truncated);
            }
            proof {
                lemma_be_val_bound(v@.subrange(1, 17));
            }
            let secret = read_be(v, 1, 16);
            let wall_count = v[17] as usize;
            if v.len() < 18 + 16 * wall_count {
                return Err(DecodeError::Truncated);
            }
            let mut walls: Vec<Wall> = Vec::new();
            let mut i: usize = 0;
            while i < wall_count
                invariant
                    i <= wall_count,
                    wall_count <= 255,
                    18 + 16 * wall_count <= v@.len(),
                    walls@.len() == i,
                    forall|j: int| 0 <= j < i ==> walls@[j] == wall_at(v@, 18 + 16 * j),
                decreases wall_count - i,
            {
                let off = 18 + 16 * i;
                proof {
                    reveal_with_fuel(pow, 5);
                    lemma_be_val_bound(v@.subrange(off as int, off + 4));
                    lemma_be_val_bound(v@.subrange(off + 4, off + 8));
                    lemma_be_val_bound(v@.subrange(off + 8, off + 12));
                    lemma_be_val_bound(v@.subrange(off + 12, off + 16));
                }
                let w = Wall {
                    origin: WireVec {
                        x: read_be(v, off, 4) as u32,
                        y: read_be(v, off + 4, 4) as u32,
                    },
                    direction_length: WireVec {
                        x: read_be(v, off + 8, 4) as u32,
                        y: read_be(v, off + 12, 4) as u32,
                    },
                };
                walls.push(w);
                i = i + 1;
            }
            Ok(ServerMessages::MapChange { secret, walls })
        } else if tag == 0x01 {
            if v.len() < 19 {
                return Err(DecodeError::Truncated);
            }
            proof {
                lemma_be_val_bound(v@.subrange(1, 17));
            }
            let secret = read_be(v, 1, 16);
            let tank_count = v[17] as usize;
            if v.len() < 19 + 24 * tank_count {
                return Err(DecodeError::Truncated);
            }
            let mut tanks: Vec<Tank> = Vec::new();
            let mut i: usize = 0;
            while i < tank_count
                invariant
                    i <= tank_count,
                    tank_count <= 255,
                    19 + 24 * tank_count <= v@.len(),
                    tanks@.len() == i,
                    forall|j: int| 0 <= j < i ==> tanks@[j] == tank_at(v@, 18 + 24 * j),
                decreases tank_count - i,
            {
                let off = 18 + 24 * i;
                proof {
                    reveal_with_fuel(pow, 5);
                    lemma_be_val_bound(v@.subrange(off as int, off + 4));
                    lemma_be_val_bound(v@.subrange(off + 4, off + 8));
                    lemma_be_val_bound(v@.subrange(off + 8, off + 12));
                    lemma_be_val_bound(v@.subrange(off + 12, off + 16));
                    lemma_be_val_bound(v@.subrange(off + 16, off + 20));
                    lemma_be_val_bound(v@.subrange(off + 20, off + 24));
                }
                let t = Tank {
                    position: WireVec {
                        x: read_be(v, off, 4) as u32,
                        y: read_be(v, off + 4, 4) as u32,
                    },
                    tank_direction: WireVec {
                        x: read_be(v, off + 8, 4) as u32,
                        y: read_be(v, off + 12, 4) as u32,
                    },
                    turret_direction: WireVec {
                        x: read_be(v, off + 16, 4) as u32,
                        y: read_be(v, off + 20, 4) as u32,
                    },
                };
                tanks.push(t);
                i = i + 1;
            }
            let base = 18 + 24 * tank_count;
            let bullet_count = v[base] as usize;
            if v.len() < base + 1 + 16 * bullet_count {
                return Err(DecodeError::Truncated);
            }
            let mut bullets: Vec<Bullet> = Vec::new();
            let mut i: usize = 0;
            while i < bullet_count
                invariant
                    i <= bullet_count,
                    bullet_count <= 255,
                    base == 18 + 24 * tank_count,
                    tank_count <= 255,
                    base + 1 + 16 * bullet_count <= v@.len(),
                    bullets@.len() == i,
                    forall|j: int| 0 <= j < i ==> bullets@[j] == bullet_at(v@, base + 1 + 16 * j),
                decreases bullet_count - i,
            {
                let off = base + 1 + 16 * i;
                proof {
                    reveal_with_fuel(pow, 5);
                    lemma_be_val_bound(v@.subrange(off as int, off + 4));
                    lemma_be_val_bound(v@.subrange(off + 4, off + 8));
                    lemma_be_val_bound(v@.subrange(off + 8, off + 12));
                    lemma_be_val_bound(v@.subrange(off + 12, off + 16));
                }
                let u = Bullet {
                    position: WireVec {
                        x: read_be(v, off, 4) as u32,
                        y: read_be(v, off + 4, 4) as u32,
                    },
                    direction: WireVec {
                        x: read_be(v, off + 8, 4) as u32,
                        y: read_be(v, off + 12, 4) as u32,
                    },
                };
                bullets.push(u);
                i = i + 1;
            }
            Ok(ServerMessages::State { secret, tanks, bullets })
        } else if tag == 0x02 {
            Ok(ServerMessages::Disconnected)
        } else {
            Err(DecodeError::UnknownTag)
        }
    }
}

} // verus!

verus! {

proof fn lemma_wall_at(b: Seq<u8>, off: int, w: Wall)
    requires
        0 <= off,
        off + 16 <= b.len(),
        b.subrange(off, off + 16) == wall_bytes(w),
    ensures
        wall_at(b, off) == w,
{
    reveal_with_fuel(pow, 5);
    lemma_be_round_trip(w.origin.x as int, 4);
    lemma_be_round_trip(w.origin.y as int, 4);
    lemma_be_round_trip(w.direction_length.x as int, 4);
    lemma_be_round_trip(w.direction_length.y as int, 4);
    let s = b.subrange(off, off + 16);
    assert(s.subrange(0, 4) =~= be_bytes(w.origin.x as int, 4));
    assert(s.subrange(4, 8) =~= be_bytes(w.origin.y as int, 4));
    assert(s.subrange(8, 12) =~= be_bytes(w.direction_length.x as int, 4));
    assert(s.subrange(12, 16) =~= be_bytes(w.direction_length.y as int, 4));
    assert(b.subrange(off, off + 4) =~= s.subrange(0, 4));
    assert(b.subrange(off + 4, off + 8) =~= s.subrange(4, 8));
    assert(b.subrange(off + 8, off + 12) =~= s.subrange(8, 12));
    assert(b.subrange(off + 12, off + 16) =~= s.subrange(12, 16));
}

proof fn lemma_tank_at(b: Seq<u8>, off: int, t: Tank)
    requires
        0 <= off,
        off + 24 <= b.len(),
        b.subrange(off, off + 24) == tank_bytes(t),
    ensures
        tank_at(b, off) == t,
{
    reveal_with_fuel(pow, 5);
    lemma_be_round_trip(t.position.x as int, 4);
    lemma_be_round_trip(t.position.y as int, 4);
    lemma_be_round_trip(t.tank_direction.x as int, 4);
    lemma_be_round_trip(t.tank_direction.y as int, 4);
    lemma_be_round_trip(t.turret_direction.x as int, 4);
    lemma_be_round_trip(t.turret_direction.y as int, 4);
    let s = b.subrange(off, off + 24);
    assert(s.subrange(0, 4) =~= be_bytes(t.position.x as int, 4));
    assert(s.subrange(4, 8) =~= be_bytes(t.position.y as int, 4));
    assert(s.subrange(8, 12) =~= be_bytes(t.tank_direction.x as int, 4));
    assert(s.subrange(12, 16) =~= be_bytes(t.tank_direction.y as int, 4));
    assert(s.subrange(16, 20) =~= be_bytes(t.turret_direction.x as int, 4));
    assert(s.subrange(20, 24) =~= be_bytes(t.turret_direction.y as int, 4));
    assert(b.subrange(off, off + 4) =~= s.subrange(0, 4));
    assert(b.subrange(off + 4, off + 8) =~= s.subrange(4, 8));
    assert(b.subrange(off + 8, off + 12) =~= s.subrange(8, 12));
    assert(b.subrange(off + 12, off + 16) =~= s.subrange(12, 16));
    assert(b.subrange(off + 16, off + 20) =~= s.subrange(16, 20));
    assert(b.subrange(off + 20, off + 24) =~= s.subrange(20, 24));
}

proof fn lemma_bullet_at(b: Seq<u8>, off: int, u: Bullet)
    requires
        0 <= off,
        off + 16 <= b.len(),
        b.subrange(off, off + 16) == bullet_bytes(u),
    ensures
        bullet_at(b, off) == u,
{
    reveal_with_fuel(pow, 5);
    lemma_be_round_trip(u.position.x as int, 4);
    lemma_be_round_trip(u.position.y as int, 4);
    lemma_be_round_trip(u.direction.x as int, 4);
    lemma_be_round_trip(u.direction.y as int, 4);
    let s = b.subrange(off, off + 16);
    assert(s.subrange(0, 4) =~= be_bytes(u.position.x as int, 4));
    assert(s.subrange(4, 8) =~= be_bytes(u.position.y as int, 4));
    assert(s.subrange(8, 12) =~= be_bytes(u.direction.x as int, 4));
    assert(s.subrange(12, 16) =~= be_bytes(u.direction.y as int, 4));
    assert(b.subrange(off, off + 4) =~= s.subrange(0, 4));
    assert(b.subrange(off + 4, off + 8) =~= s.subrange(4, 8));
    assert(b.subrange(off + 8, off + 12) =~= s.subrange(8, 12));
    assert(b.subrange(off + 12, off + 16) =~= s.subrange(12, 16));
}

/// Round trip: decoding the encoding of any server message whose lists fit
/// their count bytes gives the message back.
pub proof fn lemma_server_round_trip(m: ServerMessages)
    requires
        counts_ok(m),
    ensures
        server_decode_ok(server_bytes(m)),
        is_server_decoded(server_bytes(m), m),
{
    reveal_with_fuel(pow, 17);
    let b = server_bytes(m);
    match m {
        ServerMessages::MapChange { secret, walls } => {
            let n = walls@.len() as int;
            lemma_be_bytes_len(secret as int, 16);
            lemma_walls_bytes_len(walls@);
            lemma_be_round_trip(secret as int, 16);
            assert(b.len() == 18 + 16 * n);
            assert(b[0] == 0);
            assert(b[17] == n as u8);
            assert(b.subrange(1, 17) =~= be_bytes(secret as int, 16));
            assert forall|i: int| 0 <= i < n implies walls@[i] == wall_at(b, 18 + 16 * i) by {
                lemma_walls_bytes_index(walls@, i);
                lemma_wall_bytes_len(walls@[i]);
                assert(b.subrange(18 + 16 * i, 18 + 16 * i + 16) =~= walls_bytes(
                    walls@,
                ).subrange(16 * i, 16 * i + 16));
                lemma_wall_at(b, 18 + 16 * i, walls@[i]);
            }
        },
        ServerMessages::State { secret, tanks, bullets } => {
            let n = tanks@.len() as int;
            let k = bullets@.len() as int;
            lemma_be_bytes_len(secret as int, 16);
            lemma_tanks_bytes_len(tanks@);
            lemma_bullets_bytes_len(bullets@);
            lemma_be_round_trip(secret as int, 16);
            assert(b.len() == 19 + 24 * n + 16 * k);
            assert(b[0] == 1);
            assert(b[17] == n as u8);
            assert(b[18 + 24 * n] == k as u8);
            assert(b.subrange(1, 17) =~= be_bytes(secret as int, 16));
            assert forall|i: int| 0 <= i < n implies tanks@[i] == tank_at(b, 18 + 24 * i) by {
                lemma_tanks_bytes_index(tanks@, i);
                lemma_tank_bytes_len(tanks@[i]);
                assert(b.subrange(18 + 24 * i, 18 + 24 * i + 24) =~= tanks_bytes(tanks@).subrange(
                    24 * i,
                    24 * i + 24,
                ));
                lemma_tank_at(b, 18 + 24 * i, tanks@[i]);
            }
            assert forall|i: int| 0 <= i < k implies bullets@[i] == bullet_at(
                b,
                19 + 24 * n + 16 * i,
            ) by {
                lemma_bullets_bytes_index(bullets@, i);
                lemma_bullet_bytes_len(bullets@[i]);
                assert(b.subrange(19 + 24 * n + 16 * i, 19 + 24 * n + 16 * i + 16) =~= bullets_bytes(
                    bullets@,
                ).subrange(16 * i, 16 * i + 16));
                lemma_bullet_at(b, 19 + 24 * n + 16 * i, bullets@[i]);
            }
        },
        ServerMessages::Disconnected => {
            assert(b[0] == 2);
        },
    }
}

} // verus!

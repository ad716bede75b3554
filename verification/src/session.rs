//! Session and authentication management over a spoofable transport:
//! connect and re-connect handling, authenticated control updates, and
//! inactivity eviction.

use vstd::prelude::*;
use crate::entities::{Config, Player, Spawn, Tank, Turret, POS_LIMIT};
use crate::fixed::{in_range, Vec2};
use crate::rng;

verus! {

/// No two connected players claim the same port.
pub open spec fn ports_unique(ps: Seq<Player>) -> bool {
    forall|i: int, j: int| 0 <= i < j < ps.len() ==> ps[i].port != ps[j].port
}

/// No two connected players hold the same secret.
pub open spec fn secrets_unique(ps: Seq<Player>) -> bool {
    forall|i: int, j: int| 0 <= i < j < ps.len() ==> ps[i].secret != ps[j].secret
}

/// Every player well-formed, ports and secrets unique.
pub open spec fn players_wf(ps: Seq<Player>) -> bool {
    &&& forall|i: int| 0 <= i < ps.len() ==> ps[i].wf()
    &&& ports_unique(ps)
    &&& secrets_unique(ps)
}

pub open spec fn secret_used(ps: Seq<Player>, s: u128) -> bool {
    exists|i: int| 0 <= i < ps.len() && ps[i].secret == s
}

pub open spec fn port_used(ps: Seq<Player>, p: u16) -> bool {
    exists|i: int| 0 <= i < ps.len() && ps[i].port == p
}

pub open spec fn spawns_wf(ss: Seq<Spawn>) -> bool {
    forall|i: int| 0 <= i < ss.len() ==> ss[i].wf()
}

/// Where a newly placed tank may stand: at one of the map's spawn points,
/// or at the origin when the map defines none.
pub open spec fn spawn_pos_ok(ss: Seq<Spawn>, pos: Vec2) -> bool {
    if ss.len() == 0 {
        pos == (Vec2 { x: 0i64, y: 0i64 })
    } else {
        exists|i: int| 0 <= i < ss.len() && pos == ss[i].position
    }
}

/// The tank a player gets on reconnect or respawn, built from the limits
/// captured at connect time.
pub open spec fn respawn_tank(p: Player, pos: Vec2) -> Tank {
    Tank {
        position: pos,
        angle: 0,
        track_velocities: Vec2 { x: 0, y: 0 },
        track_accelerations: Vec2 { x: 0, y: 0 },
        radius: p.tank_radius,
        track_max_velocity: p.track_max_velocity,
        turret: Turret {
            angle: 0,
            velocity: 0,
            acceleration: 0,
            max_velocity: p.turret_max_velocity,
        },
    }
}

/// Port and secret uniqueness carry over to any same-length state whose
/// ports and secrets are unchanged pointwise.
pub proof fn lemma_uniqueness_carries(ps0: Seq<Player>, ps1: Seq<Player>)
    requires
        ports_unique(ps0),
        secrets_unique(ps0),
        ps1.len() == ps0.len(),
        forall|i: int|
            0 <= i < ps1.len() ==> (#[trigger] ps1[i]).port == ps0[i].port && ps1[i].secret
                == ps0[i].secret,
    ensures
        ports_unique(ps1),
        secrets_unique(ps1),
{
    assert forall|a: int, b: int|
        0 <= a < b < ps1.len() implies ps1[a].port != ps1[b].port && ps1[a].secret
        != ps1[b].secret by {
        assert(ps0[a].port != ps0[b].port);
        assert(ps0[a].secret != ps0[b].secret);
    }
}

/// Picks a spawn position uniformly at random; the origin if none exist.
pub fn pick_spawn(spawns: &Vec<Spawn>) -> (pos: Vec2)
    requires
        spawns_wf(spawns@),
    ensures
        spawn_pos_ok(spawns@, pos),
        in_range(pos, POS_LIMIT as int),
{
    if spawns.len() == 0 {
        Vec2 { x: 0, y: 0 }
    } else {
        let i = rng::random_index(spawns.len());
        spawns[i].position
    }
}

/// Whether any connected player holds `s`.
fn secret_in_use(players: &Vec<Player>, s: u128) -> (r: bool)
    ensures
        r == secret_used(players@, s),
{
    let mut i: usize = 0;
    while i < players.len()
        invariant
            i <= players@.len(),
            forall|j: int| 0 <= j < i ==> players@[j].secret != s,
        decreases players@.len() - i,
    {
        if players[i].secret == s {
            return true;
        }
        i = i + 1;
    }
    false
}

/// The index of the player connected on `port`, if any.
fn find_port(players: &Vec<Player>, port: u16) -> (r: Option<usize>)
    ensures
        match r {
            Some(i) => i < players@.len() && players@[i as int].port == port,
            None => !port_used(players@, port),
        },
{
    let mut i: usize = 0;
    while i < players.len()
        invariant
            i <= players@.len(),
            forall|j: int| 0 <= j < i ==> players@[j].port != port,
        decreases players@.len() - i,
    {
        if players[i].port == port {
            return Some(i);
        }
        i = i + 1;
    }
    None
}

/// A secret no connected player holds.  Random draws are checked against
/// the live sessions; should randomness keep colliding, a deterministic
/// sweep of the values `0 ..= n` must find a free one, because `n` players
/// with pairwise distinct secrets can cover at most `n` of those `n + 1`
/// values.
pub fn fresh_secret(players: &Vec<Player>) -> (s: u128)
    requires
        secrets_unique(players@),
    ensures
        !secret_used(players@, s),
{
    let mut attempt: usize = 0;
    while attempt < 8
        invariant
            attempt <= 8,
        decreases 8 - attempt,
    {
        let s = rng::random_u128();
        if !secret_in_use(players, s) {
            return s;
        }
        attempt = attempt + 1;
    }
    let n = players.len();
    let mut c: u128 = 0;
    while c <= n as u128
        invariant
            n == players@.len(),
            c <= n as u128 + 1,
            forall|k: int| 0 <= k < c ==> #[trigger] secret_used(players@, k as u128),
        decreases (n as int) + 1 - (c as int),
    {
        if !secret_in_use(players, c) {
            return c;
        }
        c = c + 1;
    }
    proof {
        broadcast use vstd::seq_lib::seq_to_set_is_finite;

        let ps = players@;
        let secrets = Seq::new(ps.len(), |i: int| ps[i].secret as int);
        assert(secrets.no_duplicates()) by {
            assert forall|i: int, j: int|
                0 <= i < secrets.len() && 0 <= j < secrets.len() && i != j implies secrets[i]
                != secrets[j] by {
                if i < j {
                    assert(ps[i].secret != ps[j].secret);
                } else {
                    assert(ps[j].secret != ps[i].secret);
                }
            }
        }
        secrets.unique_seq_to_set();
        let range = vstd::set_lib::set_int_range(0, n as int + 1);
        vstd::set_lib::lemma_int_range(0, n as int + 1);
        assert forall|k: int| range.contains(k) implies secrets.to_set().contains(k) by {
            assert(secret_used(ps, k as u128));
            let i = choose|i: int| 0 <= i < ps.len() && ps[i].secret == k as u128;
            assert(secrets[i] == k);
            assert(secrets.contains(k));
        }
        assert(range.subset_of(secrets.to_set()));
        vstd::set_lib::lemma_len_subset(range, secrets.to_set());
        assert(false);
    }
    0
}

} // verus!

verus! {

/// How a connect request takes a player list `ps0` to `ps1`.
///
/// A claim that does not match the datagram's source port changes nothing.
/// A known port keeps its secret but gets its input reset and a fresh tank
/// at some spawn position; an unknown port appends one new player, holding
/// a secret no current player holds, at some spawn position.
pub open spec fn connect_rel(
    ps0: Seq<Player>,
    ps1: Seq<Player>,
    spawns: Seq<Spawn>,
    config: Config,
    source_port: u16,
    claimed_port: u16,
) -> bool {
    &&& (source_port != claimed_port ==> ps1 == ps0)
    &&& ((source_port == claimed_port && port_used(ps0, claimed_port)) ==> {
        &&& ps1.len() == ps0.len()
        &&& forall|i: int|
            #![auto]
            0 <= i < ps0.len() ==> {
                if ps0[i].port == claimed_port {
                    exists|pos: Vec2|
                        #![auto]
                        spawn_pos_ok(spawns, pos) && ps1[i] == (Player {
                            shoot: false,
                            tracks_acceleration_target: Vec2 { x: 0i64, y: 0i64 },
                            turret_acceleration_target: 0i64,
                            tank: Some(respawn_tank(ps0[i], pos)),
                            ..ps0[i]
                        })
                } else {
                    ps1[i] == ps0[i]
                }
            }
    })
    &&& ((source_port == claimed_port && !port_used(ps0, claimed_port)) ==> {
        &&& ps1.len() == ps0.len() + 1
        &&& ps1.subrange(0, ps0.len() as int) == ps0
        &&& !secret_used(ps0, ps1.last().secret)
        &&& exists|pos: Vec2|
            #![auto]
            spawn_pos_ok(spawns, pos) && ps1.last() == Player::spawned(
                claimed_port,
                ps1.last().secret,
                pos,
                config,
            )
    })
}

/// How an authenticated control message takes a player list `ps0` to `ps1`:
/// the inputs land, and the inactivity timer resets, exactly on the player
/// matching both the source-checked port and the stored secret; everything
/// else is untouched.
pub open spec fn control_rel(
    ps0: Seq<Player>,
    ps1: Seq<Player>,
    source_port: u16,
    claimed_port: u16,
    secret: u128,
    tracks_acceleration_target: Vec2,
    turret_acceleration_target: i64,
    shoot: bool,
) -> bool {
    &&& ps1.len() == ps0.len()
    &&& forall|i: int|
        #![auto]
        0 <= i < ps0.len() ==> {
            if source_port == claimed_port && ps0[i].port == claimed_port && ps0[i].secret
                == secret {
                ps1[i] == (Player {
                    tracks_acceleration_target,
                    turret_acceleration_target,
                    shoot,
                    timeout: 0u64,
                    ..ps0[i]
                })
            } else {
                ps1[i] == ps0[i]
            }
        }
}

/// Connect or re-connect the player claiming `claimed_port`.
///
/// A claim that does not match the datagram's source port is dropped
/// silently: an attacker cannot claim another player's port.  A known port
/// gets its input reset and a fresh tank at a spawn point, keeping its
/// secret; an unknown port gets a new player with a secret no current
/// player holds.
pub fn handle_connect(
    players: &mut Vec<Player>,
    spawns: &Vec<Spawn>,
    config: &Config,
    source_port: u16,
    claimed_port: u16,
)
    requires
        players_wf(old(players)@),
        spawns_wf(spawns@),
        config.wf(),
    ensures
        players_wf(final(players)@),
        connect_rel(old(players)@, final(players)@, spawns@, *config, source_port, claimed_port),
{
    if source_port != claimed_port {
        return ;
    }
    let position = pick_spawn(spawns);
    match find_port(players, claimed_port) {
        Some(i) => {
            let mut p = players[i];
            p.reset_input();
            p.tank = Some(
                Tank::new(position, p.tank_radius, p.track_max_velocity, p.turret_max_velocity),
            );
            players[i] = p;
            proof {
                assert(players@[i as int] == (Player {
                    shoot: false,
                    tracks_acceleration_target: Vec2 { x: 0i64, y: 0i64 },
                    turret_acceleration_target: 0i64,
                    tank: Some(respawn_tank(old(players)@[i as int], position)),
                    ..old(players)@[i as int]
                }));
                assert(forall|j: int|
                    0 <= j < players@.len() ==> players@[j].port == old(players)@[j].port
                        && players@[j].secret == old(players)@[j].secret);
                assert forall|j: int|
                    #![auto]
                    0 <= j < old(players)@.len() && old(players)@[j].port
                        == claimed_port implies j == i as int by {
                    if j != i as int {
                        assert(old(players)@[j].port != old(players)@[i as int].port);
                    }
                }
            }
        },
        None => {
            let secret = fresh_secret(players);
            let p = Player::spawn(claimed_port, secret, position, config);
            players.push(p);
            proof {
                assert(players@.subrange(0, old(players)@.len() as int) =~= old(players)@);
                assert forall|a: int, b: int|
                    0 <= a < b < players@.len() implies players@[a].port != players@[b].port
                    && players@[a].secret != players@[b].secret by {
                    if b < players@.len() - 1 {
                        assert(players@[a] == old(players)@[a]);
                        assert(players@[b] == old(players)@[b]);
                    } else {
                        assert(players@[a] == old(players)@[a]);
                        assert(!port_used(old(players)@, claimed_port));
                        assert(!secret_used(old(players)@, secret));
                    }
                }
            }
        },
    }
}

/// Apply an authenticated control message.
///
/// The inputs take effect, and the inactivity timer resets, exactly for the
/// player matching both the source-checked port and the stored secret;
/// everything else is untouched.  A mismatch is dropped silently, so a
/// sender cannot probe which ports are active.
pub fn handle_control(
    players: &mut Vec<Player>,
    source_port: u16,
    claimed_port: u16,
    secret: u128,
    tracks_acceleration_target: Vec2,
    turret_acceleration_target: i64,
    shoot: bool,
)
    requires
        players_wf(old(players)@),
    ensures
        players_wf(final(players)@),
        control_rel(
            old(players)@,
            final(players)@,
            source_port,
            claimed_port,
            secret,
            tracks_acceleration_target,
            turret_acceleration_target,
            shoot,
        ),
{
    if source_port != claimed_port {
        return ;
    }
    let mut i: usize = 0;
    while i < players.len()
        invariant
            players_wf(players@),
            players@.len() == old(players)@.len(),
            i <= players@.len(),
            source_port == claimed_port,
            forall|j: int|
                #![auto]
                0 <= j < i ==> !(old(players)@[j].port == claimed_port && old(players)@[j].secret
                    == secret),
            players@ == old(players)@,
        decreases players@.len() - i,
    {
        if players[i].port == claimed_port && players[i].secret == secret {
            let mut p = players[i];
            p.tracks_acceleration_target = tracks_acceleration_target;
            p.turret_acceleration_target = turret_acceleration_target;
            p.shoot = shoot;
            p.timeout = 0;
            players[i] = p;
            proof {
                assert(forall|j: int|
                    0 <= j < players@.len() ==> players@[j].port == old(players)@[j].port
                        && players@[j].secret == old(players)@[j].secret);
                assert forall|j: int|
                    #![auto]
                    0 <= j < old(players)@.len() && old(players)@[j].port == claimed_port && old(
                        players,
                    )@[j].secret == secret implies j == i as int by {
                    if j != i as int {
                        assert(old(players)@[j].port != old(players)@[i as int].port);
                    }
                }
            }
            return ;
        }
        i = i + 1;
    }
}

/// `p` with `dt` milliseconds more inactivity, saturating at the top.
pub open spec fn bump_timeout(p: Player, dt: u64) -> Player {
    Player {
        timeout: if p.timeout + dt > u64::MAX {
            u64::MAX
        } else {
            (p.timeout + dt) as u64
        },
        ..p
    }
}

/// The players that remain after `dt` milliseconds of inactivity are
/// charged: each timer grows by `dt`, and whoever exceeds `timeout` is
/// removed.  Order is kept.
pub open spec fn evict(ps: Seq<Player>, timeout: u64, dt: u64) -> Seq<Player>
    decreases ps.len(),
{
    if ps.len() == 0 {
        Seq::empty()
    } else {
        let rest = evict(ps.drop_last(), timeout, dt);
        let p = bump_timeout(ps.last(), dt);
        if p.timeout <= timeout {
            rest.push(p)
        } else {
            rest
        }
    }
}

/// Every survivor of eviction is one of the players that entered the
/// pass, with its timer bumped.
pub proof fn lemma_evict_origins(ps: Seq<Player>, timeout: u64, dt: u64)
    ensures
        forall|q: Player| #[trigger] evict(ps, timeout, dt).contains(q) ==> exists|i: int|
            0 <= i < ps.len() && q == bump_timeout(ps[i], dt),
    decreases ps.len(),
{
    if ps.len() > 0 {
        let dl = ps.drop_last();
        lemma_evict_origins(dl, timeout, dt);
        let ev = evict(ps, timeout, dt);
        let rest = evict(dl, timeout, dt);
        assert forall|q: Player| ev.contains(q) implies exists|i: int|
            0 <= i < ps.len() && q == bump_timeout(ps[i], dt) by {
            let a = choose|a: int| 0 <= a < ev.len() && ev[a] == q;
            if a < rest.len() {
                assert(rest[a] == q);
                assert(rest.contains(q));
                let i = choose|i: int| 0 <= i < dl.len() && q == bump_timeout(dl[i], dt);
                assert(dl[i] == ps[i]);
                assert(q == bump_timeout(ps[i], dt));
            } else {
                assert(q == bump_timeout(ps[ps.len() - 1], dt));
            }
        }
    }
}

/// Eviction keeps the session invariants.
pub proof fn lemma_evict_wf(ps: Seq<Player>, timeout: u64, dt: u64)
    requires
        players_wf(ps),
    ensures
        players_wf(evict(ps, timeout, dt)),
    decreases ps.len(),
{
    if ps.len() > 0 {
        let dl = ps.drop_last();
        assert(players_wf(dl)) by {
            assert(forall|i: int| 0 <= i < dl.len() ==> dl[i] == ps[i]);
        }
        lemma_evict_wf(dl, timeout, dt);
        lemma_evict_origins(dl, timeout, dt);
        let rest = evict(dl, timeout, dt);
        let p = bump_timeout(ps.last(), dt);
        if p.timeout <= timeout {
            let ev = rest.push(p);
            assert(p.wf());
            assert forall|a: int, b: int|
                0 <= a < b < ev.len() implies ev[a].port != ev[b].port && ev[a].secret
                != ev[b].secret by {
                if b == ev.len() - 1 {
                    assert(rest.contains(rest[a]));
                    let i = choose|i: int| 0 <= i < dl.len() && rest[a] == bump_timeout(dl[i], dt);
                    assert(ps[i].port != ps[ps.len() - 1].port);
                    assert(ps[i].secret != ps[ps.len() - 1].secret);
                }
            }
        }
    }
}

/// Inactivity eviction is exact: a player whose charged timer stays within
/// the timeout survives; one whose timer passes it is removed, and with it
/// its port, so nothing is broadcast to that port afterward.
pub proof fn lemma_eviction_exact(ps: Seq<Player>, timeout: u64, dt: u64)
    requires
        ports_unique(ps),
    ensures
        forall|i: int|
            0 <= i < ps.len() && bump_timeout(ps[i], dt).timeout <= timeout ==> evict(
                ps,
                timeout,
                dt,
            ).contains(#[trigger] bump_timeout(ps[i], dt)),
        forall|i: int|
            #![auto]
            0 <= i < ps.len() && bump_timeout(ps[i], dt).timeout > timeout ==> !port_used(
                evict(ps, timeout, dt),
                ps[i].port,
            ),
    decreases ps.len(),
{
    if ps.len() > 0 {
        let dl = ps.drop_last();
        assert(ports_unique(dl)) by {
            assert(forall|i: int| 0 <= i < dl.len() ==> dl[i] == ps[i]);
        }
        lemma_eviction_exact(dl, timeout, dt);
        lemma_evict_origins(dl, timeout, dt);
        let rest = evict(dl, timeout, dt);
        let ev = evict(ps, timeout, dt);
        let last = bump_timeout(ps.last(), dt);
        assert forall|i: int|
            0 <= i < ps.len() && bump_timeout(ps[i], dt).timeout <= timeout implies ev.contains(
            #[trigger] bump_timeout(ps[i], dt)) by {
            if i < ps.len() - 1 {
                assert(dl[i] == ps[i]);
                assert(rest.contains(bump_timeout(ps[i], dt)));
                let a = choose|a: int| 0 <= a < rest.len() && rest[a] == bump_timeout(ps[i], dt);
                if last.timeout <= timeout {
                    assert(ev[a] == bump_timeout(ps[i], dt));
                } else {
                    assert(ev[a] == bump_timeout(ps[i], dt));
                }
            } else {
                assert(ev[ev.len() - 1] == bump_timeout(ps[i], dt));
            }
        }
        assert forall|i: int|
            #![auto]
            0 <= i < ps.len() && bump_timeout(ps[i], dt).timeout > timeout implies !port_used(
            ev,
            ps[i].port,
        ) by {
            if i < ps.len() - 1 {
                assert(dl[i] == ps[i]);
                assert(!port_used(rest, ps[i].port));
                if last.timeout <= timeout {
                    assert forall|a: int| 0 <= a < ev.len() implies ev[a].port != ps[i].port by {
                        if a < rest.len() {
                            assert(rest[a].port != ps[i].port) by {
                                assert(port_used(rest, rest[a].port));
                            }
                        } else {
                            assert(ev[a] == last);
                            assert(ps[i].port != ps[ps.len() - 1].port);
                        }
                    }
                } else {
                    assert forall|a: int| 0 <= a < ev.len() implies ev[a].port != ps[i].port by {
                        assert(port_used(rest, ev[a].port));
                    }
                }
            } else {
                // the last player timed out: ev == rest, whose ports all come
                // from dl, and dl never holds the last player's port
                assert forall|a: int| 0 <= a < ev.len() implies ev[a].port != ps[i].port by {
                    assert(ev.contains(ev[a]));
                    let k = choose|k: int| 0 <= k < dl.len() && ev[a] == bump_timeout(dl[k], dt);
                    assert(ps[k].port != ps[ps.len() - 1].port);
                }
            }
        }
    }
}

/// Charge every player `dt` milliseconds of inactivity and remove whoever
/// exceeds the configured timeout.  No notification is sent: an evicted
/// peer learns of its fate by no longer receiving state.
pub fn player_disconnect(players: &mut Vec<Player>, config: &Config, dt: u64)
    requires
        players_wf(old(players)@),
    ensures
        players_wf(final(players)@),
        final(players)@ == evict(old(players)@, config.inactivity_timeout, dt),
{
    let mut out: Vec<Player> = Vec::new();
    let mut i: usize = 0;
    while i < players.len()
        invariant
            i <= players@.len(),
            players@ == old(players)@,
            out@ == evict(players@.subrange(0, i as int), config.inactivity_timeout, dt),
        decreases players@.len() - i,
    {
        let mut p = players[i];
        p.timeout = if p.timeout > u64::MAX - dt {
            u64::MAX
        } else {
            p.timeout + dt
        };
        proof {
            assert(p == bump_timeout(players@[i as int], dt));
            assert(players@.subrange(0, i + 1).drop_last() =~= players@.subrange(0, i as int));
        }
        if p.timeout <= config.inactivity_timeout {
            out.push(p);
        }
        i = i + 1;
    }
    proof {
        assert(players@.subrange(0, players@.len() as int) =~= players@);
        lemma_evict_wf(players@, config.inactivity_timeout, dt);
    }
    *players = out;
}

} // verus!

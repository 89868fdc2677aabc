//! The player list.
use crate::errors::Error;
use crate::wire::{cstr_bytes, cstr_next, cstr_terminated, le32, le_i32, lemma_cstr_len_exact, no_zero, text_of, Cursor};
use vstd::prelude::*;

verus! {

pub const PLAYER_REQUEST: [u8; 5] = [0xff, 0xff, 0xff, 0xff, 0x55];

/// The type tag of a players response.
pub const PLAYERS_TAG: u8 = 0x44;

/// The application id of The Ship, whose player entries carry two more fields.
pub const THE_SHIP_APP_ID: u16 = 2400;

/// The extra player fields of The Ship.
#[derive(Debug, Clone, Copy, PartialEq, Eq, Structural)]
pub struct TheShipPlayer {
    pub deaths: u32,
    pub money: u32,
}

/// One connected player.
#[derive(Debug, Clone)]
pub struct Player {
    /// Index of player chunk starting from 0.
    pub index: u8,
    /// Name of the player.
    pub name: String,
    /// Player's score (usually "frags" or "kills").
    pub score: i32,
    /// Time in seconds the player has been connected, as the bits of an
    /// IEEE-754 single-precision number.
    pub duration_bits: u32,
    /// The Ship's extra fields, present only when querying The Ship.
    pub the_ship: Option<TheShipPlayer>,
}

/// A player as its index, name, score, duration bits and The Ship's fields.
pub type PlayerView = (u8, Seq<char>, i32, u32, Option<(u32, u32)>);

pub open spec fn player_view(p: Player) -> PlayerView {
    (
        p.index,
        p.name@,
        p.score,
        p.duration_bits,
        match p.the_ship {
            Some(t) => Some((t.deaths, t.money)),
            None => None,
        },
    )
}

pub open spec fn players_view(ps: Seq<Player>) -> Seq<PlayerView> {
    ps.map_values(|p: Player| player_view(p))
}

/// The position of the score of the entry at `q`.
pub open spec fn score_pos(s: Seq<u8>, q: int) -> int {
    cstr_next(s, q + 1)
}

/// The length of the fixed fields after the name of an entry.
pub open spec fn fixed_len(ship: bool) -> int {
    if ship { 16 } else { 8 }
}

/// The entry at `q` is whole: its name ends with a zero byte and its fixed
/// fields follow in full.
pub open spec fn player_fits(s: Seq<u8>, q: int, ship: bool) -> bool {
    q + 1 <= s.len() && cstr_terminated(s, q + 1) && score_pos(s, q) + fixed_len(ship) <= s.len()
}

pub open spec fn player_end(s: Seq<u8>, q: int, ship: bool) -> int {
    score_pos(s, q) + fixed_len(ship)
}

/// The entry at `q`: index byte, name string, 32-bit score, 32-bit duration,
/// and with `ship` the deaths and money.
pub open spec fn player_at(s: Seq<u8>, q: int, ship: bool) -> PlayerView {
    let c = score_pos(s, q);
    (
        s[q],
        text_of(cstr_bytes(s, q + 1)),
        le_i32(s, c),
        le32(s, c + 4) as u32,
        if ship { Some((le32(s, c + 8) as u32, le32(s, c + 12) as u32)) } else { None },
    )
}

/// The position after `n` whole entries from `p`, or `None` where one is cut short.
pub open spec fn players_end(s: Seq<u8>, p: int, n: nat, ship: bool) -> Option<int>
    decreases n,
{
    if n == 0 {
        Some(p)
    } else {
        match players_end(s, p, (n - 1) as nat, ship) {
            None => None,
            Some(q) => if player_fits(s, q, ship) {
                Some(player_end(s, q, ship))
            } else {
                None
            },
        }
    }
}

/// The `n` entries from `p`, where all are whole.
pub open spec fn players_at(s: Seq<u8>, p: int, n: nat, ship: bool) -> Seq<PlayerView>
    decreases n,
{
    if n == 0 {
        Seq::empty()
    } else {
        let q = players_end(s, p, (n - 1) as nat, ship).unwrap();
        players_at(s, p, (n - 1) as nat, ship).push(player_at(s, q, ship))
    }
}

/// The player list that a players response `s` read from `p` holds for
/// application `app_id`: a tag byte, a count byte and the entries; `None`
/// where the tag is wrong or the bytes are cut short.
pub open spec fn decode_players(s: Seq<u8>, p: int, app_id: u16) -> Option<Seq<PlayerView>> {
    let ship = app_id == THE_SHIP_APP_ID;
    if p < 0 || p + 2 > s.len() || s[p] != PLAYERS_TAG {
        None
    } else if players_end(s, p + 2, s[p + 1] as nat, ship) is None {
        None
    } else {
        Some(players_at(s, p + 2, s[p + 1] as nat, ship))
    }
}

proof fn lemma_players_end_none(s: Seq<u8>, p: int, i: nat, n: nat, ship: bool)
    requires
        i <= n,
        players_end(s, p, i, ship) is None,
    ensures
        players_end(s, p, n, ship) is None,
    decreases n - i,
{
    if i < n {
        lemma_players_end_none(s, p, i + 1, n, ship);
        assert(players_end(s, p, (i + 1) as nat, ship) is None);
    }
}

proof fn lemma_cut_short(s: Seq<u8>, p: int, i: nat, n: nat, ship: bool, q: int)
    requires
        i < n,
        players_end(s, p, i, ship) == Some(q),
        !player_fits(s, q, ship),
    ensures
        players_end(s, p, n, ship) is None,
{
    assert(players_end(s, p, i + 1, ship) is None);
    lemma_players_end_none(s, p, i + 1, n, ship);
}

proof fn lemma_players_at_ship(s: Seq<u8>, p: int, n: nat, ship: bool)
    ensures
        players_at(s, p, n, ship).len() == n,
        forall|i: int| 0 <= i < n ==> ((#[trigger] players_at(s, p, n, ship)[i]).4 is Some <==> ship),
    decreases n,
{
    if n > 0 {
        lemma_players_at_ship(s, p, (n - 1) as nat, ship);
        let prev = players_at(s, p, (n - 1) as nat, ship);
        assert forall|i: int| 0 <= i < n implies ((#[trigger] players_at(s, p, n, ship)[i]).4 is Some <==> ship) by {
            if i < n - 1 {
                assert(players_at(s, p, n, ship)[i] == prev[i]);
            }
        }
    }
}

/// Every entry of a decoded player list carries The Ship's fields when the
/// application id is The Ship's, and none does for any other id.
pub proof fn lemma_the_ship_presence(s: Seq<u8>, p: int, app_id: u16)
    requires
        decode_players(s, p, app_id) is Some,
    ensures
        forall|i: int|
            0 <= i < decode_players(s, p, app_id).unwrap().len() ==> ((#[trigger] decode_players(
                s,
                p,
                app_id,
            ).unwrap()[i]).4 is Some <==> app_id == THE_SHIP_APP_ID),
{
    lemma_players_at_ship(s, p + 2, s[p + 1] as nat, app_id == THE_SHIP_APP_ID);
}

/// The four little-endian bytes of `v`.
pub open spec fn u32_le_bytes(v: u32) -> Seq<u8> {
    seq![(v % 256) as u8, ((v / 256) % 256) as u8, ((v / 65536) % 256) as u8, (v / 16777216) as u8]
}

/// A player entry to encode: index, name bytes, score, duration bits, and
/// The Ship's deaths and money.
pub type PlayerEntry = (u8, Seq<u8>, i32, u32, u32, u32);

/// The wire form of an entry, with The Ship's two fields or without them.
pub open spec fn entry_bytes(e: PlayerEntry, ship: bool) -> Seq<u8> {
    seq![e.0] + e.1 + seq![0u8] + u32_le_bytes(e.2 as u32) + u32_le_bytes(e.3) + if ship {
        u32_le_bytes(e.4) + u32_le_bytes(e.5)
    } else {
        Seq::empty()
    }
}

pub open spec fn entries_bytes(es: Seq<PlayerEntry>, ship: bool) -> Seq<u8>
    decreases es.len(),
{
    if es.len() == 0 {
        Seq::empty()
    } else {
        entries_bytes(es.drop_last(), ship) + entry_bytes(es.last(), ship)
    }
}

/// A players response holding the entries `es`.
pub open spec fn players_response(es: Seq<PlayerEntry>, ship: bool) -> Seq<u8> {
    seq![PLAYERS_TAG, es.len() as u8] + entries_bytes(es, ship)
}

/// What decoding gives of an entry.
pub open spec fn entry_view(e: PlayerEntry, ship: bool) -> PlayerView {
    (e.0, text_of(e.1), e.2, e.3, if ship { Some((e.4, e.5)) } else { None })
}

proof fn lemma_u32_bytes(s: Seq<u8>, i: int, v: u32)
    requires
        0 <= i,
        i + 4 <= s.len(),
        s.subrange(i, i + 4) == u32_le_bytes(v),
    ensures
        le32(s, i) == v,
{
    assert(s[i] == s.subrange(i, i + 4)[0]);
    assert(s[i + 1] == s.subrange(i, i + 4)[1]);
    assert(s[i + 2] == s.subrange(i, i + 4)[2]);
    assert(s[i + 3] == s.subrange(i, i + 4)[3]);
    let x = v as int;
    assert(x % 256 + 256 * ((x / 256) % 256) + 65536 * ((x / 65536) % 256) + 16777216 * (x / 16777216) == x)
        by (nonlinear_arith)
        requires
            0 <= x < 4294967296,
    {
    }
}

proof fn lemma_i32_round(x: i32)
    ensures
        x as u32 as i32 == x,
{
    assert(x as u32 as i32 == x) by (bit_vector);
}

proof fn lemma_entries_prefix(es: Seq<PlayerEntry>, j: int, ship: bool)
    requires
        0 <= j <= es.len(),
    ensures
        entries_bytes(es.take(j), ship).len() <= entries_bytes(es, ship).len(),
        entries_bytes(es.take(j), ship) == entries_bytes(es, ship).subrange(
            0,
            entries_bytes(es.take(j), ship).len() as int,
        ),
    decreases es.len() - j,
{
    if j < es.len() {
        lemma_entries_prefix(es, j + 1, ship);
        assert(es.take(j + 1).drop_last() =~= es.take(j));
        let a = entries_bytes(es.take(j), ship);
        let b = entries_bytes(es.take(j + 1), ship);
        assert(a =~= b.subrange(0, a.len() as int));
        assert(a =~= entries_bytes(es, ship).subrange(0, a.len() as int));
    } else {
        assert(es.take(j) =~= es);
        assert(entries_bytes(es, ship) =~= entries_bytes(es, ship).subrange(0, entries_bytes(es, ship).len() as int));
    }
}

#[verifier::rlimit(40)]
proof fn lemma_entry_read(s: Seq<u8>, q: int, e: PlayerEntry, ship: bool)
    requires
        0 <= q,
        q + entry_bytes(e, ship).len() <= s.len(),
        no_zero(e.1),
        forall|k: int| 0 <= k < entry_bytes(e, ship).len() ==> s[q + k] == #[trigger] entry_bytes(e, ship)[k],
    ensures
        player_fits(s, q, ship),
        player_end(s, q, ship) == q + entry_bytes(e, ship).len(),
        player_at(s, q, ship) == entry_view(e, ship),
{
    let eb = entry_bytes(e, ship);
    let m = e.1.len() as int;
    assert forall|k: int| q + 1 <= k < q + 1 + m implies s[k] != 0 by {
        assert(s[q + (k - q)] == eb[k - q]);
    }
    assert(s[q + 1 + m] == 0) by {
        assert(s[q + (1 + m)] == eb[1 + m]);
    }
    lemma_cstr_len_exact(s, q + 1, m);
    let c = q + 1 + m + 1;
    assert(score_pos(s, q) == c);
    assert(cstr_bytes(s, q + 1) =~= e.1) by {
        assert forall|k: int| 0 <= k < m implies cstr_bytes(s, q + 1)[k] == e.1[k] by {
            assert(s[q + (1 + k)] == eb[1 + k]);
        }
    }
    assert(s[q] == e.0) by {
        assert(s[q + 0] == eb[0]);
    }
    assert(s.subrange(c, c + 4) =~= u32_le_bytes(e.2 as u32)) by {
        assert forall|k: int| 0 <= k < 4 implies #[trigger] s.subrange(c, c + 4)[k] == u32_le_bytes(e.2 as u32)[k] by {
            assert(s[q + (m + 2 + k)] == eb[m + 2 + k]);
        }
    }
    lemma_u32_bytes(s, c, e.2 as u32);
    lemma_i32_round(e.2);
    assert(s.subrange(c + 4, c + 8) =~= u32_le_bytes(e.3)) by {
        assert forall|k: int| 0 <= k < 4 implies #[trigger] s.subrange(c + 4, c + 8)[k] == u32_le_bytes(e.3)[k] by {
            assert(s[q + (m + 6 + k)] == eb[m + 6 + k]);
        }
    }
    lemma_u32_bytes(s, c + 4, e.3);
    if ship {
        assert(s.subrange(c + 8, c + 12) =~= u32_le_bytes(e.4)) by {
            assert forall|k: int| 0 <= k < 4 implies #[trigger] s.subrange(c + 8, c + 12)[k] == u32_le_bytes(e.4)[k] by {
                assert(s[q + (m + 10 + k)] == eb[m + 10 + k]);
            }
        }
        lemma_u32_bytes(s, c + 8, e.4);
        assert(s.subrange(c + 12, c + 16) =~= u32_le_bytes(e.5)) by {
            assert forall|k: int| 0 <= k < 4 implies #[trigger] s.subrange(c + 12, c + 16)[k] == u32_le_bytes(e.5)[k] by {
                assert(s[q + (m + 14 + k)] == eb[m + 14 + k]);
            }
        }
        lemma_u32_bytes(s, c + 12, e.5);
    }
}

#[verifier::rlimit(40)]
proof fn lemma_entries_read(s: Seq<u8>, p: int, es: Seq<PlayerEntry>, i: int, ship: bool)
    requires
        0 <= p,
        0 <= i <= es.len(),
        forall|k: int| 0 <= k < es.len() ==> no_zero(#[trigger] es[k].1),
        p + entries_bytes(es, ship).len() <= s.len(),
        s.subrange(p, p + entries_bytes(es, ship).len() as int) == entries_bytes(es, ship),
    ensures
        players_end(s, p, i as nat, ship) == Some(p + entries_bytes(es.take(i), ship).len()),
        players_at(s, p, i as nat, ship) == es.take(i).map_values(|e: PlayerEntry| entry_view(e, ship)),
    decreases i,
{
    if i > 0 {
        let j = i - 1;
        lemma_entries_read(s, p, es, j, ship);
        let a = entries_bytes(es.take(j), ship);
        let q = p + a.len();
        let e = es[j];
        assert(es.take(i).drop_last() =~= es.take(j));
        let b = entries_bytes(es.take(i), ship);
        assert(b == a + entry_bytes(e, ship));
        lemma_entries_prefix(es, i, ship);
        let all = entries_bytes(es, ship);
        let eb = entry_bytes(e, ship);
        assert forall|k: int| 0 <= k < eb.len() implies s[q + k] == eb[k] by {
            assert(all[a.len() + k] == b[a.len() + k]);
            assert(s.subrange(p, p + all.len() as int)[a.len() + k] == all[a.len() + k]);
        }
        assert(no_zero(e.1));
        lemma_entry_read(s, q, e, ship);
        assert(player_at(s, q, ship) == entry_view(e, ship));
        assert(es.take(i).map_values(|e: PlayerEntry| entry_view(e, ship)) =~= es.take(j).map_values(
            |e: PlayerEntry| entry_view(e, ship),
        ).push(entry_view(e, ship)));
    }
}

/// The same entries, sent with The Ship's two trailing fields and decoded
/// with The Ship's application id, or sent without them and decoded with any
/// other id, give the same index, name, score and duration of each entry; the
/// first carries The Ship's fields on every entry, the second on none.
pub proof fn lemma_the_ship_fields(es: Seq<PlayerEntry>, other_app_id: u16)
    requires
        es.len() < 256,
        other_app_id != THE_SHIP_APP_ID,
        forall|k: int| 0 <= k < es.len() ==> no_zero(#[trigger] es[k].1),
    ensures
        decode_players(players_response(es, true), 0, THE_SHIP_APP_ID) == Some(
            es.map_values(|e: PlayerEntry| entry_view(e, true)),
        ),
        decode_players(players_response(es, false), 0, other_app_id) == Some(
            es.map_values(|e: PlayerEntry| entry_view(e, false)),
        ),
{
    let n = es.len() as int;
    let s1 = players_response(es, true);
    assert(s1.subrange(2, 2 + entries_bytes(es, true).len() as int) =~= entries_bytes(es, true));
    lemma_entries_read(s1, 2, es, n, true);
    let s2 = players_response(es, false);
    assert(s2.subrange(2, 2 + entries_bytes(es, false).len() as int) =~= entries_bytes(es, false));
    lemma_entries_read(s2, 2, es, n, false);
    assert(es.take(n) =~= es);
}

impl Player {
    /// Decodes a players response read from the cursor's position; entries
    /// carry The Ship's fields exactly when `app_id` is The Ship's.
    pub fn from_cursor(data: Cursor, app_id: u16) -> (r: Result<Vec<Self>, Error>)
        ensures
            match decode_players(data.data@, data.pos as int, app_id) {
                None => r == Err::<Vec<Player>, Error>(Error::InvalidResponse),
                Some(v) => r matches Ok(ps) && players_view(ps@) == v,
            },
            r matches Ok(ps) ==> forall|i: int|
                0 <= i < ps@.len() ==> (#[trigger] ps@[i].the_ship is Some <==> app_id == THE_SHIP_APP_ID),
    {
        let mut cur = data;
        let ghost s = data.data@;
        let ghost p = data.pos as int;
        let ship = app_id == THE_SHIP_APP_ID;
        let tag = match cur.read_u8() {
            Ok(t) => t,
            Err(e) => return Err(e),
        };
        if tag != PLAYERS_TAG {
            return Err(Error::InvalidResponse);
        }
        let count = match cur.read_u8() {
            Ok(c) => c,
            Err(e) => return Err(e),
        };
        let mut players: Vec<Player> = Vec::new();
        let mut i: u8 = 0;
        while i < count
            invariant
                cur.data@ == s,
                s == data.data@,
                p == data.pos as int,
                0 <= p,
                p + 2 <= s.len(),
                count == s[p + 1],
                s[p] == PLAYERS_TAG,
                ship == (app_id == THE_SHIP_APP_ID),
                i <= count,
                players_end(s, p + 2, i as nat, ship) == Some(cur.pos as int),
                cur.pos <= s.len(),
                players_view(players@) == players_at(s, p + 2, i as nat, ship),
                forall|k: int|
                    0 <= k < players@.len() ==> (#[trigger] players@[k].the_ship is Some <==> ship),
            decreases count - i,
        {
            let ghost q = cur.pos as int;
            let index = match cur.read_u8() {
                Ok(v) => v,
                Err(e) => {
                    proof {
                        lemma_cut_short(s, p + 2, i as nat, count as nat, ship, q);
                    }
                    return Err(e);
                },
            };
            if !cur.has_cstring() {
                proof {
                    lemma_cut_short(s, p + 2, i as nat, count as nat, ship, q);
                }
                return Err(Error::InvalidResponse);
            }
            let name = cur.read_cstring();
            let score = match cur.read_i32() {
                Ok(v) => v,
                Err(e) => {
                    proof {
                        lemma_cut_short(s, p + 2, i as nat, count as nat, ship, q);
                    }
                    return Err(e);
                },
            };
            let duration_bits = match cur.read_u32() {
                Ok(v) => v,
                Err(e) => {
                    proof {
                        lemma_cut_short(s, p + 2, i as nat, count as nat, ship, q);
                    }
                    return Err(e);
                },
            };
            let the_ship = if ship {
                let deaths = match cur.read_u32() {
                    Ok(v) => v,
                    Err(e) => {
                        proof {
                            lemma_cut_short(s, p + 2, i as nat, count as nat, ship, q);
                        }
                        return Err(e);
                    },
                };
                let money = match cur.read_u32() {
                    Ok(v) => v,
                    Err(e) => {
                        proof {
                            lemma_cut_short(s, p + 2, i as nat, count as nat, ship, q);
                        }
                        return Err(e);
                    },
                };
                Some(TheShipPlayer { deaths, money })
            } else {
                None
            };
            let player = Player { index, name, score, duration_bits, the_ship };
            players.push(player);
            i = i + 1;
            proof {
                assert(players_view(players@) =~= players_at(s, p + 2, i as nat, ship));
            }
        }
        Ok(players)
    }
}

} // verus!

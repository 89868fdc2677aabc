//! The server information record.
use crate::errors::Error;
use crate::players::THE_SHIP_APP_ID;
use crate::wire::{cstr_bytes, cstr_next, cstr_terminated, le16, le64, text_of, Cursor};
use vstd::prelude::*;

verus! {

/// The info request: the header, the query type and its fixed text.
pub const INFO_REQUEST: [u8; 25] = [
    0xFF, 0xFF, 0xFF, 0xFF, 0x54, 0x53, 0x6F, 0x75, 0x72, 0x63, 0x65, 0x20, 0x45, 0x6E, 0x67, 0x69,
    0x6E, 0x65, 0x20, 0x51, 0x75, 0x65, 0x72, 0x79, 0x00,
];

/// The type tag of an info response.
pub const INFO_TAG: u8 = 0x49;

pub const EDF_PORT: u8 = 0x80;
pub const EDF_STEAM_ID: u8 = 0x10;
pub const EDF_SOURCE_TV: u8 = 0x40;
pub const EDF_KEYWORDS: u8 = 0x20;
pub const EDF_GAME_ID: u8 = 0x01;

/// The Ship's game mode fields.
#[derive(Debug, Clone, Copy, PartialEq, Eq, Structural)]
pub struct TheShip {
    pub mode: u8,
    pub witnesses: u8,
    pub duration: u8,
}

/// The spectator relay of a server.
#[derive(Debug, Clone)]
pub struct SourceTVInfo {
    pub port: u16,
    pub name: String,
}

/// The fields of the extended-info trailer that its flag byte announces.
#[derive(Debug, Clone)]
pub struct ExtendedServerInfo {
    pub port: Option<u16>,
    pub steam_id: Option<u64>,
    pub keywords: Option<String>,
    pub game_id: Option<u64>,
}

/// What a server reports of itself.
#[derive(Debug, Clone)]
pub struct Info {
    pub protocol: u8,
    pub name: String,
    pub map: String,
    pub folder: String,
    pub game: String,
    pub app_id: u16,
    pub players: u8,
    pub max_players: u8,
    pub bots: u8,
    /// `d` dedicated, `l` listen, `p` relay.
    pub server_type: u8,
    /// `l` Linux, `w` Windows, `m` or `o` macOS.
    pub server_os: u8,
    pub visibility: bool,
    pub vac: bool,
    pub the_ship: Option<TheShip>,
    pub version: String,
    /// The flag byte of the extended-info trailer; zero where there is none.
    pub edf: u8,
    pub extended_server_info: ExtendedServerInfo,
    pub source_tv: Option<SourceTVInfo>,
}

/// An info record with its texts as character sequences.
pub struct InfoView {
    pub protocol: u8,
    pub name: Seq<char>,
    pub map: Seq<char>,
    pub folder: Seq<char>,
    pub game: Seq<char>,
    pub app_id: u16,
    pub players: u8,
    pub max_players: u8,
    pub bots: u8,
    pub server_type: u8,
    pub server_os: u8,
    pub visibility: bool,
    pub vac: bool,
    pub the_ship: Option<(u8, u8, u8)>,
    pub version: Seq<char>,
    pub edf: u8,
    pub port: Option<u16>,
    pub steam_id: Option<u64>,
    pub source_tv: Option<(u16, Seq<char>)>,
    pub keywords: Option<Seq<char>>,
    pub game_id: Option<u64>,
}

impl Info {
    pub open spec fn view(&self) -> InfoView {
        InfoView {
            protocol: self.protocol,
            name: self.name@,
            map: self.map@,
            folder: self.folder@,
            game: self.game@,
            app_id: self.app_id,
            players: self.players,
            max_players: self.max_players,
            bots: self.bots,
            server_type: self.server_type,
            server_os: self.server_os,
            visibility: self.visibility,
            vac: self.vac,
            the_ship: match self.the_ship {
                Some(t) => Some((t.mode, t.witnesses, t.duration)),
                None => None,
            },
            version: self.version@,
            edf: self.edf,
            port: self.extended_server_info.port,
            steam_id: self.extended_server_info.steam_id,
            source_tv: match self.source_tv {
                Some(t) => Some((t.port, t.name@)),
                None => None,
            },
            keywords: match self.extended_server_info.keywords {
                Some(k) => Some(k@),
                None => None,
            },
            game_id: self.extended_server_info.game_id,
        }
    }
}

/// The positions of the strings of an info response read from `p`: the map,
/// the folder, the game, and the application id after them.
pub open spec fn map_pos(s: Seq<u8>, p: int) -> int {
    cstr_next(s, p + 2)
}

pub open spec fn folder_pos(s: Seq<u8>, p: int) -> int {
    cstr_next(s, map_pos(s, p))
}

pub open spec fn game_pos(s: Seq<u8>, p: int) -> int {
    cstr_next(s, folder_pos(s, p))
}

pub open spec fn app_pos(s: Seq<u8>, p: int) -> int {
    cstr_next(s, game_pos(s, p))
}

/// Whether the record read from `p` is The Ship's.
pub open spec fn head_ship(s: Seq<u8>, p: int) -> bool {
    le16(s, app_pos(s, p)) as u16 == THE_SHIP_APP_ID
}

/// The position of the version string.
pub open spec fn version_pos(s: Seq<u8>, p: int) -> int {
    app_pos(s, p) + if head_ship(s, p) { 12int } else { 9int }
}

/// The position after the version string.
pub open spec fn head_end(s: Seq<u8>, p: int) -> int {
    cstr_next(s, version_pos(s, p))
}

/// The tag is right, every string before the trailer ends with its zero byte
/// and no fixed field is cut short.
pub open spec fn head_ok(s: Seq<u8>, p: int) -> bool {
    &&& 0 <= p
    &&& p + 2 <= s.len()
    &&& s[p] == INFO_TAG
    &&& cstr_terminated(s, p + 2)
    &&& cstr_terminated(s, map_pos(s, p))
    &&& cstr_terminated(s, folder_pos(s, p))
    &&& cstr_terminated(s, game_pos(s, p))
    &&& app_pos(s, p) + 9 <= s.len()
    &&& head_ship(s, p) ==> app_pos(s, p) + 12 <= s.len()
    &&& cstr_terminated(s, version_pos(s, p))
}

/// The record up to the version string, with no trailer.
pub open spec fn head_view(s: Seq<u8>, p: int) -> InfoView {
    let q = app_pos(s, p);
    InfoView {
        protocol: s[p + 1],
        name: text_of(cstr_bytes(s, p + 2)),
        map: text_of(cstr_bytes(s, map_pos(s, p))),
        folder: text_of(cstr_bytes(s, folder_pos(s, p))),
        game: text_of(cstr_bytes(s, game_pos(s, p))),
        app_id: le16(s, q) as u16,
        players: s[q + 2],
        max_players: s[q + 3],
        bots: s[q + 4],
        server_type: s[q + 5],
        server_os: s[q + 6],
        visibility: s[q + 7] != 0,
        vac: s[q + 8] != 0,
        the_ship: if head_ship(s, p) {
            Some((s[q + 9], s[q + 10], s[q + 11]))
        } else {
            None
        },
        version: text_of(cstr_bytes(s, version_pos(s, p))),
        edf: 0,
        port: None,
        steam_id: None,
        source_tv: None,
        keywords: None,
        game_id: None,
    }
}

/// The flag byte of the trailer at `q`; zero where no byte remains.
pub open spec fn trailer_edf(s: Seq<u8>, q: int) -> u8 {
    if q < s.len() { s[q] } else { 0 }
}

/// The positions of the fields of the trailer at `q`.
pub open spec fn port_pos(s: Seq<u8>, q: int) -> int {
    if q < s.len() { q + 1 } else { q }
}

pub open spec fn steam_pos(s: Seq<u8>, q: int) -> int {
    port_pos(s, q) + if trailer_edf(s, q) & EDF_PORT != 0 { 2int } else { 0int }
}

pub open spec fn tv_pos(s: Seq<u8>, q: int) -> int {
    steam_pos(s, q) + if trailer_edf(s, q) & EDF_STEAM_ID != 0 { 8int } else { 0int }
}

pub open spec fn keywords_pos(s: Seq<u8>, q: int) -> int {
    if trailer_edf(s, q) & EDF_SOURCE_TV != 0 { cstr_next(s, tv_pos(s, q) + 2) } else { tv_pos(s, q) }
}

pub open spec fn game_id_pos(s: Seq<u8>, q: int) -> int {
    if trailer_edf(s, q) & EDF_KEYWORDS != 0 { cstr_next(s, keywords_pos(s, q)) } else { keywords_pos(s, q) }
}

/// No field that the flag byte of the trailer at `q` announces is cut short,
/// and each announced string ends with its zero byte.
pub open spec fn trailer_ok(s: Seq<u8>, q: int) -> bool {
    let edf = trailer_edf(s, q);
    &&& steam_pos(s, q) <= s.len()
    &&& tv_pos(s, q) <= s.len()
    &&& edf & EDF_SOURCE_TV != 0 ==> tv_pos(s, q) + 2 <= s.len() && cstr_terminated(s, tv_pos(s, q) + 2)
    &&& edf & EDF_KEYWORDS != 0 ==> cstr_terminated(s, keywords_pos(s, q))
    &&& edf & EDF_GAME_ID != 0 ==> game_id_pos(s, q) + 8 <= s.len()
}

/// `v` with the trailer at `q` read into it.
pub open spec fn with_trailer(v: InfoView, s: Seq<u8>, q: int) -> InfoView {
    let edf = trailer_edf(s, q);
    InfoView {
        edf,
        port: if edf & EDF_PORT != 0 { Some(le16(s, port_pos(s, q)) as u16) } else { None },
        steam_id: if edf & EDF_STEAM_ID != 0 { Some(le64(s, steam_pos(s, q)) as u64) } else { None },
        source_tv: if edf & EDF_SOURCE_TV != 0 {
            Some((le16(s, tv_pos(s, q)) as u16, text_of(cstr_bytes(s, tv_pos(s, q) + 2))))
        } else {
            None
        },
        keywords: if edf & EDF_KEYWORDS != 0 { Some(text_of(cstr_bytes(s, keywords_pos(s, q)))) } else { None },
        game_id: if edf & EDF_GAME_ID != 0 { Some(le64(s, game_id_pos(s, q)) as u64) } else { None },
        ..v
    }
}

/// The info record that an info response `s` read from `p` holds: the tag,
/// the protocol, four strings (name, map, folder, game), the 16-bit
/// application id, seven bytes (players, max players, bots, server type, OS,
/// visibility, VAC), The Ship's three bytes where the application id is The
/// Ship's, the version string, then, where bytes remain, the extended-info
/// flag byte and the fields it announces in order: port, Steam id, relay port
/// and name, keywords, game id. `None` where the tag is wrong, a field is
/// cut short or a string lacks its zero byte.
pub open spec fn decode_info(s: Seq<u8>, p: int) -> Option<InfoView> {
    if head_ok(s, p) && trailer_ok(s, head_end(s, p)) {
        Some(with_trailer(head_view(s, p), s, head_end(s, p)))
    } else {
        None
    }
}

proof fn lemma_cstr_next_bounds(s: Seq<u8>, i: int)
    requires
        0 <= i <= s.len(),
    ensures
        i <= cstr_next(s, i) <= s.len(),
{
    crate::wire::lemma_cstr_len_bounds(s, i);
}

impl Info {
    /// Reads the record up to its version string; the trailer is left empty.
    #[verifier::rlimit(60)]
    fn read_head(cur: &mut Cursor) -> (r: Result<Info, Error>)
        requires
            old(cur).pos <= old(cur).data@.len(),
        ensures
            final(cur).data@ == old(cur).data@,
            head_ok(old(cur).data@, old(cur).pos as int) ==> (r matches Ok(i) && i.view() == head_view(
                old(cur).data@,
                old(cur).pos as int,
            )) && final(cur).pos == head_end(old(cur).data@, old(cur).pos as int),
            !head_ok(old(cur).data@, old(cur).pos as int) ==> r == Err::<Info, Error>(Error::InvalidResponse),
            final(cur).pos <= final(cur).data@.len(),
    {
        let ghost s = cur.data@;
        let ghost p = cur.pos as int;
        let tag = cur.read_u8()?;
        if tag != INFO_TAG {
            return Err(Error::InvalidResponse);
        }
        let protocol = cur.read_u8()?;
        if !cur.has_cstring() {
            return Err(Error::InvalidResponse);
        }
        proof { lemma_cstr_next_bounds(s, p + 2); }
        let name = cur.read_cstring();
        if !cur.has_cstring() {
            return Err(Error::InvalidResponse);
        }
        proof { lemma_cstr_next_bounds(s, cur.pos as int); }
        let map = cur.read_cstring();
        if !cur.has_cstring() {
            return Err(Error::InvalidResponse);
        }
        proof { lemma_cstr_next_bounds(s, cur.pos as int); }
        let folder = cur.read_cstring();
        if !cur.has_cstring() {
            return Err(Error::InvalidResponse);
        }
        proof { lemma_cstr_next_bounds(s, cur.pos as int); }
        let game = cur.read_cstring();
        let ghost q = cur.pos as int;
        assert(q == app_pos(s, p));
        if !(cur.pos <= cur.data.len() && cur.data.len() - cur.pos >= 9) {
            return Err(Error::InvalidResponse);
        }
        let app_id = crate::wire::u16_at(cur.data.as_slice(), cur.pos);
        let ship = app_id == THE_SHIP_APP_ID;
        if ship && cur.data.len() - cur.pos < 12 {
            return Err(Error::InvalidResponse);
        }
        let b = cur.pos;
        let players = cur.data[b + 2];
        let max_players = cur.data[b + 3];
        let bots = cur.data[b + 4];
        let server_type = cur.data[b + 5];
        let server_os = cur.data[b + 6];
        let visibility = cur.data[b + 7] != 0;
        let vac = cur.data[b + 8] != 0;
        let the_ship = if ship {
            Some(TheShip { mode: cur.data[b + 9], witnesses: cur.data[b + 10], duration: cur.data[b + 11] })
        } else {
            None
        };
        cur.pos = if ship { b + 12 } else { b + 9 };
        if !cur.has_cstring() {
            return Err(Error::InvalidResponse);
        }
        let version = cur.read_cstring();
        let info = Info {
            protocol,
            name,
            map,
            folder,
            game,
            app_id,
            players,
            max_players,
            bots,
            server_type,
            server_os,
            visibility,
            vac,
            the_ship,
            version,
            edf: 0,
            extended_server_info: ExtendedServerInfo { port: None, steam_id: None, keywords: None, game_id: None },
            source_tv: None,
        };
        Ok(info)
    }
}

impl Info {
    /// Reads the extended-info trailer into this record.
    #[verifier::rlimit(60)]
    fn read_trailer(&mut self, cur: &mut Cursor) -> (r: Result<(), Error>)
        requires
            old(cur).pos <= old(cur).data@.len(),
        ensures
            trailer_ok(old(cur).data@, old(cur).pos as int) ==> r is Ok && final(self).view() == with_trailer(
                old(self).view(),
                old(cur).data@,
                old(cur).pos as int,
            ),
            !trailer_ok(old(cur).data@, old(cur).pos as int) ==> r == Err::<(), Error>(Error::InvalidResponse),
    {
        let ghost s = cur.data@;
        let ghost q = cur.pos as int;
        let edf = match cur.read_u8() {
            Ok(v) => v,
            Err(_) => 0u8,
        };
        let port = if edf & EDF_PORT != 0 {
            Some(cur.read_u16()?)
        } else {
            None
        };
        let steam_id = if edf & EDF_STEAM_ID != 0 {
            Some(cur.read_u64()?)
        } else {
            None
        };
        let source_tv = if edf & EDF_SOURCE_TV != 0 {
            let tv_port = cur.read_u16()?;
            if !cur.has_cstring() {
                return Err(Error::InvalidResponse);
            }
            proof { lemma_cstr_next_bounds(s, cur.pos as int); }
            let tv_name = cur.read_cstring();
            Some(SourceTVInfo { port: tv_port, name: tv_name })
        } else {
            None
        };
        proof { lemma_cstr_next_bounds(s, cur.pos as int); }
        let keywords = if edf & EDF_KEYWORDS != 0 {
            if !cur.has_cstring() {
                return Err(Error::InvalidResponse);
            }
            Some(cur.read_cstring())
        } else {
            None
        };
        let game_id = if edf & EDF_GAME_ID != 0 {
            Some(cur.read_u64()?)
        } else {
            None
        };
        self.edf = edf;
        self.extended_server_info = ExtendedServerInfo { port, steam_id, keywords, game_id };
        self.source_tv = source_tv;
        Ok(())
    }

    /// Decodes an info response read from the cursor's position.
    pub fn from_cursor(data: Cursor) -> (r: Result<Info, Error>)
        ensures
            match decode_info(data.data@, data.pos as int) {
                None => r == Err::<Info, Error>(Error::InvalidResponse),
                Some(v) => r matches Ok(i) && i.view() == v,
            },
    {
        let mut cur = data;
        if cur.pos > cur.data.len() {
            return Err(Error::InvalidResponse);
        }
        let mut info = Info::read_head(&mut cur)?;
        info.read_trailer(&mut cur)?;
        Ok(info)
    }
}

} // verus!

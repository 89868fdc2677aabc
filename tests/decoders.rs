use crowbar_a2s::errors::Error;
use crowbar_a2s::packet::{frame, Framing};
use crowbar_a2s::wire::Cursor;
use crowbar_a2s::{Info, Player, Rule};

fn rule(name: &str, value: &str) -> Rule {
    Rule { name: name.to_string(), value: value.to_string() }
}

fn rules_wire(rules: &[Rule]) -> Vec<u8> {
    let mut b = vec![0x45];
    b.extend_from_slice(&(rules.len() as u16).to_le_bytes());
    for r in rules {
        b.extend(r.to_bytes());
    }
    b
}

#[test]
fn rule_to_bytes_layout() {
    assert_eq!(rule("ab", "c").to_bytes(), vec![b'a', b'b', 0, b'c', 0]);
    assert_eq!(rule("", "").to_bytes(), vec![0, 0]);
}

#[test]
fn vec_to_bytes_layout() {
    let b = Rule::vec_to_bytes(vec![rule("a", "1")]);
    let mut expected = vec![0xFF, 0xFF, 0xFF, 0xFF, 0x45];
    expected.extend_from_slice(&1usize.to_le_bytes());
    expected.extend_from_slice(&[b'a', 0, b'1', 0]);
    assert_eq!(b, expected);
}

#[test]
fn rules_round_trip() {
    let rules = vec![rule("sv_gravity", "800"), rule("mp_friendlyfire", "0"), rule("", "x")];
    let decoded = Rule::from_cursor(Cursor::new(rules_wire(&rules))).unwrap();
    assert_eq!(decoded, rules);
}

#[test]
fn vec_to_bytes_round_trips_empty_rules() {
    let rules = vec![rule("", ""), rule("", "")];
    let bytes = Rule::vec_to_bytes(rules.clone());
    let payload = match frame(&bytes, 1400) {
        Ok(Framing::Single(p)) => p,
        _ => panic!("expected a single packet"),
    };
    assert_eq!(Rule::from_cursor(Cursor::new(payload)).unwrap(), rules);
}

#[test]
fn vec_to_bytes_count_bytes_read_as_rules() {
    let bytes = Rule::vec_to_bytes(vec![rule("a", "b")]);
    let payload = match frame(&bytes, 1400) {
        Ok(Framing::Single(p)) => p,
        _ => panic!("expected a single packet"),
    };
    let decoded = Rule::from_cursor(Cursor::new(payload)).unwrap();
    assert_eq!(decoded.len(), 1);
    assert_eq!(decoded[0], rule("", ""));
}

#[test]
fn rules_bad_tag_or_short_header() {
    assert_eq!(Rule::from_cursor(Cursor::new(vec![0x44, 0, 0])), Err(Error::InvalidResponse));
    assert_eq!(Rule::from_cursor(Cursor::new(vec![0x45, 1])), Err(Error::InvalidResponse));
    assert_eq!(Rule::from_cursor(Cursor::new(vec![])), Err(Error::InvalidResponse));
}

#[test]
fn rules_cut_short_are_invalid() {
    assert_eq!(Rule::from_cursor(Cursor::new(vec![0x45, 0x02, 0x00])), Err(Error::InvalidResponse));
    assert_eq!(Rule::from_cursor(Cursor::new(vec![0x45, 2, 0, b'n', 0, b'v', 0])), Err(Error::InvalidResponse));
    assert_eq!(Rule::from_cursor(Cursor::new(vec![0x45, 1, 0, b'n', 0, b'v'])), Err(Error::InvalidResponse));
    assert_eq!(Rule::from_cursor(Cursor::new(vec![0x45, 1, 0, b'n', 0, b'v', 0])).unwrap(), vec![rule("n", "v")]);
}

#[test]
fn cursor_past_the_end() {
    let mut c = Cursor { data: vec![0x45, 0, 0], pos: 10 };
    assert_eq!(c.read_cstring(), "");
    assert_eq!(c.pos, 10);
    assert!(!c.has_cstring());
    assert_eq!(Rule::from_cursor(Cursor { data: vec![0x45, 0, 0], pos: 10 }), Err(Error::InvalidResponse));
    assert!(matches!(Info::from_cursor(Cursor { data: vec![0x49, 0], pos: 7 }), Err(Error::InvalidResponse)));
    assert!(matches!(Player::from_cursor(Cursor { data: vec![0x44, 0], pos: 3 }, 0), Err(Error::InvalidResponse)));
}

fn player_entry(index: u8, name: &str, score: i32, duration: f32) -> Vec<u8> {
    let mut b = vec![index];
    b.extend_from_slice(name.as_bytes());
    b.push(0);
    b.extend_from_slice(&score.to_le_bytes());
    b.extend_from_slice(&duration.to_le_bytes());
    b
}

#[test]
fn players_without_the_ship() {
    let mut b = vec![0x44, 2];
    b.extend(player_entry(0, "alice", 12, 61.5));
    b.extend(player_entry(1, "bob", -3, 2.0));
    let players = Player::from_cursor(Cursor::new(b), 0).unwrap();
    assert_eq!(players.len(), 2);
    assert_eq!(players[0].name, "alice");
    assert_eq!(players[0].score, 12);
    assert_eq!(f32::from_bits(players[0].duration_bits), 61.5);
    assert_eq!(players[1].index, 1);
    assert_eq!(players[1].score, -3);
    assert!(players.iter().all(|p| p.the_ship.is_none()));
}

#[test]
fn players_with_the_ship() {
    let mut with = vec![0x44, 1];
    with.extend(player_entry(0, "carol", 5, 1.0));
    with.extend_from_slice(&7u32.to_le_bytes());
    with.extend_from_slice(&900u32.to_le_bytes());
    let players = Player::from_cursor(Cursor::new(with.clone()), 2400).unwrap();
    let ship = players[0].the_ship.unwrap();
    assert_eq!(ship.deaths, 7);
    assert_eq!(ship.money, 900);
    let mut without = vec![0x44, 1];
    without.extend(player_entry(0, "carol", 5, 1.0));
    let plain = Player::from_cursor(Cursor::new(without), 10).unwrap();
    assert!(plain[0].the_ship.is_none());
    assert_eq!(plain[0].name, players[0].name);
    assert_eq!(plain[0].score, players[0].score);
}

#[test]
fn players_truncated_is_invalid() {
    let mut b = vec![0x44, 1];
    b.extend(player_entry(0, "dave", 1, 1.0));
    assert!(matches!(Player::from_cursor(Cursor::new(b.clone()), 2400), Err(Error::InvalidResponse)));
    b.truncate(b.len() - 1);
    assert!(matches!(Player::from_cursor(Cursor::new(b), 0), Err(Error::InvalidResponse)));
    assert!(matches!(Player::from_cursor(Cursor::new(vec![0x44, 1, 0, b'x']), 0), Err(Error::InvalidResponse)));
    assert!(matches!(Player::from_cursor(Cursor::new(vec![0x45, 0]), 0), Err(Error::InvalidResponse)));
}

fn info_bytes(app_id: u16, trailer: &[u8]) -> Vec<u8> {
    let mut b = vec![0x49, 17];
    for s in ["My Server", "de_dust2", "cstrike", "Counter-Strike"] {
        b.extend_from_slice(s.as_bytes());
        b.push(0);
    }
    b.extend_from_slice(&app_id.to_le_bytes());
    b.extend_from_slice(&[10, 32, 1, b'd', b'l', 0, 1]);
    if app_id == 2400 {
        b.extend_from_slice(&[2, 3, 4]);
    }
    b.extend_from_slice(b"1.0.0.1\0");
    b.extend_from_slice(trailer);
    b
}

#[test]
fn info_without_trailer() {
    let info = Info::from_cursor(Cursor::new(info_bytes(10, &[]))).unwrap();
    assert_eq!(info.protocol, 17);
    assert_eq!(info.name, "My Server");
    assert_eq!(info.map, "de_dust2");
    assert_eq!(info.folder, "cstrike");
    assert_eq!(info.game, "Counter-Strike");
    assert_eq!(info.app_id, 10);
    assert_eq!((info.players, info.max_players, info.bots), (10, 32, 1));
    assert_eq!((info.server_type, info.server_os), (b'd', b'l'));
    assert!(!info.visibility);
    assert!(info.vac);
    assert!(info.the_ship.is_none());
    assert_eq!(info.version, "1.0.0.1");
    assert_eq!(info.edf, 0);
    assert!(info.source_tv.is_none());
}

#[test]
fn info_with_trailer_and_the_ship() {
    let mut t = vec![0x80 | 0x10 | 0x40 | 0x20 | 0x01];
    t.extend_from_slice(&27015u16.to_le_bytes());
    t.extend_from_slice(&90000000000000001u64.to_le_bytes());
    t.extend_from_slice(&27020u16.to_le_bytes());
    t.extend_from_slice(b"relay\0");
    t.extend_from_slice(b"secure,tags\0");
    t.extend_from_slice(&2400u64.to_le_bytes());
    let info = Info::from_cursor(Cursor::new(info_bytes(2400, &t))).unwrap();
    let ship = info.the_ship.unwrap();
    assert_eq!((ship.mode, ship.witnesses, ship.duration), (2, 3, 4));
    assert_eq!(info.extended_server_info.port, Some(27015));
    assert_eq!(info.extended_server_info.steam_id, Some(90000000000000001));
    assert_eq!(info.extended_server_info.keywords.as_deref(), Some("secure,tags"));
    assert_eq!(info.extended_server_info.game_id, Some(2400));
    let tv = info.source_tv.unwrap();
    assert_eq!(tv.port, 27020);
    assert_eq!(tv.name, "relay");
}

#[test]
fn info_truncated_or_bad_tag_is_invalid() {
    let mut b = info_bytes(10, &[]);
    b[0] = 0x48;
    assert!(matches!(Info::from_cursor(Cursor::new(b)), Err(Error::InvalidResponse)));
    let b = info_bytes(10, &[0x01, 1, 2]);
    assert!(matches!(Info::from_cursor(Cursor::new(b)), Err(Error::InvalidResponse)));
    let mut b = info_bytes(10, &[]);
    b.truncate(b.len() - 1);
    assert!(matches!(Info::from_cursor(Cursor::new(b)), Err(Error::InvalidResponse)));
    let b = info_bytes(10, &[0x20, b'k']);
    assert!(matches!(Info::from_cursor(Cursor::new(b)), Err(Error::InvalidResponse)));
}

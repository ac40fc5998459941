use gbfr_sdk::ids::{extract_hex_ids, extract_lobby_id, find_game_id_near, find_hex_in_chunk};
use gbfr_sdk::json::{json_num_field, json_str_field, last_open_brace, object_at, object_end};
use gbfr_sdk::members::{scan_members, MemberInfo, MemberInput, MemberScan, MemberStep};
use gbfr_sdk::net::{
    allows_name_char, json_start, parse_game_name_near, parse_json_at, parse_json_in_chunk, parse_leader_in_chunk,
    parse_member_data_in_chunk, parse_room_json, parse_room_json_in_chunk,
    parse_sk5_room_in_chunk, room_from_text, utf8_len, RoomInfo,
};
use gbfr_sdk::rooms::{edge_hits, scan_rooms, text_before, RoomInput, RoomScan, RoomStep};

fn room_json(name: &str, platform: u32, account: &str, password: &str) -> String {
    format!(
        "{{\"leader_name\":\"{}\",\"leader_platform\":{},\"leader_platform_account_id\":\"{}\",\"lobby_password\":\"{}\"}}",
        name, platform, account, password
    )
}

fn sk5(name: &str, platform: u32, account: &str, password: &str) -> String {
    let inner = room_json(name, platform, account, password).replace('"', "\\\"");
    format!("\"string_key5\":\"{}\"", inner)
}

#[test]
fn fields_of_a_text() {
    let t = r#"{"a":"x\"y\\z","n":42,"big":4294967296,"max":4294967295,"open":"abc\"#;
    assert_eq!(json_str_field(t, "a"), Some("x\"y\\z".to_string()));
    assert_eq!(json_str_field(t, "open"), Some("abc ".to_string()));
    assert_eq!(json_str_field(t, "n"), None);
    assert_eq!(json_str_field(t, "none"), None);
    assert_eq!(json_num_field(t, "n"), Some(42));
    assert_eq!(json_num_field(t, "big"), None);
    assert_eq!(json_num_field(t, "max"), Some(u32::MAX));
    assert_eq!(json_num_field(t, "a"), None);
    assert_eq!(json_num_field(t, "none"), None);
}

#[test]
fn braces_are_balanced() {
    assert_eq!(object_end(b"{a{b}c}d}"), Some(7));
    assert_eq!(object_end(b"x{}"), Some(3));
    assert_eq!(object_end(b"{{}"), None);
    assert_eq!(object_end(b"}{"), None);
    assert_eq!(object_at(b"{ab}}"), Some("{ab}".to_string()));
    assert_eq!(object_at(b"{\xFF}"), None);
    assert_eq!(last_open_brace(b"{a{b"), Some(2));
    assert_eq!(last_open_brace(b"ab}"), None);
}

#[test]
fn rooms_of_a_text() {
    let r = room_from_text(&room_json("Gran", 3, "acc", "hentai")).unwrap();
    assert_eq!((r.leader_name.as_str(), r.platform, r.account_id.as_str()), ("Gran", 3, "acc"));
    assert_eq!((r.password.as_str(), r.locked), ("hentai", true));
    let r = room_from_text(&room_json("Gran", 3, "acc", "5555555555")).unwrap();
    assert_eq!((r.password.as_str(), r.locked), ("", false));
    let r = room_from_text(&room_json("Gran", 3, "acc", "")).unwrap();
    assert_eq!((r.password.as_str(), r.locked), ("", false));
    let r = room_from_text("{\"leader_name\":\"A\",lobby_password}").unwrap();
    assert_eq!((r.platform, r.account_id.as_str(), r.locked), (0, "", false));
    assert!(room_from_text("{\"leader_name\":\"A\"}").is_none());
    assert!(room_from_text("{\"lobby_password\":\"A\"}").is_none());
    assert!(room_from_text("{leader_name,lobby_password}").is_none());
}

#[test]
fn search_results_are_unescaped() {
    let data = sk5("Gr\u{00e4}n", 1, "a1", "mrow");
    let r = parse_sk5_room_in_chunk(data.as_bytes(), 1).unwrap();
    assert_eq!((r.leader_name.as_str(), r.password.as_str()), ("Gr\u{00e4}n", "mrow"));
    let spaced = data.replace("\":\"{", "\" : \"{");
    assert!(parse_sk5_room_in_chunk(spaced.as_bytes(), 1).is_some());
    assert!(parse_sk5_room_in_chunk(b"string_key5", 0).is_none());
    assert!(parse_sk5_room_in_chunk(b"string_key5\":12", 0).is_none());
    assert!(parse_sk5_room_in_chunk(b"string_key5\":\"\xFF\"", 0).is_none());
    let tabbed = data.replace("Gr\u{00e4}n", "a\\tb\\nc\\rd");
    let r = parse_sk5_room_in_chunk(tabbed.as_bytes(), 1).unwrap();
    assert_eq!(r.leader_name, "a\tb\nc\rd");
    let long = sk5(&"x".repeat(0x600), 1, "a1", "mrow");
    assert!(parse_sk5_room_in_chunk(long.as_bytes(), 1).is_none());
}

#[test]
fn objects_around_a_hit() {
    let data = format!("junk {} tail {{", room_json("Gran", 2, "a", "1111"));
    let rel = data.find("leader_name").unwrap();
    assert_eq!(
        parse_json_in_chunk(data.as_bytes(), rel, 0x300),
        Some(room_json("Gran", 2, "a", "1111"))
    );
    assert_eq!(parse_json_in_chunk(data.as_bytes(), rel, 1), None);
    let r = parse_room_json_in_chunk(data.as_bytes(), rel).unwrap();
    assert_eq!((r.leader_name.as_str(), r.password.as_str()), ("Gran", "1111"));
    assert!(parse_room_json_in_chunk(b"leader_name", 0).is_none());
}

#[test]
fn objects_read_from_memory() {
    let mut back = vec![b'.'; 0x300];
    back[0x2F0] = b'{';
    back[0x10] = b'{';
    assert_eq!(json_start(0x1000, 0x300, &back), Some(0xFF0));
    assert_eq!(json_start(0x2FF, 0x300, &back), None);
    assert_eq!(json_start(0x1000, 0x300, &vec![b'.'; 0x300]), None);
    let content = format!("{}garbage", room_json("Gran", 2, "a", "2222"));
    assert_eq!(parse_room_json(content.as_bytes()).unwrap().password, "2222");
    assert!(parse_room_json(b"{").is_none());
    assert_eq!(
        parse_json_at(b"{\"member_platform\":\"Steam\"}x"),
        Some("{\"member_platform\":\"Steam\"}".to_string())
    );
    assert_eq!(parse_json_at(b"{\"other\":1}"), None);
}

#[test]
fn leaders_have_accounts() {
    let data = room_json("羅順蘭", 1, "acc-9", "x");
    let rel = data.find("leader_name").unwrap();
    assert_eq!(
        parse_leader_in_chunk(data.as_bytes(), rel),
        Some(("acc-9".to_string(), "羅順蘭".to_string()))
    );
    let tail = format!("{}{{", data);
    assert_eq!(
        parse_leader_in_chunk(tail.as_bytes(), rel),
        Some(("acc-9".to_string(), "羅順蘭".to_string()))
    );
    let data = room_json("Gran", 1, "", "x");
    assert_eq!(parse_leader_in_chunk(data.as_bytes(), rel), None);
    assert_eq!(parse_leader_in_chunk(b"{\"a\":1}", 0), None);
}

fn member(id: &str, name: &str, platform: &str, account: &str) -> String {
    format!(
        "{{\"MemberEntity\":{{\"Id\":\"{}\",\"Type\":\"title_player_account\"}},\"MemberData\":{{\"member_platform_user_name\":\"{}\",\"member_platform\":\"{}\",\"member_platform_account_id\":\"{}\"}}}}",
        id, name, platform, account
    )
}

#[test]
fn entries_of_a_members_array() {
    let data = member("0123456789ABCDEF", "steamy", "Steam", "7656");
    let rel = data.find("MemberData").unwrap();
    let (id, text) = parse_member_data_in_chunk(data.as_bytes(), rel).unwrap();
    assert_eq!(id, "0123456789ABCDEF");
    assert_eq!(json_str_field(&text, "member_platform"), Some("Steam".to_string()));
    let short = member("0123456789ABCDE", "steamy", "Steam", "7656");
    let rel = short.find("MemberData").unwrap();
    assert_eq!(parse_member_data_in_chunk(short.as_bytes(), rel), None);
}

#[test]
fn each_member_has_its_own_id() {
    let data = br#"{"MemberEntity":{"Id":"1111111111111111"},"MemberData":{"a":"1"}},{"MemberEntity":{"Id":"2222222222222222"},"MemberData":{"a":"2"}}"#;
    let parse = |rel: usize| parse_member_data_in_chunk(data, rel);
    assert_eq!(
        parse(109),
        Some(("2222222222222222".to_string(), r#"{"a":"2"}"#.to_string()))
    );
    assert_eq!(
        parse(43),
        Some(("1111111111111111".to_string(), r#"{"a":"1"}"#.to_string()))
    );
    assert_eq!(parse(110), None);
    let both = format!(
        "{}{}",
        member("0123456789ABCDEF", "alice", "Steam", "1"),
        member("FEDCBA9876543210", "bob", "PSN", "2")
    );
    let list = members_in(&[both]);
    assert_eq!(list.len(), 2);
    assert_eq!((list[0].name.as_str(), list[0].game_id.as_str()), ("alice", "0123456789ABCDEF"));
    assert_eq!((list[1].name.as_str(), list[1].game_id.as_str()), ("bob", "FEDCBA9876543210"));
}

#[test]
fn names_near_an_account() {
    let near = |tail: &str| {
        let data = format!("\"Id\":\"0123456789abcdef\",\"Type\":\"title_player_account{}", tail);
        let rel = data.find("title_player_account").unwrap();
        parse_game_name_near(data.as_bytes(), rel)
    };
    assert_eq!(
        near("\0\0羅順蘭\0\0別名"),
        Some(("0123456789abcdef".to_string(), "羅順蘭".to_string()))
    );
    assert_eq!(near("\0羅\0順蘭").unwrap().1, "順蘭");
    assert_eq!(near("\0「羅順").unwrap().1, "羅順");
    assert_eq!(near("\0羅❤\0").unwrap().1, "羅❤");
    assert_eq!(near("\0羅\0"), None);
    assert_eq!(near("\0Gran\0"), None);
    assert_eq!(near(&format!("{}羅順蘭", ".".repeat(0x100 - 20 - 9))).unwrap().1, "羅順蘭");
    assert_eq!(near(&format!("{}羅順蘭", ".".repeat(0x100 - 20))), None);
    let data = "\"Id\":\"1111111111111111\",\"Id\":\"2222222222222222\",title_player_account 羅順蘭";
    let rel = data.find("title_player_account").unwrap();
    assert_eq!(parse_game_name_near(data.as_bytes(), rel).unwrap().0, "2222222222222222");
    assert_eq!(parse_game_name_near("no id 羅順蘭".as_bytes(), 5), None);
    assert_eq!([utf8_len(0x41), utf8_len(0xC3), utf8_len(0xE7), utf8_len(0xF0)], [1, 2, 3, 4]);
}

#[test]
fn characters_of_a_name() {
    assert!(allows_name_char('羅', true, false));
    assert!(!allows_name_char('「', false, true));
    assert!(allows_name_char('❤', false, false));
    for c in ['!', '/', ':', '@', '[', '`', '{', '~'] {
        assert!(allows_name_char(c, false, true));
        assert!(!allows_name_char(c, false, false));
    }
    for c in [' ', '0', 'A', 'a', '\u{7f}'] {
        assert!(!allows_name_char(c, false, true));
    }
}

#[test]
fn lobby_ids_are_extracted() {
    let id = "0a1b2c3d-0000-1111-2222-333344445555";
    let ctx = format!("x~lobby~LobbyChange~{}~rest", id);
    assert_eq!(extract_lobby_id(ctx.as_bytes()), Some(id.to_string()));
    assert_eq!(extract_lobby_id(b"~lobby~LobbyChange~12-34"), None);
    assert_eq!(extract_lobby_id(b"~lobby~LobbyChange~0123456789012345678901234"), None);
    assert_eq!(extract_lobby_id(b"nothing"), None);
    let long = format!("~lobby~LobbyChange~-{}", "a".repeat(60));
    assert_eq!(extract_lobby_id(long.as_bytes()).unwrap().len(), 41);
}

#[test]
fn account_ids_are_extracted() {
    let ctx = b"0123456789abcdef,0123456789ABCDEF,FEDCBA9876543210;11112222333344445";
    assert_eq!(extract_hex_ids(ctx), ["0123456789ABCDEF", "FEDCBA9876543210"]);
    assert!(extract_hex_ids(b"0123456789abcde").is_empty());
    assert_eq!(find_hex_in_chunk(ctx, ctx.len(), 0x500), "FEDCBA9876543210");
    assert_eq!(find_hex_in_chunk(ctx, 20, 0x500), "0123456789ABCDEF");
    assert_eq!(find_hex_in_chunk(ctx, 20, 10), "");
    assert_eq!(find_game_id_near(Some(ctx.to_vec())), "FEDCBA9876543210");
    assert_eq!(find_game_id_near(None), "");
}

fn members_in(blocks: &[String]) -> Vec<MemberInfo> {
    let mut scan = MemberScan::new();
    for b in blocks {
        scan = match scan_members(scan, MemberInput::Block(b.as_bytes().to_vec())) {
            MemberStep::More(s) => s,
            MemberStep::Done(_) => panic!("too early"),
        };
    }
    match scan_members(scan, MemberInput::End) {
        MemberStep::Done(Ok(v)) => v,
        _ => panic!("no list"),
    }
}

#[test]
fn members_are_listed_once_with_their_names() {
    let pad = ".".repeat(0x300);
    let first = format!(
        "{pad}{}{pad}{}{pad}",
        member("0123456789ABCDEF", "alice", "Steam", "1"),
        member("FEDCBA9876543210", "bob", "PSN", "2"),
        pad = pad
    );
    let second = format!(
        "{pad}{}{pad}{}{pad}\"Id\":\"FEDCBA9876543210\",\"title_player_account\0羅順蘭\0{pad}",
        member("0123456789ABCDEF", "alice again", "Steam", "1"),
        room_json("Lead", 1, "1", "x"),
        pad = pad
    );
    let list = members_in(&[first, second]);
    assert_eq!(list.len(), 2);
    assert_eq!((list[0].name.as_str(), list[0].game_name.as_str()), ("alice", "Lead"));
    assert_eq!((list[1].name.as_str(), list[1].game_name.as_str()), ("bob", "羅順蘭"));
    assert_eq!(
        (list[1].platform.as_str(), list[1].account_id.as_str(), list[1].game_id.as_str()),
        ("PSN", "2", "FEDCBA9876543210")
    );
}

#[test]
fn members_of_a_game_that_is_not_there() {
    match scan_members(MemberScan::new(), MemberInput::NotRunning) {
        MemberStep::Done(Err(e)) => assert_eq!(e, "游戏未运行"),
        _ => panic!("expected an error"),
    }
    match scan_members(MemberScan::new(), MemberInput::OpenFailed("denied".to_string())) {
        MemberStep::Done(Err(e)) => assert_eq!(e, "denied"),
        _ => panic!("expected an error"),
    }
    assert!(members_in(&[]).is_empty());
}

fn block(text: &str) -> RoomInput {
    RoomInput::Block(text.as_bytes().to_vec(), vec![])
}

fn more(step: RoomStep) -> RoomScan {
    match step {
        RoomStep::More(s) => s,
        _ => panic!("expected more"),
    }
}

fn listed(step: RoomStep) -> Vec<RoomInfo> {
    match step {
        RoomStep::Done(Ok(v)) => v,
        _ => panic!("no list"),
    }
}

#[test]
fn rooms_are_listed_once_and_in_order() {
    let text = format!(
        "{} {} {} {}",
        sk5("Zeta", 1, "a", "1"),
        sk5("Eugen", 1, "b", "2"),
        sk5("Again", 1, "a", "3"),
        sk5("Ägir", 2, "a", "4")
    );
    let scan = more(scan_rooms(RoomScan::new(), block(&text)));
    assert!(!scan.wants_edges());
    let scan = more(scan_rooms(scan, block(&sk5("Eugen", 3, "c", "5"))));
    let names: Vec<(String, String)> = listed(scan_rooms(scan, RoomInput::End))
        .into_iter()
        .map(|r| (r.leader_name, r.password))
        .collect();
    let expected: Vec<(String, String)> = [("Eugen", "2"), ("Eugen", "5"), ("Zeta", "1"), ("Ägir", "4")]
        .iter()
        .map(|p| (p.0.to_string(), p.1.to_string()))
        .collect();
    assert_eq!(names, expected);
    assert!(text_before("Eugen", "Zeta"));
    assert!(!text_before("Zeta", "Eugen"));
    assert!(!text_before("a", "a"));
    assert!(text_before("a", "ab"));
}

#[test]
fn left_over_rooms_are_a_fallback() {
    let scan = match scan_rooms(RoomScan::new(), RoomInput::End) {
        RoomStep::Again(s) => s,
        _ => panic!("expected a second pass"),
    };
    assert!(scan.wants_edges());
    let edge = room_json("Edge", 1, "e", "1");
    let inner = format!("{}{}{}", ".".repeat(0x400), room_json("Inner", 1, "i", "2"), ".".repeat(0x900));
    assert_eq!(edge_hits(edge.as_bytes()), [2]);
    assert!(edge_hits(inner.as_bytes()).is_empty());
    let scan = more(scan_rooms(
        scan,
        RoomInput::Block(edge.as_bytes().to_vec(), vec![Some(edge.as_bytes().to_vec())]),
    ));
    let scan = more(scan_rooms(scan, RoomInput::Block(edge.as_bytes().to_vec(), vec![None])));
    let scan = more(scan_rooms(scan, block(&inner)));
    let list = listed(scan_rooms(scan, RoomInput::End));
    assert_eq!(list.len(), 2);
    assert_eq!((list[0].leader_name.as_str(), list[1].leader_name.as_str()), ("Edge", "Inner"));
}

#[test]
fn rooms_of_a_game_that_is_not_there() {
    match scan_rooms(RoomScan::new(), RoomInput::NotRunning) {
        RoomStep::Done(Err(e)) => assert_eq!(e, "游戏未运行"),
        _ => panic!("expected an error"),
    }
    match scan_rooms(RoomScan::new(), RoomInput::OpenFailed("denied".to_string())) {
        RoomStep::Done(Err(e)) => assert_eq!(e, "denied"),
        _ => panic!("expected an error"),
    }
}

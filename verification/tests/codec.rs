use sectora::error::{
    ParseIntError, ParseMemberError, ParseMessageError, ParseSectorError, ParseSectorGroupError,
    ParseSectorTypeError,
};
use sectora::message::{ClientMessage, DaemonMessage, Ent, Gr, Pw, Sp};
use sectora::structs::{Member, MemberGid, Sector, SectorGroup, SectorType};
use sectora::text::{
    contains_char, fill, join_path, parse_u32, parse_u64, parse_usize, split_str, str_eq,
    u64_to_string, usize_to_string,
};

fn member(id: u64, login: &str) -> Member {
    Member { id, login: String::from(login) }
}

fn team_a() -> SectorGroup {
    SectorGroup {
        sector: Sector { id: 100, name: String::from("tA"), sector_type: SectorType::Team },
        gid: Some(500),
        group: Some(String::from("teamA")),
        members: vec![member(1001, "alice"), member(1002, "bob")],
    }
}

fn repo_a() -> SectorGroup {
    SectorGroup {
        sector: Sector { id: 200, name: String::from("rA"), sector_type: SectorType::Repo },
        gid: None,
        group: None,
        members: vec![member(1002, "bob"), member(1003, "carol")],
    }
}

fn all_requests() -> Vec<ClientMessage> {
    vec![
        ClientMessage::Cont,
        ClientMessage::Key { user: String::from("alice") },
        ClientMessage::Pam { user: String::from("bob:with:colons") },
        ClientMessage::CleanUp,
        ClientMessage::RateLimit,
        ClientMessage::SectorGroups,
        ClientMessage::Pw(Pw::Uid(1002)),
        ClientMessage::Pw(Pw::Uid(u64::MAX)),
        ClientMessage::Pw(Pw::Nam(String::from("alice"))),
        ClientMessage::Pw(Pw::Nam(String::from(""))),
        ClientMessage::Pw(Pw::Ent(Ent::Start(7))),
        ClientMessage::Pw(Pw::Ent(Ent::Get(7))),
        ClientMessage::Pw(Pw::Ent(Ent::End(u32::MAX))),
        ClientMessage::Sp(Sp::Nam(String::from("carol"))),
        ClientMessage::Sp(Sp::Ent(Ent::Start(0))),
        ClientMessage::Sp(Sp::Ent(Ent::Get(1))),
        ClientMessage::Sp(Sp::Ent(Ent::End(2))),
        ClientMessage::Gr(Gr::Gid(200)),
        ClientMessage::Gr(Gr::Nam(String::from("teamA"))),
        ClientMessage::Gr(Gr::Ent(Ent::Start(3))),
        ClientMessage::Gr(Gr::Ent(Ent::Get(4))),
        ClientMessage::Gr(Gr::Ent(Ent::End(5))),
    ]
}

#[test]
fn request_texts_are_the_wire_format() {
    let texts: Vec<String> = all_requests().iter().map(|m| m.to_string()).collect();
    let expected = vec![
        "c:cont",
        "c:key:alice",
        "c:pam:bob:with:colons",
        "c:cleanup",
        "c:ratelimit",
        "c:sectors",
        "c:pw:uid=1002",
        "c:pw:uid=18446744073709551615",
        "c:pw:name=alice",
        "c:pw:name=",
        "c:pw:ent=set|7",
        "c:pw:ent=get|7",
        "c:pw:ent=end|4294967295",
        "c:sp:name=carol",
        "c:sp:ent=set|0",
        "c:sp:ent=get|1",
        "c:sp:ent=end|2",
        "c:gr:gid=200",
        "c:gr:name=teamA",
        "c:gr:ent=set|3",
        "c:gr:ent=get|4",
        "c:gr:ent=end|5",
    ];
    assert_eq!(texts, expected);
}

#[test]
fn every_request_round_trips() {
    for m in all_requests() {
        let text = m.to_string();
        let back = ClientMessage::from_str(&text).expect("a request that was written is read");
        assert_eq!(back.to_string(), text);
        assert_eq!(format!("{:?}", back), format!("{:?}", m));
    }
}

#[test]
fn request_by_name_round_trips() {
    let m = ClientMessage::Pw(Pw::Nam(String::from("alice")));
    let text = m.to_string();
    assert_eq!(text, "c:pw:name=alice");
    match ClientMessage::from_str(&text) {
        Ok(ClientMessage::Pw(Pw::Nam(n))) => assert_eq!(n, "alice"),
        other => panic!("unexpected {:?}", other),
    }
}

#[test]
fn malformed_requests_are_rejected() {
    for text in [
        "",
        "c:",
        "c:con",
        "c:cont ",
        "d:success",
        "c:key",
        "c:pw:",
        "c:pw:uid=",
        "c:pw:uid=abc",
        "c:pw:uid=-1",
        "c:pw:uid=18446744073709551616",
        "c:pw:ent=set|",
        "c:pw:ent=set|x",
        "c:pw:ent=put|1",
        "c:pw:ent=set|4294967296",
        "c:sp:uid=1",
        "c:gr:gid=1x",
        "x",
    ] {
        match ClientMessage::from_str(text) {
            Err(e) => assert_eq!(e, ParseMessageError::ParseClientMessageError),
            Ok(m) => panic!("{:?} was read from {:?}", m, text),
        }
    }
}

fn all_replies() -> Vec<DaemonMessage> {
    vec![
        DaemonMessage::Success,
        DaemonMessage::Error { message: String::from("not found") },
        DaemonMessage::Key { keys: String::from("ssh-rsa AAA\nssh-ed25519 BBB") },
        DaemonMessage::Pam { result: true },
        DaemonMessage::Pam { result: false },
        DaemonMessage::RateLimit { limit: 5000, remaining: 4999, reset: 1700000000 },
        DaemonMessage::SectorGroups { sectors: vec![] },
        DaemonMessage::SectorGroups { sectors: vec![team_a(), repo_a()] },
        DaemonMessage::Pw {
            login: String::from("alice"),
            uid: 1001,
            gid: 500,
            home: String::from("/home/alice"),
            sh: String::from("/bin/bash"),
        },
        DaemonMessage::Sp { login: String::from("alice"), pass: String::from("*") },
        DaemonMessage::Gr { sector: repo_a() },
    ]
}

#[test]
fn reply_texts_are_the_wire_format() {
    let texts: Vec<String> = all_replies().iter().map(|m| m.to_string()).collect();
    let expected = vec![
        "d:success",
        "d:error:not found",
        "d:key:ssh-rsa AAA\nssh-ed25519 BBB",
        "d:pam:true",
        "d:pam:false",
        "d:ratelimit:5000:4999:1700000000",
        "d:sectors:",
        "d:sectors:100:tA:T\t500\tteamA\t1001:alice 1002:bob\n200:rA:R\t\t\t1002:bob 1003:carol",
        "d:pw:alice:1001:500:/home/alice:/bin/bash",
        "d:sp:alice:*",
        "d:gr:200:rA:R\t\t\t1002:bob 1003:carol",
    ];
    assert_eq!(texts, expected);
}

#[test]
fn every_reply_round_trips() {
    for m in all_replies() {
        let text = m.to_string();
        let back = DaemonMessage::from_str(&text).expect("a reply that was written is read");
        assert_eq!(back.to_string(), text);
        assert_eq!(format!("{:?}", back), format!("{:?}", m));
    }
}

#[test]
fn reply_pw_text() {
    let m = DaemonMessage::Pw {
        login: String::from("alice"),
        uid: 1001,
        gid: 500,
        home: String::from("/home/alice"),
        sh: String::from("/bin/bash"),
    };
    assert_eq!(m.to_string(), "d:pw:alice:1001:500:/home/alice:/bin/bash");
}

#[test]
fn a_colon_in_a_field_does_not_round_trip() {
    let m = DaemonMessage::Pw {
        login: String::from("alice"),
        uid: 1,
        gid: 2,
        home: String::from("/home/a:b"),
        sh: String::from("/bin/sh"),
    };
    assert_eq!(
        DaemonMessage::from_str(&m.to_string()).err(),
        Some(ParseMessageError::ParseDaemonMessageError)
    );
}

#[test]
fn a_group_without_members_round_trips() {
    let mut empty = repo_a();
    empty.members.clear();
    assert_eq!(empty.to_string(), "200:rA:R\t\t\t");
    let back = SectorGroup::from_str("200:rA:R\t\t\t").unwrap();
    assert_eq!(back.members.len(), 0);
    assert_eq!(back.to_string(), "200:rA:R\t\t\t");
    let gr = DaemonMessage::Gr { sector: empty.clone() };
    assert_eq!(gr.to_string(), "d:gr:200:rA:R\t\t\t");
    match DaemonMessage::from_str(&gr.to_string()) {
        Ok(DaemonMessage::Gr { sector }) => {
            assert_eq!(sector.sector.id, 200);
            assert_eq!(sector.members.len(), 0);
        }
        other => panic!("unexpected {:?}", other),
    }
    let list = DaemonMessage::SectorGroups { sectors: vec![team_a(), empty.clone(), repo_a()] };
    match DaemonMessage::from_str(&list.to_string()) {
        Ok(DaemonMessage::SectorGroups { sectors }) => {
            assert_eq!(sectors.len(), 3);
            assert_eq!(sectors[1].sector.name, "rA");
            assert_eq!(sectors[1].members.len(), 0);
            assert_eq!(sectors[2].members.len(), 2);
        }
        other => panic!("unexpected {:?}", other),
    }
    let only = DaemonMessage::SectorGroups { sectors: vec![empty] };
    assert_eq!(only.to_string(), "d:sectors:200:rA:R\t\t\t");
    match DaemonMessage::from_str(&only.to_string()) {
        Ok(DaemonMessage::SectorGroups { sectors }) => assert_eq!(sectors.len(), 1),
        other => panic!("unexpected {:?}", other),
    }
}

#[test]
fn malformed_replies_are_rejected() {
    for text in [
        "",
        "d:",
        "d:succes",
        "d:success!",
        "c:cont",
        "d:ratelimit:1:2",
        "d:ratelimit:1:2:3:4",
        "d:ratelimit:a:7:9",
        "d:ratelimit:1::3",
        "d:pam:yes",
        "d:pam:",
        "d:pam:TRUE",
        "d:pw:alice:1001:500:/home/alice:/bin/bash:more",
        "d:sp:alice:pw:rest",
        "d:sectors:junk",
        "d:sectors:200:rA:R\t\t\t1002:bob\n",
        "d:sectors:junk\n200:rA:R\t\t\t1002:bob",
        "d:gr:200:rA:R\t\t\t1:a\tmore",
        "d:gr:200:rA:R\t\t\t1:a:b",
        "d:gr:200:rA:R\t\t\t1:a ",
        "d:pw:alice:1001:500:/home/alice",
        "d:pw:alice:x:500:/home/alice:/bin/bash",
        "d:pw:alice:1:y:/home/alice:/bin/bash",
        "d:sp:alice",
        "d:gr:",
        "d:gr:200:rA:R",
        "d:gr:200:rA:X\t\t\t1:a",
        "d:error",
    ] {
        match DaemonMessage::from_str(text) {
            Err(e) => assert_eq!(e, ParseMessageError::ParseDaemonMessageError),
            Ok(m) => panic!("{:?} was read from {:?}", m, text),
        }
    }
}

#[test]
fn sector_type_letters() {
    assert_eq!(SectorType::Team.to_string(), "T");
    assert_eq!(SectorType::Repo.to_string(), "R");
    assert_eq!(SectorType::from_str("T"), Ok(SectorType::Team));
    assert_eq!(SectorType::from_str("R"), Ok(SectorType::Repo));
    assert_eq!(SectorType::from_str("t"), Err(ParseSectorTypeError::UnknownType));
    assert_eq!(SectorType::from_str(""), Err(ParseSectorTypeError::UnknownType));
    assert_eq!(SectorType::from_str("TR"), Err(ParseSectorTypeError::UnknownType));
}

#[test]
fn sector_text_and_errors() {
    let s = Sector { id: 100, name: String::from("tA"), sector_type: SectorType::Team };
    assert_eq!(s.to_string(), "100:tA:T");
    let back = Sector::from_str("100:tA:T").unwrap();
    assert_eq!((back.id, back.name.as_str(), back.sector_type), (100, "tA", SectorType::Team));
    assert_eq!(Sector::from_str("100:tA").err(), Some(ParseSectorError::BadFormat));
    assert_eq!(Sector::from_str("100:t:A:T").err(), Some(ParseSectorError::BadFormat));
    assert_eq!(
        Sector::from_str("x:tA:T").err(),
        Some(ParseSectorError::Id(ParseIntError::InvalidDigit))
    );
    assert_eq!(Sector::from_str(":tA:T").err(), Some(ParseSectorError::Id(ParseIntError::Empty)));
    assert_eq!(
        Sector::from_str("1:tA:Q").err(),
        Some(ParseSectorError::Type(ParseSectorTypeError::UnknownType))
    );
    assert_eq!(
        Sector::from_str("x:tA:Q").err(),
        Some(ParseSectorError::Id(ParseIntError::InvalidDigit))
    );
}

#[test]
fn member_text_and_errors() {
    assert_eq!(member(1001, "alice").to_string(), "1001:alice");
    let m = Member::from_str("1001:alice").unwrap();
    assert_eq!((m.id, m.login.as_str()), (1001, "alice"));
    assert_eq!(Member::from_str("7:a:b").err(), Some(ParseMemberError::BadFormat));
    let m = Member::from_str("7:").unwrap();
    assert_eq!((m.id, m.login.as_str()), (7, ""));
    assert_eq!(Member::from_str("7").err(), Some(ParseMemberError::BadFormat));
    assert_eq!(Member::from_str("").err(), Some(ParseMemberError::Id(ParseIntError::Empty)));
    assert_eq!(
        Member::from_str("a:b").err(),
        Some(ParseMemberError::Id(ParseIntError::InvalidDigit))
    );
}

#[test]
fn member_gid_text_and_errors() {
    let mg = MemberGid { member: member(1001, "alice"), gid: 500 };
    assert_eq!(mg.to_string(), "1001:alice|500");
    let back = MemberGid::from_str("1001:alice|500").unwrap();
    assert_eq!((back.member.id, back.member.login.as_str(), back.gid), (1001, "alice", 500));
    assert_eq!(MemberGid::from_str("1001:alice").err(), Some(ParseMemberError::BadFormat));
    assert_eq!(MemberGid::from_str("1001:alice|5|6").err(), Some(ParseMemberError::BadFormat));
    assert_eq!(
        MemberGid::from_str("1001:alice|x").err(),
        Some(ParseMemberError::Gid(ParseIntError::InvalidDigit))
    );
    assert_eq!(
        MemberGid::from_str("x|1").err(),
        Some(ParseMemberError::Id(ParseIntError::InvalidDigit))
    );
}

#[test]
fn sector_line_text_and_parse() {
    assert_eq!(team_a().to_string(), "100:tA:T\t500\tteamA\t1001:alice 1002:bob");
    assert_eq!(repo_a().to_string(), "200:rA:R\t\t\t1002:bob 1003:carol");
    let g = SectorGroup::from_str("100:tA:T\t500\tteamA\t1001:alice 1002:bob").unwrap();
    assert_eq!(g.get_gid(), 500);
    assert_eq!(g.get_group(), "teamA");
    assert_eq!(g.members.len(), 2);
    assert_eq!(g.members[1].login, "bob");
    let g = SectorGroup::from_str("200:rA:R\t\t\t1002:bob 1003:carol").unwrap();
    assert_eq!(g.get_gid(), 200);
    assert_eq!(g.get_group(), "rA");
    assert_eq!(g.gid, None);
    assert_eq!(g.group, None);
}

#[test]
fn sector_line_keeps_the_later_of_two_with_one_login() {
    let g = SectorGroup::from_str("1:s:T\t\t\t1:bob 2:al 3:bob").unwrap();
    assert_eq!(g.members.len(), 2);
    assert_eq!((g.members[0].id, g.members[0].login.as_str()), (3, "bob"));
    assert_eq!((g.members[1].id, g.members[1].login.as_str()), (2, "al"));
}

#[test]
fn sector_line_errors() {
    assert_eq!(
        SectorGroup::from_str("").err(),
        Some(ParseSectorGroupError::Sector(ParseSectorError::BadFormat))
    );
    assert_eq!(
        SectorGroup::from_str("1:s:T").err(),
        Some(ParseSectorGroupError::Sector(ParseSectorError::BadFormat))
    );
    assert_eq!(
        SectorGroup::from_str("1:s:T\tx").err(),
        Some(ParseSectorGroupError::Sector(ParseSectorError::BadFormat))
    );
    assert_eq!(
        SectorGroup::from_str("1:s:T\tx\tg\t1:a").err(),
        Some(ParseSectorGroupError::Gid(ParseIntError::InvalidDigit))
    );
    assert_eq!(
        SectorGroup::from_str("1:s:T\t5\tg").err(),
        Some(ParseSectorGroupError::Sector(ParseSectorError::BadFormat))
    );
    assert_eq!(
        SectorGroup::from_str("1:s:T\t5\tg\t1:a\t").err(),
        Some(ParseSectorGroupError::Sector(ParseSectorError::BadFormat))
    );
    assert_eq!(
        SectorGroup::from_str("1:s:T\t5\tg\t ").err(),
        Some(ParseSectorGroupError::Member(ParseMemberError::Id(ParseIntError::Empty)))
    );
    assert_eq!(SectorGroup::from_str("1:s:T\t5\tg\t").map(|g| g.members.len()).ok(), Some(0));
    assert_eq!(
        SectorGroup::from_str("1:s:T\t5\tg\t1:a 2").err(),
        Some(ParseSectorGroupError::Member(ParseMemberError::BadFormat))
    );
    assert_eq!(
        SectorGroup::from_str("1:s:Z\tx\tg\t1:a").err(),
        Some(ParseSectorGroupError::Sector(ParseSectorError::Type(
            ParseSectorTypeError::UnknownType
        )))
    );
}

#[test]
fn numbers_are_written_and_read() {
    assert_eq!(u64_to_string(0), "0");
    assert_eq!(u64_to_string(9), "9");
    assert_eq!(u64_to_string(10), "10");
    assert_eq!(u64_to_string(1002), "1002");
    assert_eq!(u64_to_string(u64::MAX), "18446744073709551615");
    assert_eq!(parse_u64("0"), Ok(0));
    assert_eq!(parse_u64("007"), Ok(7));
    assert_eq!(parse_u64("+15"), Ok(15));
    assert_eq!(parse_u64("18446744073709551615"), Ok(u64::MAX));
    assert_eq!(parse_u64("18446744073709551616"), Err(ParseIntError::PosOverflow));
    assert_eq!(parse_u64("99999999999999999999999"), Err(ParseIntError::PosOverflow));
    assert_eq!(parse_u64(""), Err(ParseIntError::Empty));
    assert_eq!(parse_u64("+"), Err(ParseIntError::InvalidDigit));
    assert_eq!(parse_u64("-1"), Err(ParseIntError::InvalidDigit));
    assert_eq!(parse_u64("1 "), Err(ParseIntError::InvalidDigit));
    assert_eq!(parse_u64("++1"), Err(ParseIntError::InvalidDigit));
    assert_eq!(parse_u64("99999999999999999999999x"), Err(ParseIntError::InvalidDigit));
    assert_eq!(parse_u32("4294967295"), Ok(u32::MAX));
    assert_eq!(parse_u32("4294967296"), Err(ParseIntError::PosOverflow));
    assert_eq!(parse_usize("12"), Ok(12));
    for n in [0u64, 1, 9, 10, 99, 100, 12345, u64::MAX - 1, u64::MAX] {
        assert_eq!(parse_u64(&u64_to_string(n)), Ok(n));
        assert_eq!(u64_to_string(n), n.to_string());
    }
}

#[test]
fn texts_are_cut_and_joined() {
    assert_eq!(split_str("a:b:c", ':'), vec!["a", "b", "c"]);
    assert_eq!(split_str("", ':'), vec![""]);
    assert_eq!(split_str(":", ':'), vec!["", ""]);
    assert_eq!(split_str("a::b:", ':'), vec!["a", "", "b", ""]);
    assert_eq!(split_str("né:ü", ':'), vec!["né", "ü"]);
    assert!(contains_char("a?b", '?'));
    assert!(!contains_char("ab", '?'));
    assert!(!contains_char("", '?'));
    assert!(str_eq("abc", "abc"));
    assert!(!str_eq("abc", "abd"));
    assert!(!str_eq("abc", "ab"));
    assert!(str_eq("", ""));
    assert_eq!(usize_to_string(4096), "4096");
}

#[test]
fn templates_and_paths() {
    assert_eq!(fill("/home/{}", "alice"), "/home/alice");
    assert_eq!(fill("/h/{}/{}", "a"), "/h/a/a");
    assert_eq!(fill("{}", "x"), "x");
    assert_eq!(fill("{", "x"), "{");
    assert_eq!(fill("{{}}", "x"), "{x}");
    assert_eq!(fill("/home/none", "x"), "/home/none");
    assert_eq!(fill("", "x"), "");
    assert_eq!(fill("/home/{}", "{}"), "/home/{}");
    assert_eq!(join_path("/tmp", "sectora"), "/tmp/sectora");
    assert_eq!(join_path("/tmp/", "sectora"), "/tmp/sectora");
    assert_eq!(join_path("/tmp", "/abs"), "/abs");
    assert_eq!(join_path("", "rel"), "rel");
}

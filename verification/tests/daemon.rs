use sectora::daemon::{
    check_pam, logins_for, needs, read_request, Daemon, Kind, Need, Outcome, UserProbe,
};
use sectora::message::{ClientMessage, DaemonMessage, Ent, Gr, Pw, Sp};
use sectora::structs::{
    Config, Member, Rate, RateLimit, Sector, SectorGroup, SectorType, UserConfig,
};

fn member(id: u64, login: &str) -> Member {
    Member { id, login: String::from(login) }
}

fn sectors() -> Vec<SectorGroup> {
    vec![
        SectorGroup {
            sector: Sector { id: 100, name: String::from("tA"), sector_type: SectorType::Team },
            gid: Some(500),
            group: Some(String::from("teamA")),
            members: vec![member(1001, "alice"), member(1002, "bob")],
        },
        SectorGroup {
            sector: Sector { id: 200, name: String::from("rA"), sector_type: SectorType::Repo },
            gid: None,
            group: None,
            members: vec![member(1002, "bob"), member(1003, "carol")],
        },
    ]
}

fn daemon() -> Daemon {
    Daemon::new(Config::with_defaults(String::from("t"), String::from("org"), "/tmp"))
}

fn ask(d: &mut Daemon, text: &str) -> String {
    let msg = ClientMessage::from_str(text).expect("a request");
    let outcome = match needs(&msg) {
        Need::Sectors => Outcome::Sectors(sectors()),
        _ => Outcome::Nothing,
    };
    d.handle(&msg, outcome, &vec![]).to_string()
}

#[test]
fn lookup_of_a_user_by_name() {
    let mut d = daemon();
    assert_eq!(ask(&mut d, "c:pw:name=alice"), "d:pw:alice:1001:500:/home/alice:/bin/bash");
    assert_eq!(ask(&mut d, "c:pw:name=carol"), "d:pw:carol:1003:200:/home/carol:/bin/bash");
    assert_eq!(ask(&mut d, "c:pw:name=dave"), "d:error:not found");
}

#[test]
fn lookup_of_a_user_by_uid_takes_the_first_group() {
    let mut d = daemon();
    assert_eq!(ask(&mut d, "c:pw:uid=1002"), "d:pw:bob:1002:500:/home/bob:/bin/bash");
    assert_eq!(ask(&mut d, "c:pw:uid=1003"), "d:pw:carol:1003:200:/home/carol:/bin/bash");
    assert_eq!(ask(&mut d, "c:pw:uid=1"), "d:error:not found");
}

#[test]
fn the_group_declared_first_wins_for_a_shared_login() {
    let mut d = daemon();
    assert_eq!(ask(&mut d, "c:pw:name=bob"), "d:pw:bob:1002:500:/home/bob:/bin/bash");
    let mut turned = sectors();
    turned.reverse();
    let msg = ClientMessage::Pw(Pw::Nam(String::from("bob")));
    let reply = d.handle(&msg, Outcome::Sectors(turned), &vec![]);
    assert_eq!(reply.to_string(), "d:pw:bob:1002:200:/home/bob:/bin/bash");
}

#[test]
fn lookup_of_a_group() {
    let mut d = daemon();
    assert_eq!(ask(&mut d, "c:gr:gid=200"), "d:gr:200:rA:R\t\t\t1002:bob 1003:carol");
    assert_eq!(ask(&mut d, "c:gr:gid=500"), "d:gr:100:tA:T\t500\tteamA\t1001:alice 1002:bob");
    assert_eq!(ask(&mut d, "c:gr:gid=100"), "d:error:not found");
    assert_eq!(ask(&mut d, "c:gr:name=teamA"), "d:gr:100:tA:T\t500\tteamA\t1001:alice 1002:bob");
    assert_eq!(ask(&mut d, "c:gr:name=rA"), "d:gr:200:rA:R\t\t\t1002:bob 1003:carol");
    assert_eq!(ask(&mut d, "c:gr:name=tA"), "d:error:not found");
}

#[test]
fn lookup_of_a_shadow_entry() {
    let mut d = daemon();
    assert_eq!(ask(&mut d, "c:sp:name=alice"), "d:sp:alice:*");
    assert_eq!(ask(&mut d, "c:sp:name=nobody"), "d:error:not found");
}

#[test]
fn enumeration_of_users() {
    let mut d = daemon();
    assert_eq!(ask(&mut d, "c:pw:ent=set|7"), "d:success");
    assert_eq!(ask(&mut d, "c:pw:ent=get|7"), "d:pw:alice:1001:500:/home/alice:/bin/bash");
    assert_eq!(ask(&mut d, "c:pw:ent=get|7"), "d:pw:bob:1002:500:/home/bob:/bin/bash");
    assert_eq!(ask(&mut d, "c:pw:ent=get|7"), "d:pw:bob:1002:200:/home/bob:/bin/bash");
    assert_eq!(ask(&mut d, "c:pw:ent=get|7"), "d:pw:carol:1003:200:/home/carol:/bin/bash");
    assert_eq!(ask(&mut d, "c:pw:ent=get|7"), "d:error:not found");
    assert_eq!(ask(&mut d, "c:pw:ent=get|7"), "d:error:not found");
    assert_eq!(ask(&mut d, "c:pw:ent=end|7"), "d:success");
    assert_eq!(ask(&mut d, "c:pw:ent=get|7"), "d:error:not found");
}

#[test]
fn enumeration_of_groups_and_shadow_entries() {
    let mut d = daemon();
    assert_eq!(ask(&mut d, "c:gr:ent=set|9"), "d:success");
    assert_eq!(ask(&mut d, "c:sp:ent=set|9"), "d:success");
    assert_eq!(ask(&mut d, "c:gr:ent=get|9"), "d:gr:100:tA:T\t500\tteamA\t1001:alice 1002:bob");
    assert_eq!(ask(&mut d, "c:sp:ent=get|9"), "d:sp:alice:*");
    assert_eq!(ask(&mut d, "c:gr:ent=get|9"), "d:gr:200:rA:R\t\t\t1002:bob 1003:carol");
    assert_eq!(ask(&mut d, "c:gr:ent=get|9"), "d:error:not found");
    assert_eq!(ask(&mut d, "c:sp:ent=get|9"), "d:sp:bob:*");
    assert_eq!(ask(&mut d, "c:sp:ent=get|9"), "d:sp:bob:*");
    assert_eq!(ask(&mut d, "c:sp:ent=get|9"), "d:sp:carol:*");
    assert_eq!(ask(&mut d, "c:sp:ent=get|9"), "d:error:not found");
    assert_eq!(ask(&mut d, "c:gr:ent=end|9"), "d:success");
    assert_eq!(ask(&mut d, "c:sp:ent=end|9"), "d:success");
}

#[test]
fn get_without_set_finds_nothing() {
    let mut d = daemon();
    assert_eq!(ask(&mut d, "c:pw:ent=get|1"), "d:error:not found");
    assert_eq!(ask(&mut d, "c:pw:ent=end|1"), "d:success");
}

#[test]
fn set_again_starts_anew() {
    let mut d = daemon();
    assert_eq!(ask(&mut d, "c:pw:ent=set|7"), "d:success");
    assert_eq!(ask(&mut d, "c:pw:ent=get|7"), "d:pw:alice:1001:500:/home/alice:/bin/bash");
    assert_eq!(ask(&mut d, "c:pw:ent=get|7"), "d:pw:bob:1002:500:/home/bob:/bin/bash");
    assert_eq!(ask(&mut d, "c:pw:ent=set|7"), "d:success");
    assert_eq!(ask(&mut d, "c:pw:ent=get|7"), "d:pw:alice:1001:500:/home/alice:/bin/bash");
}

#[test]
fn callers_that_enumerate_side_by_side_do_not_interfere() {
    let mut d = daemon();
    assert_eq!(ask(&mut d, "c:pw:ent=set|1"), "d:success");
    assert_eq!(ask(&mut d, "c:pw:ent=get|1"), "d:pw:alice:1001:500:/home/alice:/bin/bash");
    assert_eq!(ask(&mut d, "c:pw:ent=set|2"), "d:success");
    assert_eq!(ask(&mut d, "c:pw:ent=get|2"), "d:pw:alice:1001:500:/home/alice:/bin/bash");
    assert_eq!(ask(&mut d, "c:pw:ent=get|1"), "d:pw:bob:1002:500:/home/bob:/bin/bash");
    assert_eq!(ask(&mut d, "c:pw:ent=end|2"), "d:success");
    assert_eq!(ask(&mut d, "c:pw:ent=get|1"), "d:pw:bob:1002:200:/home/bob:/bin/bash");
    assert_eq!(ask(&mut d, "c:pw:ent=get|2"), "d:error:not found");
    assert_eq!(ask(&mut d, "c:pw:ent=get|1"), "d:pw:carol:1003:200:/home/carol:/bin/bash");
    assert_eq!(ask(&mut d, "c:pw:ent=get|1"), "d:error:not found");
}

#[test]
fn own_settings_of_a_user() {
    let probes = vec![
        UserProbe {
            login: String::from("alice"),
            conf: Some(UserConfig {
                sh: Some(String::from("/bin/zsh")),
                pass: Some(String::from("$6$hash")),
            }),
            sh_exists: true,
        },
        UserProbe {
            login: String::from("bob"),
            conf: Some(UserConfig { sh: Some(String::from("/bin/nope")), pass: None }),
            sh_exists: false,
        },
        UserProbe { login: String::from("carol"), conf: None, sh_exists: true },
    ];
    let mut d = daemon();
    let pw = |d: &mut Daemon, name: &str| {
        d.handle_pw(&Pw::Nam(String::from(name)), &sectors(), &probes).to_string()
    };
    assert_eq!(pw(&mut d, "alice"), "d:pw:alice:1001:500:/home/alice:/bin/zsh");
    assert_eq!(pw(&mut d, "bob"), "d:pw:bob:1002:500:/home/bob:/bin/bash");
    assert_eq!(pw(&mut d, "carol"), "d:pw:carol:1003:200:/home/carol:/bin/bash");
    let sp = |d: &mut Daemon, name: &str| {
        d.handle_sp(&Sp::Nam(String::from(name)), &sectors(), &probes).to_string()
    };
    assert_eq!(sp(&mut d, "alice"), "d:sp:alice:$6$hash");
    assert_eq!(sp(&mut d, "bob"), "d:sp:bob:*");
    assert_eq!(sp(&mut d, "carol"), "d:sp:carol:*");
}

#[test]
fn the_other_requests() {
    let mut d = daemon();
    let none: Vec<UserProbe> = vec![];
    let key = ClientMessage::Key { user: String::from("alice") };
    let keys = Outcome::Keys(vec![String::from("ssh-rsa A"), String::from("ssh-rsa B")]);
    assert_eq!(d.handle(&key, keys, &none).to_string(), "d:key:ssh-rsa A\nssh-rsa B");
    assert_eq!(d.handle(&key, Outcome::Failed, &none).to_string(), "d:error:get key failed");
    let pam = ClientMessage::Pam { user: String::from("carol") };
    assert_eq!(d.handle(&pam, Outcome::Sectors(sectors()), &none).to_string(), "d:pam:true");
    let pam = ClientMessage::Pam { user: String::from("dave") };
    assert_eq!(d.handle(&pam, Outcome::Sectors(sectors()), &none).to_string(), "d:pam:false");
    assert_eq!(d.handle(&pam, Outcome::Failed, &none).to_string(), "d:error:check pam failed");
    let clean = ClientMessage::CleanUp;
    assert_eq!(d.handle(&clean, Outcome::Cleared, &none).to_string(), "d:success");
    assert_eq!(d.handle(&clean, Outcome::Failed, &none).to_string(), "d:error:clean up failed");
    let rate = ClientMessage::RateLimit;
    let rl = RateLimit { rate: Rate { limit: 60, remaining: 59, reset: 1234 } };
    assert_eq!(d.handle(&rate, Outcome::RateLimit(rl), &none).to_string(), "d:ratelimit:60:59:1234");
    assert_eq!(
        d.handle(&rate, Outcome::Failed, &none).to_string(),
        "d:error:get rate limit failed"
    );
    let list = ClientMessage::SectorGroups;
    assert_eq!(
        d.handle(&list, Outcome::Sectors(sectors()), &none).to_string(),
        "d:sectors:100:tA:T\t500\tteamA\t1001:alice 1002:bob\n200:rA:R\t\t\t1002:bob 1003:carol"
    );
    assert_eq!(d.handle(&list, Outcome::Failed, &none).to_string(), "d:error:get sectors failed");
    let cont = ClientMessage::Cont;
    assert_eq!(d.handle(&cont, Outcome::Nothing, &none).to_string(), "d:error:unexpected cont");
    let pw = ClientMessage::Pw(Pw::Nam(String::from("alice")));
    assert_eq!(d.handle(&pw, Outcome::Failed, &none).to_string(), "d:error:not found");
}

#[test]
fn what_a_request_needs() {
    let need = |text: &str| needs(&ClientMessage::from_str(text).unwrap());
    assert_eq!(need("c:cont"), Need::Nothing);
    assert_eq!(need("c:key:a"), Need::Keys);
    assert_eq!(need("c:pam:a"), Need::Sectors);
    assert_eq!(need("c:cleanup"), Need::ClearCaches);
    assert_eq!(need("c:ratelimit"), Need::RateLimit);
    assert_eq!(need("c:sectors"), Need::Sectors);
    assert_eq!(need("c:pw:uid=1"), Need::Sectors);
    assert_eq!(need("c:pw:ent=set|1"), Need::Sectors);
    assert_eq!(need("c:pw:ent=get|1"), Need::Nothing);
    assert_eq!(need("c:sp:ent=end|1"), Need::Nothing);
    assert_eq!(need("c:gr:name=g"), Need::Sectors);
    assert_eq!(need("c:gr:ent=get|1"), Need::Nothing);
}

#[test]
fn the_logins_to_look_up_on_disk() {
    let gs = sectors();
    let of = |m: ClientMessage| logins_for(&m, &gs);
    assert_eq!(of(ClientMessage::Pw(Pw::Nam(String::from("bob")))), vec!["bob"]);
    assert_eq!(of(ClientMessage::Pw(Pw::Nam(String::from("dave")))), Vec::<String>::new());
    assert_eq!(of(ClientMessage::Pw(Pw::Uid(1003))), vec!["carol"]);
    assert_eq!(of(ClientMessage::Sp(Sp::Nam(String::from("alice")))), vec!["alice"]);
    assert_eq!(
        of(ClientMessage::Pw(Pw::Ent(Ent::Start(1)))),
        vec!["alice", "bob", "bob", "carol"]
    );
    assert_eq!(
        of(ClientMessage::Sp(Sp::Ent(Ent::Start(1)))),
        vec!["alice", "bob", "bob", "carol"]
    );
    assert_eq!(of(ClientMessage::Pw(Pw::Ent(Ent::Get(1)))), Vec::<String>::new());
    assert_eq!(of(ClientMessage::Gr(Gr::Gid(200))), Vec::<String>::new());
    assert_eq!(of(ClientMessage::Gr(Gr::Ent(Ent::Start(1)))), Vec::<String>::new());
}

#[test]
fn the_login_check_is_the_union_of_the_groups() {
    let gs = sectors();
    assert!(check_pam(&gs, "alice"));
    assert!(check_pam(&gs, "bob"));
    assert!(check_pam(&gs, "carol"));
    assert!(!check_pam(&gs, "dave"));
    assert!(!check_pam(&vec![], "alice"));
}

#[test]
fn a_reply_of_the_daemon_is_read_by_the_client() {
    let mut d = daemon();
    let text = ask(&mut d, "c:pw:uid=1002");
    match DaemonMessage::from_str(&text) {
        Ok(DaemonMessage::Pw { login, uid, gid, home, sh }) => {
            assert_eq!(login, "bob");
            assert_eq!(uid, 1002);
            assert_eq!(gid, 500);
            assert_eq!(home, "/home/bob");
            assert_eq!(sh, "/bin/bash");
        }
        other => panic!("unexpected {:?}", other),
    }
}

#[test]
fn a_datagram_that_is_no_request_is_answered_with_an_error() {
    match read_request("c:pw:name=alice") {
        Ok(m) => assert_eq!(m.to_string(), "c:pw:name=alice"),
        Err(r) => panic!("unexpected {:?}", r),
    }
    for text in ["", "hello", "d:success", "c:pw:uid=x"] {
        match read_request(text) {
            Err(reply) => assert_eq!(reply.to_string(), "d:error:unreadable request"),
            Ok(m) => panic!("unexpected {:?}", m),
        }
    }
}

#[test]
fn the_cursor_of_one_caller_is_all_that_a_get_touches() {
    let mut d = daemon();
    assert_eq!(ask(&mut d, "c:pw:ent=set|1"), "d:success");
    assert_eq!(ask(&mut d, "c:pw:ent=set|2"), "d:success");
    assert_eq!(ask(&mut d, "c:gr:ent=set|1"), "d:success");
    let alice = "d:pw:alice:1001:500:/home/alice:/bin/bash";
    assert_eq!(d.get_msg(Kind::Pw, 1).to_string(), alice);
    assert_eq!(d.get_msg(Kind::Pw, 2).to_string(), alice);
    assert_eq!(d.get_msg(Kind::Sp, 1).to_string(), "d:error:not found");
    assert_eq!(d.clear_cache(Kind::Pw, 1).to_string(), "d:success");
    assert_eq!(d.get_msg(Kind::Pw, 1).to_string(), "d:error:not found");
    assert_eq!(d.get_msg(Kind::Pw, 2).to_string(), "d:pw:bob:1002:500:/home/bob:/bin/bash");
    assert_eq!(
        d.get_msg(Kind::Gr, 1).to_string(),
        "d:gr:100:tA:T\t500\tteamA\t1001:alice 1002:bob"
    );
}

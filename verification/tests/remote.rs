use sectora::cli::{finish, request_for, Command};
use sectora::error::{ConfigError, SectoraError};
use sectora::ghclient::{
    authorization, cache_path, collaborators_url, connect_request, default_port, get_sectors,
    is_success, keys_url, page_url, plan, public_keys, rate_limit_url, repos_url,
    team_members_url, teams_url, tunnel_open, user_agent_of, wanted, Action, CacheEntry, Event,
    Fetch, PageStep, Pages, Plan,
};
use sectora::message::DaemonMessage;
use sectora::structs::{
    default_cache_duration, default_cert_path, default_endpoint, default_home, default_repo,
    default_sh, default_socket_dir, default_socket_path, default_team, default_user_conf_path,
    Config, Member, PublicKey, Repo, RepoConfig, Sector, SectorType, Team, TeamConfig,
};

fn conf() -> Config {
    let mut c = Config::with_defaults(String::from("secret"), String::from("org"), "/tmp");
    c.team = vec![
        TeamConfig { name: String::from("tA"), gid: Some(500), group: Some(String::from("teamA")) },
        TeamConfig { name: String::from("gone"), gid: None, group: None },
    ];
    c.repo = vec![RepoConfig { name: String::from("rA"), gid: None, group: None }];
    c
}

#[test]
fn the_defaults() {
    assert_eq!(default_team().len(), 0);
    assert_eq!(default_repo().len(), 0);
    assert_eq!(default_endpoint(), "https://api.github.com");
    assert_eq!(default_home(), "/home/{}");
    assert_eq!(default_sh(), "/bin/bash");
    assert_eq!(default_cache_duration(), 3600);
    assert_eq!(default_cert_path(), "/etc/ssl/certs/ca-certificates.crt");
    assert_eq!(default_user_conf_path(), ".config/sectora.toml");
    assert_eq!(default_socket_path("/tmp"), "/tmp/sectorad");
    assert_eq!(default_socket_dir("/tmp"), "/tmp/sectora");
    let c = Config::with_defaults(String::from("t"), String::from("o"), "/var/tmp/");
    assert_eq!(c.token, "t");
    assert_eq!(c.org, "o");
    assert_eq!(c.socket_path, "/var/tmp/sectorad");
    assert_eq!(c.socket_dir, "/var/tmp/sectora");
    assert_eq!(c.proxy_url, None);
    assert_eq!(c.cache_duration, 3600);
}

#[test]
fn the_addresses_of_the_remote_service() {
    let e = "https://api.github.com";
    assert_eq!(keys_url(e, "alice"), "https://api.github.com/users/alice/keys");
    assert_eq!(teams_url(e, "org"), "https://api.github.com/orgs/org/teams");
    assert_eq!(team_members_url(e, 100), "https://api.github.com/teams/100/members");
    assert_eq!(repos_url(e, "org"), "https://api.github.com/orgs/org/repos");
    assert_eq!(
        collaborators_url(e, "org", "rA"),
        "https://api.github.com/repos/org/rA/collaborators?affiliation=outside"
    );
    assert_eq!(rate_limit_url(e), "https://api.github.com/rate_limit");
    assert_eq!(page_url("https://h/teams", 1), "https://h/teams?page=1");
    assert_eq!(page_url("https://h/c?affiliation=outside", 12), "https://h/c?affiliation=outside&page=12");
    assert_eq!(authorization("secret"), "token secret");
    assert_eq!(user_agent_of(), "sectora");
    assert_eq!(cache_path("/var/cache/sectora", "https://h/teams"), "/var/cache/sectora/https://h/teams");
}

fn entry(age: Option<u64>, contents: &str) -> Option<CacheEntry> {
    Some(CacheEntry { age, contents: String::from(contents) })
}

fn served(p: Plan) -> Option<String> {
    match p {
        Plan::Serve(c) => Some(c),
        Plan::Fetch => None,
    }
}

#[test]
fn a_fresh_entry_is_served_without_asking() {
    assert_eq!(served(plan(&entry(Some(0), "[1]"), 3600)), Some(String::from("[1]")));
    assert_eq!(served(plan(&entry(Some(3600), "[1]"), 3600)), Some(String::from("[1]")));
    assert_eq!(served(plan(&entry(None, "[2]"), 3600)), Some(String::from("[2]")));
    assert_eq!(served(plan(&entry(Some(0), ""), 0)), Some(String::from("")));
}

#[test]
fn a_stale_or_missing_entry_is_fetched() {
    assert_eq!(served(plan(&entry(Some(3601), "[1]"), 3600)), None);
    assert_eq!(served(plan(&entry(Some(86400), "[1]"), 3600)), None);
    assert_eq!(served(plan(&None, 3600)), None);
}

fn io_failure() -> SectoraError {
    SectoraError::Io(std::io::Error::new(std::io::ErrorKind::Other, "500"))
}

fn contents_of(action: Action) -> Option<String> {
    match action {
        Action::Done(Ok(contents)) => Some(contents),
        other => panic!("unexpected {:?}", other),
    }
}

#[test]
fn a_fresh_entry_ends_the_fetch_at_once() {
    let (mut fetch, action) = Fetch::start("https://h/orgs/o/teams", entry(Some(10), "[7]"), 3600);
    assert_eq!(contents_of(action), Some(String::from("[7]")));
    assert!(matches!(fetch.step(Event::Stored), Action::Nothing));
    assert!(matches!(fetch.step(Event::Body(b"[]".to_vec())), Action::Nothing));
    assert!(matches!(fetch.step(Event::Failed(io_failure())), Action::Nothing));
}

#[test]
fn stale_contents_stand_in_for_a_failed_fetch() {
    let day_old = entry(Some(86400), "[{\"id\":100,\"name\":\"tA\"}]");
    let (mut fetch, action) = Fetch::start("https://h/orgs/o/teams", day_old, 3600);
    match action {
        Action::Request(url) => assert_eq!(url, "https://h/orgs/o/teams?page=1"),
        other => panic!("unexpected {:?}", other),
    }
    let action = fetch.step(Event::Failed(io_failure()));
    assert_eq!(contents_of(action), Some(String::from("[{\"id\":100,\"name\":\"tA\"}]")));
    assert!(matches!(fetch.step(Event::Stored), Action::Nothing));
}

#[test]
fn stale_contents_stand_in_for_an_answer_that_is_no_listing() {
    let (mut fetch, _) = Fetch::start("https://h/t", entry(Some(86400), "[1]"), 3600);
    let action = fetch.step(Event::Body(b"{\"message\":\"Server Error\"}".to_vec()));
    assert_eq!(contents_of(action), Some(String::from("[1]")));
    let (mut fetch, _) = Fetch::start("https://h/t", entry(Some(86400), "[1]"), 3600);
    assert!(matches!(fetch.step(Event::Body(b"[2]".to_vec())), Action::Request(_)));
    assert!(matches!(fetch.step(Event::Body(b"[]".to_vec())), Action::Store(_)));
    let action = fetch.step(Event::Failed(io_failure()));
    assert_eq!(contents_of(action), Some(String::from("[1]")));
}

#[test]
fn a_fetch_without_cache_fails_where_the_remote_service_fails() {
    let (mut fetch, _) = Fetch::start("https://h/t", None, 3600);
    match fetch.step(Event::Failed(io_failure())) {
        Action::Done(Err(SectoraError::Io(_))) => {}
        other => panic!("unexpected {:?}", other),
    }
    let (mut fetch, _) = Fetch::start("https://h/t", None, 3600);
    match fetch.step(Event::Body(b"oops".to_vec())) {
        Action::Done(Err(SectoraError::Serde(_))) => {}
        other => panic!("unexpected {:?}", other),
    }
}

#[test]
fn a_fetch_goes_through_the_pages_and_stores_what_it_got() {
    let (mut fetch, action) = Fetch::start("https://h/t?x=1", entry(Some(4000), "[]"), 3600);
    match action {
        Action::Request(url) => assert_eq!(url, "https://h/t?x=1&page=1"),
        other => panic!("unexpected {:?}", other),
    }
    match fetch.step(Event::Body(b"[1,2]".to_vec())) {
        Action::Request(url) => assert_eq!(url, "https://h/t?x=1&page=2"),
        other => panic!("unexpected {:?}", other),
    }
    match fetch.step(Event::Stored) {
        Action::Request(url) => assert_eq!(url, "https://h/t?x=1&page=2"),
        other => panic!("unexpected {:?}", other),
    }
    match fetch.step(Event::Body(b"[3]".to_vec())) {
        Action::Request(url) => assert_eq!(url, "https://h/t?x=1&page=3"),
        other => panic!("unexpected {:?}", other),
    }
    match fetch.step(Event::Body(b"[]".to_vec())) {
        Action::Store(contents) => assert_eq!(contents, "[1,2,3]"),
        other => panic!("unexpected {:?}", other),
    }
    match fetch.step(Event::Body(b"[9]".to_vec())) {
        Action::Store(contents) => assert_eq!(contents, "[1,2,3]"),
        other => panic!("unexpected {:?}", other),
    }
    assert_eq!(contents_of(fetch.step(Event::Stored)), Some(String::from("[1,2,3]")));
    assert!(matches!(fetch.step(Event::Stored), Action::Nothing));
}

#[test]
fn pages_are_put_together() {
    let mut pages = Pages::new();
    assert_eq!(pages.page(), 1);
    match pages.accept(&b"[{\"id\":1,\"login\":\"a\"},{\"id\":2,\"login\":\"b\"}]".to_vec()) {
        PageStep::Next(2) => {}
        other => panic!("unexpected {:?}", other),
    }
    assert_eq!(pages.page(), 2);
    match pages.accept(&b" [ {\"id\": 3, \"login\": \"c\"} ] ".to_vec()) {
        PageStep::Next(3) => {}
        other => panic!("unexpected {:?}", other),
    }
    match pages.accept(&b"[]".to_vec()) {
        PageStep::Finished(text) => assert_eq!(
            text,
            "[{\"id\":1,\"login\":\"a\"},{\"id\":2,\"login\":\"b\"},{\"id\":3,\"login\":\"c\"}]"
        ),
        other => panic!("unexpected {:?}", other),
    }
}

#[test]
fn an_empty_listing() {
    let mut pages = Pages::new();
    match pages.accept(&b"[]".to_vec()) {
        PageStep::Finished(text) => assert_eq!(text, "[]"),
        other => panic!("unexpected {:?}", other),
    }
}

#[test]
fn a_page_that_is_no_array_fails_the_fetch() {
    for body in ["", "{\"message\":\"Bad credentials\"}", "[1,", "null", "<html>"] {
        let mut pages = Pages::new();
        match pages.accept(&b"[1]".to_vec()) {
            PageStep::Next(2) => {}
            other => panic!("unexpected {:?}", other),
        }
        match pages.accept(&body.as_bytes().to_vec()) {
            PageStep::Failed(SectoraError::Serde(_)) => {}
            other => panic!("unexpected {:?}", other),
        }
        assert_eq!(pages.page(), 2);
    }
}

#[test]
fn the_keys_of_a_listing() {
    let keys = vec![
        PublicKey { id: 1, key: String::from("ssh-rsa A") },
        PublicKey { id: 2, key: String::from("ssh-ed25519 B") },
    ];
    assert_eq!(public_keys(&keys), vec!["ssh-rsa A", "ssh-ed25519 B"]);
    assert_eq!(public_keys(&vec![]), Vec::<String>::new());
}

fn member(id: u64, login: &str) -> Member {
    Member { id, login: String::from(login) }
}

#[test]
fn the_groups_are_the_declared_sectors_that_are_listed() {
    let teams = vec![
        Team { id: 1, name: String::from("other") },
        Team { id: 99, name: String::from("tA") },
        Team { id: 100, name: String::from("tA") },
    ];
    let repos = vec![Repo { id: 200, name: String::from("rA") }];
    let ws = wanted(&conf(), &teams, &repos);
    assert_eq!(ws.len(), 2);
    assert_eq!(ws[0].sector.id, 100);
    assert_eq!(ws[0].sector.sector_type, SectorType::Team);
    assert_eq!(ws[0].gid, Some(500));
    assert_eq!(ws[0].url, "https://api.github.com/teams/100/members");
    assert_eq!(ws[1].sector.id, 200);
    assert_eq!(ws[1].sector.sector_type, SectorType::Repo);
    assert_eq!(
        ws[1].url,
        "https://api.github.com/repos/org/rA/collaborators?affiliation=outside"
    );
    let lists = vec![
        vec![member(1001, "alice"), member(1002, "bob")],
        vec![member(1002, "bob"), member(1003, "carol"), member(7, "bob")],
    ];
    let gs = get_sectors(&ws, &lists);
    assert_eq!(gs.len(), 2);
    assert_eq!(gs[0].to_string(), "100:tA:T\t500\tteamA\t1001:alice 1002:bob");
    assert_eq!(gs[1].to_string(), "200:rA:R\t\t\t7:bob 1003:carol");
    assert_eq!(get_sectors(&ws, &vec![]).len(), 0);
}

#[test]
fn a_sector_from_a_team_and_from_a_repository() {
    let s = Sector::from(Team { id: 100, name: String::from("tA") });
    assert_eq!(s.to_string(), "100:tA:T");
    let s = Sector::from(Repo { id: 200, name: String::from("rA") });
    assert_eq!(s.to_string(), "200:rA:R");
}

fn done(cmd: &Command, pam: bool, check: bool, reply: &str) -> (i32, Option<String>) {
    let reply = if reply.is_empty() { None } else { DaemonMessage::from_str(reply).ok() };
    let f = finish(cmd, pam, check, &reply, "1.2.3");
    (f.code, f.output)
}

#[test]
fn the_exit_codes_of_the_control_program() {
    let key = Command::Key { user: String::from("alice") };
    assert_eq!(done(&key, false, false, "d:key:ssh-rsa A"), (0, Some(String::from("ssh-rsa A"))));
    assert_eq!(done(&key, false, false, "d:error:get key failed"), (21, None));
    assert_eq!(done(&key, false, false, ""), (21, None));
    assert_eq!(done(&Command::Pam, true, false, "d:pam:true"), (0, None));
    assert_eq!(done(&Command::Pam, true, false, "d:pam:false"), (1, None));
    assert_eq!(done(&Command::Pam, true, false, "d:error:check pam failed"), (31, None));
    assert_eq!(done(&Command::Pam, true, false, ""), (31, None));
    assert_eq!(done(&Command::Pam, false, false, "d:pam:true"), (41, None));
    assert_eq!(done(&Command::Check, false, true, ""), (0, None));
    assert_eq!(done(&Command::Check, false, false, ""), (11, None));
    assert_eq!(done(&Command::CleanUp, false, false, "d:success"), (0, None));
    assert_eq!(done(&Command::CleanUp, false, false, "d:error:clean up failed"), (51, None));
    assert_eq!(done(&Command::CleanUp, false, false, ""), (51, None));
    assert_eq!(
        done(&Command::RateLimit, false, false, "d:ratelimit:5000:4999:170"),
        (0, Some(String::from("remaining: 4999/5000, reset:170")))
    );
    assert_eq!(done(&Command::RateLimit, false, false, "d:success"), (61, None));
    assert_eq!(done(&Command::Version, false, false, ""), (0, Some(String::from("1.2.3"))));
    assert_eq!(done(&Command::Completion, false, false, ""), (0, None));
}

#[test]
fn the_requests_of_the_control_program() {
    let text = |c: &Command, user: Option<&str>| {
        request_for(c, &user.map(String::from)).map(|m| m.to_string())
    };
    let key = Command::Key { user: String::from("alice") };
    assert_eq!(text(&key, None), Some(String::from("c:key:alice")));
    assert_eq!(text(&Command::Pam, Some("bob")), Some(String::from("c:pam:bob")));
    assert_eq!(text(&Command::Pam, None), None);
    assert_eq!(text(&Command::CleanUp, None), Some(String::from("c:cleanup")));
    assert_eq!(text(&Command::RateLimit, None), Some(String::from("c:ratelimit")));
    assert_eq!(text(&Command::Check, None), None);
    assert_eq!(text(&Command::Version, None), None);
    assert_eq!(text(&Command::Completion, None), None);
}

fn raw(token: Option<&str>, org: Option<&str>) -> sectora::structs::RawConfig {
    sectora::structs::RawConfig {
        token: token.map(String::from),
        org: org.map(String::from),
        team: None,
        repo: None,
        endpoint: None,
        home: None,
        sh: None,
        cache_duration: None,
        cert_path: None,
        user_conf_path: None,
        socket_path: None,
        socket_dir: None,
        proxy_url: None,
    }
}

#[test]
fn a_configuration_needs_token_and_organization() {
    assert_eq!(Config::resolve(raw(None, Some("o")), "/tmp").err(), Some(ConfigError::MissingToken));
    assert_eq!(Config::resolve(raw(None, None), "/tmp").err(), Some(ConfigError::MissingToken));
    assert_eq!(Config::resolve(raw(Some("t"), None), "/tmp").err(), Some(ConfigError::MissingOrg));
    let c = Config::resolve(raw(Some("t"), Some("o")), "/tmp").unwrap();
    assert_eq!((c.token.as_str(), c.org.as_str()), ("t", "o"));
    assert_eq!(c.endpoint, "https://api.github.com");
    assert_eq!(c.home, "/home/{}");
    assert_eq!(c.sh, "/bin/bash");
    assert_eq!(c.cache_duration, 3600);
    assert_eq!(c.cert_path, "/etc/ssl/certs/ca-certificates.crt");
    assert_eq!(c.user_conf_path, ".config/sectora.toml");
    assert_eq!(c.socket_path, "/tmp/sectorad");
    assert_eq!(c.socket_dir, "/tmp/sectora");
    assert_eq!(c.proxy_url, None);
    assert!(c.team.is_empty() && c.repo.is_empty());
}

#[test]
fn what_is_set_stands() {
    let mut r = raw(Some("t"), Some("o"));
    r.team = Some(vec![TeamConfig { name: String::from("tA"), gid: Some(500), group: None }]);
    r.endpoint = Some(String::from("https://ghe.example/api/v3"));
    r.home = Some(String::from("/users/{}"));
    r.sh = Some(String::from("/bin/zsh"));
    r.cache_duration = Some(0);
    r.socket_path = Some(String::from("/run/sectorad"));
    r.proxy_url = Some(String::from("http://proxy:3128"));
    let c = Config::resolve(r, "/tmp").unwrap();
    assert_eq!(c.team.len(), 1);
    assert_eq!(c.team[0].name, "tA");
    assert_eq!(c.endpoint, "https://ghe.example/api/v3");
    assert_eq!(c.home, "/users/{}");
    assert_eq!(c.sh, "/bin/zsh");
    assert_eq!(c.cache_duration, 0);
    assert_eq!(c.socket_path, "/run/sectorad");
    assert_eq!(c.socket_dir, "/tmp/sectora");
    assert_eq!(c.proxy_url, Some(String::from("http://proxy:3128")));
}

#[test]
fn the_path_of_the_configuration_file() {
    assert_eq!(sectora::structs::conf_path(None), "/etc/sectora.conf");
    assert_eq!(sectora::structs::conf_path(Some(String::from("/x/y.conf"))), "/x/y.conf");
}

#[test]
fn errors_from_outside_are_kept() {
    let e = SectoraError::from(std::io::Error::new(std::io::ErrorKind::NotFound, "gone"));
    assert!(matches!(e, SectoraError::Io(_)));
    let bad = serde_json::from_str::<serde_json::Value>("{").unwrap_err();
    assert!(matches!(SectoraError::from(bad), SectoraError::Serde(_)));
    let bad = toml::from_str::<toml::Value>("token =").unwrap_err();
    assert!(matches!(SectoraError::from(bad), SectoraError::Toml(_)));
    let e = SectoraError::from(sectora::error::ParseMessageError::ParseDaemonMessageError);
    assert!(matches!(
        e,
        SectoraError::ParseMessageError(sectora::error::ParseMessageError::ParseDaemonMessageError)
    ));
}

#[test]
fn only_the_statuses_of_success_give_a_page() {
    assert!(is_success(200));
    assert!(is_success(204));
    assert!(is_success(299));
    assert!(!is_success(199));
    assert!(!is_success(300));
    assert!(!is_success(401));
    assert!(!is_success(500));
    assert!(!is_success(0));
}

#[test]
fn a_tunnel_through_a_proxy() {
    assert_eq!(
        connect_request("api.github.com", 443),
        "CONNECT api.github.com:443 HTTP/1.1\r\nHost: api.github.com:443\r\n\r\n"
    );
    assert!(tunnel_open("HTTP/1.1 200 Connection established\r\n\r\n"));
    assert!(tunnel_open("HTTP/1.0 200 OK\r\n\r\n"));
    assert!(!tunnel_open("HTTP/1.1 407 Proxy Authentication Required\r\n\r\n"));
    assert!(!tunnel_open("HTTP/1.1 502 Bad Gateway\r\n\r\n"));
    assert!(!tunnel_open(""));
    assert_eq!(default_port(true), 443);
    assert_eq!(default_port(false), 80);
}

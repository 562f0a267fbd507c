use vstd::prelude::*;
use crate::error::SectoraError;
use crate::seqs::{last_index, lemma_last_index_is};
use crate::structs::{
    collect_members, collected, Config, group_views, Member, member_views, PublicKey, Repo,
    RepoConfig, Sector, SectorGroup, SectorGroupView, SectorType, SectorView, Team, TeamConfig,
};
use crate::text::{contains_char, dec, has_char, join_path, joined_path, str_eq, u64_to_string};

verus! {

/// The name under which the client makes itself known to the remote service.
pub open spec fn user_agent() -> Seq<char> {
    "sectora"@
}

/// The name under which the client makes itself known to the remote service.
pub fn user_agent_of() -> (r: String)
    ensures
        r@ == user_agent(),
{
    String::from_str("sectora")
}

/// The value of the `Authorization` header: `token <token>`.
pub fn authorization(token: &str) -> (r: String)
    ensures
        r@ == "token "@ + token@,
{
    String::from_str("token ").concat(token)
}

/// `<endpoint>/users/<user>/keys`
pub fn keys_url(endpoint: &str, user: &str) -> (r: String)
    ensures
        r@ == endpoint@ + "/users/"@ + user@ + "/keys"@,
{
    String::from_str(endpoint).concat("/users/").concat(user).concat("/keys")
}

/// `<endpoint>/orgs/<org>/teams`
pub fn teams_url(endpoint: &str, org: &str) -> (r: String)
    ensures
        r@ == endpoint@ + "/orgs/"@ + org@ + "/teams"@,
{
    String::from_str(endpoint).concat("/orgs/").concat(org).concat("/teams")
}

/// `<endpoint>/teams/<id>/members`
pub fn team_members_url(endpoint: &str, id: u64) -> (r: String)
    ensures
        r@ == endpoint@ + "/teams/"@ + dec(id as nat) + "/members"@,
{
    let d = u64_to_string(id);
    String::from_str(endpoint).concat("/teams/").concat(d.as_str()).concat("/members")
}

/// `<endpoint>/orgs/<org>/repos`
pub fn repos_url(endpoint: &str, org: &str) -> (r: String)
    ensures
        r@ == endpoint@ + "/orgs/"@ + org@ + "/repos"@,
{
    String::from_str(endpoint).concat("/orgs/").concat(org).concat("/repos")
}

/// `<endpoint>/repos/<org>/<repo>/collaborators?affiliation=outside`
pub fn collaborators_url(endpoint: &str, org: &str, repo: &str) -> (r: String)
    ensures
        r@ == endpoint@ + "/repos/"@ + org@ + "/"@ + repo@ + "/collaborators?affiliation=outside"@,
{
    String::from_str(endpoint).concat("/repos/").concat(org).concat("/").concat(repo).concat(
        "/collaborators?affiliation=outside",
    )
}

/// `<endpoint>/rate_limit`
pub fn rate_limit_url(endpoint: &str) -> (r: String)
    ensures
        r@ == endpoint@ + "/rate_limit"@,
{
    String::from_str(endpoint).concat("/rate_limit")
}

/// Whether a status of the remote service says that the request succeeded: the
/// statuses from 200 to 299 do. An answer with any other status is no page, whatever
/// its body holds.
pub fn is_success(status: u16) -> (r: bool)
    ensures
        r == (200 <= status <= 299),
{
    200 <= status && status <= 299
}

/// The port that an address stands for where it names none.
pub fn default_port(https: bool) -> (r: u16)
    ensures
        r == if https {
            443u16
        } else {
            80u16
        },
{
    if https {
        443
    } else {
        80
    }
}

/// What opens a tunnel to `host:port` through a proxy.
pub open spec fn connect_text(host: Seq<char>, port: u16) -> Seq<char> {
    "CONNECT "@ + host + ":"@ + dec(port as nat) + " HTTP/1.1\r\nHost: "@ + host + ":"@ + dec(
        port as nat,
    ) + "\r\n\r\n"@
}

/// What opens a tunnel to `host:port` through a proxy.
pub fn connect_request(host: &str, port: u16) -> (r: String)
    ensures
        r@ == connect_text(host@, port),
{
    let d = u64_to_string(port as u64);
    let r = String::from_str("CONNECT ").concat(host).concat(":").concat(d.as_str()).concat(
        " HTTP/1.1\r\nHost: ",
    ).concat(host).concat(":").concat(d.as_str()).concat("\r\n\r\n");
    assert(r@ =~= connect_text(host@, port));
    r
}

/// Whether the proxy's answer says that the tunnel is open: its status is 200.
pub fn tunnel_open(head: &str) -> (r: bool)
    ensures
        r == (crate::text::starts_with(head@, "HTTP/1.1 200"@) || crate::text::starts_with(
            head@,
            "HTTP/1.0 200"@,
        )),
{
    let cs = crate::text::chars_of(head);
    crate::text::has_prefix(&cs, "HTTP/1.1 200") || crate::text::has_prefix(&cs, "HTTP/1.0 200")
}

/// The address of one page of a listing: the page number is added as a query, with
/// `&` where the address has a query already and with `?` where it has none.
pub open spec fn paged(url: Seq<char>, page: u64) -> Seq<char> {
    url + (if has_char(url, '?') {
        "&page="@
    } else {
        "?page="@
    }) + dec(page as nat)
}

/// The address of one page of a listing.
pub fn page_url(url: &str, page: u64) -> (r: String)
    ensures
        r@ == paged(url@, page),
{
    let d = u64_to_string(page);
    if contains_char(url, '?') {
        String::from_str(url).concat("&page=").concat(d.as_str())
    } else {
        String::from_str(url).concat("?page=").concat(d.as_str())
    }
}

/// The file that holds what was fetched from `url`: the address as a path below
/// the cache directory.
pub fn cache_path(cache_dir: &str, url: &str) -> (r: String)
    ensures
        r@ == joined_path(cache_dir@, url@),
{
    join_path(cache_dir, url)
}

/// What the cache holds for an address: the contents of the file, and its age in
/// seconds, which is unknown where the file is dated after now.
#[derive(Debug)]
pub struct CacheEntry {
    pub age: Option<u64>,
    pub contents: String,
}

/// What a `CacheEntry` stands for in contracts.
pub struct CacheEntryView {
    pub age: Option<u64>,
    pub contents: Seq<char>,
}

impl View for CacheEntry {
    type V = CacheEntryView;

    open spec fn view(&self) -> CacheEntryView {
        CacheEntryView { age: self.age, contents: self.contents@ }
    }
}

impl CacheEntryView {
    /// An entry is fresh as long as it is not older than the window; one of unknown
    /// age counts as fresh.
    pub open spec fn fresh(self, cache_duration: u64) -> bool {
        match self.age {
            Some(age) => age <= cache_duration,
            None => true,
        }
    }
}

/// What to do for an address, given what the cache holds for it.
#[derive(Debug)]
pub enum Plan {
    /// Answer with these contents; the remote service is not asked.
    Serve(String),
    /// Ask the remote service.
    Fetch,
}

/// What a `Plan` stands for in contracts.
pub enum PlanView {
    Serve(Seq<char>),
    Fetch,
}

impl View for Plan {
    type V = PlanView;

    open spec fn view(&self) -> PlanView {
        match self {
            Plan::Serve(c) => PlanView::Serve(c@),
            Plan::Fetch => PlanView::Fetch,
        }
    }
}

/// Decides whether the remote service is asked: it is not where the cache holds a
/// fresh entry, whose contents are then the answer as they are.
pub fn plan(cache: &Option<CacheEntry>, cache_duration: u64) -> (r: Plan)
    ensures
        r@ == match *cache {
            Some(e) => if e@.fresh(cache_duration) {
                PlanView::Serve(e@.contents)
            } else {
                PlanView::Fetch
            },
            None => PlanView::Fetch,
        },
{
    match cache {
        Some(e) => match e.age {
            Some(age) => if age > cache_duration {
                Plan::Fetch
            } else {
                Plan::Serve(e.contents.clone())
            },
            None => Plan::Serve(e.contents.clone()),
        },
        None => Plan::Fetch,
    }
}

/// The keys of a listing, in its order.
pub fn public_keys(keys: &Vec<PublicKey>) -> (r: Vec<String>)
    ensures
        r@.len() == keys@.len(),
        forall|i: int| 0 <= i < keys@.len() ==> r@[i]@ == keys@[i].key@,
{
    let mut out: Vec<String> = Vec::new();
    let mut i: usize = 0;
    while i < keys.len()
        invariant
            i <= keys.len(),
            out@.len() == i,
            forall|j: int| 0 <= j < i ==> out@[j]@ == keys@[j].key@,
        decreases keys.len() - i,
    {
        out.push(keys[i].key.clone());
        i += 1;
    }
    out
}

/// A team or a repository as the remote service lists it.
pub struct ListedView {
    pub id: u64,
    pub name: Seq<char>,
}

impl View for Team {
    type V = ListedView;

    open spec fn view(&self) -> ListedView {
        ListedView { id: self.id, name: self.name@ }
    }
}

impl View for Repo {
    type V = ListedView;

    open spec fn view(&self) -> ListedView {
        ListedView { id: self.id, name: self.name@ }
    }
}

/// A team or a repository as the administrator declares it.
pub struct DeclaredView {
    pub name: Seq<char>,
    pub gid: Option<u64>,
    pub group: Option<Seq<char>>,
}

impl View for TeamConfig {
    type V = DeclaredView;

    open spec fn view(&self) -> DeclaredView {
        DeclaredView {
            name: self.name@,
            gid: self.gid,
            group: match self.group {
                Some(g) => Some(g@),
                None => None,
            },
        }
    }
}

impl View for RepoConfig {
    type V = DeclaredView;

    open spec fn view(&self) -> DeclaredView {
        DeclaredView {
            name: self.name@,
            gid: self.gid,
            group: match self.group {
                Some(g) => Some(g@),
                None => None,
            },
        }
    }
}

/// What the teams of a vector stand for.
pub open spec fn team_views(v: Seq<Team>) -> Seq<ListedView> {
    Seq::new(v.len(), |i: int| v[i]@)
}

/// What the repositories of a vector stand for.
pub open spec fn repo_views(v: Seq<Repo>) -> Seq<ListedView> {
    Seq::new(v.len(), |i: int| v[i]@)
}

/// What the declared teams of a vector stand for.
pub open spec fn team_config_views(v: Seq<TeamConfig>) -> Seq<DeclaredView> {
    Seq::new(v.len(), |i: int| v[i]@)
}

/// What the declared repositories of a vector stand for.
pub open spec fn repo_config_views(v: Seq<RepoConfig>) -> Seq<DeclaredView> {
    Seq::new(v.len(), |i: int| v[i]@)
}

/// A declared sector that the remote service knows, before its members are
/// fetched: the sector, what it is to be shown as, and the address of its members.
#[derive(Debug)]
pub struct Wanted {
    pub sector: Sector,
    pub gid: Option<u64>,
    pub group: Option<String>,
    pub url: String,
}

/// What a `Wanted` stands for in contracts.
pub struct WantedView {
    pub sector: SectorView,
    pub gid: Option<u64>,
    pub group: Option<Seq<char>>,
    pub url: Seq<char>,
}

impl View for Wanted {
    type V = WantedView;

    open spec fn view(&self) -> WantedView {
        WantedView {
            sector: self.sector@,
            gid: self.gid,
            group: match self.group {
                Some(g) => Some(g@),
                None => None,
            },
            url: self.url@,
        }
    }
}

/// What the wanted sectors of a vector stand for.
pub open spec fn wanted_views(v: Seq<Wanted>) -> Seq<WantedView> {
    Seq::new(v.len(), |i: int| v[i]@)
}

/// The test that a listed team or repository has this name.
pub open spec fn named(name: Seq<char>) -> spec_fn(ListedView) -> bool {
    |l: ListedView| l.name == name
}

/// Where the members of a sector are listed: the members of a team, and of a
/// repository its outside collaborators.
pub open spec fn members_url(
    kind: SectorType,
    endpoint: Seq<char>,
    org: Seq<char>,
    listed: ListedView,
) -> Seq<char> {
    match kind {
        SectorType::Team => endpoint + "/teams/"@ + dec(listed.id as nat) + "/members"@,
        SectorType::Repo => endpoint + "/repos/"@ + org + "/"@ + listed.name
            + "/collaborators?affiliation=outside"@,
    }
}

/// The declared sectors that the remote service lists, in the order of their
/// declaration. One that it does not list is left out; of two listed under one name
/// the later counts.
pub open spec fn wanted_of(
    kind: SectorType,
    endpoint: Seq<char>,
    org: Seq<char>,
    declared: Seq<DeclaredView>,
    listed: Seq<ListedView>,
) -> Seq<WantedView>
    decreases declared.len(),
{
    if declared.len() == 0 {
        Seq::empty()
    } else {
        let front = wanted_of(kind, endpoint, org, declared.drop_last(), listed);
        let d = declared.last();
        let i = last_index(listed, named(d.name));
        if i >= 0 {
            front.push(
                WantedView {
                    sector: SectorView { id: listed[i].id, name: listed[i].name, sector_type: kind },
                    gid: d.gid,
                    group: d.group,
                    url: members_url(kind, endpoint, org, listed[i]),
                },
            )
        } else {
            front
        }
    }
}

/// The place of the last listed team with the name.
fn find_team(teams: &Vec<Team>, name: &str) -> (r: Option<usize>)
    ensures
        match r {
            Some(i) => i < teams.len() && i == last_index(team_views(teams@), named(name@)),
            None => last_index(team_views(teams@), named(name@)) == -1,
        },
{
    let ghost vs = team_views(teams@);
    let ghost p = named(name@);
    let mut i: usize = teams.len();
    while i > 0
        invariant
            i <= teams.len(),
            vs == team_views(teams@),
            p == named(name@),
            forall|j: int| i <= j < teams.len() ==> !p(#[trigger] vs[j]),
        decreases i,
    {
        i -= 1;
        assert(vs[i as int] == teams@[i as int]@);
        if str_eq(teams[i].name.as_str(), name) {
            proof {
                lemma_last_index_is(vs, p, i as int);
            }
            return Some(i);
        }
    }
    proof {
        lemma_last_index_is(vs, p, -1);
    }
    None
}

/// The place of the last listed repository with the name.
fn find_repo(repos: &Vec<Repo>, name: &str) -> (r: Option<usize>)
    ensures
        match r {
            Some(i) => i < repos.len() && i == last_index(repo_views(repos@), named(name@)),
            None => last_index(repo_views(repos@), named(name@)) == -1,
        },
{
    let ghost vs = repo_views(repos@);
    let ghost p = named(name@);
    let mut i: usize = repos.len();
    while i > 0
        invariant
            i <= repos.len(),
            vs == repo_views(repos@),
            p == named(name@),
            forall|j: int| i <= j < repos.len() ==> !p(#[trigger] vs[j]),
        decreases i,
    {
        i -= 1;
        assert(vs[i as int] == repos@[i as int]@);
        if str_eq(repos[i].name.as_str(), name) {
            proof {
                lemma_last_index_is(vs, p, i as int);
            }
            return Some(i);
        }
    }
    proof {
        lemma_last_index_is(vs, p, -1);
    }
    None
}

fn clone_group(group: &Option<String>) -> (r: Option<String>)
    ensures
        r == *group,
{
    match group {
        Some(g) => Some(g.clone()),
        None => None,
    }
}

/// The declared teams that the remote service lists.
pub fn wanted_teams(conf: &Config, teams: &Vec<Team>) -> (r: Vec<Wanted>)
    ensures
        wanted_views(r@) == wanted_of(
            SectorType::Team,
            conf.endpoint@,
            conf.org@,
            team_config_views(conf.team@),
            team_views(teams@),
        ),
{
    let ghost declared = team_config_views(conf.team@);
    let ghost listed = team_views(teams@);
    let mut out: Vec<Wanted> = Vec::new();
    let mut i: usize = 0;
    assert(declared.take(0) =~= Seq::empty());
    assert(wanted_views(out@) =~= Seq::empty());
    while i < conf.team.len()
        invariant
            i <= conf.team.len(),
            declared == team_config_views(conf.team@),
            listed == team_views(teams@),
            wanted_views(out@) == wanted_of(
                SectorType::Team,
                conf.endpoint@,
                conf.org@,
                declared.take(i as int),
                listed,
            ),
        decreases conf.team.len() - i,
    {
        let d = &conf.team[i];
        assert(declared.take(i + 1).drop_last() =~= declared.take(i as int));
        assert(declared.take(i + 1).last() == d@);
        match find_team(teams, d.name.as_str()) {
            Some(k) => {
                assert(listed[k as int] == teams@[k as int]@);
                let ghost before = wanted_views(out@);
                let w = Wanted {
                    sector: Sector {
                        id: teams[k].id,
                        name: teams[k].name.clone(),
                        sector_type: SectorType::Team,
                    },
                    gid: d.gid,
                    group: clone_group(&d.group),
                    url: team_members_url(conf.endpoint.as_str(), teams[k].id),
                };
                let ghost wv = w@;
                out.push(w);
                assert(wanted_views(out@) =~= before.push(wv));
            },
            None => {},
        }
        i += 1;
    }
    assert(declared.take(conf.team.len() as int) =~= declared);
    out
}

/// The declared repositories that the remote service lists.
pub fn wanted_repos(conf: &Config, repos: &Vec<Repo>) -> (r: Vec<Wanted>)
    ensures
        wanted_views(r@) == wanted_of(
            SectorType::Repo,
            conf.endpoint@,
            conf.org@,
            repo_config_views(conf.repo@),
            repo_views(repos@),
        ),
{
    let ghost declared = repo_config_views(conf.repo@);
    let ghost listed = repo_views(repos@);
    let mut out: Vec<Wanted> = Vec::new();
    let mut i: usize = 0;
    assert(declared.take(0) =~= Seq::empty());
    assert(wanted_views(out@) =~= Seq::empty());
    while i < conf.repo.len()
        invariant
            i <= conf.repo.len(),
            declared == repo_config_views(conf.repo@),
            listed == repo_views(repos@),
            wanted_views(out@) == wanted_of(
                SectorType::Repo,
                conf.endpoint@,
                conf.org@,
                declared.take(i as int),
                listed,
            ),
        decreases conf.repo.len() - i,
    {
        let d = &conf.repo[i];
        assert(declared.take(i + 1).drop_last() =~= declared.take(i as int));
        assert(declared.take(i + 1).last() == d@);
        match find_repo(repos, d.name.as_str()) {
            Some(k) => {
                assert(listed[k as int] == repos@[k as int]@);
                let ghost before = wanted_views(out@);
                let w = Wanted {
                    sector: Sector {
                        id: repos[k].id,
                        name: repos[k].name.clone(),
                        sector_type: SectorType::Repo,
                    },
                    gid: d.gid,
                    group: clone_group(&d.group),
                    url: collaborators_url(
                        conf.endpoint.as_str(),
                        conf.org.as_str(),
                        repos[k].name.as_str(),
                    ),
                };
                let ghost wv = w@;
                out.push(w);
                assert(wanted_views(out@) =~= before.push(wv));
            },
            None => {},
        }
        i += 1;
    }
    assert(declared.take(conf.repo.len() as int) =~= declared);
    out
}

/// The sectors whose members are to be fetched: the teams first, then the
/// repositories, each in the order of declaration.
pub fn wanted(conf: &Config, teams: &Vec<Team>, repos: &Vec<Repo>) -> (r: Vec<Wanted>)
    ensures
        wanted_views(r@) == wanted_of(
            SectorType::Team,
            conf.endpoint@,
            conf.org@,
            team_config_views(conf.team@),
            team_views(teams@),
        ) + wanted_of(
            SectorType::Repo,
            conf.endpoint@,
            conf.org@,
            repo_config_views(conf.repo@),
            repo_views(repos@),
        ),
{
    let mut a = wanted_teams(conf, teams);
    let mut b = wanted_repos(conf, repos);
    let ghost av = wanted_views(a@);
    let ghost bv = wanted_views(b@);
    a.append(&mut b);
    assert(wanted_views(a@) =~= av + bv);
    a
}

/// The group of a sector with the members that were listed for it.
pub open spec fn group_of(w: WantedView, listed: Seq<crate::structs::MemberView>) -> SectorGroupView {
    SectorGroupView { sector: w.sector, gid: w.gid, group: w.group, members: collected(listed) }
}

/// What the member lists of a vector stand for.
pub open spec fn member_lists(v: Seq<Vec<Member>>) -> Seq<Seq<crate::structs::MemberView>> {
    Seq::new(v.len(), |i: int| member_views(v[i]@))
}

/// The groups of the sectors: each with the members of the list in its place. A
/// sector without a list, or a list without a sector, is left out.
pub open spec fn groups_of(ws: Seq<WantedView>, lists: Seq<Seq<crate::structs::MemberView>>) -> Seq<
    SectorGroupView,
> {
    Seq::new(
        if ws.len() <= lists.len() {
            ws.len()
        } else {
            lists.len()
        },
        |i: int| group_of(ws[i], lists[i]),
    )
}

/// The groups in the order in which lookups go through them: one for each sector
/// that is wanted, with the members that were fetched for it. No login occurs twice
/// in a group.
pub fn get_sectors(wanted: &Vec<Wanted>, lists: &Vec<Vec<Member>>) -> (r: Vec<SectorGroup>)
    ensures
        group_views(r@) == groups_of(wanted_views(wanted@), member_lists(lists@)),
        forall|i: int| 0 <= i < r@.len() ==> (#[trigger] r@[i])@.wf(),
{
    let ghost all = groups_of(wanted_views(wanted@), member_lists(lists@));
    let n = if wanted.len() <= lists.len() {
        wanted.len()
    } else {
        lists.len()
    };
    let mut out: Vec<SectorGroup> = Vec::new();
    let mut i: usize = 0;
    assert(group_views(out@) =~= all.take(0));
    while i < n
        invariant
            i <= n,
            n <= wanted.len(),
            n <= lists.len(),
            n == all.len(),
            all == groups_of(wanted_views(wanted@), member_lists(lists@)),
            group_views(out@) == all.take(i as int),
            out@.len() == i,
            forall|j: int| 0 <= j < i ==> (#[trigger] out@[j])@.wf(),
        decreases n - i,
    {
        let w = &wanted[i];
        let members = collect_members(crate::structs::clone_members(&lists[i]));
        let g = SectorGroup {
            sector: w.sector.clone(),
            gid: w.gid,
            group: clone_group(&w.group),
            members,
        };
        let ghost gv = g@;
        let ghost before = group_views(out@);
        assert(gv == all[i as int]);
        out.push(g);
        assert(group_views(out@) =~= before.push(gv));
        assert(all.take(i + 1) =~= all.take(i as int).push(all[i as int]));
        i += 1;
    }
    assert(all.take(n as int) =~= all);
    out
}

/// The items that `serde_json::from_slice` reads the bytes as, where it reads them
/// as a JSON array; nothing where it fails.
pub uninterp spec fn json_array(body: Seq<u8>) -> Option<Seq<serde_json::Value>>;

/// The text that `serde_json::to_string` writes the items as, as one JSON array;
/// nothing where it fails.
pub uninterp spec fn json_text(items: Seq<serde_json::Value>) -> Option<Seq<char>>;

/// Calls `serde_json::from_slice` for a vector of JSON values. The contract only
/// gives the outcome its name: the items for these bytes, or that there are none.
#[verifier::external_body]
fn decode_array(body: &Vec<u8>) -> (r: Result<Vec<serde_json::Value>, serde_json::Error>)
    ensures
        match r {
            Ok(items) => json_array(body@) == Some(items@),
            Err(_) => json_array(body@) is None,
        },
{
    serde_json::from_slice(body.as_slice())
}

/// Calls `serde_json::to_string` on a vector of JSON values. The contract only
/// gives the outcome its name: the text for these items, or that there is none.
#[verifier::external_body]
fn encode_array(items: &Vec<serde_json::Value>) -> (r: Result<String, serde_json::Error>)
    ensures
        match r {
            Ok(text) => json_text(items@) == Some(text@),
            Err(_) => json_text(items@) is None,
        },
{
    serde_json::to_string(items)
}

/// The pages of one listing as far as they are fetched: their items, and the
/// number of the page to ask for next.
pub struct Pages {
    items: Vec<serde_json::Value>,
    page: u64,
}

/// What a `Pages` stands for in contracts.
pub struct PagesView {
    pub items: Seq<serde_json::Value>,
    pub page: u64,
}

impl View for Pages {
    type V = PagesView;

    closed spec fn view(&self) -> PagesView {
        PagesView { items: self.items@, page: self.page }
    }
}

/// What to do after a page.
#[derive(Debug)]
pub enum PageStep {
    /// Ask for the page with this number.
    Next(u64),
    /// The listing is complete: these are its contents, to be kept in the cache and
    /// handed out.
    Finished(String),
    /// The page, or the listing as a whole, is no JSON: the fetch has failed.
    Failed(SectoraError),
}

/// What a page comes to: the listing goes on with the next page as long as a page is
/// a JSON array that is not empty, it ends with the first empty one, and it fails on
/// a page that is no JSON array.
pub open spec fn page_step_ok(before: PagesView, body: Seq<u8>, after: PagesView, step: PageStep) -> bool {
    match json_array(body) {
        None => after == before && step matches PageStep::Failed(SectoraError::Serde(_)),
        Some(items) => if items.len() > 0 && before.page < u64::MAX {
            &&& after.items == before.items + items
            &&& after.page == before.page + 1
            &&& step == PageStep::Next(after.page)
        } else {
            &&& after.page == before.page
            &&& after.items == before.items + items
            &&& match json_text(after.items) {
                Some(text) => step matches PageStep::Finished(t) && t@ == text,
                None => step matches PageStep::Failed(SectoraError::Serde(_)),
            }
        },
    }
}

impl Pages {
    /// A listing of which nothing is fetched yet: the first page is page 1.
    pub fn new() -> (r: Pages)
        ensures
            r@.items.len() == 0,
            r@.page == 1,
    {
        Pages { items: Vec::new(), page: 1 }
    }

    /// The number of the page to ask for.
    pub fn page(&self) -> (r: u64)
        ensures
            r == self@.page,
    {
        self.page
    }

    /// Takes the items of the page that was asked for, and says whether to ask for
    /// another page: yes, unless the page was empty (or the page numbers have run
    /// out).
    pub fn take(&mut self, mut items: Vec<serde_json::Value>) -> (more: bool)
        ensures
            final(self)@.items == old(self)@.items + items@,
            more == (items@.len() > 0 && old(self)@.page < u64::MAX),
            final(self)@.page == if more {
                (old(self)@.page + 1) as u64
            } else {
                old(self)@.page
            },
    {
        let more = items.len() > 0 && self.page < u64::MAX;
        self.items.append(&mut items);
        if more {
            self.page = self.page + 1;
        }
        more
    }

    /// The contents of the listing: all items that were taken, as one JSON array.
    pub fn finish(&self) -> (r: PageStep)
        ensures
            match json_text(self@.items) {
                Some(text) => r matches PageStep::Finished(t) && t@ == text,
                None => r matches PageStep::Failed(SectoraError::Serde(_)),
            },
    {
        match encode_array(&self.items) {
            Ok(text) => PageStep::Finished(text),
            Err(e) => PageStep::Failed(SectoraError::Serde(e)),
        }
    }

    /// Takes the body of the page that was asked for.
    pub fn accept(&mut self, body: &Vec<u8>) -> (r: PageStep)
        ensures
            page_step_ok(old(self)@, body@, final(self)@, r),
    {
        match decode_array(body) {
            Err(e) => PageStep::Failed(SectoraError::Serde(e)),
            Ok(items) => {
                if self.take(items) {
                    PageStep::Next(self.page)
                } else {
                    self.finish()
                }
            },
        }
    }
}

/// What the fetcher of one address wants done next.
#[derive(Debug)]
pub enum Action {
    /// Ask the remote service for this address and come back with what it gave.
    Request(String),
    /// Keep these contents in the cache file of the address and come back.
    Store(String),
    /// The fetch is over with this result.
    Done(Result<String, SectoraError>),
    /// The fetch was over before; there is nothing to do.
    Nothing,
}

/// What happened to the action that the fetcher wanted done.
#[derive(Debug)]
pub enum Event {
    /// The remote service answered with this body.
    Body(Vec<u8>),
    /// The contents are stored.
    Stored,
    /// The action failed.
    Failed(SectoraError),
}

/// Where a fetch stands.
#[derive(Debug, Clone, Copy, PartialEq, Eq, Structural)]
pub enum Stage {
    /// A page is asked for.
    Asking,
    /// The contents are being stored.
    Storing,
    /// The fetch is over.
    Over,
}

/// The fetcher of one address: cache first, then the remote service page by page,
/// and the stale cache where that fails.
pub struct Fetch {
    url: String,
    cache: Option<CacheEntry>,
    pages: Pages,
    contents: String,
    stage: Stage,
}

/// What a `Fetch` stands for in contracts.
pub struct FetchView {
    pub url: Seq<char>,
    pub cache: Option<CacheEntryView>,
    pub pages: PagesView,
    pub contents: Seq<char>,
    pub stage: Stage,
}

impl View for Fetch {
    type V = FetchView;

    closed spec fn view(&self) -> FetchView {
        FetchView {
            url: self.url@,
            cache: match self.cache {
                Some(e) => Some(e@),
                None => None,
            },
            pages: self.pages@,
            contents: self.contents@,
            stage: self.stage,
        }
    }
}

/// The action asks for this address.
pub open spec fn asks(action: Action, url: Seq<char>) -> bool {
    action matches Action::Request(u) && u@ == url
}

/// The action stores these contents.
pub open spec fn stores(action: Action, contents: Seq<char>) -> bool {
    action matches Action::Store(c) && c@ == contents
}

/// The action ends the fetch with these contents.
pub open spec fn ends_with(action: Action, contents: Seq<char>) -> bool {
    action matches Action::Done(Ok(c)) && c@ == contents
}

/// The end of a fetch that failed: the stale contents of the cache stand in, and
/// only where there are none the fetch fails.
pub open spec fn fell_back(cache: Option<CacheEntryView>, action: Action) -> bool {
    match cache {
        Some(e) => ends_with(action, e.contents),
        None => action is Done && action->Done_0 is Err,
    }
}

/// What a step of a fetch comes to.
pub open spec fn fetch_step_ok(before: FetchView, event: Event, after: FetchView, action: Action) -> bool {
    &&& after.url == before.url
    &&& after.cache == before.cache
    &&& match before.stage {
        Stage::Over => after == before && action is Nothing,
        Stage::Asking => match event {
            Event::Body(body) => match json_array(body@) {
                None => after.stage == Stage::Over && fell_back(before.cache, action),
                Some(items) => {
                    &&& after.pages.items == before.pages.items + items
                    &&& if items.len() > 0 && before.pages.page < u64::MAX {
                        &&& after.stage == Stage::Asking
                        &&& after.pages.page == before.pages.page + 1
                        &&& asks(action, paged(before.url, after.pages.page))
                    } else {
                        match json_text(after.pages.items) {
                            Some(text) => {
                                &&& after.stage == Stage::Storing
                                &&& after.contents == text
                                &&& stores(action, text)
                            },
                            None => after.stage == Stage::Over && fell_back(before.cache, action),
                        }
                    }
                },
            },
            Event::Failed(_) => after.stage == Stage::Over && fell_back(before.cache, action),
            Event::Stored => after == before && asks(
                action,
                paged(before.url, before.pages.page),
            ),
        },
        Stage::Storing => match event {
            Event::Stored => after == (FetchView { stage: Stage::Over, ..before }) && ends_with(
                action,
                before.contents,
            ),
            Event::Failed(_) => after.stage == Stage::Over && fell_back(before.cache, action),
            Event::Body(_) => after == before && stores(action, before.contents),
        },
    }
}

impl Fetch {
    /// Begins the fetch of an address, given what the cache holds for it. A fresh
    /// entry ends the fetch at once with its contents as they are, and the remote
    /// service is never asked; else the first page is asked for.
    pub fn start(url: &str, cache: Option<CacheEntry>, cache_duration: u64) -> (r: (Fetch, Action))
        ensures
            r.0@.url == url@,
            r.0@.cache == match cache {
                Some(e) => Some(e@),
                None => None,
            },
            match cache {
                Some(e) if e@.fresh(cache_duration) => r.0@.stage == Stage::Over && ends_with(
                    r.1,
                    e@.contents,
                ),
                _ => r.0@.stage == Stage::Asking && r.0@.pages.page == 1 && r.0@.pages.items.len()
                    == 0 && asks(r.1, paged(url@, 1)),
            },
    {
        let first = plan(&cache, cache_duration);
        let pages = Pages::new();
        match first {
            Plan::Serve(contents) => (
                Fetch {
                    url: String::from_str(url),
                    cache,
                    pages,
                    contents: String::new(),
                    stage: Stage::Over,
                },
                Action::Done(Ok(contents)),
            ),
            Plan::Fetch => {
                let ask = page_url(url, pages.page());
                (
                    Fetch {
                        url: String::from_str(url),
                        cache,
                        pages,
                        contents: String::new(),
                        stage: Stage::Asking,
                    },
                    Action::Request(ask),
                )
            },
        }
    }

    /// Ends a fetch that failed.
    fn fall_back(&mut self, err: SectoraError) -> (r: Action)
        ensures
            final(self)@ == (FetchView { stage: Stage::Over, ..old(self)@ }),
            fell_back(old(self)@.cache, r),
    {
        self.stage = Stage::Over;
        match &self.cache {
            Some(e) => Action::Done(Ok(e.contents.clone())),
            None => Action::Done(Err(err)),
        }
    }

    /// Takes what happened to the last action and says what to do next.
    pub fn step(&mut self, event: Event) -> (r: Action)
        ensures
            fetch_step_ok(old(self)@, event, final(self)@, r),
    {
        match self.stage {
            Stage::Over => Action::Nothing,
            Stage::Asking => match event {
                Event::Body(body) => match self.pages.accept(&body) {
                    PageStep::Next(page) => Action::Request(page_url(self.url.as_str(), page)),
                    PageStep::Finished(text) => {
                        self.contents = text.clone();
                        self.stage = Stage::Storing;
                        Action::Store(text)
                    },
                    PageStep::Failed(err) => self.fall_back(err),
                },
                Event::Failed(err) => self.fall_back(err),
                Event::Stored => Action::Request(page_url(self.url.as_str(), self.pages.page())),
            },
            Stage::Storing => match event {
                Event::Stored => {
                    self.stage = Stage::Over;
                    Action::Done(Ok(self.contents.clone()))
                },
                Event::Failed(err) => self.fall_back(err),
                Event::Body(_) => Action::Store(self.contents.clone()),
            },
        }
    }
}

} // verus!

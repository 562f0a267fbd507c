use vstd::prelude::*;
use vstd::std_specs::hash::group_hash_axioms;
use std::collections::{HashMap, VecDeque};
use crate::message::{
    ClientMessage, ClientMessageView, DaemonMessage, DaemonMessageView, Ent, Gr, GrView, Pw,
    PwView, Sp, SpView,
};
use crate::seqs::{first_index, lemma_first_index, lemma_first_index_is};
use crate::structs::{
    Config, group_views, has_login, login_index, Member, member_views, MemberView, RateLimit,
    SectorGroup, SectorGroupView, UserConfig,
};
use crate::text::{fill, filled, join, join_strings, str_eq, views};

verus! {

broadcast use group_hash_axioms;

/// Which of the three databases an enumeration goes through.
#[derive(Debug, Clone, Copy, PartialEq, Eq, Structural)]
pub enum Kind {
    Pw,
    Sp,
    Gr,
}

/// What a `UserConfig` stands for in contracts.
pub struct UserConfigView {
    pub sh: Option<Seq<char>>,
    pub pass: Option<Seq<char>>,
}

/// What was found on disk for one login: the user's own settings, where they could
/// be read, and whether the shell named in them exists.
pub struct UserProbeView {
    pub login: Seq<char>,
    pub conf: Option<UserConfigView>,
    pub sh_exists: bool,
}

/// What the records are made from besides the groups: the home template, the
/// default shell, and what was found on disk for the logins.
pub struct Ctx {
    pub home: Seq<char>,
    pub sh: Seq<char>,
    pub probes: Seq<UserProbeView>,
}

/// The test that what was found on disk is for this login.
pub open spec fn probe_of(login: Seq<char>) -> spec_fn(UserProbeView) -> bool {
    |p: UserProbeView| p.login == login
}

/// The shell of a login: the one of the user's own settings where they could be read,
/// name one, and it exists; else the default.
pub open spec fn shell_for(ctx: Ctx, login: Seq<char>) -> Seq<char> {
    let i = first_index(ctx.probes, probe_of(login));
    if i < ctx.probes.len() {
        match ctx.probes[i].conf {
            Some(c) => match c.sh {
                Some(sh) => if ctx.probes[i].sh_exists {
                    sh
                } else {
                    ctx.sh
                },
                None => ctx.sh,
            },
            None => ctx.sh,
        }
    } else {
        ctx.sh
    }
}

/// The shadow password of a login: the one of the user's own settings where they
/// could be read and hold one; else `*`, which lets no password in.
pub open spec fn pass_for(ctx: Ctx, login: Seq<char>) -> Seq<char> {
    let i = first_index(ctx.probes, probe_of(login));
    if i < ctx.probes.len() {
        match ctx.probes[i].conf {
            Some(c) => match c.pass {
                Some(pass) => pass,
                None => seq!['*'],
            },
            None => seq!['*'],
        }
    } else {
        seq!['*']
    }
}

/// The user record of a member of a group.
pub open spec fn pw_record(ctx: Ctx, g: SectorGroupView, m: MemberView) -> DaemonMessageView {
    DaemonMessageView::Pw {
        login: m.login,
        uid: m.id,
        gid: g.effective_gid(),
        home: filled(ctx.home, m.login),
        sh: shell_for(ctx, m.login),
    }
}

/// The shadow record of a member.
pub open spec fn sp_record(ctx: Ctx, m: MemberView) -> DaemonMessageView {
    DaemonMessageView::Sp { login: m.login, pass: pass_for(ctx, m.login) }
}

/// The answer where nothing matches, and where an enumeration is at its end.
pub open spec fn not_found() -> DaemonMessageView {
    DaemonMessageView::Error { message: "not found"@ }
}

/// The user records of the members of one group, in their order.
pub open spec fn group_pw_records(ctx: Ctx, g: SectorGroupView) -> Seq<DaemonMessageView> {
    Seq::new(g.members.len(), |i: int| pw_record(ctx, g, g.members[i]))
}

/// The shadow records of the members of one group, in their order.
pub open spec fn group_sp_records(ctx: Ctx, g: SectorGroupView) -> Seq<DaemonMessageView> {
    Seq::new(g.members.len(), |i: int| sp_record(ctx, g.members[i]))
}

/// The user records of all groups: group after group in the order of declaration,
/// and in each its members in their order. A user of two groups has two records.
pub open spec fn pw_records(ctx: Ctx, gs: Seq<SectorGroupView>) -> Seq<DaemonMessageView>
    decreases gs.len(),
{
    if gs.len() == 0 {
        Seq::empty()
    } else {
        pw_records(ctx, gs.drop_last()) + group_pw_records(ctx, gs.last())
    }
}

/// The shadow records of all groups, in the same order.
pub open spec fn sp_records(ctx: Ctx, gs: Seq<SectorGroupView>) -> Seq<DaemonMessageView>
    decreases gs.len(),
{
    if gs.len() == 0 {
        Seq::empty()
    } else {
        sp_records(ctx, gs.drop_last()) + group_sp_records(ctx, gs.last())
    }
}

/// The group records: one for each group, in the order of declaration.
pub open spec fn gr_records(gs: Seq<SectorGroupView>) -> Seq<DaemonMessageView> {
    Seq::new(gs.len(), |i: int| DaemonMessageView::Gr { sector: gs[i] })
}

/// The test that a member has this uid.
pub open spec fn has_uid(uid: u64) -> spec_fn(MemberView) -> bool {
    |m: MemberView| m.id == uid
}

/// The test that a group holds a member with this login.
pub open spec fn holds_login(login: Seq<char>) -> spec_fn(SectorGroupView) -> bool {
    |g: SectorGroupView| login_index(g.members, login) < g.members.len()
}

/// The test that a group holds a member with this uid.
pub open spec fn holds_uid(uid: u64) -> spec_fn(SectorGroupView) -> bool {
    |g: SectorGroupView| first_index(g.members, has_uid(uid)) < g.members.len()
}

/// The test that a group is shown under this gid.
pub open spec fn shown_as_gid(gid: u64) -> spec_fn(SectorGroupView) -> bool {
    |g: SectorGroupView| g.effective_gid() == gid
}

/// The test that a group is shown under this name.
pub open spec fn shown_as_group(name: Seq<char>) -> spec_fn(SectorGroupView) -> bool {
    |g: SectorGroupView| g.effective_group() == name
}

/// The user record for a login: that of the first group, in the order of
/// declaration, that holds the login.
pub open spec fn pw_by_name(ctx: Ctx, gs: Seq<SectorGroupView>, name: Seq<char>) -> DaemonMessageView {
    let i = first_index(gs, holds_login(name));
    if i < gs.len() {
        pw_record(ctx, gs[i], gs[i].members[login_index(gs[i].members, name)])
    } else {
        not_found()
    }
}

/// The user record for a uid: that of the first group that holds a member with it,
/// and in that group of the first such member.
pub open spec fn pw_by_uid(ctx: Ctx, gs: Seq<SectorGroupView>, uid: u64) -> DaemonMessageView {
    let i = first_index(gs, holds_uid(uid));
    if i < gs.len() {
        pw_record(ctx, gs[i], gs[i].members[first_index(gs[i].members, has_uid(uid))])
    } else {
        not_found()
    }
}

/// The shadow record for a login.
pub open spec fn sp_by_name(ctx: Ctx, gs: Seq<SectorGroupView>, name: Seq<char>) -> DaemonMessageView {
    let i = first_index(gs, holds_login(name));
    if i < gs.len() {
        sp_record(ctx, gs[i].members[login_index(gs[i].members, name)])
    } else {
        not_found()
    }
}

/// The group record for a gid: the first group that is shown under it.
pub open spec fn gr_by_gid(gs: Seq<SectorGroupView>, gid: u64) -> DaemonMessageView {
    let i = first_index(gs, shown_as_gid(gid));
    if i < gs.len() {
        DaemonMessageView::Gr { sector: gs[i] }
    } else {
        not_found()
    }
}

/// The group record for a group name: the first group that is shown under it.
pub open spec fn gr_by_name(gs: Seq<SectorGroupView>, name: Seq<char>) -> DaemonMessageView {
    let i = first_index(gs, shown_as_group(name));
    if i < gs.len() {
        DaemonMessageView::Gr { sector: gs[i] }
    } else {
        not_found()
    }
}

/// Whether the login is a member of any group.
pub open spec fn is_member(gs: Seq<SectorGroupView>, login: Seq<char>) -> bool {
    exists|i: int| 0 <= i < gs.len() && login_index(gs[i].members, login) < gs[i].members.len()
}

/// The cursors of one database after a step of an enumeration: `set` puts the
/// records in the place of what the caller had, `get` takes the first record off,
/// `end` drops the cursor.
pub open spec fn queue_after(
    q: Map<u32, Seq<DaemonMessageView>>,
    ent: Ent,
    records: Seq<DaemonMessageView>,
) -> Map<u32, Seq<DaemonMessageView>> {
    match ent {
        Ent::Start(p) => q.insert(p, records),
        Ent::Get(p) => if q.contains_key(p) && q[p].len() > 0 {
            q.insert(p, q[p].drop_first())
        } else {
            q
        },
        Ent::End(p) => q.remove(p),
    }
}

/// The answer to a step of an enumeration.
pub open spec fn queue_reply(q: Map<u32, Seq<DaemonMessageView>>, ent: Ent) -> DaemonMessageView {
    match ent {
        Ent::Start(p) => DaemonMessageView::Success,
        Ent::Get(p) => if q.contains_key(p) && q[p].len() > 0 {
            q[p][0]
        } else {
            not_found()
        },
        Ent::End(p) => DaemonMessageView::Success,
    }
}

/// The cursors after `n` more `get` steps of the caller `pid`.
pub open spec fn after_gets(q: Map<u32, Seq<DaemonMessageView>>, pid: u32, n: nat) -> Map<
    u32,
    Seq<DaemonMessageView>,
>
    decreases n,
{
    if n == 0 {
        q
    } else {
        queue_after(after_gets(q, pid, (n - 1) as nat), Ent::Get(pid), Seq::empty())
    }
}

/// The answers to `n` `get` steps of the caller `pid`, in order.
pub open spec fn replies_of_gets(q: Map<u32, Seq<DaemonMessageView>>, pid: u32, n: nat) -> Seq<
    DaemonMessageView,
>
    decreases n,
{
    if n == 0 {
        Seq::empty()
    } else {
        replies_of_gets(q, pid, (n - 1) as nat).push(
            queue_reply(after_gets(q, pid, (n - 1) as nat), Ent::Get(pid)),
        )
    }
}

/// After `set`, the first `n` `get` steps hand out the first `n` records in order
/// and leave the others.
pub proof fn lemma_gets_after_start(
    q: Map<u32, Seq<DaemonMessageView>>,
    pid: u32,
    records: Seq<DaemonMessageView>,
    n: nat,
)
    requires
        n <= records.len(),
    ensures
        replies_of_gets(queue_after(q, Ent::Start(pid), records), pid, n) == records.take(n as int),
        after_gets(queue_after(q, Ent::Start(pid), records), pid, n) == q.insert(
            pid,
            records.skip(n as int),
        ),
    decreases n,
{
    let q1 = queue_after(q, Ent::Start(pid), records);
    if n == 0 {
        assert(records.skip(0) =~= records);
        assert(records.take(0) =~= Seq::<DaemonMessageView>::empty());
    } else {
        lemma_gets_after_start(q, pid, records, (n - 1) as nat);
        let prev = after_gets(q1, pid, (n - 1) as nat);
        assert(prev[pid] == records.skip(n - 1));
        assert(records.skip(n - 1).drop_first() =~= records.skip(n as int));
        assert(prev.insert(pid, records.skip(n as int)) =~= q.insert(pid, records.skip(n as int)));
        assert(records.take(n - 1).push(records[n - 1]) =~= records.take(n as int));
    }
}

/// An enumeration hands out every record once: after `set`, as many `get` steps
/// as there are records answer with the records, in their order and so as a
/// multiset too; the next `get` answers that nothing is found, and `end` succeeds
/// and leaves the caller without a cursor.
pub proof fn lemma_enumeration_total(
    q: Map<u32, Seq<DaemonMessageView>>,
    pid: u32,
    records: Seq<DaemonMessageView>,
)
    ensures
        queue_reply(q, Ent::Start(pid)) == DaemonMessageView::Success,
        replies_of_gets(queue_after(q, Ent::Start(pid), records), pid, records.len())
            == records,
        replies_of_gets(
            queue_after(q, Ent::Start(pid), records),
            pid,
            records.len(),
        ).to_multiset() == records.to_multiset(),
        queue_reply(
            after_gets(queue_after(q, Ent::Start(pid), records), pid, records.len()),
            Ent::Get(pid),
        ) == not_found(),
        queue_reply(
            after_gets(queue_after(q, Ent::Start(pid), records), pid, records.len() + 1),
            Ent::End(pid),
        ) == DaemonMessageView::Success,
        !queue_after(
            after_gets(queue_after(q, Ent::Start(pid), records), pid, records.len() + 1),
            Ent::End(pid),
            Seq::empty(),
        ).contains_key(pid),
{
    lemma_gets_after_start(q, pid, records, records.len());
    assert(records.take(records.len() as int) =~= records);
    assert(records.skip(records.len() as int) =~= Seq::<DaemonMessageView>::empty());
}

/// The steps of one caller leave the cursor of every other caller as it was, and
/// with it the answer to that caller's next `get`.
pub proof fn lemma_session_isolation(
    q: Map<u32, Seq<DaemonMessageView>>,
    ent: Ent,
    records: Seq<DaemonMessageView>,
    other: u32,
)
    requires
        other != ent.pid(),
    ensures
        queue_after(q, ent, records).contains_key(other) == q.contains_key(other),
        q.contains_key(other) ==> queue_after(q, ent, records)[other] == q[other],
        queue_reply(queue_after(q, ent, records), Ent::Get(other)) == queue_reply(
            q,
            Ent::Get(other),
        ),
{
}

/// One step of an enumeration as the daemon takes it: the request, and the records
/// that a `set` would install.
pub struct Step {
    pub ent: Ent,
    pub records: Seq<DaemonMessageView>,
}

/// The cursors after the steps, taken in order.
pub open spec fn after_steps(q: Map<u32, Seq<DaemonMessageView>>, steps: Seq<Step>) -> Map<
    u32,
    Seq<DaemonMessageView>,
>
    decreases steps.len(),
{
    if steps.len() == 0 {
        q
    } else {
        queue_after(after_steps(q, steps.drop_last()), steps.last().ent, steps.last().records)
    }
}

/// The answers that the caller `pid` gets to its own steps among `steps`.
pub open spec fn answers_to(q: Map<u32, Seq<DaemonMessageView>>, steps: Seq<Step>, pid: u32) -> Seq<
    DaemonMessageView,
>
    decreases steps.len(),
{
    if steps.len() == 0 {
        Seq::empty()
    } else if steps.last().ent.pid() == pid {
        answers_to(q, steps.drop_last(), pid).push(
            queue_reply(after_steps(q, steps.drop_last()), steps.last().ent),
        )
    } else {
        answers_to(q, steps.drop_last(), pid)
    }
}

/// The steps of the caller `pid` among `steps`, in order.
pub open spec fn steps_of(steps: Seq<Step>, pid: u32) -> Seq<Step>
    decreases steps.len(),
{
    if steps.len() == 0 {
        Seq::empty()
    } else if steps.last().ent.pid() == pid {
        steps_of(steps.drop_last(), pid).push(steps.last())
    } else {
        steps_of(steps.drop_last(), pid)
    }
}

/// Callers that enumerate side by side do not see each other: in whatever order the
/// daemon takes their steps, each caller gets the answers that it would get if its
/// own steps were the only ones, and its cursor ends as it would then.
pub proof fn lemma_interleaving(q: Map<u32, Seq<DaemonMessageView>>, steps: Seq<Step>, pid: u32)
    ensures
        answers_to(q, steps, pid) == answers_to(q, steps_of(steps, pid), pid),
        after_steps(q, steps).contains_key(pid) == after_steps(
            q,
            steps_of(steps, pid),
        ).contains_key(pid),
        after_steps(q, steps).contains_key(pid) ==> after_steps(q, steps)[pid] == after_steps(
            q,
            steps_of(steps, pid),
        )[pid],
    decreases steps.len(),
{
    if steps.len() > 0 {
        let front = steps.drop_last();
        let last = steps.last();
        lemma_interleaving(q, front, pid);
        if last.ent.pid() == pid {
            let own = steps_of(front, pid);
            assert(steps_of(steps, pid).drop_last() =~= own);
            assert(steps_of(steps, pid).last() == last);
        }
    }
}

/// Where two groups hold one login, the user record for that login is made from
/// the one that was declared first, with that group's gid; and so is the shadow
/// record.
pub proof fn lemma_first_group_wins(
    ctx: Ctx,
    gs: Seq<SectorGroupView>,
    login: Seq<char>,
    i: int,
    j: int,
)
    requires
        0 <= i < j < gs.len(),
        holds_login(login)(gs[i]),
        holds_login(login)(gs[j]),
        forall|k: int| 0 <= k < i ==> !holds_login(login)(#[trigger] gs[k]),
    ensures
        pw_by_name(ctx, gs, login) == pw_record(
            ctx,
            gs[i],
            gs[i].members[login_index(gs[i].members, login)],
        ),
        pw_by_name(ctx, gs, login)->Pw_gid == gs[i].effective_gid(),
        pw_by_name(ctx, gs, login)->Pw_login == login,
        sp_by_name(ctx, gs, login) == sp_record(
            ctx,
            gs[i].members[login_index(gs[i].members, login)],
        ),
{
    lemma_first_index_is(gs, holds_login(login), i);
    lemma_first_index(gs[i].members, has_login(login));
}

impl View for UserConfig {
    type V = UserConfigView;

    open spec fn view(&self) -> UserConfigView {
        UserConfigView {
            sh: match self.sh {
                Some(s) => Some(s@),
                None => None,
            },
            pass: match self.pass {
                Some(s) => Some(s@),
                None => None,
            },
        }
    }
}

/// What was found on disk for one login.
#[derive(Debug)]
pub struct UserProbe {
    pub login: String,
    /// The user's own settings, where the file was there and could be read.
    pub conf: Option<UserConfig>,
    /// Whether the shell that the settings name exists.
    pub sh_exists: bool,
}

impl View for UserProbe {
    type V = UserProbeView;

    open spec fn view(&self) -> UserProbeView {
        UserProbeView {
            login: self.login@,
            conf: match self.conf {
                Some(c) => Some(c@),
                None => None,
            },
            sh_exists: self.sh_exists,
        }
    }
}

/// What the probes of a vector stand for.
pub open spec fn probe_views(v: Seq<UserProbe>) -> Seq<UserProbeView> {
    Seq::new(v.len(), |i: int| v[i]@)
}

/// What the replies of a vector stand for.
pub open spec fn msg_views(v: Seq<DaemonMessage>) -> Seq<DaemonMessageView> {
    Seq::new(v.len(), |i: int| v[i]@)
}

/// The place of what was found for the login, if anything was.
fn find_probe(probes: &Vec<UserProbe>, login: &str) -> (r: Option<usize>)
    ensures
        match r {
            Some(i) => i < probes.len() && i == first_index(probe_views(probes@), probe_of(login@)),
            None => first_index(probe_views(probes@), probe_of(login@)) >= probes.len(),
        },
{
    let ghost ps = probe_views(probes@);
    let ghost p = probe_of(login@);
    let mut i: usize = 0;
    while i < probes.len()
        invariant
            i <= probes.len(),
            ps == probe_views(probes@),
            p == probe_of(login@),
            forall|j: int| 0 <= j < i ==> !p(#[trigger] ps[j]),
        decreases probes.len() - i,
    {
        assert(ps[i as int] == probes@[i as int]@);
        if str_eq(probes[i].login.as_str(), login) {
            proof {
                lemma_first_index_is(ps, p, i as int);
            }
            return Some(i);
        }
        i += 1;
    }
    proof {
        lemma_first_index_is(ps, p, ps.len() as int);
    }
    None
}

/// The place of the member with the login, if there is one.
pub fn find_login(ms: &Vec<Member>, login: &str) -> (r: Option<usize>)
    ensures
        match r {
            Some(i) => i < ms.len() && i == login_index(member_views(ms@), login@),
            None => login_index(member_views(ms@), login@) >= ms.len(),
        },
{
    let ghost vs = member_views(ms@);
    let ghost p = has_login(login@);
    let mut i: usize = 0;
    while i < ms.len()
        invariant
            i <= ms.len(),
            vs == member_views(ms@),
            p == has_login(login@),
            forall|j: int| 0 <= j < i ==> !p(#[trigger] vs[j]),
        decreases ms.len() - i,
    {
        assert(vs[i as int] == ms@[i as int]@);
        if str_eq(ms[i].login.as_str(), login) {
            proof {
                lemma_first_index_is(vs, p, i as int);
            }
            return Some(i);
        }
        i += 1;
    }
    proof {
        lemma_first_index_is(vs, p, vs.len() as int);
    }
    None
}

/// The place of the first member with the uid, if there is one.
pub fn find_uid(ms: &Vec<Member>, uid: u64) -> (r: Option<usize>)
    ensures
        match r {
            Some(i) => i < ms.len() && i == first_index(member_views(ms@), has_uid(uid)),
            None => first_index(member_views(ms@), has_uid(uid)) >= ms.len(),
        },
{
    let ghost vs = member_views(ms@);
    let ghost p = has_uid(uid);
    let mut i: usize = 0;
    while i < ms.len()
        invariant
            i <= ms.len(),
            vs == member_views(ms@),
            p == has_uid(uid),
            forall|j: int| 0 <= j < i ==> !p(#[trigger] vs[j]),
        decreases ms.len() - i,
    {
        assert(vs[i as int] == ms@[i as int]@);
        if ms[i].id == uid {
            proof {
                lemma_first_index_is(vs, p, i as int);
            }
            return Some(i);
        }
        i += 1;
    }
    proof {
        lemma_first_index_is(vs, p, vs.len() as int);
    }
    None
}

/// The first group that holds the login, and the place of the login in it.
pub fn find_group_of_login(sectors: &Vec<SectorGroup>, login: &str) -> (r: Option<(usize, usize)>)
    ensures
        match r {
            Some((i, k)) => i < sectors.len() && i == first_index(
                group_views(sectors@),
                holds_login(login@),
            ) && k < sectors@[i as int].members.len() && k == login_index(
                group_views(sectors@)[i as int].members,
                login@,
            ),
            None => first_index(group_views(sectors@), holds_login(login@)) >= sectors.len(),
        },
{
    let ghost gs = group_views(sectors@);
    let ghost p = holds_login(login@);
    let mut i: usize = 0;
    while i < sectors.len()
        invariant
            i <= sectors.len(),
            gs == group_views(sectors@),
            p == holds_login(login@),
            forall|j: int| 0 <= j < i ==> !p(#[trigger] gs[j]),
        decreases sectors.len() - i,
    {
        assert(gs[i as int] == sectors@[i as int]@);
        match find_login(&sectors[i].members, login) {
            Some(k) => {
                proof {
                    lemma_first_index_is(gs, p, i as int);
                }
                return Some((i, k));
            },
            None => {},
        }
        i += 1;
    }
    proof {
        lemma_first_index_is(gs, p, gs.len() as int);
    }
    None
}

/// The first group that holds a member with the uid, and the place of the first such
/// member in it.
pub fn find_group_of_uid(sectors: &Vec<SectorGroup>, uid: u64) -> (r: Option<(usize, usize)>)
    ensures
        match r {
            Some((i, k)) => i < sectors.len() && i == first_index(
                group_views(sectors@),
                holds_uid(uid),
            ) && k < sectors@[i as int].members.len() && k == first_index(
                group_views(sectors@)[i as int].members,
                has_uid(uid),
            ),
            None => first_index(group_views(sectors@), holds_uid(uid)) >= sectors.len(),
        },
{
    let ghost gs = group_views(sectors@);
    let ghost p = holds_uid(uid);
    let mut i: usize = 0;
    while i < sectors.len()
        invariant
            i <= sectors.len(),
            gs == group_views(sectors@),
            p == holds_uid(uid),
            forall|j: int| 0 <= j < i ==> !p(#[trigger] gs[j]),
        decreases sectors.len() - i,
    {
        assert(gs[i as int] == sectors@[i as int]@);
        match find_uid(&sectors[i].members, uid) {
            Some(k) => {
                proof {
                    lemma_first_index_is(gs, p, i as int);
                }
                return Some((i, k));
            },
            None => {},
        }
        i += 1;
    }
    proof {
        lemma_first_index_is(gs, p, gs.len() as int);
    }
    None
}

/// The first group that is shown under the gid.
pub fn find_gid(sectors: &Vec<SectorGroup>, gid: u64) -> (r: Option<usize>)
    ensures
        match r {
            Some(i) => i < sectors.len() && i == first_index(
                group_views(sectors@),
                shown_as_gid(gid),
            ),
            None => first_index(group_views(sectors@), shown_as_gid(gid)) >= sectors.len(),
        },
{
    let ghost gs = group_views(sectors@);
    let ghost p = shown_as_gid(gid);
    let mut i: usize = 0;
    while i < sectors.len()
        invariant
            i <= sectors.len(),
            gs == group_views(sectors@),
            p == shown_as_gid(gid),
            forall|j: int| 0 <= j < i ==> !p(#[trigger] gs[j]),
        decreases sectors.len() - i,
    {
        assert(gs[i as int] == sectors@[i as int]@);
        if sectors[i].get_gid() == gid {
            proof {
                lemma_first_index_is(gs, p, i as int);
            }
            return Some(i);
        }
        i += 1;
    }
    proof {
        lemma_first_index_is(gs, p, gs.len() as int);
    }
    None
}

/// The first group that is shown under the group name.
pub fn find_group_name(sectors: &Vec<SectorGroup>, name: &str) -> (r: Option<usize>)
    ensures
        match r {
            Some(i) => i < sectors.len() && i == first_index(
                group_views(sectors@),
                shown_as_group(name@),
            ),
            None => first_index(group_views(sectors@), shown_as_group(name@)) >= sectors.len(),
        },
{
    let ghost gs = group_views(sectors@);
    let ghost p = shown_as_group(name@);
    let mut i: usize = 0;
    while i < sectors.len()
        invariant
            i <= sectors.len(),
            gs == group_views(sectors@),
            p == shown_as_group(name@),
            forall|j: int| 0 <= j < i ==> !p(#[trigger] gs[j]),
        decreases sectors.len() - i,
    {
        assert(gs[i as int] == sectors@[i as int]@);
        let shown = sectors[i].get_group();
        if str_eq(shown.as_str(), name) {
            proof {
                lemma_first_index_is(gs, p, i as int);
            }
            return Some(i);
        }
        i += 1;
    }
    proof {
        lemma_first_index_is(gs, p, gs.len() as int);
    }
    None
}

/// Whether the login is a member of any group: the answer to the login check.
pub fn check_pam(sectors: &Vec<SectorGroup>, login: &str) -> (r: bool)
    ensures
        r == is_member(group_views(sectors@), login@),
{
    let ghost gs = group_views(sectors@);
    match find_group_of_login(sectors, login) {
        Some((i, k)) => {
            proof {
                lemma_first_index(gs, holds_login(login@));
                assert(holds_login(login@)(gs[i as int]));
            }
            true
        },
        None => {
            proof {
                lemma_first_index(gs, holds_login(login@));
                if is_member(gs, login@) {
                    let i = choose|i: int|
                        0 <= i < gs.len() && login_index(gs[i].members, login@)
                            < gs[i].members.len();
                    assert(holds_login(login@)(gs[i]));
                }
            }
            false
        },
    }
}

/// The cursors of the three databases, each by the process id of the caller.
pub struct Cursors {
    pub pw: Map<u32, Seq<DaemonMessageView>>,
    pub sp: Map<u32, Seq<DaemonMessageView>>,
    pub gr: Map<u32, Seq<DaemonMessageView>>,
}

/// The cursors that a table of queues holds.
pub open spec fn queues(m: Map<u32, VecDeque<DaemonMessage>>) -> Map<u32, Seq<DaemonMessageView>> {
    Map::new(|p: u32| m.contains_key(p), |p: u32| msg_views(m[p]@))
}

/// Installs the records as the cursor of `pid`, in the place of what it had.
fn install(
    cache: &mut HashMap<u32, VecDeque<DaemonMessage>>,
    pid: u32,
    records: VecDeque<DaemonMessage>,
) -> (r: DaemonMessage)
    ensures
        queues(final(cache)@) == queue_after(
            queues(old(cache)@),
            Ent::Start(pid),
            msg_views(records@),
        ),
        r@ == queue_reply(queues(old(cache)@), Ent::Start(pid)),
{
    let ghost rs = msg_views(records@);
    cache.insert(pid, records);
    assert(queues(cache@) =~= queues(old(cache)@).insert(pid, rs));
    DaemonMessage::Success
}

/// Takes the next record off the cursor of `pid`.
fn take_front(cache: &mut HashMap<u32, VecDeque<DaemonMessage>>, pid: u32) -> (r: DaemonMessage)
    ensures
        queues(final(cache)@) == queue_after(queues(old(cache)@), Ent::Get(pid), Seq::empty()),
        r@ == queue_reply(queues(old(cache)@), Ent::Get(pid)),
{
    let ghost q0 = queues(cache@);
    match cache.remove(&pid) {
        Some(mut q) => {
            let ghost before = msg_views(q@);
            assert(before == q0[pid]);
            let front = q.pop_front();
            let ghost rest = msg_views(q@);
            cache.insert(pid, q);
            match front {
                Some(m) => {
                    assert(rest =~= before.drop_first());
                    assert(queues(cache@) =~= q0.insert(pid, before.drop_first()));
                    assert(m@ == before[0]);
                    m
                },
                None => {
                    assert(rest =~= before);
                    assert(queues(cache@) =~= q0);
                    DaemonMessage::Error { message: String::from_str("not found") }
                },
            }
        },
        None => {
            assert(queues(cache@) =~= q0);
            DaemonMessage::Error { message: String::from_str("not found") }
        },
    }
}

/// Drops the cursor of `pid`.
fn drop_queue(cache: &mut HashMap<u32, VecDeque<DaemonMessage>>, pid: u32) -> (r: DaemonMessage)
    ensures
        queues(final(cache)@) == queue_after(queues(old(cache)@), Ent::End(pid), Seq::empty()),
        r@ == queue_reply(queues(old(cache)@), Ent::End(pid)),
{
    let ghost q0 = queues(cache@);
    let _ = cache.remove(&pid);
    assert(queues(cache@) =~= q0.remove(pid));
    DaemonMessage::Success
}

/// The home directory of a login.
pub fn home_of(conf: &Config, login: &str) -> (r: String)
    ensures
        r@ == filled(conf.home@, login@),
{
    fill(conf.home.as_str(), login)
}

/// The shell of a login.
pub fn shell_of(conf: &Config, probes: &Vec<UserProbe>, login: &str) -> (r: String)
    ensures
        r@ == shell_for(
            Ctx { home: conf.home@, sh: conf.sh@, probes: probe_views(probes@) },
            login@,
        ),
{
    match find_probe(probes, login) {
        Some(i) => {
            assert(probe_views(probes@)[i as int] == probes@[i as int]@);
            if probes[i].sh_exists {
                match &probes[i].conf {
                    Some(c) => match &c.sh {
                        Some(sh) => sh.clone(),
                        None => conf.sh.clone(),
                    },
                    None => conf.sh.clone(),
                }
            } else {
                conf.sh.clone()
            }
        },
        None => conf.sh.clone(),
    }
}

/// The shadow password of a login.
pub fn pass_of(conf: &Config, probes: &Vec<UserProbe>, login: &str) -> (r: String)
    ensures
        r@ == pass_for(
            Ctx { home: conf.home@, sh: conf.sh@, probes: probe_views(probes@) },
            login@,
        ),
{
    proof {
        reveal_strlit("*");
    }
    let r = match find_probe(probes, login) {
        Some(i) => {
            assert(probe_views(probes@)[i as int] == probes@[i as int]@);
            match &probes[i].conf {
                Some(c) => match &c.pass {
                    Some(pass) => pass.clone(),
                    None => String::from_str("*"),
                },
                None => String::from_str("*"),
            }
        },
        None => String::from_str("*"),
    };
    assert(r@ =~= pass_for(
        Ctx { home: conf.home@, sh: conf.sh@, probes: probe_views(probes@) },
        login@,
    ));
    r
}

/// The user record of a member of a group.
pub fn pw_record_of(conf: &Config, probes: &Vec<UserProbe>, g: &SectorGroup, m: &Member) -> (r:
    DaemonMessage)
    ensures
        r@ == pw_record(
            Ctx { home: conf.home@, sh: conf.sh@, probes: probe_views(probes@) },
            g@,
            m@,
        ),
{
    DaemonMessage::Pw {
        login: m.login.clone(),
        uid: m.id,
        gid: g.get_gid(),
        home: home_of(conf, m.login.as_str()),
        sh: shell_of(conf, probes, m.login.as_str()),
    }
}

/// The shadow record of a member.
pub fn sp_record_of(conf: &Config, probes: &Vec<UserProbe>, m: &Member) -> (r: DaemonMessage)
    ensures
        r@ == sp_record(Ctx { home: conf.home@, sh: conf.sh@, probes: probe_views(probes@) }, m@),
{
    DaemonMessage::Sp { login: m.login.clone(), pass: pass_of(conf, probes, m.login.as_str()) }
}

/// The user records of all groups, in the order of an enumeration.
pub fn pw_records_of(conf: &Config, probes: &Vec<UserProbe>, sectors: &Vec<SectorGroup>) -> (r:
    VecDeque<DaemonMessage>)
    ensures
        msg_views(r@) == pw_records(
            Ctx { home: conf.home@, sh: conf.sh@, probes: probe_views(probes@) },
            group_views(sectors@),
        ),
{
    let ghost ctx = Ctx { home: conf.home@, sh: conf.sh@, probes: probe_views(probes@) };
    let ghost gs = group_views(sectors@);
    let mut out: VecDeque<DaemonMessage> = VecDeque::new();
    let mut i: usize = 0;
    assert(gs.take(0) =~= Seq::empty());
    assert(msg_views(out@) =~= Seq::empty());
    while i < sectors.len()
        invariant
            i <= sectors.len(),
            gs == group_views(sectors@),
            ctx == (Ctx { home: conf.home@, sh: conf.sh@, probes: probe_views(probes@) }),
            msg_views(out@) == pw_records(ctx, gs.take(i as int)),
        decreases sectors.len() - i,
    {
        let g = &sectors[i];
        assert(gs[i as int] == g@);
        let ghost done = msg_views(out@);
        let ghost mine = group_pw_records(ctx, g@);
        let mut k: usize = 0;
        assert(done + mine.take(0) =~= done);
        while k < g.members.len()
            invariant
                k <= g.members.len(),
                ctx == (Ctx { home: conf.home@, sh: conf.sh@, probes: probe_views(probes@) }),
                mine == group_pw_records(ctx, g@),
                msg_views(out@) == done + mine.take(k as int),
            decreases g.members.len() - k,
        {
            assert(g@.members[k as int] == g.members@[k as int]@);
            let rec = pw_record_of(conf, probes, g, &g.members[k]);
            let ghost rv = rec@;
            let ghost before = msg_views(out@);
            out.push_back(rec);
            assert(msg_views(out@) =~= before.push(rv));
            assert(done + mine.take(k + 1) =~= (done + mine.take(k as int)).push(mine[k as int]));
            k += 1;
        }
        assert(mine.take(g.members.len() as int) =~= mine);
        assert(gs.take(i + 1).drop_last() =~= gs.take(i as int));
        assert(gs.take(i + 1).last() == gs[i as int]);
        i += 1;
    }
    assert(gs.take(sectors.len() as int) =~= gs);
    out
}

/// The shadow records of all groups, in the order of an enumeration.
pub fn sp_records_of(conf: &Config, probes: &Vec<UserProbe>, sectors: &Vec<SectorGroup>) -> (r:
    VecDeque<DaemonMessage>)
    ensures
        msg_views(r@) == sp_records(
            Ctx { home: conf.home@, sh: conf.sh@, probes: probe_views(probes@) },
            group_views(sectors@),
        ),
{
    let ghost ctx = Ctx { home: conf.home@, sh: conf.sh@, probes: probe_views(probes@) };
    let ghost gs = group_views(sectors@);
    let mut out: VecDeque<DaemonMessage> = VecDeque::new();
    let mut i: usize = 0;
    assert(gs.take(0) =~= Seq::empty());
    assert(msg_views(out@) =~= Seq::empty());
    while i < sectors.len()
        invariant
            i <= sectors.len(),
            gs == group_views(sectors@),
            ctx == (Ctx { home: conf.home@, sh: conf.sh@, probes: probe_views(probes@) }),
            msg_views(out@) == sp_records(ctx, gs.take(i as int)),
        decreases sectors.len() - i,
    {
        let g = &sectors[i];
        assert(gs[i as int] == g@);
        let ghost done = msg_views(out@);
        let ghost mine = group_sp_records(ctx, g@);
        let mut k: usize = 0;
        assert(done + mine.take(0) =~= done);
        while k < g.members.len()
            invariant
                k <= g.members.len(),
                ctx == (Ctx { home: conf.home@, sh: conf.sh@, probes: probe_views(probes@) }),
                mine == group_sp_records(ctx, g@),
                msg_views(out@) == done + mine.take(k as int),
            decreases g.members.len() - k,
        {
            assert(g@.members[k as int] == g.members@[k as int]@);
            let rec = sp_record_of(conf, probes, &g.members[k]);
            let ghost rv = rec@;
            let ghost before = msg_views(out@);
            out.push_back(rec);
            assert(msg_views(out@) =~= before.push(rv));
            assert(done + mine.take(k + 1) =~= (done + mine.take(k as int)).push(mine[k as int]));
            k += 1;
        }
        assert(mine.take(g.members.len() as int) =~= mine);
        assert(gs.take(i + 1).drop_last() =~= gs.take(i as int));
        assert(gs.take(i + 1).last() == gs[i as int]);
        i += 1;
    }
    assert(gs.take(sectors.len() as int) =~= gs);
    out
}

/// The group records, in the order of an enumeration.
pub fn gr_records_of(sectors: &Vec<SectorGroup>) -> (r: VecDeque<DaemonMessage>)
    ensures
        msg_views(r@) == gr_records(group_views(sectors@)),
{
    let ghost all = gr_records(group_views(sectors@));
    let mut out: VecDeque<DaemonMessage> = VecDeque::new();
    let mut i: usize = 0;
    assert(msg_views(out@) =~= all.take(0));
    while i < sectors.len()
        invariant
            i <= sectors.len(),
            all == gr_records(group_views(sectors@)),
            msg_views(out@) == all.take(i as int),
        decreases sectors.len() - i,
    {
        let rec = DaemonMessage::Gr { sector: sectors[i].clone() };
        let ghost rv = rec@;
        let ghost before = msg_views(out@);
        assert(rv == all[i as int]);
        out.push_back(rec);
        assert(msg_views(out@) =~= before.push(rv));
        assert(all.take(i + 1) =~= all.take(i as int).push(all[i as int]));
        i += 1;
    }
    assert(all.take(sectors.len() as int) =~= all);
    out
}

/// The answer to a question about the user database.
pub open spec fn pw_reply(
    q: Map<u32, Seq<DaemonMessageView>>,
    ctx: Ctx,
    gs: Seq<SectorGroupView>,
    pw: PwView,
) -> DaemonMessageView {
    match pw {
        PwView::Uid(uid) => pw_by_uid(ctx, gs, uid),
        PwView::Nam(name) => pw_by_name(ctx, gs, name),
        PwView::Ent(e) => queue_reply(q, e),
    }
}

/// The cursors of the user database after a question about it.
pub open spec fn pw_next(
    q: Map<u32, Seq<DaemonMessageView>>,
    ctx: Ctx,
    gs: Seq<SectorGroupView>,
    pw: PwView,
) -> Map<u32, Seq<DaemonMessageView>> {
    match pw {
        PwView::Ent(e) => queue_after(q, e, pw_records(ctx, gs)),
        _ => q,
    }
}

/// The answer to a question about the shadow database.
pub open spec fn sp_reply(
    q: Map<u32, Seq<DaemonMessageView>>,
    ctx: Ctx,
    gs: Seq<SectorGroupView>,
    sp: SpView,
) -> DaemonMessageView {
    match sp {
        SpView::Nam(name) => sp_by_name(ctx, gs, name),
        SpView::Ent(e) => queue_reply(q, e),
    }
}

/// The cursors of the shadow database after a question about it.
pub open spec fn sp_next(
    q: Map<u32, Seq<DaemonMessageView>>,
    ctx: Ctx,
    gs: Seq<SectorGroupView>,
    sp: SpView,
) -> Map<u32, Seq<DaemonMessageView>> {
    match sp {
        SpView::Ent(e) => queue_after(q, e, sp_records(ctx, gs)),
        _ => q,
    }
}

/// The answer to a question about the group database.
pub open spec fn gr_reply(
    q: Map<u32, Seq<DaemonMessageView>>,
    gs: Seq<SectorGroupView>,
    gr: GrView,
) -> DaemonMessageView {
    match gr {
        GrView::Gid(gid) => gr_by_gid(gs, gid),
        GrView::Nam(name) => gr_by_name(gs, name),
        GrView::Ent(e) => queue_reply(q, e),
    }
}

/// The cursors of the group database after a question about it.
pub open spec fn gr_next(
    q: Map<u32, Seq<DaemonMessageView>>,
    gs: Seq<SectorGroupView>,
    gr: GrView,
) -> Map<u32, Seq<DaemonMessageView>> {
    match gr {
        GrView::Ent(e) => queue_after(q, e, gr_records(gs)),
        _ => q,
    }
}

/// The resolver: the settings, and the cursors of the callers that enumerate.
pub struct Daemon {
    conf: Config,
    pw_cache: HashMap<u32, VecDeque<DaemonMessage>>,
    sp_cache: HashMap<u32, VecDeque<DaemonMessage>>,
    gr_cache: HashMap<u32, VecDeque<DaemonMessage>>,
}

impl Daemon {
    /// The cursors that the daemon holds.
    pub closed spec fn cursors(&self) -> Cursors {
        Cursors {
            pw: queues(self.pw_cache@),
            sp: queues(self.sp_cache@),
            gr: queues(self.gr_cache@),
        }
    }

    /// The settings that the daemon was made with.
    pub closed spec fn settings(&self) -> Config {
        self.conf
    }

    /// What the records are made from, with what was found on disk for the logins.
    pub open spec fn ctx(&self, probes: Seq<UserProbeView>) -> Ctx {
        Ctx { home: self.settings().home@, sh: self.settings().sh@, probes }
    }

    /// The settings that the daemon was made with.
    pub fn conf(&self) -> (r: &Config)
        ensures
            *r == self.settings(),
    {
        &self.conf
    }

    /// A daemon without cursors.
    pub fn new(conf: Config) -> (r: Daemon)
        ensures
            r.settings() == conf,
            r.cursors() == (Cursors { pw: Map::empty(), sp: Map::empty(), gr: Map::empty() }),
    {
        let r = Daemon {
            conf,
            pw_cache: HashMap::new(),
            sp_cache: HashMap::new(),
            gr_cache: HashMap::new(),
        };
        assert(queues(r.pw_cache@) =~= Map::empty());
        assert(queues(r.sp_cache@) =~= Map::empty());
        assert(queues(r.gr_cache@) =~= Map::empty());
        r
    }

    /// Takes the next record off the cursor that the caller `pid` holds for a database
    /// and answers with it; where there is none the answer is that nothing is found.
    /// Nothing but that one cursor changes: the cursors of other callers, and those
    /// of the same caller for the other databases, stay as they are.
    pub fn get_msg(&mut self, kind: Kind, pid: u32) -> (r: DaemonMessage)
        ensures
            r@ == queue_reply(old(self).cursors().of(kind), Ent::Get(pid)),
            final(self).cursors().of(kind) == queue_after(
                old(self).cursors().of(kind),
                Ent::Get(pid),
                Seq::empty(),
            ),
            forall|other: u32|
                other != pid ==> final(self).cursors().of(kind).contains_key(other) == old(
                    self,
                ).cursors().of(kind).contains_key(other) && (old(self).cursors().of(
                    kind,
                ).contains_key(other) ==> #[trigger] final(self).cursors().of(kind)[other] == old(
                    self,
                ).cursors().of(kind)[other]),
            kind != Kind::Pw ==> final(self).cursors().pw == old(self).cursors().pw,
            kind != Kind::Sp ==> final(self).cursors().sp == old(self).cursors().sp,
            kind != Kind::Gr ==> final(self).cursors().gr == old(self).cursors().gr,
            final(self).settings() == old(self).settings(),
    {
        match kind {
            Kind::Pw => take_front(&mut self.pw_cache, pid),
            Kind::Sp => take_front(&mut self.sp_cache, pid),
            Kind::Gr => take_front(&mut self.gr_cache, pid),
        }
    }

    /// Drops the cursor that the caller `pid` holds for a database. No other cursor
    /// changes.
    pub fn clear_cache(&mut self, kind: Kind, pid: u32) -> (r: DaemonMessage)
        ensures
            r@ == queue_reply(old(self).cursors().of(kind), Ent::End(pid)),
            final(self).cursors().of(kind) == queue_after(
                old(self).cursors().of(kind),
                Ent::End(pid),
                Seq::empty(),
            ),
            forall|other: u32|
                other != pid ==> final(self).cursors().of(kind).contains_key(other) == old(
                    self,
                ).cursors().of(kind).contains_key(other) && (old(self).cursors().of(
                    kind,
                ).contains_key(other) ==> #[trigger] final(self).cursors().of(kind)[other] == old(
                    self,
                ).cursors().of(kind)[other]),
            kind != Kind::Pw ==> final(self).cursors().pw == old(self).cursors().pw,
            kind != Kind::Sp ==> final(self).cursors().sp == old(self).cursors().sp,
            kind != Kind::Gr ==> final(self).cursors().gr == old(self).cursors().gr,
            final(self).settings() == old(self).settings(),
    {
        match kind {
            Kind::Pw => drop_queue(&mut self.pw_cache, pid),
            Kind::Sp => drop_queue(&mut self.sp_cache, pid),
            Kind::Gr => drop_queue(&mut self.gr_cache, pid),
        }
    }

    /// Answers a question about the user database. A lookup answers with the record
    /// of the first group, in the order of declaration, that holds the user; only a
    /// step of an enumeration changes a cursor, and only that of its caller.
    pub fn handle_pw(&mut self, pw: &Pw, sectors: &Vec<SectorGroup>, probes: &Vec<UserProbe>) -> (r:
        DaemonMessage)
        ensures
            r@ == pw_reply(
                old(self).cursors().pw,
                old(self).ctx(probe_views(probes@)),
                group_views(sectors@),
                pw@,
            ),
            final(self).cursors().pw == pw_next(
                old(self).cursors().pw,
                old(self).ctx(probe_views(probes@)),
                group_views(sectors@),
                pw@,
            ),
            final(self).cursors().sp == old(self).cursors().sp,
            final(self).cursors().gr == old(self).cursors().gr,
            final(self).settings() == old(self).settings(),
    {
        match pw {
            Pw::Uid(uid) => match find_group_of_uid(sectors, *uid) {
                Some((i, k)) => {
                    assert(group_views(sectors@)[i as int] == sectors@[i as int]@);
                    assert(sectors@[i as int]@.members[k as int] == sectors@[i as int].members@[k as int]@);
                    pw_record_of(&self.conf, probes, &sectors[i], &sectors[i].members[k])
                },
                None => DaemonMessage::Error { message: String::from_str("not found") },
            },
            Pw::Nam(name) => match find_group_of_login(sectors, name.as_str()) {
                Some((i, k)) => {
                    assert(group_views(sectors@)[i as int] == sectors@[i as int]@);
                    assert(sectors@[i as int]@.members[k as int] == sectors@[i as int].members@[k as int]@);
                    pw_record_of(&self.conf, probes, &sectors[i], &sectors[i].members[k])
                },
                None => DaemonMessage::Error { message: String::from_str("not found") },
            },
            Pw::Ent(Ent::Start(pid)) => {
                let records = pw_records_of(&self.conf, probes, sectors);
                install(&mut self.pw_cache, *pid, records)
            },
            Pw::Ent(Ent::Get(pid)) => self.get_msg(Kind::Pw, *pid),
            Pw::Ent(Ent::End(pid)) => self.clear_cache(Kind::Pw, *pid),
        }
    }

    /// Answers a question about the shadow database.
    pub fn handle_sp(&mut self, sp: &Sp, sectors: &Vec<SectorGroup>, probes: &Vec<UserProbe>) -> (r:
        DaemonMessage)
        ensures
            r@ == sp_reply(
                old(self).cursors().sp,
                old(self).ctx(probe_views(probes@)),
                group_views(sectors@),
                sp@,
            ),
            final(self).cursors().sp == sp_next(
                old(self).cursors().sp,
                old(self).ctx(probe_views(probes@)),
                group_views(sectors@),
                sp@,
            ),
            final(self).cursors().pw == old(self).cursors().pw,
            final(self).cursors().gr == old(self).cursors().gr,
            final(self).settings() == old(self).settings(),
    {
        match sp {
            Sp::Nam(name) => match find_group_of_login(sectors, name.as_str()) {
                Some((i, k)) => {
                    assert(group_views(sectors@)[i as int] == sectors@[i as int]@);
                    assert(sectors@[i as int]@.members[k as int] == sectors@[i as int].members@[k as int]@);
                    sp_record_of(&self.conf, probes, &sectors[i].members[k])
                },
                None => DaemonMessage::Error { message: String::from_str("not found") },
            },
            Sp::Ent(Ent::Start(pid)) => {
                let records = sp_records_of(&self.conf, probes, sectors);
                install(&mut self.sp_cache, *pid, records)
            },
            Sp::Ent(Ent::Get(pid)) => self.get_msg(Kind::Sp, *pid),
            Sp::Ent(Ent::End(pid)) => self.clear_cache(Kind::Sp, *pid),
        }
    }

    /// Answers a question about the group database.
    pub fn handle_gr(&mut self, gr: &Gr, sectors: &Vec<SectorGroup>) -> (r: DaemonMessage)
        ensures
            r@ == gr_reply(old(self).cursors().gr, group_views(sectors@), gr@),
            final(self).cursors().gr == gr_next(
                old(self).cursors().gr,
                group_views(sectors@),
                gr@,
            ),
            final(self).cursors().pw == old(self).cursors().pw,
            final(self).cursors().sp == old(self).cursors().sp,
            final(self).settings() == old(self).settings(),
    {
        match gr {
            Gr::Gid(gid) => match find_gid(sectors, *gid) {
                Some(i) => {
                    assert(group_views(sectors@)[i as int] == sectors@[i as int]@);
                    DaemonMessage::Gr { sector: sectors[i].clone() }
                },
                None => DaemonMessage::Error { message: String::from_str("not found") },
            },
            Gr::Nam(name) => match find_group_name(sectors, name.as_str()) {
                Some(i) => {
                    assert(group_views(sectors@)[i as int] == sectors@[i as int]@);
                    DaemonMessage::Gr { sector: sectors[i].clone() }
                },
                None => DaemonMessage::Error { message: String::from_str("not found") },
            },
            Gr::Ent(Ent::Start(pid)) => {
                let records = gr_records_of(sectors);
                install(&mut self.gr_cache, *pid, records)
            },
            Gr::Ent(Ent::Get(pid)) => self.get_msg(Kind::Gr, *pid),
            Gr::Ent(Ent::End(pid)) => self.clear_cache(Kind::Gr, *pid),
        }
    }
}

/// What the daemon has to get from outside before it can answer a request.
#[derive(Debug, Clone, Copy, PartialEq, Eq, Structural)]
pub enum Need {
    Nothing,
    /// The public keys of the user that the request names.
    Keys,
    /// The counters of the rate limit, from the remote service itself.
    RateLimit,
    /// The cache files removed.
    ClearCaches,
    /// The groups with their members.
    Sectors,
}

/// What a request needs from outside. A `get` or `end` step of an enumeration needs
/// nothing: the records were made at `set`.
pub open spec fn need_of(msg: ClientMessageView) -> Need {
    match msg {
        ClientMessageView::Cont => Need::Nothing,
        ClientMessageView::Key { user } => Need::Keys,
        ClientMessageView::Pam { user } => Need::Sectors,
        ClientMessageView::CleanUp => Need::ClearCaches,
        ClientMessageView::RateLimit => Need::RateLimit,
        ClientMessageView::SectorGroups => Need::Sectors,
        ClientMessageView::Pw(PwView::Ent(Ent::Get(_))) => Need::Nothing,
        ClientMessageView::Pw(PwView::Ent(Ent::End(_))) => Need::Nothing,
        ClientMessageView::Pw(_) => Need::Sectors,
        ClientMessageView::Sp(SpView::Ent(Ent::Get(_))) => Need::Nothing,
        ClientMessageView::Sp(SpView::Ent(Ent::End(_))) => Need::Nothing,
        ClientMessageView::Sp(_) => Need::Sectors,
        ClientMessageView::Gr(GrView::Ent(Ent::Get(_))) => Need::Nothing,
        ClientMessageView::Gr(GrView::Ent(Ent::End(_))) => Need::Nothing,
        ClientMessageView::Gr(_) => Need::Sectors,
    }
}

/// What the daemon has to get from outside before it can answer `msg`.
pub fn needs(msg: &ClientMessage) -> (r: Need)
    ensures
        r == need_of(msg@),
{
    match msg {
        ClientMessage::Cont => Need::Nothing,
        ClientMessage::Key { user } => Need::Keys,
        ClientMessage::Pam { user } => Need::Sectors,
        ClientMessage::CleanUp => Need::ClearCaches,
        ClientMessage::RateLimit => Need::RateLimit,
        ClientMessage::SectorGroups => Need::Sectors,
        ClientMessage::Pw(Pw::Ent(Ent::Get(_))) => Need::Nothing,
        ClientMessage::Pw(Pw::Ent(Ent::End(_))) => Need::Nothing,
        ClientMessage::Pw(_) => Need::Sectors,
        ClientMessage::Sp(Sp::Ent(Ent::Get(_))) => Need::Nothing,
        ClientMessage::Sp(Sp::Ent(Ent::End(_))) => Need::Nothing,
        ClientMessage::Sp(_) => Need::Sectors,
        ClientMessage::Gr(Gr::Ent(Ent::Get(_))) => Need::Nothing,
        ClientMessage::Gr(Gr::Ent(Ent::End(_))) => Need::Nothing,
        ClientMessage::Gr(_) => Need::Sectors,
    }
}

/// What came back from outside.
#[derive(Debug)]
pub enum Outcome {
    /// Nothing was asked for.
    Nothing,
    /// What was asked for could not be had.
    Failed,
    Keys(Vec<String>),
    RateLimit(RateLimit),
    Cleared,
    Sectors(Vec<SectorGroup>),
}

/// What a `Outcome` stands for in contracts.
pub enum OutcomeView {
    Nothing,
    Failed,
    Keys(Seq<Seq<char>>),
    RateLimit(RateLimit),
    Cleared,
    Sectors(Seq<SectorGroupView>),
}

impl View for Outcome {
    type V = OutcomeView;

    open spec fn view(&self) -> OutcomeView {
        match self {
            Outcome::Nothing => OutcomeView::Nothing,
            Outcome::Failed => OutcomeView::Failed,
            Outcome::Keys(keys) => OutcomeView::Keys(views(keys@)),
            Outcome::RateLimit(rl) => OutcomeView::RateLimit(*rl),
            Outcome::Cleared => OutcomeView::Cleared,
            Outcome::Sectors(gs) => OutcomeView::Sectors(group_views(gs@)),
        }
    }
}

/// The groups that came back; none where they could not be had.
pub open spec fn groups_of(o: OutcomeView) -> Seq<SectorGroupView> {
    match o {
        OutcomeView::Sectors(gs) => gs,
        _ => Seq::empty(),
    }
}

/// The error reply with this text.
pub open spec fn failure(text: Seq<char>) -> DaemonMessageView {
    DaemonMessageView::Error { message: text }
}

/// The answer to a request, given what came back from outside. Where a lookup or
/// an enumeration could not have the groups it goes on as if there were none; the
/// other requests answer with an error then, and so does a continuation that
/// follows no divided frame.
pub open spec fn reply_to(cs: Cursors, ctx: Ctx, msg: ClientMessageView, o: OutcomeView) -> DaemonMessageView {
    match msg {
        ClientMessageView::Cont => failure("unexpected cont"@),
        ClientMessageView::Key { user } => match o {
            OutcomeView::Keys(keys) => DaemonMessageView::Key { keys: join(keys, '\n') },
            _ => failure("get key failed"@),
        },
        ClientMessageView::Pam { user } => match o {
            OutcomeView::Sectors(gs) => DaemonMessageView::Pam { result: is_member(gs, user) },
            _ => failure("check pam failed"@),
        },
        ClientMessageView::CleanUp => match o {
            OutcomeView::Cleared => DaemonMessageView::Success,
            _ => failure("clean up failed"@),
        },
        ClientMessageView::RateLimit => match o {
            OutcomeView::RateLimit(rl) => DaemonMessageView::RateLimit {
                limit: rl.rate.limit,
                remaining: rl.rate.remaining,
                reset: rl.rate.reset,
            },
            _ => failure("get rate limit failed"@),
        },
        ClientMessageView::SectorGroups => match o {
            OutcomeView::Sectors(gs) => DaemonMessageView::SectorGroups { sectors: gs },
            _ => failure("get sectors failed"@),
        },
        ClientMessageView::Pw(pw) => pw_reply(cs.pw, ctx, groups_of(o), pw),
        ClientMessageView::Sp(sp) => sp_reply(cs.sp, ctx, groups_of(o), sp),
        ClientMessageView::Gr(gr) => gr_reply(cs.gr, groups_of(o), gr),
    }
}

/// The cursors after a request.
pub open spec fn cursors_after(cs: Cursors, ctx: Ctx, msg: ClientMessageView, o: OutcomeView) -> Cursors {
    match msg {
        ClientMessageView::Pw(pw) => Cursors { pw: pw_next(cs.pw, ctx, groups_of(o), pw), ..cs },
        ClientMessageView::Sp(sp) => Cursors { sp: sp_next(cs.sp, ctx, groups_of(o), sp), ..cs },
        ClientMessageView::Gr(gr) => Cursors { gr: gr_next(cs.gr, groups_of(o), gr), ..cs },
        _ => cs,
    }
}

impl Daemon {
    /// Answers a request, given what came back from outside for it.
    pub fn handle(&mut self, msg: &ClientMessage, outcome: Outcome, probes: &Vec<UserProbe>) -> (r:
        DaemonMessage)
        ensures
            r@ == reply_to(
                old(self).cursors(),
                old(self).ctx(probe_views(probes@)),
                msg@,
                outcome@,
            ),
            final(self).cursors() == cursors_after(
                old(self).cursors(),
                old(self).ctx(probe_views(probes@)),
                msg@,
                outcome@,
            ),
            final(self).settings() == old(self).settings(),
    {
        match msg {
            ClientMessage::Cont => DaemonMessage::Error {
                message: String::from_str("unexpected cont"),
            },
            ClientMessage::Key { user } => match outcome {
                Outcome::Keys(keys) => {
                    proof {
                        reveal_strlit("\n");
                        assert("\n"@ =~= seq!['\n']);
                    }
                    DaemonMessage::Key { keys: join_strings(&keys, '\n', "\n") }
                },
                _ => DaemonMessage::Error { message: String::from_str("get key failed") },
            },
            ClientMessage::Pam { user } => match outcome {
                Outcome::Sectors(gs) => DaemonMessage::Pam { result: check_pam(&gs, user.as_str()) },
                _ => DaemonMessage::Error { message: String::from_str("check pam failed") },
            },
            ClientMessage::CleanUp => match outcome {
                Outcome::Cleared => DaemonMessage::Success,
                _ => DaemonMessage::Error { message: String::from_str("clean up failed") },
            },
            ClientMessage::RateLimit => match outcome {
                Outcome::RateLimit(rl) => DaemonMessage::RateLimit {
                    limit: rl.rate.limit,
                    remaining: rl.rate.remaining,
                    reset: rl.rate.reset,
                },
                _ => DaemonMessage::Error {
                    message: String::from_str("get rate limit failed"),
                },
            },
            ClientMessage::SectorGroups => match outcome {
                Outcome::Sectors(gs) => DaemonMessage::SectorGroups { sectors: gs },
                _ => DaemonMessage::Error { message: String::from_str("get sectors failed") },
            },
            ClientMessage::Pw(pw) => {
                let gs = groups_from(outcome);
                self.handle_pw(pw, &gs, probes)
            },
            ClientMessage::Sp(sp) => {
                let gs = groups_from(outcome);
                self.handle_sp(sp, &gs, probes)
            },
            ClientMessage::Gr(gr) => {
                let gs = groups_from(outcome);
                self.handle_gr(gr, &gs)
            },
        }
    }
}

/// The groups that came back; none where they could not be had.
fn groups_from(outcome: Outcome) -> (r: Vec<SectorGroup>)
    ensures
        group_views(r@) == groups_of(outcome@),
{
    match outcome {
        Outcome::Sectors(gs) => gs,
        _ => {
            let r: Vec<SectorGroup> = Vec::new();
            assert(group_views(r@) =~= Seq::empty());
            r
        },
    }
}

/// The logins of the members of one group, in their order.
pub open spec fn group_logins(g: SectorGroupView) -> Seq<Seq<char>> {
    Seq::new(g.members.len(), |i: int| g.members[i].login)
}

/// The logins of all groups, in the order of an enumeration.
pub open spec fn all_logins(gs: Seq<SectorGroupView>) -> Seq<Seq<char>>
    decreases gs.len(),
{
    if gs.len() == 0 {
        Seq::empty()
    } else {
        all_logins(gs.drop_last()) + group_logins(gs.last())
    }
}

/// The logins whose own settings bear on the answer to a request: that of the user
/// that a lookup finds, all of them for the `set` step of an enumeration of users
/// or shadow entries, and none else.
pub open spec fn logins_needed(msg: ClientMessageView, gs: Seq<SectorGroupView>) -> Seq<Seq<char>> {
    match msg {
        ClientMessageView::Pw(PwView::Uid(uid)) => {
            let i = first_index(gs, holds_uid(uid));
            if i < gs.len() {
                seq![gs[i].members[first_index(gs[i].members, has_uid(uid))].login]
            } else {
                Seq::empty()
            }
        },
        ClientMessageView::Pw(PwView::Nam(name)) => if first_index(gs, holds_login(name))
            < gs.len() {
            seq![name]
        } else {
            Seq::empty()
        },
        ClientMessageView::Sp(SpView::Nam(name)) => if first_index(gs, holds_login(name))
            < gs.len() {
            seq![name]
        } else {
            Seq::empty()
        },
        ClientMessageView::Pw(PwView::Ent(Ent::Start(_))) => all_logins(gs),
        ClientMessageView::Sp(SpView::Ent(Ent::Start(_))) => all_logins(gs),
        _ => Seq::empty(),
    }
}

/// The logins of all groups, in the order of an enumeration.
pub fn logins_of(sectors: &Vec<SectorGroup>) -> (r: Vec<String>)
    ensures
        views(r@) == all_logins(group_views(sectors@)),
{
    let ghost gs = group_views(sectors@);
    let mut out: Vec<String> = Vec::new();
    let mut i: usize = 0;
    assert(gs.take(0) =~= Seq::empty());
    assert(views(out@) =~= Seq::empty());
    while i < sectors.len()
        invariant
            i <= sectors.len(),
            gs == group_views(sectors@),
            views(out@) == all_logins(gs.take(i as int)),
        decreases sectors.len() - i,
    {
        let g = &sectors[i];
        assert(gs[i as int] == g@);
        let ghost done = views(out@);
        let ghost mine = group_logins(g@);
        let mut k: usize = 0;
        assert(done + mine.take(0) =~= done);
        while k < g.members.len()
            invariant
                k <= g.members.len(),
                mine == group_logins(g@),
                views(out@) == done + mine.take(k as int),
            decreases g.members.len() - k,
        {
            assert(g@.members[k as int] == g.members@[k as int]@);
            let ghost before = views(out@);
            out.push(g.members[k].login.clone());
            assert(views(out@) =~= before.push(mine[k as int]));
            assert(done + mine.take(k + 1) =~= (done + mine.take(k as int)).push(mine[k as int]));
            k += 1;
        }
        assert(mine.take(g.members.len() as int) =~= mine);
        assert(gs.take(i + 1).drop_last() =~= gs.take(i as int));
        assert(gs.take(i + 1).last() == gs[i as int]);
        i += 1;
    }
    assert(gs.take(sectors.len() as int) =~= gs);
    out
}

/// The logins whose own settings have to be looked up on disk before `msg` can be
/// answered.
pub fn logins_for(msg: &ClientMessage, sectors: &Vec<SectorGroup>) -> (r: Vec<String>)
    ensures
        views(r@) == logins_needed(msg@, group_views(sectors@)),
{
    let mut out: Vec<String> = Vec::new();
    assert(views(out@) =~= Seq::empty());
    match msg {
        ClientMessage::Pw(Pw::Uid(uid)) => match find_group_of_uid(sectors, *uid) {
            Some((i, k)) => {
                assert(group_views(sectors@)[i as int] == sectors@[i as int]@);
                assert(sectors@[i as int]@.members[k as int] == sectors@[i as int].members@[k as int]@);
                out.push(sectors[i].members[k].login.clone());
                assert(views(out@) =~= seq![sectors@[i as int].members@[k as int].login@]);
                out
            },
            None => out,
        },
        ClientMessage::Pw(Pw::Nam(name)) => match find_group_of_login(sectors, name.as_str()) {
            Some(_) => {
                out.push(name.clone());
                assert(views(out@) =~= seq![name@]);
                out
            },
            None => out,
        },
        ClientMessage::Sp(Sp::Nam(name)) => match find_group_of_login(sectors, name.as_str()) {
            Some(_) => {
                out.push(name.clone());
                assert(views(out@) =~= seq![name@]);
                out
            },
            None => out,
        },
        ClientMessage::Pw(Pw::Ent(Ent::Start(_))) => logins_of(sectors),
        ClientMessage::Sp(Sp::Ent(Ent::Start(_))) => logins_of(sectors),
        _ => out,
    }
}

/// The records that an enumeration of a database goes through.
pub open spec fn records_of(kind: Kind, ctx: Ctx, gs: Seq<SectorGroupView>) -> Seq<DaemonMessageView> {
    match kind {
        Kind::Pw => pw_records(ctx, gs),
        Kind::Sp => sp_records(ctx, gs),
        Kind::Gr => gr_records(gs),
    }
}

/// The request of a step of an enumeration of a database.
pub open spec fn ent_request(kind: Kind, ent: Ent) -> ClientMessageView {
    match kind {
        Kind::Pw => ClientMessageView::Pw(PwView::Ent(ent)),
        Kind::Sp => ClientMessageView::Sp(SpView::Ent(ent)),
        Kind::Gr => ClientMessageView::Gr(GrView::Ent(ent)),
    }
}

impl Cursors {
    /// The cursors of one database.
    pub open spec fn of(self, kind: Kind) -> Map<u32, Seq<DaemonMessageView>> {
        match kind {
            Kind::Pw => self.pw,
            Kind::Sp => self.sp,
            Kind::Gr => self.gr,
        }
    }
}

/// A step of an enumeration is answered from the cursors of its database alone and
/// changes no others; `set` installs the records of the groups as they are then,
/// expanded to the kind of the database.
pub proof fn lemma_enumeration_step(cs: Cursors, ctx: Ctx, kind: Kind, ent: Ent, o: OutcomeView)
    ensures
        reply_to(cs, ctx, ent_request(kind, ent), o) == queue_reply(cs.of(kind), ent),
        cursors_after(cs, ctx, ent_request(kind, ent), o).of(kind) == queue_after(
            cs.of(kind),
            ent,
            records_of(kind, ctx, groups_of(o)),
        ),
        forall|other: Kind|
            other != kind ==> cursors_after(cs, ctx, ent_request(kind, ent), o).of(other)
                == cs.of(other),
{
    assert forall|other: Kind| other != kind implies cursors_after(
        cs,
        ctx,
        ent_request(kind, ent),
        o,
    ).of(other) == cs.of(other) by {
        match kind {
            Kind::Pw => {},
            Kind::Sp => {},
            Kind::Gr => {},
        }
    }
}

/// The answer to a datagram that cannot be read as a request.
pub fn unreadable_request() -> (r: DaemonMessage)
    ensures
        r@ == failure("unreadable request"@),
{
    DaemonMessage::Error { message: String::from_str("unreadable request") }
}

/// Reads a datagram as a request. What cannot be read is no reason to stop: it is
/// answered with an error.
pub fn read_request(datagram: &str) -> (r: Result<ClientMessage, DaemonMessage>)
    ensures
        match r {
            Ok(msg) => ClientMessageView::parse(datagram@) == Ok::<
                ClientMessageView,
                crate::error::ParseMessageError,
            >(msg@),
            Err(reply) => ClientMessageView::parse(datagram@) is Err && reply@ == failure(
                "unreadable request"@,
            ),
        },
{
    match ClientMessage::from_str(datagram) {
        Ok(msg) => Ok(msg),
        Err(_) => Err(unreadable_request()),
    }
}

} // verus!

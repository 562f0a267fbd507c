use vstd::prelude::*;
use crate::buffer::Buffer;
use crate::cstructs::{Group, Passwd, Spwd};
use crate::daemon::group_logins;
use crate::error::BufferError;
use crate::message::{
    ClientMessage, ClientMessageView, DaemonMessage, DaemonMessageView, Ent, Gr, GrView, Pw,
    PwView, Sp, SpView,
};
use crate::structs::SectorGroup;
use crate::text::views;

verus! {

/// How a lookup ended, in the terms of the name-service switch.
#[derive(Debug, Clone, Copy, PartialEq, Eq, Structural)]
pub enum NssStatus {
    TryAgain,
    Unavail,
    NotFound,
    Success,
}

impl NssStatus {
    /// The number that the name-service switch knows the status by.
    pub open spec fn spec_code(self) -> i32 {
        match self {
            NssStatus::TryAgain => -2i32,
            NssStatus::Unavail => -1i32,
            NssStatus::NotFound => 0i32,
            NssStatus::Success => 1i32,
        }
    }

    /// The number that the name-service switch knows the status by.
    pub fn code(self) -> (r: i32)
        ensures
            r == self.spec_code(),
    {
        match self {
            NssStatus::TryAgain => -2,
            NssStatus::Unavail => -1,
            NssStatus::NotFound => 0,
            NssStatus::Success => 1,
        }
    }
}

/// The error that a failed lookup reports to the host program.
#[derive(Debug, Clone, Copy, PartialEq, Eq, Structural)]
pub enum NssErrno {
    /// The daemon could not be asked or did not answer in a way that can be read.
    Eagain,
    /// The caller's buffer is too small.
    Erange,
    /// There is no such entry.
    Enoent,
}

/// The outcome of an entry point: the status to return, and the error to report
/// where there is one.
#[derive(Debug, Clone, Copy, PartialEq, Eq, Structural)]
pub struct Verdict {
    pub status: NssStatus,
    pub errno: Option<NssErrno>,
}

/// An entry point of the name-service module, with what the host program passes.
/// The steps of an enumeration carry the process id of the caller.
#[derive(Debug)]
pub enum Call {
    GetPwNam(String),
    GetPwUid(u32),
    SetPwEnt(u32),
    GetPwEnt(u32),
    EndPwEnt(u32),
    GetSpNam(String),
    SetSpEnt(u32),
    GetSpEnt(u32),
    EndSpEnt(u32),
    GetGrGid(u32),
    GetGrNam(String),
    SetGrEnt(u32),
    GetGrEnt(u32),
    EndGrEnt(u32),
}

/// What a `Call` stands for in contracts.
pub enum CallView {
    GetPwNam(Seq<char>),
    GetPwUid(u32),
    SetPwEnt(u32),
    GetPwEnt(u32),
    EndPwEnt(u32),
    GetSpNam(Seq<char>),
    SetSpEnt(u32),
    GetSpEnt(u32),
    EndSpEnt(u32),
    GetGrGid(u32),
    GetGrNam(Seq<char>),
    SetGrEnt(u32),
    GetGrEnt(u32),
    EndGrEnt(u32),
}

impl View for Call {
    type V = CallView;

    open spec fn view(&self) -> CallView {
        match self {
            Call::GetPwNam(n) => CallView::GetPwNam(n@),
            Call::GetPwUid(u) => CallView::GetPwUid(*u),
            Call::SetPwEnt(p) => CallView::SetPwEnt(*p),
            Call::GetPwEnt(p) => CallView::GetPwEnt(*p),
            Call::EndPwEnt(p) => CallView::EndPwEnt(*p),
            Call::GetSpNam(n) => CallView::GetSpNam(n@),
            Call::SetSpEnt(p) => CallView::SetSpEnt(*p),
            Call::GetSpEnt(p) => CallView::GetSpEnt(*p),
            Call::EndSpEnt(p) => CallView::EndSpEnt(*p),
            Call::GetGrGid(g) => CallView::GetGrGid(*g),
            Call::GetGrNam(n) => CallView::GetGrNam(n@),
            Call::SetGrEnt(p) => CallView::SetGrEnt(*p),
            Call::GetGrEnt(p) => CallView::GetGrEnt(*p),
            Call::EndGrEnt(p) => CallView::EndGrEnt(*p),
        }
    }
}

/// The request that an entry point sends to the daemon.
pub open spec fn request_of(call: CallView) -> ClientMessageView {
    match call {
        CallView::GetPwNam(n) => ClientMessageView::Pw(PwView::Nam(n)),
        CallView::GetPwUid(u) => ClientMessageView::Pw(PwView::Uid(u as u64)),
        CallView::SetPwEnt(p) => ClientMessageView::Pw(PwView::Ent(Ent::Start(p))),
        CallView::GetPwEnt(p) => ClientMessageView::Pw(PwView::Ent(Ent::Get(p))),
        CallView::EndPwEnt(p) => ClientMessageView::Pw(PwView::Ent(Ent::End(p))),
        CallView::GetSpNam(n) => ClientMessageView::Sp(SpView::Nam(n)),
        CallView::SetSpEnt(p) => ClientMessageView::Sp(SpView::Ent(Ent::Start(p))),
        CallView::GetSpEnt(p) => ClientMessageView::Sp(SpView::Ent(Ent::Get(p))),
        CallView::EndSpEnt(p) => ClientMessageView::Sp(SpView::Ent(Ent::End(p))),
        CallView::GetGrGid(g) => ClientMessageView::Gr(GrView::Gid(g as u64)),
        CallView::GetGrNam(n) => ClientMessageView::Gr(GrView::Nam(n)),
        CallView::SetGrEnt(p) => ClientMessageView::Gr(GrView::Ent(Ent::Start(p))),
        CallView::GetGrEnt(p) => ClientMessageView::Gr(GrView::Ent(Ent::Get(p))),
        CallView::EndGrEnt(p) => ClientMessageView::Gr(GrView::Ent(Ent::End(p))),
    }
}

/// The request that an entry point sends to the daemon.
pub fn request_for(call: &Call) -> (r: ClientMessage)
    ensures
        r@ == request_of(call@),
{
    match call {
        Call::GetPwNam(n) => ClientMessage::Pw(Pw::Nam(n.clone())),
        Call::GetPwUid(u) => ClientMessage::Pw(Pw::Uid(*u as u64)),
        Call::SetPwEnt(p) => ClientMessage::Pw(Pw::Ent(Ent::Start(*p))),
        Call::GetPwEnt(p) => ClientMessage::Pw(Pw::Ent(Ent::Get(*p))),
        Call::EndPwEnt(p) => ClientMessage::Pw(Pw::Ent(Ent::End(*p))),
        Call::GetSpNam(n) => ClientMessage::Sp(Sp::Nam(n.clone())),
        Call::SetSpEnt(p) => ClientMessage::Sp(Sp::Ent(Ent::Start(*p))),
        Call::GetSpEnt(p) => ClientMessage::Sp(Sp::Ent(Ent::Get(*p))),
        Call::EndSpEnt(p) => ClientMessage::Sp(Sp::Ent(Ent::End(*p))),
        Call::GetGrGid(g) => ClientMessage::Gr(Gr::Gid(*g as u64)),
        Call::GetGrNam(n) => ClientMessage::Gr(Gr::Nam(n.clone())),
        Call::SetGrEnt(p) => ClientMessage::Gr(Gr::Ent(Ent::Start(*p))),
        Call::GetGrEnt(p) => ClientMessage::Gr(Gr::Ent(Ent::Get(*p))),
        Call::EndGrEnt(p) => ClientMessage::Gr(Gr::Ent(Ent::End(*p))),
    }
}

/// The outcome where the daemon could not be asked, or its answer not be read.
pub open spec fn unreachable_daemon() -> Verdict {
    Verdict { status: NssStatus::TryAgain, errno: Some(NssErrno::Eagain) }
}

/// The outcome where the answer is no record of the kind asked for.
pub open spec fn no_entry() -> Verdict {
    Verdict { status: NssStatus::NotFound, errno: Some(NssErrno::Enoent) }
}

/// The outcome where the record does not fit into the caller's buffer.
pub open spec fn buffer_too_small() -> Verdict {
    Verdict { status: NssStatus::TryAgain, errno: Some(NssErrno::Erange) }
}

/// The outcome where the record is packed.
pub open spec fn found() -> Verdict {
    Verdict { status: NssStatus::Success, errno: None }
}

/// The outcome of a lookup, from what the exchange with the daemon gave and from
/// whether the record fitted: try again where there was no answer or no room, not
/// found where the answer is no record of the kind, success else.
pub open spec fn verdict_of(answered: bool, of_kind: bool, packed: bool) -> Verdict {
    if !answered {
        unreachable_daemon()
    } else if !of_kind {
        no_entry()
    } else if !packed {
        buffer_too_small()
    } else {
        found()
    }
}

/// Ends a lookup in the user database: packs the record that the daemon answered
/// with into the caller's buffer. `reply` is `None` where the exchange failed.
pub fn answer_pw(reply: &Option<DaemonMessage>, rec: &mut Passwd, buf: &mut Buffer) -> (r: Verdict)
    requires
        old(buf)@.wf(),
    ensures
        final(buf)@.wf(),
        match *reply {
            Some(DaemonMessage::Pw { login, uid, gid, home, sh }) => {
                &&& (final(buf)@, *final(rec)) == (
                    crate::buffer::put_strings(
                        old(buf)@,
                        crate::cstructs::pw_strings(login@, home@, sh@),
                    ).0,
                    crate::cstructs::packed_pw(
                        *old(rec),
                        crate::buffer::put_strings(
                            old(buf)@,
                            crate::cstructs::pw_strings(login@, home@, sh@),
                        ).1,
                        uid,
                        gid,
                    ),
                )
                &&& r == verdict_of(
                    true,
                    true,
                    old(buf)@.offset + crate::buffer::total_size(
                        crate::cstructs::pw_strings(login@, home@, sh@),
                    ) <= old(buf)@.data.len(),
                )
            },
            Some(_) => final(buf)@ == old(buf)@ && *final(rec) == *old(rec) && r == no_entry(),
            None => final(buf)@ == old(buf)@ && *final(rec) == *old(rec) && r
                == unreachable_daemon(),
        },
{
    match reply {
        None => Verdict { status: NssStatus::TryAgain, errno: Some(NssErrno::Eagain) },
        Some(DaemonMessage::Pw { login, uid, gid, home, sh }) => {
            match rec.pack_args(buf, login.as_str(), *uid, *gid, home.as_str(), sh.as_str()) {
                Ok(_) => Verdict { status: NssStatus::Success, errno: None },
                Err(_) => Verdict { status: NssStatus::TryAgain, errno: Some(NssErrno::Erange) },
            }
        },
        Some(_) => Verdict { status: NssStatus::NotFound, errno: Some(NssErrno::Enoent) },
    }
}

/// Ends a lookup in the shadow database.
pub fn answer_sp(reply: &Option<DaemonMessage>, rec: &mut Spwd, buf: &mut Buffer) -> (r: Verdict)
    requires
        old(buf)@.wf(),
    ensures
        final(buf)@.wf(),
        match *reply {
            Some(DaemonMessage::Sp { login, pass }) => {
                &&& (final(buf)@, *final(rec)) == (
                    crate::buffer::put_strings(
                        old(buf)@,
                        crate::cstructs::sp_strings(login@, pass@),
                    ).0,
                    crate::cstructs::packed_sp(
                        *old(rec),
                        crate::buffer::put_strings(
                            old(buf)@,
                            crate::cstructs::sp_strings(login@, pass@),
                        ).1,
                    ),
                )
                &&& r == verdict_of(
                    true,
                    true,
                    old(buf)@.offset + crate::buffer::total_size(
                        crate::cstructs::sp_strings(login@, pass@),
                    ) <= old(buf)@.data.len(),
                )
            },
            Some(_) => final(buf)@ == old(buf)@ && *final(rec) == *old(rec) && r == no_entry(),
            None => final(buf)@ == old(buf)@ && *final(rec) == *old(rec) && r
                == unreachable_daemon(),
        },
{
    match reply {
        None => Verdict { status: NssStatus::TryAgain, errno: Some(NssErrno::Eagain) },
        Some(DaemonMessage::Sp { login, pass }) => {
            match rec.pack_args(buf, login.as_str(), pass.as_str()) {
                Ok(_) => Verdict { status: NssStatus::Success, errno: None },
                Err(_) => Verdict { status: NssStatus::TryAgain, errno: Some(NssErrno::Erange) },
            }
        },
        Some(_) => Verdict { status: NssStatus::NotFound, errno: Some(NssErrno::Enoent) },
    }
}

/// The logins of the members of a group, in their order.
pub fn member_logins(g: &SectorGroup) -> (r: Vec<String>)
    ensures
        views(r@) == group_logins(g@),
{
    let mut out: Vec<String> = Vec::new();
    let mut i: usize = 0;
    assert(views(out@) =~= group_logins(g@).take(0));
    while i < g.members.len()
        invariant
            i <= g.members.len(),
            views(out@) == group_logins(g@).take(i as int),
        decreases g.members.len() - i,
    {
        let ghost before = views(out@);
        assert(g@.members[i as int] == g.members@[i as int]@);
        out.push(g.members[i].login.clone());
        assert(views(out@) =~= before.push(group_logins(g@)[i as int]));
        assert(group_logins(g@).take(i + 1) =~= group_logins(g@).take(i as int).push(
            group_logins(g@)[i as int],
        ));
        i += 1;
    }
    assert(group_logins(g@).take(g.members.len() as int) =~= group_logins(g@));
    out
}

/// Ends a lookup in the group database: the record is packed under the name and
/// the gid that the group is shown as, with the logins of its members.
pub fn answer_gr(reply: &Option<DaemonMessage>, rec: &mut Group, buf: &mut Buffer) -> (r: Verdict)
    requires
        old(buf)@.wf(),
    ensures
        final(buf)@.wf(),
        match *reply {
            Some(DaemonMessage::Gr { sector }) => {
                &&& (final(buf)@, *final(rec)) == (
                    crate::cstructs::pack_gr(
                        old(buf)@,
                        *old(rec),
                        sector@.effective_group(),
                        sector@.effective_gid(),
                        group_logins(sector@),
                    ).0,
                    crate::cstructs::pack_gr(
                        old(buf)@,
                        *old(rec),
                        sector@.effective_group(),
                        sector@.effective_gid(),
                        group_logins(sector@),
                    ).1,
                )
                &&& r == verdict_of(
                    true,
                    true,
                    old(buf)@.offset + crate::cstructs::gr_size(
                        old(buf)@.offset,
                        sector@.effective_group(),
                        group_logins(sector@),
                    ) <= old(buf)@.data.len(),
                )
            },
            Some(_) => final(buf)@ == old(buf)@ && *final(rec) == *old(rec) && r == no_entry(),
            None => final(buf)@ == old(buf)@ && *final(rec) == *old(rec) && r
                == unreachable_daemon(),
        },
{
    match reply {
        None => Verdict { status: NssStatus::TryAgain, errno: Some(NssErrno::Eagain) },
        Some(DaemonMessage::Gr { sector }) => {
            let name = sector.get_group();
            let members = member_logins(sector);
            match rec.pack_args(buf, name.as_str(), sector.get_gid(), &members) {
                Ok(_) => Verdict { status: NssStatus::Success, errno: None },
                Err(_) => Verdict { status: NssStatus::TryAgain, errno: Some(NssErrno::Erange) },
            }
        },
        Some(_) => Verdict { status: NssStatus::NotFound, errno: Some(NssErrno::Enoent) },
    }
}

/// The status of the `set` or `end` step of an enumeration: success where the
/// daemon says so; another try where it says anything else, or nothing.
pub open spec fn step_status(reply: Option<DaemonMessageView>) -> NssStatus {
    match reply {
        Some(DaemonMessageView::Success) => NssStatus::Success,
        _ => NssStatus::TryAgain,
    }
}

/// What a reply that may be missing stands for.
pub open spec fn reply_view(reply: Option<DaemonMessage>) -> Option<DaemonMessageView> {
    match reply {
        Some(m) => Some(m@),
        None => None,
    }
}

/// Ends the `set` step of an enumeration.
pub fn answer_set(reply: &Option<DaemonMessage>) -> (r: NssStatus)
    ensures
        r == step_status(reply_view(*reply)),
{
    match reply {
        Some(DaemonMessage::Success) => NssStatus::Success,
        _ => NssStatus::TryAgain,
    }
}

/// Ends the `end` step of an enumeration.
pub fn answer_end(reply: &Option<DaemonMessage>) -> (r: NssStatus)
    ensures
        r == step_status(reply_view(*reply)),
{
    match reply {
        Some(DaemonMessage::Success) => NssStatus::Success,
        _ => NssStatus::TryAgain,
    }
}

} // verus!

use vstd::prelude::*;
use crate::message::{ClientMessage, ClientMessageView, DaemonMessage, DaemonMessageView};
use crate::text::{dec, usize_to_string};

verus! {

/// What the administrator asks the control program to do.
#[derive(Debug)]
pub enum Command {
    /// Show the public keys of a user.
    Key { user: String },
    /// Check whether the user named by `PAM_USER` may log in.
    Pam,
    /// Check a configuration file; the daemon is not asked.
    Check,
    /// Remove the cache files.
    CleanUp,
    /// Show the rate limit of the remote service.
    RateLimit,
    /// Show the version.
    Version,
    /// Write a completion script for a shell.
    Completion,
}

/// What a `Command` stands for in contracts.
pub enum CommandView {
    Key { user: Seq<char> },
    Pam,
    Check,
    CleanUp,
    RateLimit,
    Version,
    Completion,
}

impl View for Command {
    type V = CommandView;

    open spec fn view(&self) -> CommandView {
        match self {
            Command::Key { user } => CommandView::Key { user: user@ },
            Command::Pam => CommandView::Pam,
            Command::Check => CommandView::Check,
            Command::CleanUp => CommandView::CleanUp,
            Command::RateLimit => CommandView::RateLimit,
            Command::Version => CommandView::Version,
            Command::Completion => CommandView::Completion,
        }
    }
}

/// How the control program ends: its exit code, and the line that it prints where
/// there is one.
#[derive(Debug)]
pub struct Finish {
    pub code: i32,
    pub output: Option<String>,
}

/// What a `Finish` stands for in contracts.
pub struct FinishView {
    pub code: i32,
    pub output: Option<Seq<char>>,
}

impl View for Finish {
    type V = FinishView;

    open spec fn view(&self) -> FinishView {
        FinishView {
            code: self.code,
            output: match self.output {
                Some(s) => Some(s@),
                None => None,
            },
        }
    }
}

/// The text of a string that may be missing.
pub open spec fn option_text(o: Option<String>) -> Option<Seq<char>> {
    match o {
        Some(s) => Some(s@),
        None => None,
    }
}

/// The request that a command sends to the daemon; none for the commands that do
/// not ask it, and none for the login check where `PAM_USER` is not set.
pub open spec fn request_of(cmd: CommandView, pam_user: Option<Seq<char>>) -> Option<
    ClientMessageView,
> {
    match cmd {
        CommandView::Key { user } => Some(ClientMessageView::Key { user }),
        CommandView::Pam => match pam_user {
            Some(user) => Some(ClientMessageView::Pam { user }),
            None => None,
        },
        CommandView::CleanUp => Some(ClientMessageView::CleanUp),
        CommandView::RateLimit => Some(ClientMessageView::RateLimit),
        _ => None,
    }
}

/// What a request that may be missing stands for.
pub open spec fn client_view(o: Option<ClientMessage>) -> Option<ClientMessageView> {
    match o {
        Some(m) => Some(m@),
        None => None,
    }
}

/// The request that a command sends to the daemon.
pub fn request_for(cmd: &Command, pam_user: &Option<String>) -> (r: Option<ClientMessage>)
    ensures
        client_view(r) == request_of(cmd@, option_text(*pam_user)),
{
    match cmd {
        Command::Key { user } => Some(ClientMessage::Key { user: user.clone() }),
        Command::Pam => match pam_user {
            Some(user) => Some(ClientMessage::Pam { user: user.clone() }),
            None => None,
        },
        Command::CleanUp => Some(ClientMessage::CleanUp),
        Command::RateLimit => Some(ClientMessage::RateLimit),
        _ => None,
    }
}

/// The line that shows the rate limit.
pub open spec fn rate_line(limit: usize, remaining: usize, reset: usize) -> Seq<char> {
    "remaining: "@ + dec(remaining as nat) + "/"@ + dec(limit as nat) + ", reset:"@ + dec(
        reset as nat,
    )
}

/// How a command ends. `pam_user_set` says whether `PAM_USER` is set, `check_ok`
/// whether the configuration file could be read, `reply` is what the daemon
/// answered, or nothing where it could not be asked.
///
/// The exit codes: 0 for success, 1 where the user may not log in, 11 for a
/// configuration that cannot be read, 21 for keys that could not be had, 31 for a
/// login check that failed, 41 where `PAM_USER` is not set, 51 for a clean-up that
/// failed, 61 for a rate limit that could not be had.
pub open spec fn finish_of(
    cmd: CommandView,
    pam_user_set: bool,
    check_ok: bool,
    reply: Option<DaemonMessageView>,
    version: Seq<char>,
) -> FinishView {
    match cmd {
        CommandView::Key { user } => match reply {
            Some(DaemonMessageView::Key { keys }) => FinishView { code: 0, output: Some(keys) },
            _ => FinishView { code: 21, output: None },
        },
        CommandView::Pam => if !pam_user_set {
            FinishView { code: 41, output: None }
        } else {
            match reply {
                Some(DaemonMessageView::Pam { result }) => FinishView {
                    code: if result {
                        0i32
                    } else {
                        1i32
                    },
                    output: None,
                },
                _ => FinishView { code: 31, output: None },
            }
        },
        CommandView::Check => FinishView {
            code: if check_ok {
                0i32
            } else {
                11i32
            },
            output: None,
        },
        CommandView::CleanUp => match reply {
            Some(DaemonMessageView::Success) => FinishView { code: 0, output: None },
            _ => FinishView { code: 51, output: None },
        },
        CommandView::RateLimit => match reply {
            Some(DaemonMessageView::RateLimit { limit, remaining, reset }) => FinishView {
                code: 0,
                output: Some(rate_line(limit, remaining, reset)),
            },
            _ => FinishView { code: 61, output: None },
        },
        CommandView::Version => FinishView { code: 0, output: Some(version) },
        CommandView::Completion => FinishView { code: 0, output: None },
    }
}

/// How a command ends.
pub fn finish(
    cmd: &Command,
    pam_user_set: bool,
    check_ok: bool,
    reply: &Option<DaemonMessage>,
    version: &str,
) -> (r: Finish)
    ensures
        r@ == finish_of(cmd@, pam_user_set, check_ok, crate::nss::reply_view(*reply), version@),
{
    match cmd {
        Command::Key { user } => match reply {
            Some(DaemonMessage::Key { keys }) => Finish { code: 0, output: Some(keys.clone()) },
            _ => Finish { code: 21, output: None },
        },
        Command::Pam => if !pam_user_set {
            Finish { code: 41, output: None }
        } else {
            match reply {
                Some(DaemonMessage::Pam { result }) => Finish {
                    code: if *result {
                        0
                    } else {
                        1
                    },
                    output: None,
                },
                _ => Finish { code: 31, output: None },
            }
        },
        Command::Check => Finish {
            code: if check_ok {
                0
            } else {
                11
            },
            output: None,
        },
        Command::CleanUp => match reply {
            Some(DaemonMessage::Success) => Finish { code: 0, output: None },
            _ => Finish { code: 51, output: None },
        },
        Command::RateLimit => match reply {
            Some(DaemonMessage::RateLimit { limit, remaining, reset }) => {
                let a = usize_to_string(*remaining);
                let b = usize_to_string(*limit);
                let c = usize_to_string(*reset);
                let line = String::from_str("remaining: ").concat(a.as_str()).concat("/").concat(
                    b.as_str(),
                ).concat(", reset:").concat(c.as_str());
                Finish { code: 0, output: Some(line) }
            },
            _ => Finish { code: 61, output: None },
        },
        Command::Version => Finish { code: 0, output: Some(String::from_str(version)) },
        Command::Completion => Finish { code: 0, output: None },
    }
}

} // verus!

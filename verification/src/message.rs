use vstd::prelude::*;
use vstd::utf8::{char_is_scalar, encode_scalar, encode_utf8};
use crate::error::ParseMessageError;
use crate::structs::{group_views, SectorGroup, SectorGroupView};
use crate::text::{
    after, chars_of, dec, has_char, join, lemma_dec_has_no_char, lemma_differs_at, lemma_join2,
    lemma_join3, lemma_join5, lemma_join_push, lemma_parse_dec_of_dec, lemma_split_join,
    lemma_starts_with_concat, parse_dec, parse_u32, parse_u64, parse_usize, same_text, split,
    split_str, starts_with, strip_prefix, u64_to_string, usize_to_string, views,
};

verus! {

/// A step of an enumeration, with the process id of the caller that makes it.
#[derive(Debug, Clone, Copy, PartialEq, Eq, Structural)]
pub enum Ent {
    /// Opens the enumeration anew (the `set` step of the wire format).
    Start(u32),
    Get(u32),
    End(u32),
}

impl Ent {
    /// The process id of the caller.
    pub open spec fn pid(self) -> u32 {
        match self {
            Ent::Start(p) => p,
            Ent::Get(p) => p,
            Ent::End(p) => p,
        }
    }

    /// `set|<pid>`, `get|<pid>` or `end|<pid>`
    pub open spec fn text(self) -> Seq<char> {
        match self {
            Ent::Start(p) => "set|"@ + dec(p as nat),
            Ent::Get(p) => "get|"@ + dec(p as nat),
            Ent::End(p) => "end|"@ + dec(p as nat),
        }
    }

    /// Reading of the text in the wire format.
    pub open spec fn parse(s: Seq<char>) -> Result<Ent, ParseMessageError> {
        if starts_with(s, "set|"@) {
            match parse_dec(after(s, "set|"@), u32::MAX as nat) {
                Ok(p) => Ok(Ent::Start(p as u32)),
                Err(_) => Err(ParseMessageError::ParseClientMessageError),
            }
        } else if starts_with(s, "get|"@) {
            match parse_dec(after(s, "get|"@), u32::MAX as nat) {
                Ok(p) => Ok(Ent::Get(p as u32)),
                Err(_) => Err(ParseMessageError::ParseClientMessageError),
            }
        } else if starts_with(s, "end|"@) {
            match parse_dec(after(s, "end|"@), u32::MAX as nat) {
                Ok(p) => Ok(Ent::End(p as u32)),
                Err(_) => Err(ParseMessageError::ParseClientMessageError),
            }
        } else {
            Err(ParseMessageError::ParseClientMessageError)
        }
    }

    /// The value is read back from its text as it was.
    pub proof fn lemma_round_trip(self)
        ensures
            Self::parse(self.text()) == Ok::<Ent, ParseMessageError>(self),
    {
        reveal_strlit("set|");
        reveal_strlit("get|");
        reveal_strlit("end|");
        let s = self.text();
        let d = dec(self.pid() as nat);
        lemma_parse_dec_of_dec(self.pid() as nat, u32::MAX as nat);
        match self {
            Ent::Start(p) => {
                lemma_starts_with_concat("set|"@, d);
            },
            Ent::Get(p) => {
                lemma_differs_at(s, "set|"@, 0);
                lemma_starts_with_concat("get|"@, d);
            },
            Ent::End(p) => {
                lemma_differs_at(s, "set|"@, 0);
                lemma_differs_at(s, "get|"@, 0);
                lemma_starts_with_concat("end|"@, d);
            },
        }
    }

    /// The text of the value in the wire format.
    pub fn to_string(&self) -> (r: String)
        ensures
            r@ == self.text(),
    {
        match self {
            Ent::Start(p) => {
                let d = u64_to_string(*p as u64);
                String::from_str("set|").concat(d.as_str())
            },
            Ent::Get(p) => {
                let d = u64_to_string(*p as u64);
                String::from_str("get|").concat(d.as_str())
            },
            Ent::End(p) => {
                let d = u64_to_string(*p as u64);
                String::from_str("end|").concat(d.as_str())
            },
        }
    }

    /// Reads the value from its text in the wire format.
    pub fn from_str(s: &str) -> (r: Result<Ent, ParseMessageError>)
        ensures
            r == Self::parse(s@),
    {
        let cs = chars_of(s);
        if let Some(rest) = strip_prefix(s, &cs, "set|") {
            match parse_u32(rest) {
                Ok(p) => Ok(Ent::Start(p)),
                Err(_) => Err(ParseMessageError::ParseClientMessageError),
            }
        } else if let Some(rest) = strip_prefix(s, &cs, "get|") {
            match parse_u32(rest) {
                Ok(p) => Ok(Ent::Get(p)),
                Err(_) => Err(ParseMessageError::ParseClientMessageError),
            }
        } else if let Some(rest) = strip_prefix(s, &cs, "end|") {
            match parse_u32(rest) {
                Ok(p) => Ok(Ent::End(p)),
                Err(_) => Err(ParseMessageError::ParseClientMessageError),
            }
        } else {
            Err(ParseMessageError::ParseClientMessageError)
        }
    }
}

/// A question about the user database.
#[derive(Debug)]
pub enum Pw {
    Uid(u64),
    Nam(String),
    Ent(Ent),
}

/// What a `Pw` stands for in contracts.
pub enum PwView {
    Uid(u64),
    Nam(Seq<char>),
    Ent(Ent),
}

impl View for Pw {
    type V = PwView;

    open spec fn view(&self) -> PwView {
        match self {
            Pw::Uid(u) => PwView::Uid(*u),
            Pw::Nam(n) => PwView::Nam(n@),
            Pw::Ent(e) => PwView::Ent(*e),
        }
    }
}

impl PwView {
    /// `uid=<u64>`, `name=<login>` or `ent=<step>`
    pub open spec fn text(self) -> Seq<char> {
        match self {
            PwView::Uid(u) => "uid="@ + dec(u as nat),
            PwView::Nam(n) => "name="@ + n,
            PwView::Ent(e) => "ent="@ + e.text(),
        }
    }

    /// Reading of the text in the wire format.
    pub open spec fn parse(s: Seq<char>) -> Result<PwView, ParseMessageError> {
        if starts_with(s, "uid="@) {
            match parse_dec(after(s, "uid="@), u64::MAX as nat) {
                Ok(u) => Ok(PwView::Uid(u as u64)),
                Err(_) => Err(ParseMessageError::ParseClientMessageError),
            }
        } else if starts_with(s, "name="@) {
            Ok(PwView::Nam(after(s, "name="@)))
        } else if starts_with(s, "ent="@) {
            match Ent::parse(after(s, "ent="@)) {
                Ok(e) => Ok(PwView::Ent(e)),
                Err(e) => Err(e),
            }
        } else {
            Err(ParseMessageError::ParseClientMessageError)
        }
    }

    /// The value is read back from its text as it was.
    pub proof fn lemma_round_trip(self)
        ensures
            Self::parse(self.text()) == Ok::<PwView, ParseMessageError>(self),
    {
        reveal_strlit("uid=");
        reveal_strlit("name=");
        reveal_strlit("ent=");
        let s = self.text();
        match self {
            PwView::Uid(u) => {
                lemma_parse_dec_of_dec(u as nat, u64::MAX as nat);
                lemma_starts_with_concat("uid="@, dec(u as nat));
            },
            PwView::Nam(n) => {
                lemma_differs_at(s, "uid="@, 0);
                lemma_starts_with_concat("name="@, n);
            },
            PwView::Ent(e) => {
                e.lemma_round_trip();
                lemma_differs_at(s, "uid="@, 0);
                lemma_differs_at(s, "name="@, 0);
                lemma_starts_with_concat("ent="@, e.text());
            },
        }
    }
}

impl Pw {
    /// The text of the value in the wire format.
    pub fn to_string(&self) -> (r: String)
        ensures
            r@ == self@.text(),
    {
        match self {
            Pw::Uid(u) => {
                let d = u64_to_string(*u);
                String::from_str("uid=").concat(d.as_str())
            },
            Pw::Nam(n) => String::from_str("name=").concat(n.as_str()),
            Pw::Ent(e) => {
                let t = e.to_string();
                String::from_str("ent=").concat(t.as_str())
            },
        }
    }

    /// Reads the value from its text in the wire format.
    pub fn from_str(s: &str) -> (r: Result<Pw, ParseMessageError>)
        ensures
            match r {
                Ok(v) => PwView::parse(s@) == Ok::<PwView, ParseMessageError>(v@),
                Err(e) => PwView::parse(s@) == Err::<PwView, ParseMessageError>(e),
            },
    {
        let cs = chars_of(s);
        if let Some(rest) = strip_prefix(s, &cs, "uid=") {
            match parse_u64(rest) {
                Ok(u) => Ok(Pw::Uid(u)),
                Err(_) => Err(ParseMessageError::ParseClientMessageError),
            }
        } else if let Some(rest) = strip_prefix(s, &cs, "name=") {
            Ok(Pw::Nam(String::from_str(rest)))
        } else if let Some(rest) = strip_prefix(s, &cs, "ent=") {
            match Ent::from_str(rest) {
                Ok(e) => Ok(Pw::Ent(e)),
                Err(e) => Err(e),
            }
        } else {
            Err(ParseMessageError::ParseClientMessageError)
        }
    }
}

/// A question about the shadow database.
#[derive(Debug)]
pub enum Sp {
    Nam(String),
    Ent(Ent),
}

/// What a `Sp` stands for in contracts.
pub enum SpView {
    Nam(Seq<char>),
    Ent(Ent),
}

impl View for Sp {
    type V = SpView;

    open spec fn view(&self) -> SpView {
        match self {
            Sp::Nam(n) => SpView::Nam(n@),
            Sp::Ent(e) => SpView::Ent(*e),
        }
    }
}

impl SpView {
    /// `name=<login>` or `ent=<step>`
    pub open spec fn text(self) -> Seq<char> {
        match self {
            SpView::Nam(n) => "name="@ + n,
            SpView::Ent(e) => "ent="@ + e.text(),
        }
    }

    /// Reading of the text in the wire format.
    pub open spec fn parse(s: Seq<char>) -> Result<SpView, ParseMessageError> {
        if starts_with(s, "name="@) {
            Ok(SpView::Nam(after(s, "name="@)))
        } else if starts_with(s, "ent="@) {
            match Ent::parse(after(s, "ent="@)) {
                Ok(e) => Ok(SpView::Ent(e)),
                Err(e) => Err(e),
            }
        } else {
            Err(ParseMessageError::ParseClientMessageError)
        }
    }

    /// The value is read back from its text as it was.
    pub proof fn lemma_round_trip(self)
        ensures
            Self::parse(self.text()) == Ok::<SpView, ParseMessageError>(self),
    {
        reveal_strlit("name=");
        reveal_strlit("ent=");
        let s = self.text();
        match self {
            SpView::Nam(n) => {
                lemma_starts_with_concat("name="@, n);
            },
            SpView::Ent(e) => {
                e.lemma_round_trip();
                lemma_differs_at(s, "name="@, 0);
                lemma_starts_with_concat("ent="@, e.text());
            },
        }
    }
}

impl Sp {
    /// The text of the value in the wire format.
    pub fn to_string(&self) -> (r: String)
        ensures
            r@ == self@.text(),
    {
        match self {
            Sp::Nam(n) => String::from_str("name=").concat(n.as_str()),
            Sp::Ent(e) => {
                let t = e.to_string();
                String::from_str("ent=").concat(t.as_str())
            },
        }
    }

    /// Reads the value from its text in the wire format.
    pub fn from_str(s: &str) -> (r: Result<Sp, ParseMessageError>)
        ensures
            match r {
                Ok(v) => SpView::parse(s@) == Ok::<SpView, ParseMessageError>(v@),
                Err(e) => SpView::parse(s@) == Err::<SpView, ParseMessageError>(e),
            },
    {
        let cs = chars_of(s);
        if let Some(rest) = strip_prefix(s, &cs, "name=") {
            Ok(Sp::Nam(String::from_str(rest)))
        } else if let Some(rest) = strip_prefix(s, &cs, "ent=") {
            match Ent::from_str(rest) {
                Ok(e) => Ok(Sp::Ent(e)),
                Err(e) => Err(e),
            }
        } else {
            Err(ParseMessageError::ParseClientMessageError)
        }
    }
}

/// A question about the group database.
#[derive(Debug)]
pub enum Gr {
    Gid(u64),
    Nam(String),
    Ent(Ent),
}

/// What a `Gr` stands for in contracts.
pub enum GrView {
    Gid(u64),
    Nam(Seq<char>),
    Ent(Ent),
}

impl View for Gr {
    type V = GrView;

    open spec fn view(&self) -> GrView {
        match self {
            Gr::Gid(g) => GrView::Gid(*g),
            Gr::Nam(n) => GrView::Nam(n@),
            Gr::Ent(e) => GrView::Ent(*e),
        }
    }
}

impl GrView {
    /// `gid=<u64>`, `name=<group>` or `ent=<step>`
    pub open spec fn text(self) -> Seq<char> {
        match self {
            GrView::Gid(g) => "gid="@ + dec(g as nat),
            GrView::Nam(n) => "name="@ + n,
            GrView::Ent(e) => "ent="@ + e.text(),
        }
    }

    /// Reading of the text in the wire format.
    pub open spec fn parse(s: Seq<char>) -> Result<GrView, ParseMessageError> {
        if starts_with(s, "gid="@) {
            match parse_dec(after(s, "gid="@), u64::MAX as nat) {
                Ok(g) => Ok(GrView::Gid(g as u64)),
                Err(_) => Err(ParseMessageError::ParseClientMessageError),
            }
        } else if starts_with(s, "name="@) {
            Ok(GrView::Nam(after(s, "name="@)))
        } else if starts_with(s, "ent="@) {
            match Ent::parse(after(s, "ent="@)) {
                Ok(e) => Ok(GrView::Ent(e)),
                Err(e) => Err(e),
            }
        } else {
            Err(ParseMessageError::ParseClientMessageError)
        }
    }

    /// The value is read back from its text as it was.
    pub proof fn lemma_round_trip(self)
        ensures
            Self::parse(self.text()) == Ok::<GrView, ParseMessageError>(self),
    {
        reveal_strlit("gid=");
        reveal_strlit("name=");
        reveal_strlit("ent=");
        let s = self.text();
        match self {
            GrView::Gid(g) => {
                lemma_parse_dec_of_dec(g as nat, u64::MAX as nat);
                lemma_starts_with_concat("gid="@, dec(g as nat));
            },
            GrView::Nam(n) => {
                lemma_differs_at(s, "gid="@, 0);
                lemma_starts_with_concat("name="@, n);
            },
            GrView::Ent(e) => {
                e.lemma_round_trip();
                lemma_differs_at(s, "gid="@, 0);
                lemma_differs_at(s, "name="@, 0);
                lemma_starts_with_concat("ent="@, e.text());
            },
        }
    }
}

impl Gr {
    /// The text of the value in the wire format.
    pub fn to_string(&self) -> (r: String)
        ensures
            r@ == self@.text(),
    {
        match self {
            Gr::Gid(g) => {
                let d = u64_to_string(*g);
                String::from_str("gid=").concat(d.as_str())
            },
            Gr::Nam(n) => String::from_str("name=").concat(n.as_str()),
            Gr::Ent(e) => {
                let t = e.to_string();
                String::from_str("ent=").concat(t.as_str())
            },
        }
    }

    /// Reads the value from its text in the wire format.
    pub fn from_str(s: &str) -> (r: Result<Gr, ParseMessageError>)
        ensures
            match r {
                Ok(v) => GrView::parse(s@) == Ok::<GrView, ParseMessageError>(v@),
                Err(e) => GrView::parse(s@) == Err::<GrView, ParseMessageError>(e),
            },
    {
        let cs = chars_of(s);
        if let Some(rest) = strip_prefix(s, &cs, "gid=") {
            match parse_u64(rest) {
                Ok(g) => Ok(Gr::Gid(g)),
                Err(_) => Err(ParseMessageError::ParseClientMessageError),
            }
        } else if let Some(rest) = strip_prefix(s, &cs, "name=") {
            Ok(Gr::Nam(String::from_str(rest)))
        } else if let Some(rest) = strip_prefix(s, &cs, "ent=") {
            match Ent::from_str(rest) {
                Ok(e) => Ok(Gr::Ent(e)),
                Err(e) => Err(e),
            }
        } else {
            Err(ParseMessageError::ParseClientMessageError)
        }
    }
}

/// What a client asks of the daemon.
#[derive(Debug)]
pub enum ClientMessage {
    Cont,
    Key { user: String },
    Pam { user: String },
    CleanUp,
    RateLimit,
    SectorGroups,
    Pw(Pw),
    Sp(Sp),
    Gr(Gr),
}

/// What a `ClientMessage` stands for in contracts.
pub enum ClientMessageView {
    Cont,
    Key { user: Seq<char> },
    Pam { user: Seq<char> },
    CleanUp,
    RateLimit,
    SectorGroups,
    Pw(PwView),
    Sp(SpView),
    Gr(GrView),
}

impl View for ClientMessage {
    type V = ClientMessageView;

    open spec fn view(&self) -> ClientMessageView {
        match self {
            ClientMessage::Cont => ClientMessageView::Cont,
            ClientMessage::Key { user } => ClientMessageView::Key { user: user@ },
            ClientMessage::Pam { user } => ClientMessageView::Pam { user: user@ },
            ClientMessage::CleanUp => ClientMessageView::CleanUp,
            ClientMessage::RateLimit => ClientMessageView::RateLimit,
            ClientMessage::SectorGroups => ClientMessageView::SectorGroups,
            ClientMessage::Pw(pw) => ClientMessageView::Pw(pw@),
            ClientMessage::Sp(sp) => ClientMessageView::Sp(sp@),
            ClientMessage::Gr(gr) => ClientMessageView::Gr(gr@),
        }
    }
}

impl ClientMessageView {
    /// The request frame.
    pub open spec fn text(self) -> Seq<char> {
        match self {
            ClientMessageView::Cont => "c:cont"@,
            ClientMessageView::Key { user } => "c:key:"@ + user,
            ClientMessageView::Pam { user } => "c:pam:"@ + user,
            ClientMessageView::CleanUp => "c:cleanup"@,
            ClientMessageView::RateLimit => "c:ratelimit"@,
            ClientMessageView::SectorGroups => "c:sectors"@,
            ClientMessageView::Pw(pw) => "c:pw:"@ + pw.text(),
            ClientMessageView::Sp(sp) => "c:sp:"@ + sp.text(),
            ClientMessageView::Gr(gr) => "c:gr:"@ + gr.text(),
        }
    }

    /// Reading of a request frame.
    pub open spec fn parse(s: Seq<char>) -> Result<ClientMessageView, ParseMessageError> {
        if s == "c:cont"@ {
            Ok(ClientMessageView::Cont)
        } else if starts_with(s, "c:key:"@) {
            Ok(ClientMessageView::Key { user: after(s, "c:key:"@) })
        } else if starts_with(s, "c:pam:"@) {
            Ok(ClientMessageView::Pam { user: after(s, "c:pam:"@) })
        } else if s == "c:cleanup"@ {
            Ok(ClientMessageView::CleanUp)
        } else if s == "c:ratelimit"@ {
            Ok(ClientMessageView::RateLimit)
        } else if s == "c:sectors"@ {
            Ok(ClientMessageView::SectorGroups)
        } else if starts_with(s, "c:pw:"@) {
            match PwView::parse(after(s, "c:pw:"@)) {
                Ok(pw) => Ok(ClientMessageView::Pw(pw)),
                Err(e) => Err(e),
            }
        } else if starts_with(s, "c:sp:"@) {
            match SpView::parse(after(s, "c:sp:"@)) {
                Ok(sp) => Ok(ClientMessageView::Sp(sp)),
                Err(e) => Err(e),
            }
        } else if starts_with(s, "c:gr:"@) {
            match GrView::parse(after(s, "c:gr:"@)) {
                Ok(gr) => Ok(ClientMessageView::Gr(gr)),
                Err(e) => Err(e),
            }
        } else {
            Err(ParseMessageError::ParseClientMessageError)
        }
    }

    /// Every request is read back from its frame as it was.
    pub proof fn lemma_round_trip(self)
        ensures
            Self::parse(self.text()) == Ok::<ClientMessageView, ParseMessageError>(self),
    {
        reveal_strlit("c:cont");
        reveal_strlit("c:key:");
        reveal_strlit("c:pam:");
        reveal_strlit("c:cleanup");
        reveal_strlit("c:ratelimit");
        reveal_strlit("c:sectors");
        reveal_strlit("c:pw:");
        reveal_strlit("c:sp:");
        reveal_strlit("c:gr:");
        let s = self.text();
        match self {
            ClientMessageView::Cont => {},
            ClientMessageView::Key { user } => {
                lemma_differs_at(s, "c:cont"@, 2);
                lemma_starts_with_concat("c:key:"@, user);
            },
            ClientMessageView::Pam { user } => {
                lemma_differs_at(s, "c:cont"@, 2);
                lemma_differs_at(s, "c:key:"@, 2);
                lemma_starts_with_concat("c:pam:"@, user);
            },
            ClientMessageView::CleanUp => {
                lemma_differs_at(s, "c:cont"@, 3);
                lemma_differs_at(s, "c:key:"@, 2);
                lemma_differs_at(s, "c:pam:"@, 2);
            },
            ClientMessageView::RateLimit => {
                lemma_differs_at(s, "c:cont"@, 2);
                lemma_differs_at(s, "c:key:"@, 2);
                lemma_differs_at(s, "c:pam:"@, 2);
                lemma_differs_at(s, "c:cleanup"@, 2);
            },
            ClientMessageView::SectorGroups => {
                lemma_differs_at(s, "c:cont"@, 2);
                lemma_differs_at(s, "c:key:"@, 2);
                lemma_differs_at(s, "c:pam:"@, 2);
                lemma_differs_at(s, "c:cleanup"@, 2);
                lemma_differs_at(s, "c:ratelimit"@, 2);
            },
            ClientMessageView::Pw(pw) => {
                pw.lemma_round_trip();
                lemma_differs_at(s, "c:cont"@, 2);
                lemma_differs_at(s, "c:key:"@, 2);
                lemma_differs_at(s, "c:pam:"@, 3);
                lemma_differs_at(s, "c:cleanup"@, 2);
                lemma_differs_at(s, "c:ratelimit"@, 2);
                lemma_differs_at(s, "c:sectors"@, 2);
                lemma_starts_with_concat("c:pw:"@, pw.text());
            },
            ClientMessageView::Sp(sp) => {
                sp.lemma_round_trip();
                lemma_differs_at(s, "c:cont"@, 2);
                lemma_differs_at(s, "c:key:"@, 2);
                lemma_differs_at(s, "c:pam:"@, 2);
                lemma_differs_at(s, "c:cleanup"@, 2);
                lemma_differs_at(s, "c:ratelimit"@, 2);
                lemma_differs_at(s, "c:sectors"@, 3);
                lemma_differs_at(s, "c:pw:"@, 2);
                lemma_starts_with_concat("c:sp:"@, sp.text());
            },
            ClientMessageView::Gr(gr) => {
                gr.lemma_round_trip();
                lemma_differs_at(s, "c:cont"@, 2);
                lemma_differs_at(s, "c:key:"@, 2);
                lemma_differs_at(s, "c:pam:"@, 2);
                lemma_differs_at(s, "c:cleanup"@, 2);
                lemma_differs_at(s, "c:ratelimit"@, 2);
                lemma_differs_at(s, "c:sectors"@, 2);
                lemma_differs_at(s, "c:pw:"@, 2);
                lemma_differs_at(s, "c:sp:"@, 2);
                lemma_starts_with_concat("c:gr:"@, gr.text());
            },
        }
    }
}

impl ClientMessage {
    /// The request frame.
    pub fn to_string(&self) -> (r: String)
        ensures
            r@ == self@.text(),
    {
        match self {
            ClientMessage::Cont => String::from_str("c:cont"),
            ClientMessage::Key { user } => String::from_str("c:key:").concat(user.as_str()),
            ClientMessage::Pam { user } => String::from_str("c:pam:").concat(user.as_str()),
            ClientMessage::CleanUp => String::from_str("c:cleanup"),
            ClientMessage::RateLimit => String::from_str("c:ratelimit"),
            ClientMessage::SectorGroups => String::from_str("c:sectors"),
            ClientMessage::Pw(pw) => {
                let t = pw.to_string();
                String::from_str("c:pw:").concat(t.as_str())
            },
            ClientMessage::Sp(sp) => {
                let t = sp.to_string();
                String::from_str("c:sp:").concat(t.as_str())
            },
            ClientMessage::Gr(gr) => {
                let t = gr.to_string();
                String::from_str("c:gr:").concat(t.as_str())
            },
        }
    }

    /// Reads a request frame.
    pub fn from_str(s: &str) -> (r: Result<ClientMessage, ParseMessageError>)
        ensures
            match r {
                Ok(v) => ClientMessageView::parse(s@) == Ok::<ClientMessageView, ParseMessageError>(
                    v@,
                ),
                Err(e) => ClientMessageView::parse(s@) == Err::<
                    ClientMessageView,
                    ParseMessageError,
                >(e),
            },
    {
        let cs = chars_of(s);
        if same_text(&cs, "c:cont") {
            Ok(ClientMessage::Cont)
        } else if let Some(rest) = strip_prefix(s, &cs, "c:key:") {
            Ok(ClientMessage::Key { user: String::from_str(rest) })
        } else if let Some(rest) = strip_prefix(s, &cs, "c:pam:") {
            Ok(ClientMessage::Pam { user: String::from_str(rest) })
        } else if same_text(&cs, "c:cleanup") {
            Ok(ClientMessage::CleanUp)
        } else if same_text(&cs, "c:ratelimit") {
            Ok(ClientMessage::RateLimit)
        } else if same_text(&cs, "c:sectors") {
            Ok(ClientMessage::SectorGroups)
        } else if let Some(rest) = strip_prefix(s, &cs, "c:pw:") {
            match Pw::from_str(rest) {
                Ok(pw) => Ok(ClientMessage::Pw(pw)),
                Err(e) => Err(e),
            }
        } else if let Some(rest) = strip_prefix(s, &cs, "c:sp:") {
            match Sp::from_str(rest) {
                Ok(sp) => Ok(ClientMessage::Sp(sp)),
                Err(e) => Err(e),
            }
        } else if let Some(rest) = strip_prefix(s, &cs, "c:gr:") {
            match Gr::from_str(rest) {
                Ok(gr) => Ok(ClientMessage::Gr(gr)),
                Err(e) => Err(e),
            }
        } else {
            Err(ParseMessageError::ParseClientMessageError)
        }
    }
}

/// What the daemon answers.
#[derive(Debug)]
pub enum DaemonMessage {
    Success,
    Error { message: String },
    Key { keys: String },
    Pam { result: bool },
    RateLimit { limit: usize, remaining: usize, reset: usize },
    SectorGroups { sectors: Vec<SectorGroup> },
    Pw { login: String, uid: u64, gid: u64, home: String, sh: String },
    Sp { login: String, pass: String },
    Gr { sector: SectorGroup },
}

/// What a `DaemonMessage` stands for in contracts.
pub enum DaemonMessageView {
    Success,
    Error { message: Seq<char> },
    Key { keys: Seq<char> },
    Pam { result: bool },
    RateLimit { limit: usize, remaining: usize, reset: usize },
    SectorGroups { sectors: Seq<SectorGroupView> },
    Pw { login: Seq<char>, uid: u64, gid: u64, home: Seq<char>, sh: Seq<char> },
    Sp { login: Seq<char>, pass: Seq<char> },
    Gr { sector: SectorGroupView },
}

impl View for DaemonMessage {
    type V = DaemonMessageView;

    open spec fn view(&self) -> DaemonMessageView {
        match self {
            DaemonMessage::Success => DaemonMessageView::Success,
            DaemonMessage::Error { message } => DaemonMessageView::Error { message: message@ },
            DaemonMessage::Key { keys } => DaemonMessageView::Key { keys: keys@ },
            DaemonMessage::Pam { result } => DaemonMessageView::Pam { result: *result },
            DaemonMessage::RateLimit { limit, remaining, reset } => DaemonMessageView::RateLimit {
                limit: *limit,
                remaining: *remaining,
                reset: *reset,
            },
            DaemonMessage::SectorGroups { sectors } => DaemonMessageView::SectorGroups {
                sectors: group_views(sectors@),
            },
            DaemonMessage::Pw { login, uid, gid, home, sh } => DaemonMessageView::Pw {
                login: login@,
                uid: *uid,
                gid: *gid,
                home: home@,
                sh: sh@,
            },
            DaemonMessage::Sp { login, pass } => DaemonMessageView::Sp { login: login@, pass: pass@ },
            DaemonMessage::Gr { sector } => DaemonMessageView::Gr { sector: sector@ },
        }
    }
}

/// The sector lines of the groups, one each.
pub open spec fn group_texts(gs: Seq<SectorGroupView>) -> Seq<Seq<char>> {
    Seq::new(gs.len(), |i: int| gs[i].text())
}

/// The groups that the lines denote, or nothing where a line denotes none.
pub open spec fn parse_lines(lines: Seq<Seq<char>>) -> Option<Seq<SectorGroupView>>
    decreases lines.len(),
{
    if lines.len() == 0 {
        Some(Seq::empty())
    } else {
        match (parse_lines(lines.drop_last()), SectorGroupView::parse(lines.last())) {
            (Some(front), Ok(g)) => Some(front.push(g)),
            _ => None,
        }
    }
}

/// Reading of a list of sector lines: nothing in it for no group, else a sector
/// line for each group with a line feed between each two.
pub open spec fn parse_sectors(s: Seq<char>) -> Result<DaemonMessageView, ParseMessageError> {
    if s.len() == 0 {
        Ok(DaemonMessageView::SectorGroups { sectors: Seq::empty() })
    } else {
        match parse_lines(split(s, '\n')) {
            Some(sectors) => Ok(DaemonMessageView::SectorGroups { sectors }),
            None => Err(ParseMessageError::ParseDaemonMessageError),
        }
    }
}

/// Reading of `true` or `false`.
pub open spec fn parse_pam(s: Seq<char>) -> Result<DaemonMessageView, ParseMessageError> {
    if s == "true"@ {
        Ok(DaemonMessageView::Pam { result: true })
    } else if s == "false"@ {
        Ok(DaemonMessageView::Pam { result: false })
    } else {
        Err(ParseMessageError::ParseDaemonMessageError)
    }
}

/// Reading of `<limit>:<remaining>:<reset>`: three numerals, and nothing else.
pub open spec fn parse_rate(s: Seq<char>) -> Result<DaemonMessageView, ParseMessageError> {
    let f = split(s, ':');
    if f.len() != 3 {
        Err(ParseMessageError::ParseDaemonMessageError)
    } else {
        match (
            parse_dec(f[0], usize::MAX as nat),
            parse_dec(f[1], usize::MAX as nat),
            parse_dec(f[2], usize::MAX as nat),
        ) {
            (Ok(limit), Ok(remaining), Ok(reset)) => Ok(
                DaemonMessageView::RateLimit {
                    limit: limit as usize,
                    remaining: remaining as usize,
                    reset: reset as usize,
                },
            ),
            _ => Err(ParseMessageError::ParseDaemonMessageError),
        }
    }
}

/// Reading of `<login>:<uid>:<gid>:<home>:<sh>`: five fields exactly, the two
/// ids numerals.
pub open spec fn parse_pw(s: Seq<char>) -> Result<DaemonMessageView, ParseMessageError> {
    let f = split(s, ':');
    if f.len() != 5 {
        Err(ParseMessageError::ParseDaemonMessageError)
    } else {
        match (parse_dec(f[1], u64::MAX as nat), parse_dec(f[2], u64::MAX as nat)) {
            (Ok(uid), Ok(gid)) => Ok(
                DaemonMessageView::Pw {
                    login: f[0],
                    uid: uid as u64,
                    gid: gid as u64,
                    home: f[3],
                    sh: f[4],
                },
            ),
            _ => Err(ParseMessageError::ParseDaemonMessageError),
        }
    }
}

/// Reading of `<login>:<pass>`: two fields exactly.
pub open spec fn parse_sp(s: Seq<char>) -> Result<DaemonMessageView, ParseMessageError> {
    let f = split(s, ':');
    if f.len() != 2 {
        Err(ParseMessageError::ParseDaemonMessageError)
    } else {
        Ok(DaemonMessageView::Sp { login: f[0], pass: f[1] })
    }
}

impl DaemonMessageView {
    /// The reply frame.
    pub open spec fn text(self) -> Seq<char> {
        match self {
            DaemonMessageView::Success => "d:success"@,
            DaemonMessageView::Error { message } => "d:error:"@ + message,
            DaemonMessageView::Key { keys } => "d:key:"@ + keys,
            DaemonMessageView::Pam { result } => "d:pam:"@ + (if result {
                "true"@
            } else {
                "false"@
            }),
            DaemonMessageView::RateLimit { limit, remaining, reset } => "d:ratelimit:"@ + (dec(
                limit as nat,
            ) + seq![':'] + dec(remaining as nat) + seq![':'] + dec(reset as nat)),
            DaemonMessageView::SectorGroups { sectors } => "d:sectors:"@ + join(
                group_texts(sectors),
                '\n',
            ),
            DaemonMessageView::Pw { login, uid, gid, home, sh } => "d:pw:"@ + (login + seq![':']
                + dec(uid as nat) + seq![':'] + dec(gid as nat) + seq![':'] + home + seq![':']
                + sh),
            DaemonMessageView::Sp { login, pass } => "d:sp:"@ + (login + seq![':'] + pass),
            DaemonMessageView::Gr { sector } => "d:gr:"@ + sector.text(),
        }
    }

    /// Reading of a reply frame.
    pub open spec fn parse(s: Seq<char>) -> Result<DaemonMessageView, ParseMessageError> {
        if starts_with(s, "d:key:"@) {
            Ok(DaemonMessageView::Key { keys: after(s, "d:key:"@) })
        } else if starts_with(s, "d:pam:"@) {
            parse_pam(after(s, "d:pam:"@))
        } else if s == "d:success"@ {
            Ok(DaemonMessageView::Success)
        } else if starts_with(s, "d:ratelimit:"@) {
            parse_rate(after(s, "d:ratelimit:"@))
        } else if starts_with(s, "d:sectors:"@) {
            parse_sectors(after(s, "d:sectors:"@))
        } else if starts_with(s, "d:pw:"@) {
            parse_pw(after(s, "d:pw:"@))
        } else if starts_with(s, "d:sp:"@) {
            parse_sp(after(s, "d:sp:"@))
        } else if starts_with(s, "d:gr:"@) {
            match SectorGroupView::parse(after(s, "d:gr:"@)) {
                Ok(sector) => Ok(DaemonMessageView::Gr { sector }),
                Err(_) => Err(ParseMessageError::ParseDaemonMessageError),
            }
        } else if starts_with(s, "d:error:"@) {
            Ok(DaemonMessageView::Error { message: after(s, "d:error:"@) })
        } else {
            Err(ParseMessageError::ParseDaemonMessageError)
        }
    }

    /// A reply as its frame can carry it: no field holds the separator that ends it.
    pub open spec fn wire_ok(self) -> bool {
        match self {
            DaemonMessageView::Pw { login, uid, gid, home, sh } => !has_char(login, ':')
                && !has_char(home, ':') && !has_char(sh, ':'),
            DaemonMessageView::Sp { login, pass } => !has_char(login, ':') && !has_char(pass, ':'),
            DaemonMessageView::Gr { sector } => sector.wire_ok(),
            DaemonMessageView::SectorGroups { sectors } => forall|i: int|
                0 <= i < sectors.len() ==> (#[trigger] sectors[i]).line_ok(),
            _ => true,
        }
    }
}

/// The sector lines of groups are read back as the groups, where each line can carry
/// its group.
pub proof fn lemma_parse_lines_texts(gs: Seq<SectorGroupView>)
    requires
        forall|i: int| 0 <= i < gs.len() ==> (#[trigger] gs[i]).wire_ok(),
    ensures
        parse_lines(group_texts(gs)) == Some(gs),
    decreases gs.len(),
{
    let lines = group_texts(gs);
    if gs.len() > 0 {
        let front = gs.drop_last();
        assert(lines.drop_last() =~= group_texts(front));
        assert forall|i: int| 0 <= i < front.len() implies (#[trigger] front[i]).wire_ok() by {
            assert(front[i] == gs[i]);
        }
        lemma_parse_lines_texts(front);
        assert(gs[gs.len() - 1].wire_ok());
        gs.last().lemma_round_trip();
        assert(front.push(gs.last()) =~= gs);
    } else {
        assert(gs =~= Seq::empty());
    }
}

impl DaemonMessageView {
    proof fn lemma_round_trip_success(self)
        requires
            self.wire_ok(),
            self is Success,
        ensures
            Self::parse(self.text()) == Ok::<DaemonMessageView, ParseMessageError>(self),
    {
        reveal_strlit("d:key:");
        reveal_strlit("d:pam:");
        reveal_strlit("d:success");
        reveal_strlit("d:ratelimit:");
        reveal_strlit("d:sectors:");
        reveal_strlit("d:pw:");
        reveal_strlit("d:sp:");
        reveal_strlit("d:gr:");
        reveal_strlit("d:error:");
        let s = self.text();
        match self {
            DaemonMessageView::Success => {
                lemma_differs_at(s, "d:key:"@, 2);
                lemma_differs_at(s, "d:pam:"@, 2);
            },
            _ => {},
        }
    }

    proof fn lemma_round_trip_error(self)
        requires
            self.wire_ok(),
            self is Error,
        ensures
            Self::parse(self.text()) == Ok::<DaemonMessageView, ParseMessageError>(self),
    {
        reveal_strlit("d:key:");
        reveal_strlit("d:pam:");
        reveal_strlit("d:success");
        reveal_strlit("d:ratelimit:");
        reveal_strlit("d:sectors:");
        reveal_strlit("d:pw:");
        reveal_strlit("d:sp:");
        reveal_strlit("d:gr:");
        reveal_strlit("d:error:");
        let s = self.text();
        match self {
            DaemonMessageView::Error { message } => {
                lemma_differs_at(s, "d:key:"@, 2);
                lemma_differs_at(s, "d:pam:"@, 2);
                lemma_differs_at(s, "d:success"@, 2);
                lemma_differs_at(s, "d:ratelimit:"@, 2);
                lemma_differs_at(s, "d:sectors:"@, 2);
                lemma_differs_at(s, "d:pw:"@, 2);
                lemma_differs_at(s, "d:sp:"@, 2);
                lemma_differs_at(s, "d:gr:"@, 2);
                lemma_starts_with_concat("d:error:"@, message);
            },
            _ => {},
        }
    }

    proof fn lemma_round_trip_key(self)
        requires
            self.wire_ok(),
            self is Key,
        ensures
            Self::parse(self.text()) == Ok::<DaemonMessageView, ParseMessageError>(self),
    {
        reveal_strlit("d:key:");
        reveal_strlit("d:pam:");
        reveal_strlit("d:success");
        reveal_strlit("d:ratelimit:");
        reveal_strlit("d:sectors:");
        reveal_strlit("d:pw:");
        reveal_strlit("d:sp:");
        reveal_strlit("d:gr:");
        reveal_strlit("d:error:");
        let s = self.text();
        match self {
            DaemonMessageView::Key { keys } => {
                lemma_starts_with_concat("d:key:"@, keys);
            },
            _ => {},
        }
    }

    proof fn lemma_round_trip_pam(self)
        requires
            self.wire_ok(),
            self is Pam,
        ensures
            Self::parse(self.text()) == Ok::<DaemonMessageView, ParseMessageError>(self),
    {
        reveal_strlit("d:key:");
        reveal_strlit("d:pam:");
        reveal_strlit("d:success");
        reveal_strlit("d:ratelimit:");
        reveal_strlit("d:sectors:");
        reveal_strlit("d:pw:");
        reveal_strlit("d:sp:");
        reveal_strlit("d:gr:");
        reveal_strlit("d:error:");
        reveal_strlit("true");
        reveal_strlit("false");
        let s = self.text();
        match self {
            DaemonMessageView::Pam { result } => {
                lemma_differs_at(s, "d:key:"@, 2);
                let word = if result {
                    "true"@
                } else {
                    "false"@
                };
                lemma_starts_with_concat("d:pam:"@, word);
                lemma_differs_at("false"@, "true"@, 0);
            },
            _ => {},
        }
    }

    proof fn lemma_round_trip_ratelimit(self)
        requires
            self.wire_ok(),
            self is RateLimit,
        ensures
            Self::parse(self.text()) == Ok::<DaemonMessageView, ParseMessageError>(self),
    {
        reveal_strlit("d:key:");
        reveal_strlit("d:pam:");
        reveal_strlit("d:success");
        reveal_strlit("d:ratelimit:");
        reveal_strlit("d:sectors:");
        reveal_strlit("d:pw:");
        reveal_strlit("d:sp:");
        reveal_strlit("d:gr:");
        reveal_strlit("d:error:");
        let s = self.text();
        match self {
            DaemonMessageView::RateLimit { limit, remaining, reset } => {
                lemma_differs_at(s, "d:key:"@, 2);
                lemma_differs_at(s, "d:pam:"@, 2);
                lemma_differs_at(s, "d:success"@, 2);
                let parts = seq![dec(limit as nat), dec(remaining as nat), dec(reset as nat)];
                lemma_join3(parts[0], parts[1], parts[2], ':');
                lemma_starts_with_concat("d:ratelimit:"@, join(parts, ':'));
                lemma_dec_has_no_char(limit as nat, ':');
                lemma_dec_has_no_char(remaining as nat, ':');
                lemma_dec_has_no_char(reset as nat, ':');
                lemma_split_join(parts, ':');
                lemma_parse_dec_of_dec(limit as nat, usize::MAX as nat);
                lemma_parse_dec_of_dec(remaining as nat, usize::MAX as nat);
                lemma_parse_dec_of_dec(reset as nat, usize::MAX as nat);
            },
            _ => {},
        }
    }

    proof fn lemma_round_trip_sectorgroups(self)
        requires
            self.wire_ok(),
            self is SectorGroups,
        ensures
            Self::parse(self.text()) == Ok::<DaemonMessageView, ParseMessageError>(self),
    {
        reveal_strlit("d:key:");
        reveal_strlit("d:pam:");
        reveal_strlit("d:success");
        reveal_strlit("d:ratelimit:");
        reveal_strlit("d:sectors:");
        reveal_strlit("d:pw:");
        reveal_strlit("d:sp:");
        reveal_strlit("d:gr:");
        reveal_strlit("d:error:");
        let s = self.text();
        match self {
            DaemonMessageView::SectorGroups { sectors } => {
                lemma_differs_at(s, "d:key:"@, 2);
                lemma_differs_at(s, "d:pam:"@, 2);
                lemma_differs_at(s, "d:success"@, 3);
                lemma_differs_at(s, "d:ratelimit:"@, 2);
                let lines = group_texts(sectors);
                lemma_starts_with_concat("d:sectors:"@, join(lines, '\n'));
                if sectors.len() == 0 {
                    assert(join(lines, '\n') =~= Seq::<char>::empty());
                    assert(sectors =~= Seq::<SectorGroupView>::empty());
                } else {
                    assert forall|i: int| 0 <= i < lines.len() implies !has_char(
                        #[trigger] lines[i],
                        '\n',
                    ) by {
                        assert(sectors[i].line_ok());
                        sectors[i].lemma_text_has_no('\n');
                    }
                    lemma_split_join(lines, '\n');
                    assert forall|i: int| 0 <= i < sectors.len() implies (
                    #[trigger] sectors[i]).wire_ok() by {
                        assert(sectors[i].line_ok());
                    }
                    lemma_parse_lines_texts(sectors);
                    crate::text::lemma_dec_digits(sectors[0].sector.id as nat);
                    assert(lines[0].len() > 0);
                    assert(join(lines, '\n').len() > 0);
                }
            },
            _ => {},
        }
    }

    proof fn lemma_round_trip_pw(self)
        requires
            self.wire_ok(),
            self is Pw,
        ensures
            Self::parse(self.text()) == Ok::<DaemonMessageView, ParseMessageError>(self),
    {
        reveal_strlit("d:key:");
        reveal_strlit("d:pam:");
        reveal_strlit("d:success");
        reveal_strlit("d:ratelimit:");
        reveal_strlit("d:sectors:");
        reveal_strlit("d:pw:");
        reveal_strlit("d:sp:");
        reveal_strlit("d:gr:");
        reveal_strlit("d:error:");
        let s = self.text();
        match self {
            DaemonMessageView::Pw { login, uid, gid, home, sh } => {
                lemma_differs_at(s, "d:key:"@, 2);
                lemma_differs_at(s, "d:pam:"@, 3);
                lemma_differs_at(s, "d:success"@, 2);
                lemma_differs_at(s, "d:ratelimit:"@, 2);
                lemma_differs_at(s, "d:sectors:"@, 2);
                let parts = seq![login, dec(uid as nat), dec(gid as nat), home, sh];
                lemma_join5(parts[0], parts[1], parts[2], parts[3], parts[4], ':');
                lemma_starts_with_concat("d:pw:"@, join(parts, ':'));
                lemma_dec_has_no_char(uid as nat, ':');
                lemma_dec_has_no_char(gid as nat, ':');
                lemma_split_join(parts, ':');
                lemma_parse_dec_of_dec(uid as nat, u64::MAX as nat);
                lemma_parse_dec_of_dec(gid as nat, u64::MAX as nat);
            },
            _ => {},
        }
    }

    proof fn lemma_round_trip_sp(self)
        requires
            self.wire_ok(),
            self is Sp,
        ensures
            Self::parse(self.text()) == Ok::<DaemonMessageView, ParseMessageError>(self),
    {
        reveal_strlit("d:key:");
        reveal_strlit("d:pam:");
        reveal_strlit("d:success");
        reveal_strlit("d:ratelimit:");
        reveal_strlit("d:sectors:");
        reveal_strlit("d:pw:");
        reveal_strlit("d:sp:");
        reveal_strlit("d:gr:");
        reveal_strlit("d:error:");
        let s = self.text();
        match self {
            DaemonMessageView::Sp { login, pass } => {
                lemma_differs_at(s, "d:key:"@, 2);
                lemma_differs_at(s, "d:pam:"@, 2);
                lemma_differs_at(s, "d:success"@, 3);
                lemma_differs_at(s, "d:ratelimit:"@, 2);
                lemma_differs_at(s, "d:sectors:"@, 3);
                lemma_differs_at(s, "d:pw:"@, 2);
                let parts = seq![login, pass];
                lemma_join2(login, pass, ':');
                lemma_starts_with_concat("d:sp:"@, join(parts, ':'));
                lemma_split_join(parts, ':');
            },
            _ => {},
        }
    }

    proof fn lemma_round_trip_gr(self)
        requires
            self.wire_ok(),
            self is Gr,
        ensures
            Self::parse(self.text()) == Ok::<DaemonMessageView, ParseMessageError>(self),
    {
        reveal_strlit("d:key:");
        reveal_strlit("d:pam:");
        reveal_strlit("d:success");
        reveal_strlit("d:ratelimit:");
        reveal_strlit("d:sectors:");
        reveal_strlit("d:pw:");
        reveal_strlit("d:sp:");
        reveal_strlit("d:gr:");
        reveal_strlit("d:error:");
        let s = self.text();
        match self {
            DaemonMessageView::Gr { sector } => {
                lemma_differs_at(s, "d:key:"@, 2);
                lemma_differs_at(s, "d:pam:"@, 2);
                lemma_differs_at(s, "d:success"@, 2);
                lemma_differs_at(s, "d:ratelimit:"@, 2);
                lemma_differs_at(s, "d:sectors:"@, 2);
                lemma_differs_at(s, "d:pw:"@, 2);
                lemma_differs_at(s, "d:sp:"@, 2);
                lemma_starts_with_concat("d:gr:"@, sector.text());
                sector.lemma_round_trip();
            },
            _ => {},
        }
    }

    /// A reply is read back from its frame as it was, where the frame can carry it.
    pub proof fn lemma_round_trip(self)
        requires
            self.wire_ok(),
        ensures
            Self::parse(self.text()) == Ok::<DaemonMessageView, ParseMessageError>(self),
    {
        match self {
            DaemonMessageView::Success => self.lemma_round_trip_success(),
            DaemonMessageView::Error { .. } => self.lemma_round_trip_error(),
            DaemonMessageView::Key { .. } => self.lemma_round_trip_key(),
            DaemonMessageView::Pam { .. } => self.lemma_round_trip_pam(),
            DaemonMessageView::RateLimit { .. } => self.lemma_round_trip_ratelimit(),
            DaemonMessageView::SectorGroups { .. } => self.lemma_round_trip_sectorgroups(),
            DaemonMessageView::Pw { .. } => self.lemma_round_trip_pw(),
            DaemonMessageView::Sp { .. } => self.lemma_round_trip_sp(),
            DaemonMessageView::Gr { .. } => self.lemma_round_trip_gr(),
        }
    }
}

/// The sector lines of the groups with a line feed between each two.
fn groups_to_string(gs: &Vec<SectorGroup>) -> (r: String)
    ensures
        r@ == join(group_texts(group_views(gs@)), '\n'),
{
    let ghost texts = group_texts(group_views(gs@));
    let mut r = String::new();
    let mut i: usize = 0;
    assert(texts.take(0) =~= Seq::empty());
    while i < gs.len()
        invariant
            i <= gs.len(),
            texts == group_texts(group_views(gs@)),
            r@ == join(texts.take(i as int), '\n'),
        decreases gs.len() - i,
    {
        let t = gs[i].to_string();
        assert(t@ == texts[i as int]);
        proof {
            reveal_strlit("\n");
            assert(texts.take(i + 1) =~= texts.take(i as int).push(texts[i as int]));
            if i > 0 {
                lemma_join_push(texts.take(i as int), texts[i as int], '\n');
            } else {
                assert(texts.take(1) =~= seq![texts[0]]);
            }
        }
        if i > 0 {
            r.append("\n");
            assert(r@ =~= join(texts.take(i as int), '\n') + seq!['\n']);
        }
        r.append(t.as_str());
        assert(r@ =~= join(texts.take(i + 1), '\n'));
        i += 1;
    }
    assert(texts.take(gs.len() as int) =~= texts);
    r
}

/// Reads a list of sector lines.
fn parse_group_lines(s: &str) -> (r: Result<DaemonMessage, ParseMessageError>)
    ensures
        match r {
            Ok(m) => parse_sectors(s@) == Ok::<DaemonMessageView, ParseMessageError>(m@),
            Err(e) => parse_sectors(s@) == Err::<DaemonMessageView, ParseMessageError>(e),
        },
{
    let mut r: Vec<SectorGroup> = Vec::new();
    assert(group_views(r@) =~= Seq::empty());
    if s.is_empty() {
        return Ok(DaemonMessage::SectorGroups { sectors: r });
    }
    let lines = split_str(s, '\n');
    let ghost texts = split(s@, '\n');
    let mut i: usize = 0;
    assert(texts.take(0) =~= Seq::empty());
    while i < lines.len()
        invariant
            i <= lines.len(),
            s@.len() > 0,
            texts == split(s@, '\n'),
            views(lines@) == texts,
            parse_lines(texts.take(i as int)) == Some(group_views(r@)),
        decreases lines.len() - i,
    {
        assert(lines[i as int]@ == texts[i as int]);
        assert(texts.take(i + 1).drop_last() =~= texts.take(i as int));
        let ghost before = group_views(r@);
        match SectorGroup::from_str(lines[i].as_str()) {
            Ok(g) => {
                let ghost gv = g@;
                r.push(g);
                assert(group_views(r@) =~= before.push(gv));
            },
            Err(_) => {
                proof {
                    lemma_parse_lines_fails(texts, i as int);
                }
                return Err(ParseMessageError::ParseDaemonMessageError);
            },
        }
        i += 1;
    }
    assert(texts.take(lines.len() as int) =~= texts);
    Ok(DaemonMessage::SectorGroups { sectors: r })
}

/// Where one line denotes no group, the lines as a whole denote no list.
pub proof fn lemma_parse_lines_fails(lines: Seq<Seq<char>>, k: int)
    requires
        0 <= k < lines.len(),
        SectorGroupView::parse(lines[k]) is Err,
    ensures
        parse_lines(lines) is None,
    decreases lines.len(),
{
    if k < lines.len() - 1 {
        lemma_parse_lines_fails(lines.drop_last(), k);
    }
}

impl DaemonMessage {
    /// The reply frame.
    pub fn to_string(&self) -> (r: String)
        ensures
            r@ == self@.text(),
    {
        proof {
            reveal_strlit(":");
        }
        match self {
            DaemonMessage::Success => String::from_str("d:success"),
            DaemonMessage::Error { message } => String::from_str("d:error:").concat(
                message.as_str(),
            ),
            DaemonMessage::Key { keys } => String::from_str("d:key:").concat(keys.as_str()),
            DaemonMessage::Pam { result } => {
                if *result {
                    String::from_str("d:pam:").concat("true")
                } else {
                    String::from_str("d:pam:").concat("false")
                }
            },
            DaemonMessage::RateLimit { limit, remaining, reset } => {
                let a = usize_to_string(*limit);
                let b = usize_to_string(*remaining);
                let c = usize_to_string(*reset);
                let r = String::from_str("d:ratelimit:").concat(a.as_str()).concat(":").concat(
                    b.as_str(),
                ).concat(":").concat(c.as_str());
                assert(r@ =~= self@.text());
                r
            },
            DaemonMessage::SectorGroups { sectors } => {
                let t = groups_to_string(sectors);
                String::from_str("d:sectors:").concat(t.as_str())
            },
            DaemonMessage::Pw { login, uid, gid, home, sh } => {
                let u = u64_to_string(*uid);
                let g = u64_to_string(*gid);
                let r = String::from_str("d:pw:").concat(login.as_str()).concat(":").concat(
                    u.as_str(),
                ).concat(":").concat(g.as_str()).concat(":").concat(home.as_str()).concat(
                    ":",
                ).concat(sh.as_str());
                assert(r@ =~= self@.text());
                r
            },
            DaemonMessage::Sp { login, pass } => {
                let r = String::from_str("d:sp:").concat(login.as_str()).concat(":").concat(
                    pass.as_str(),
                );
                assert(r@ =~= self@.text());
                r
            },
            DaemonMessage::Gr { sector } => {
                let t = sector.to_string();
                String::from_str("d:gr:").concat(t.as_str())
            },
        }
    }

    /// Reads a reply frame.
    pub fn from_str(s: &str) -> (r: Result<DaemonMessage, ParseMessageError>)
        ensures
            match r {
                Ok(v) => DaemonMessageView::parse(s@) == Ok::<DaemonMessageView, ParseMessageError>(
                    v@,
                ),
                Err(e) => DaemonMessageView::parse(s@) == Err::<
                    DaemonMessageView,
                    ParseMessageError,
                >(e),
            },
    {
        let cs = chars_of(s);
        if let Some(rest) = strip_prefix(s, &cs, "d:key:") {
            Ok(DaemonMessage::Key { keys: String::from_str(rest) })
        } else if let Some(rest) = strip_prefix(s, &cs, "d:pam:") {
            let word = chars_of(rest);
            if same_text(&word, "true") {
                Ok(DaemonMessage::Pam { result: true })
            } else if same_text(&word, "false") {
                Ok(DaemonMessage::Pam { result: false })
            } else {
                Err(ParseMessageError::ParseDaemonMessageError)
            }
        } else if same_text(&cs, "d:success") {
            Ok(DaemonMessage::Success)
        } else if let Some(rest) = strip_prefix(s, &cs, "d:ratelimit:") {
            let f = split_str(rest, ':');
            if f.len() != 3 {
                return Err(ParseMessageError::ParseDaemonMessageError);
            }
            assert(f[0]@ == split(rest@, ':')[0]);
            assert(f[1]@ == split(rest@, ':')[1]);
            assert(f[2]@ == split(rest@, ':')[2]);
            match (
                parse_usize(f[0].as_str()),
                parse_usize(f[1].as_str()),
                parse_usize(f[2].as_str()),
            ) {
                (Ok(limit), Ok(remaining), Ok(reset)) => Ok(
                    DaemonMessage::RateLimit { limit, remaining, reset },
                ),
                _ => Err(ParseMessageError::ParseDaemonMessageError),
            }
        } else if let Some(rest) = strip_prefix(s, &cs, "d:sectors:") {
            parse_group_lines(rest)
        } else if let Some(rest) = strip_prefix(s, &cs, "d:pw:") {
            let f = split_str(rest, ':');
            if f.len() != 5 {
                return Err(ParseMessageError::ParseDaemonMessageError);
            }
            assert(f[0]@ == split(rest@, ':')[0]);
            assert(f[1]@ == split(rest@, ':')[1]);
            assert(f[2]@ == split(rest@, ':')[2]);
            assert(f[3]@ == split(rest@, ':')[3]);
            assert(f[4]@ == split(rest@, ':')[4]);
            match (parse_u64(f[1].as_str()), parse_u64(f[2].as_str())) {
                (Ok(uid), Ok(gid)) => Ok(
                    DaemonMessage::Pw {
                        login: f[0].clone(),
                        uid,
                        gid,
                        home: f[3].clone(),
                        sh: f[4].clone(),
                    },
                ),
                _ => Err(ParseMessageError::ParseDaemonMessageError),
            }
        } else if let Some(rest) = strip_prefix(s, &cs, "d:sp:") {
            let f = split_str(rest, ':');
            if f.len() != 2 {
                return Err(ParseMessageError::ParseDaemonMessageError);
            }
            assert(f[0]@ == split(rest@, ':')[0]);
            assert(f[1]@ == split(rest@, ':')[1]);
            Ok(DaemonMessage::Sp { login: f[0].clone(), pass: f[1].clone() })
        } else if let Some(rest) = strip_prefix(s, &cs, "d:gr:") {
            match SectorGroup::from_str(rest) {
                Ok(sector) => Ok(DaemonMessage::Gr { sector }),
                Err(_) => Err(ParseMessageError::ParseDaemonMessageError),
            }
        } else if let Some(rest) = strip_prefix(s, &cs, "d:error:") {
            Ok(DaemonMessage::Error { message: String::from_str(rest) })
        } else {
            Err(ParseMessageError::ParseDaemonMessageError)
        }
    }
}

/// One frame of a reply that is sent in pieces: a piece of the payload, and whether
/// more follows.
#[derive(Debug)]
pub struct DividedMessage {
    pub cont: bool,
    pub message: String,
}

/// What a `DividedMessage` stands for in contracts.
pub struct DividedMessageView {
    pub cont: bool,
    pub message: Seq<char>,
}

impl View for DividedMessage {
    type V = DividedMessageView;

    open spec fn view(&self) -> DividedMessageView {
        DividedMessageView { cont: self.cont, message: self.message@ }
    }
}

/// What the frames of a vector stand for.
pub open spec fn frame_views(v: Seq<DividedMessage>) -> Seq<DividedMessageView> {
    Seq::new(v.len(), |i: int| v[i]@)
}

/// The number of bytes that `c` takes in UTF-8.
pub open spec fn char_width(c: char) -> nat {
    encode_scalar(c as u32).len()
}

/// The number of bytes that `s` takes in UTF-8.
pub open spec fn byte_len(s: Seq<char>) -> nat {
    encode_utf8(s).len()
}

/// How many characters at the head of `s` fit into `budget` bytes together.
pub open spec fn fit(s: Seq<char>, budget: nat) -> nat
    decreases s.len(),
{
    if s.len() == 0 || char_width(s[0]) > budget {
        0
    } else {
        1 + fit(s.drop_first(), (budget - char_width(s[0])) as nat)
    }
}

/// How many characters the next piece of `s` takes: as many as fit into `size`
/// bytes, and one where not even one fits.
pub open spec fn piece_len(s: Seq<char>, size: nat) -> nat {
    if fit(s, size) == 0 {
        1
    } else {
        fit(s, size)
    }
}

/// The frames that carry `s` in pieces of `size` bytes: each piece but the last is
/// followed by more.
pub open spec fn divide(s: Seq<char>, size: nat) -> Seq<DividedMessageView>
    decreases s.len(),
{
    let k = piece_len(s, size);
    if k >= s.len() {
        seq![DividedMessageView { cont: false, message: s }]
    } else {
        seq![DividedMessageView { cont: true, message: s.take(k as int) }] + divide(
            s.skip(k as int),
            size,
        )
    }
}

/// The payload that the frames carry together.
pub open spec fn assemble(frames: Seq<DividedMessageView>) -> Seq<char>
    decreases frames.len(),
{
    if frames.len() == 0 {
        Seq::empty()
    } else {
        frames[0].message + assemble(frames.drop_first())
    }
}

/// The characters that fit do fit, and the next one does not.
pub proof fn lemma_fit(s: Seq<char>, budget: nat)
    ensures
        fit(s, budget) <= s.len(),
        byte_len(s.take(fit(s, budget) as int)) <= budget,
        fit(s, budget) < s.len() ==> byte_len(s.take(fit(s, budget) as int + 1)) > budget,
    decreases s.len(),
{
    if s.len() == 0 || char_width(s[0]) > budget {
        assert(s.take(0) =~= Seq::<char>::empty());
        if s.len() > 0 {
            let one = s.take(1);
            assert(one.drop_first() =~= Seq::<char>::empty());
            assert(encode_utf8(one.drop_first()).len() == 0);
            assert(one[0] == s[0]);
            assert(encode_utf8(one) == encode_scalar(one[0] as u32) + encode_utf8(one.drop_first()));
        }
    } else {
        let w = char_width(s[0]);
        let rest = s.drop_first();
        let k = fit(rest, (budget - w) as nat) as int;
        lemma_fit(rest, (budget - w) as nat);
        assert(s.take(k + 1).drop_first() =~= rest.take(k));
        if k < rest.len() {
            assert(s.take(k + 2).drop_first() =~= rest.take(k + 1));
        }
    }
}

/// The frames carry the payload whole and in order; only the last says that nothing
/// follows; and a piece of more than one character takes `size` bytes at most.
pub proof fn lemma_divide(s: Seq<char>, size: nat)
    ensures
        divide(s, size).len() >= 1,
        assemble(divide(s, size)) == s,
        forall|i: int| 0 <= i < divide(s, size).len() ==> (#[trigger] divide(s, size)[i]).cont == (i
            < divide(s, size).len() - 1),
        forall|i: int| 0 <= i < divide(s, size).len() ==> byte_len(#[trigger] divide(s, size)[i].message) <= size
            || divide(s, size)[i].message.len() == 1,
    decreases s.len(),
{
    let k = piece_len(s, size);
    let d = divide(s, size);
    lemma_fit(s, size);
    if k >= s.len() {
        assert(d.drop_first() =~= Seq::<DividedMessageView>::empty());
        assert(assemble(d.drop_first()) =~= Seq::<char>::empty());
        assert(assemble(d) == d[0].message + assemble(d.drop_first()));
        assert(assemble(d) =~= s);
        if fit(s, size) > 0 {
            assert(s.take(s.len() as int) =~= s);
        } else if s.len() == 0 {
            assert(s.take(0) =~= s);
        }
    } else {
        let rest = divide(s.skip(k as int), size);
        lemma_divide(s.skip(k as int), size);
        assert(d.drop_first() =~= rest);
        assert(assemble(d) =~= s);
        assert forall|i: int| 0 <= i < d.len() implies (#[trigger] d[i]).cont == (i < d.len() - 1) by {
            if i > 0 {
                assert(d[i] == rest[i - 1]);
            }
        }
        assert forall|i: int| 0 <= i < d.len() implies byte_len(#[trigger] d[i].message) <= size
            || d[i].message.len() == 1 by {
            if i > 0 {
                assert(d[i] == rest[i - 1]);
            }
        }
    }
}

/// The bytes of a text are those of its parts.
pub proof fn lemma_byte_len_concat(a: Seq<char>, b: Seq<char>)
    ensures
        byte_len(a + b) == byte_len(a) + byte_len(b),
    decreases a.len(),
{
    if a.len() == 0 {
        assert(a + b =~= b);
    } else {
        assert((a + b).drop_first() =~= a.drop_first() + b);
        assert((a + b)[0] == a[0]);
        lemma_byte_len_concat(a.drop_first(), b);
    }
}

/// A frame fits into a datagram: where a piece may take four bytes or more, the text
/// of each frame takes two bytes more than the size of a piece at most.
pub proof fn lemma_frame_size(s: Seq<char>, size: nat, i: int)
    requires
        size >= 4,
        0 <= i < divide(s, size).len(),
    ensures
        byte_len(divide(s, size)[i].text()) <= size + 2,
{
    reveal_strlit("0:");
    reveal_strlit("1:");
    let f = divide(s, size)[i];
    lemma_divide(s, size);
    let flag = if f.cont {
        "1:"@
    } else {
        "0:"@
    };
    lemma_byte_len_concat(flag, f.message);
    assert(byte_len(flag) == 2) by {
        let t = flag.drop_first();
        assert(t.drop_first() =~= Seq::<char>::empty());
        assert(encode_utf8(t.drop_first()).len() == 0);
        assert(encode_utf8(t) == encode_scalar(t[0] as u32) + encode_utf8(t.drop_first()));
        assert(encode_utf8(flag) == encode_scalar(flag[0] as u32) + encode_utf8(t));
    }
    if f.message.len() == 1 {
        let m = f.message;
        assert(m.drop_first() =~= Seq::<char>::empty());
        assert(encode_utf8(m.drop_first()).len() == 0);
        assert(encode_utf8(m) == encode_scalar(m[0] as u32) + encode_utf8(m.drop_first()));
    }
}

/// The number of bytes that `c` takes in UTF-8.
pub fn width_of(c: char) -> (w: usize)
    ensures
        w == char_width(c),
        1 <= w <= 4,
{
    proof {
        char_is_scalar(c);
    }
    let v = c as u32;
    if v < 0x80 {
        1
    } else if v < 0x800 {
        2
    } else if v < 0x10000 {
        3
    } else {
        4
    }
}

impl DividedMessageView {
    /// `1:<piece>` where more follows, `0:<piece>` where none does.
    pub open spec fn text(self) -> Seq<char> {
        (if self.cont {
            "1:"@
        } else {
            "0:"@
        }) + self.message
    }

    /// Reading of the text in the wire format.
    pub open spec fn parse(s: Seq<char>) -> Result<DividedMessageView, ParseMessageError> {
        if starts_with(s, "0:"@) {
            Ok(DividedMessageView { cont: false, message: after(s, "0:"@) })
        } else if starts_with(s, "1:"@) {
            Ok(DividedMessageView { cont: true, message: after(s, "1:"@) })
        } else {
            Err(ParseMessageError::ParseClientMessageError)
        }
    }

    /// Every frame is read back from its text as it was.
    pub proof fn lemma_round_trip(self)
        ensures
            Self::parse(self.text()) == Ok::<DividedMessageView, ParseMessageError>(self),
    {
        reveal_strlit("0:");
        reveal_strlit("1:");
        if self.cont {
            lemma_differs_at(self.text(), "0:"@, 0);
            lemma_starts_with_concat("1:"@, self.message);
        } else {
            lemma_starts_with_concat("0:"@, self.message);
        }
    }
}

impl DividedMessage {
    /// Cuts `msg` into frames whose pieces take `size` bytes each at most. No
    /// character is cut: a piece ends before the first character that would not fit,
    /// and holds one character where not even one fits.
    pub fn new(msg: &str, size: usize) -> (r: Vec<DividedMessage>)
        ensures
            frame_views(r@) == divide(msg@, size as nat),
    {
        let cs = chars_of(msg);
        let n = cs.len();
        let mut out: Vec<DividedMessage> = Vec::new();
        let mut start: usize = 0;
        assert(msg@.skip(0) =~= msg@);
        assert(frame_views(out@) + divide(msg@, size as nat) =~= divide(msg@, size as nat));
        loop
            invariant_except_break
                divide(msg@, size as nat) == frame_views(out@) + divide(
                    msg@.skip(start as int),
                    size as nat,
                ),
            invariant
                cs@ == msg@,
                n == cs.len(),
                start <= n,
            ensures
                frame_views(out@) == divide(msg@, size as nat),
            decreases n - start,
        {
            let ghost rest = msg@.skip(start as int);
            let mut end: usize = start;
            let mut used: usize = 0;
            assert(rest.skip(0) =~= rest);
            while end < n && width_of(cs[end]) <= size - used
                invariant
                    cs@ == msg@,
                    n == cs.len(),
                    start <= end <= n,
                    used <= size,
                    rest == msg@.skip(start as int),
                    fit(rest, size as nat) == (end - start) + fit(
                        rest.skip(end - start),
                        (size - used) as nat,
                    ),
                decreases n - end,
            {
                let ghost t = rest.skip(end - start);
                assert(t[0] == cs@[end as int]);
                assert(t.drop_first() =~= rest.skip(end - start + 1));
                used = used + width_of(cs[end]);
                end = end + 1;
            }
            proof {
                let t = rest.skip(end - start);
                if end < n {
                    assert(t[0] == cs@[end as int]);
                }
                assert(fit(t, (size - used) as nat) == 0);
            }
            if end == start {
                if start < n {
                    end = start + 1;
                }
            }
            assert(end - start >= rest.len() || end - start == piece_len(rest, size as nat));
            let ghost before = frame_views(out@);
            if end >= n {
                let piece = msg.substring_char(start, n);
                assert(piece@ =~= rest);
                out.push(DividedMessage { cont: false, message: String::from_str(piece) });
                assert(frame_views(out@) =~= before.push(
                    DividedMessageView { cont: false, message: rest },
                ));
                assert(frame_views(out@) =~= before + divide(rest, size as nat));
                break ;
            } else {
                let piece = msg.substring_char(start, end);
                assert(piece@ =~= rest.take(end - start));
                assert(rest.skip(end - start) =~= msg@.skip(end as int));
                out.push(DividedMessage { cont: true, message: String::from_str(piece) });
                assert(frame_views(out@) =~= before.push(
                    DividedMessageView { cont: true, message: rest.take(end - start) },
                ));
                assert(frame_views(out@) + divide(msg@.skip(end as int), size as nat) =~= before
                    + divide(rest, size as nat));
                start = end;
            }
        }
        out
    }

    /// The text of the frame.
    pub fn to_string(&self) -> (r: String)
        ensures
            r@ == self@.text(),
    {
        if self.cont {
            String::from_str("1:").concat(self.message.as_str())
        } else {
            String::from_str("0:").concat(self.message.as_str())
        }
    }

    /// Reads a frame.
    pub fn from_str(s: &str) -> (r: Result<DividedMessage, ParseMessageError>)
        ensures
            match r {
                Ok(v) => DividedMessageView::parse(s@) == Ok::<
                    DividedMessageView,
                    ParseMessageError,
                >(v@),
                Err(e) => DividedMessageView::parse(s@) == Err::<
                    DividedMessageView,
                    ParseMessageError,
                >(e),
            },
    {
        let cs = chars_of(s);
        if let Some(rest) = strip_prefix(s, &cs, "0:") {
            Ok(DividedMessage { cont: false, message: String::from_str(rest) })
        } else if let Some(rest) = strip_prefix(s, &cs, "1:") {
            Ok(DividedMessage { cont: true, message: String::from_str(rest) })
        } else {
            Err(ParseMessageError::ParseClientMessageError)
        }
    }
}

} // verus!

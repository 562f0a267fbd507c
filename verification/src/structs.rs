use vstd::prelude::*;
use vstd::std_specs::convert::FromSpecImpl;
use crate::error::{
    ConfigError,    ParseIntError, ParseMemberError, ParseSectorError, ParseSectorGroupError, ParseSectorTypeError,
};
use crate::seqs::{first_index, lemma_first_index, lemma_first_index_is};
use crate::text::{
    dec, has_char, join, join_path, joined_path, lemma_dec_digits, lemma_dec_has_no_char,
    lemma_has_char_concat, lemma_has_char_one, lemma_join_has_no, lemma_join_push,
    lemma_parse_dec_of_dec, lemma_split_join, lemma_split_shape, parse_dec, parse_u64, split,
    split_str, u64_to_string, views,
};

verus! {

/// Which kind of container on the remote service a sector stands for.
#[derive(Debug, Clone, Copy, PartialEq, Eq, Structural)]
pub enum SectorType {
    Team,
    Repo,
}

impl SectorType {
    /// The kind letter of the wire format.
    pub open spec fn text(self) -> Seq<char> {
        match self {
            SectorType::Team => seq!['T'],
            SectorType::Repo => seq!['R'],
        }
    }

    /// The kind that a kind letter names.
    pub open spec fn parse(s: Seq<char>) -> Result<SectorType, ParseSectorTypeError> {
        if s == seq!['T'] {
            Ok(SectorType::Team)
        } else if s == seq!['R'] {
            Ok(SectorType::Repo)
        } else {
            Err(ParseSectorTypeError::UnknownType)
        }
    }

    /// The text of the value in the wire format.
    pub fn to_string(&self) -> (r: String)
        ensures
            r@ == self.text(),
    {
        proof {
            reveal_strlit("T");
            reveal_strlit("R");
        }
        let r = match self {
            SectorType::Team => String::from_str("T"),
            SectorType::Repo => String::from_str("R"),
        };
        assert(r@ =~= self.text());
        r
    }

    /// Reads the value from its text in the wire format.
    pub fn from_str(s: &str) -> (r: Result<SectorType, ParseSectorTypeError>)
        ensures
            r == Self::parse(s@),
    {
        let cs = crate::text::chars_of(s);
        if cs.len() == 1 && cs[0] == 'T' {
            assert(s@ =~= seq!['T']);
            Ok(SectorType::Team)
        } else if cs.len() == 1 && cs[0] == 'R' {
            assert(s@ =~= seq!['R']);
            Ok(SectorType::Repo)
        } else {
            assert(s@ != seq!['T'] && s@ != seq!['R']) by {
                if s@ == seq!['T'] {
                    assert(s@.len() == 1 && s@[0] == 'T');
                }
                if s@ == seq!['R'] {
                    assert(s@.len() == 1 && s@[0] == 'R');
                }
            }
            Err(ParseSectorTypeError::UnknownType)
        }
    }
}

/// A user of the remote service: the numeric id is the local uid.
#[derive(Debug)]
pub struct Member {
    pub id: u64,
    pub login: String,
}

/// What a `Member` stands for in contracts.
pub struct MemberView {
    pub id: u64,
    pub login: Seq<char>,
}

impl View for Member {
    type V = MemberView;

    open spec fn view(&self) -> MemberView {
        MemberView { id: self.id, login: self.login@ }
    }
}

impl Clone for Member {
    fn clone(&self) -> (r: Self)
        ensures
            r == *self,
    {
        Member { id: self.id, login: self.login.clone() }
    }
}

impl MemberView {
    /// `<id>:<login>`
    pub open spec fn text(self) -> Seq<char> {
        dec(self.id as nat) + seq![':'] + self.login
    }

    /// Reading of `<id>:<login>`: a numeral and a login, and nothing else.
    pub open spec fn parse(s: Seq<char>) -> Result<MemberView, ParseMemberError> {
        let parts = split(s, ':');
        match parse_dec(parts[0], u64::MAX as nat) {
            Err(e) => Err(ParseMemberError::Id(e)),
            Ok(id) => if parts.len() != 2 {
                Err(ParseMemberError::BadFormat)
            } else {
                Ok(MemberView { id: id as u64, login: parts[1] })
            },
        }
    }

    /// A member is read back from its text as it was, where the login holds no `:`.
    pub proof fn lemma_round_trip(self)
        requires
            !has_char(self.login, ':'),
        ensures
            Self::parse(self.text()) == Ok::<MemberView, ParseMemberError>(self),
    {
        let parts = seq![dec(self.id as nat), self.login];
        lemma_dec_has_no_char(self.id as nat, ':');
        assert(join(parts, ':') =~= self.text()) by {
            assert(parts.drop_first() =~= seq![self.login]);
            assert(join(parts.drop_first(), ':') == self.login);
        }
        lemma_split_join(parts, ':');
        lemma_parse_dec_of_dec(self.id as nat, u64::MAX as nat);
    }
}

impl Member {
    /// The text of the value in the wire format.
    pub fn to_string(&self) -> (r: String)
        ensures
            r@ == self@.text(),
    {
        proof {
            reveal_strlit(":");
        }
        let r = u64_to_string(self.id).concat(":").concat(self.login.as_str());
        assert(r@ =~= self@.text());
        r
    }

    /// Reads the value from its text in the wire format.
    pub fn from_str(s: &str) -> (r: Result<Member, ParseMemberError>)
        ensures
            match r {
                Ok(m) => MemberView::parse(s@) == Ok::<MemberView, ParseMemberError>(m@),
                Err(e) => MemberView::parse(s@) == Err::<MemberView, ParseMemberError>(e),
            },
    {
        let parts = split_str(s, ':');
        proof {
            lemma_split_shape(s@, ':');
        }
        assert(parts[0]@ == split(s@, ':')[0]);
        let id = match parse_u64(parts[0].as_str()) {
            Ok(id) => id,
            Err(e) => {
                return Err(ParseMemberError::Id(e));
            },
        };
        if parts.len() != 2 {
            return Err(ParseMemberError::BadFormat);
        }
        assert(parts[1]@ == split(s@, ':')[1]);
        Ok(Member { id, login: parts[1].clone() })
    }
}

/// A team or a repository of the remote service.
#[derive(Debug)]
pub struct Sector {
    pub id: u64,
    pub name: String,
    pub sector_type: SectorType,
}

/// What a `Sector` stands for in contracts.
pub struct SectorView {
    pub id: u64,
    pub name: Seq<char>,
    pub sector_type: SectorType,
}

impl View for Sector {
    type V = SectorView;

    open spec fn view(&self) -> SectorView {
        SectorView { id: self.id, name: self.name@, sector_type: self.sector_type }
    }
}

impl Clone for Sector {
    fn clone(&self) -> (r: Self)
        ensures
            r == *self,
    {
        Sector { id: self.id, name: self.name.clone(), sector_type: self.sector_type }
    }
}

impl SectorView {
    /// `<id>:<name>:<kind-letter>`
    pub open spec fn text(self) -> Seq<char> {
        dec(self.id as nat) + seq![':'] + self.name + seq![':'] + self.sector_type.text()
    }

    /// Reading of `<id>:<name>:<kind-letter>`: three fields exactly.
    pub open spec fn parse(s: Seq<char>) -> Result<SectorView, ParseSectorError> {
        let parts = split(s, ':');
        if parts.len() == 3 {
            match parse_dec(parts[0], u64::MAX as nat) {
                Err(e) => Err(ParseSectorError::Id(e)),
                Ok(id) => match SectorType::parse(parts[2]) {
                    Err(e) => Err(ParseSectorError::Type(e)),
                    Ok(t) => Ok(SectorView { id: id as u64, name: parts[1], sector_type: t }),
                },
            }
        } else {
            Err(ParseSectorError::BadFormat)
        }
    }

    /// The text of a sector holds a character that is neither a digit, `:`, `T` nor `R`
    /// where its name does.
    pub proof fn lemma_text_has(self, c: char)
        requires
            !crate::text::is_digit(c),
            c != ':',
            c != 'T',
            c != 'R',
        ensures
            has_char(self.text(), c) <==> has_char(self.name, c),
    {
        let a = dec(self.id as nat);
        lemma_dec_has_no_char(self.id as nat, c);
        lemma_has_char_one(':', c);
        lemma_has_char_one('T', c);
        lemma_has_char_one('R', c);
        lemma_has_char_concat(a, seq![':'], c);
        lemma_has_char_concat(a + seq![':'], self.name, c);
        lemma_has_char_concat(a + seq![':'] + self.name, seq![':'], c);
        lemma_has_char_concat(a + seq![':'] + self.name + seq![':'], self.sector_type.text(), c);
    }

    /// A sector is read back from its text as it was, where the name holds no `:`.
    pub proof fn lemma_round_trip(self)
        requires
            !has_char(self.name, ':'),
        ensures
            Self::parse(self.text()) == Ok::<SectorView, ParseSectorError>(self),
    {
        let parts = seq![dec(self.id as nat), self.name, self.sector_type.text()];
        lemma_dec_has_no_char(self.id as nat, ':');
        lemma_has_char_one('T', ':');
        lemma_has_char_one('R', ':');
        assert(join(parts, ':') =~= self.text()) by {
            let p1 = parts.drop_first();
            assert(p1 =~= seq![self.name, self.sector_type.text()]);
            assert(p1.drop_first() =~= seq![self.sector_type.text()]);
            assert(join(p1.drop_first(), ':') == self.sector_type.text());
            assert(join(p1, ':') == self.name + seq![':'] + self.sector_type.text());
        }
        lemma_split_join(parts, ':');
        lemma_parse_dec_of_dec(self.id as nat, u64::MAX as nat);
        assert(seq!['T'] != seq!['R']) by {
            assert(seq!['T'][0] != seq!['R'][0]);
        }
    }
}

impl Sector {
    /// The text of the value in the wire format.
    pub fn to_string(&self) -> (r: String)
        ensures
            r@ == self@.text(),
    {
        proof {
            reveal_strlit(":");
        }
        let kind = self.sector_type.to_string();
        let r = u64_to_string(self.id).concat(":").concat(self.name.as_str()).concat(":").concat(
            kind.as_str(),
        );
        assert(r@ =~= self@.text());
        r
    }

    /// Reads the value from its text in the wire format.
    pub fn from_str(s: &str) -> (r: Result<Sector, ParseSectorError>)
        ensures
            match r {
                Ok(v) => SectorView::parse(s@) == Ok::<SectorView, ParseSectorError>(v@),
                Err(e) => SectorView::parse(s@) == Err::<SectorView, ParseSectorError>(e),
            },
    {
        let parts = split_str(s, ':');
        if parts.len() == 3 {
            assert(parts[0]@ == split(s@, ':')[0]);
            assert(parts[1]@ == split(s@, ':')[1]);
            assert(parts[2]@ == split(s@, ':')[2]);
            let id = match parse_u64(parts[0].as_str()) {
                Ok(id) => id,
                Err(e) => {
                    return Err(ParseSectorError::Id(e));
                },
            };
            let sector_type = match SectorType::from_str(parts[2].as_str()) {
                Ok(t) => t,
                Err(e) => {
                    return Err(ParseSectorError::Type(e));
                },
            };
            Ok(Sector { id, name: parts[1].clone(), sector_type })
        } else {
            Err(ParseSectorError::BadFormat)
        }
    }
}

/// A member together with the gid of a group that holds it.
#[derive(Debug)]
pub struct MemberGid {
    pub member: Member,
    pub gid: u64,
}

/// What a `MemberGid` stands for in contracts.
pub struct MemberGidView {
    pub member: MemberView,
    pub gid: u64,
}

impl View for MemberGid {
    type V = MemberGidView;

    open spec fn view(&self) -> MemberGidView {
        MemberGidView { member: self.member@, gid: self.gid }
    }
}

impl MemberGidView {
    /// `<id>:<login>|<gid>`
    pub open spec fn text(self) -> Seq<char> {
        self.member.text() + seq!['|'] + dec(self.gid as nat)
    }

    /// Reading of `<id>:<login>|<gid>`: a member and a numeral, and nothing else.
    pub open spec fn parse(s: Seq<char>) -> Result<MemberGidView, ParseMemberError> {
        let parts = split(s, '|');
        match MemberView::parse(parts[0]) {
            Err(e) => Err(e),
            Ok(member) => if parts.len() != 2 {
                Err(ParseMemberError::BadFormat)
            } else {
                match parse_dec(parts[1], u64::MAX as nat) {
                    Err(e) => Err(ParseMemberError::Gid(e)),
                    Ok(gid) => Ok(MemberGidView { member, gid: gid as u64 }),
                }
            },
        }
    }

    /// The pair is read back from its text as it was, where the login holds neither `:` nor `|`.
    pub proof fn lemma_round_trip(self)
        requires
            !has_char(self.member.login, ':'),
            !has_char(self.member.login, '|'),
        ensures
            Self::parse(self.text()) == Ok::<MemberGidView, ParseMemberError>(self),
    {
        let parts = seq![self.member.text(), dec(self.gid as nat)];
        lemma_dec_has_no_char(self.gid as nat, '|');
        lemma_dec_has_no_char(self.member.id as nat, '|');
        lemma_has_char_one(':', '|');
        lemma_has_char_concat(dec(self.member.id as nat), seq![':'], '|');
        lemma_has_char_concat(dec(self.member.id as nat) + seq![':'], self.member.login, '|');
        assert(join(parts, '|') =~= self.text()) by {
            assert(parts.drop_first() =~= seq![dec(self.gid as nat)]);
            assert(join(parts.drop_first(), '|') == dec(self.gid as nat));
        }
        lemma_split_join(parts, '|');
        self.member.lemma_round_trip();
        lemma_parse_dec_of_dec(self.gid as nat, u64::MAX as nat);
    }
}

impl MemberGid {
    /// The text of the value in the wire format.
    pub fn to_string(&self) -> (r: String)
        ensures
            r@ == self@.text(),
    {
        proof {
            reveal_strlit("|");
        }
        let gid = u64_to_string(self.gid);
        let r = self.member.to_string().concat("|").concat(gid.as_str());
        assert(r@ =~= self@.text());
        r
    }

    /// Reads the value from its text in the wire format.
    pub fn from_str(s: &str) -> (r: Result<MemberGid, ParseMemberError>)
        ensures
            match r {
                Ok(m) => MemberGidView::parse(s@) == Ok::<MemberGidView, ParseMemberError>(m@),
                Err(e) => MemberGidView::parse(s@) == Err::<MemberGidView, ParseMemberError>(e),
            },
    {
        let parts = split_str(s, '|');
        proof {
            lemma_split_shape(s@, '|');
        }
        assert(parts[0]@ == split(s@, '|')[0]);
        let member = match Member::from_str(parts[0].as_str()) {
            Ok(m) => m,
            Err(e) => {
                return Err(e);
            },
        };
        if parts.len() != 2 {
            return Err(ParseMemberError::BadFormat);
        }
        assert(parts[1]@ == split(s@, '|')[1]);
        match parse_u64(parts[1].as_str()) {
            Ok(gid) => Ok(MemberGid { member, gid }),
            Err(e) => Err(ParseMemberError::Gid(e)),
        }
    }
}

impl MemberView {
    /// The text of a member holds a character that is neither a digit nor `:` where its
    /// login does.
    pub proof fn lemma_text_has(self, c: char)
        requires
            !crate::text::is_digit(c),
            c != ':',
        ensures
            has_char(self.text(), c) <==> has_char(self.login, c),
    {
        lemma_dec_has_no_char(self.id as nat, c);
        lemma_has_char_one(':', c);
        lemma_has_char_concat(dec(self.id as nat), seq![':'], c);
        lemma_has_char_concat(dec(self.id as nat) + seq![':'], self.login, c);
    }
}

/// What the members of a vector stand for.
pub open spec fn member_views(v: Seq<Member>) -> Seq<MemberView> {
    Seq::new(v.len(), |i: int| v[i]@)
}

/// The texts of the members, one each.
pub open spec fn member_texts(ms: Seq<MemberView>) -> Seq<Seq<char>> {
    Seq::new(ms.len(), |i: int| ms[i].text())
}

/// The place of the first member with this login, or the length where there is none.
pub open spec fn login_index(ms: Seq<MemberView>, login: Seq<char>) -> int {
    first_index(ms, has_login(login))
}

/// The test that a member has this login.
pub open spec fn has_login(login: Seq<char>) -> spec_fn(MemberView) -> bool {
    |m: MemberView| m.login == login
}

/// No login occurs twice.
pub open spec fn distinct_logins(ms: Seq<MemberView>) -> bool {
    forall|i: int, j: int| 0 <= i < j < ms.len() ==> ms[i].login != ms[j].login
}

/// The members with `m` among them: in the place of the one that had its login, or at
/// the end.
pub open spec fn with_member(ms: Seq<MemberView>, m: MemberView) -> Seq<MemberView> {
    let i = login_index(ms, m.login);
    if i < ms.len() {
        ms.update(i, m)
    } else {
        ms.push(m)
    }
}

/// The members of a list by login: of two with one login the later stays, in the
/// place of the earlier.
pub open spec fn collected(list: Seq<MemberView>) -> Seq<MemberView>
    decreases list.len(),
{
    if list.len() == 0 {
        Seq::empty()
    } else {
        with_member(collected(list.drop_last()), list.last())
    }
}

/// The members that the items denote, or the error of the first item that denotes none.
pub open spec fn parse_members(items: Seq<Seq<char>>) -> Result<Seq<MemberView>, ParseMemberError>
    decreases items.len(),
{
    if items.len() == 0 {
        Ok(Seq::empty())
    } else {
        match parse_members(items.drop_last()) {
            Err(e) => Err(e),
            Ok(list) => match MemberView::parse(items.last()) {
                Err(e) => Err(e),
                Ok(m) => Ok(list.push(m)),
            },
        }
    }
}

/// Putting a member in keeps the logins distinct, and the member is found afterwards.
pub proof fn lemma_with_member_distinct(ms: Seq<MemberView>, m: MemberView)
    requires
        distinct_logins(ms),
    ensures
        distinct_logins(with_member(ms, m)),
        login_index(with_member(ms, m), m.login) < with_member(ms, m).len(),
{
    let p = has_login(m.login);
    lemma_first_index(ms, p);
    let i = login_index(ms, m.login);
    let r = with_member(ms, m);
    assert forall|a: int, b: int| 0 <= a < b < r.len() implies r[a].login != r[b].login by {
        if i < ms.len() {
            assert(p(ms[i]));
            if a == i {
                assert(ms[a].login != ms[b].login);
            } else if b == i {
                assert(ms[a].login != ms[b].login);
            } else {
                assert(ms[a].login != ms[b].login);
            }
        } else {
            if b == ms.len() {
                assert(!p(ms[a]));
            } else {
                assert(ms[a].login != ms[b].login);
            }
        }
    }
    let k = if i < ms.len() { i } else { ms.len() as int };
    assert(p(r[k]));
    lemma_first_index(r, p);
    if login_index(r, m.login) >= r.len() {
        assert(!p(r[k]));
    }
}

/// What was collected holds no login twice.
pub proof fn lemma_collected_distinct(list: Seq<MemberView>)
    ensures
        distinct_logins(collected(list)),
    decreases list.len(),
{
    if list.len() > 0 {
        lemma_collected_distinct(list.drop_last());
        lemma_with_member_distinct(collected(list.drop_last()), list.last());
    }
}

/// A list without a repeated login is collected as it stands.
pub proof fn lemma_collected_of_distinct(list: Seq<MemberView>)
    requires
        distinct_logins(list),
    ensures
        collected(list) == list,
    decreases list.len(),
{
    if list.len() > 0 {
        let front = list.drop_last();
        assert forall|i: int, j: int| 0 <= i < j < front.len() implies front[i].login
            != front[j].login by {
            assert(list[i].login != list[j].login);
        }
        lemma_collected_of_distinct(front);
        let p = has_login(list.last().login);
        assert forall|j: int| 0 <= j < front.len() implies !p(#[trigger] front[j]) by {
            assert(list[j].login != list[list.len() - 1].login);
        }
        lemma_first_index_is(front, p, front.len() as int);
        assert(front.push(list.last()) =~= list);
    } else {
        assert(list =~= Seq::empty());
    }
}

/// The texts of members are read back as the members, where no login holds `:`.
pub proof fn lemma_parse_member_texts(ms: Seq<MemberView>)
    requires
        forall|i: int| 0 <= i < ms.len() ==> !has_char(#[trigger] ms[i].login, ':'),
    ensures
        parse_members(member_texts(ms)) == Ok::<Seq<MemberView>, ParseMemberError>(ms),
    decreases ms.len(),
{
    let items = member_texts(ms);
    if ms.len() > 0 {
        let front = ms.drop_last();
        assert(items.drop_last() =~= member_texts(front));
        assert forall|i: int| 0 <= i < front.len() implies !has_char(
            #[trigger] front[i].login,
            ':',
        ) by {
            assert(front[i] == ms[i]);
        }
        lemma_parse_member_texts(front);
        assert(!has_char(ms[ms.len() - 1].login, ':'));
        ms.last().lemma_round_trip();
        assert(front.push(ms.last()) =~= ms);
    } else {
        assert(ms =~= Seq::empty());
    }
}

/// Puts `m` among the members: in the place of the one that has its login, or at the end.
pub fn put_member(ms: &mut Vec<Member>, m: Member)
    ensures
        member_views(final(ms)@) == with_member(member_views(old(ms)@), m@),
{
    let ghost before = member_views(ms@);
    let ghost p = has_login(m@.login);
    let mut i: usize = 0;
    while i < ms.len()
        invariant
            i <= ms.len(),
            member_views(ms@) == before,
            before == member_views(old(ms)@),
            p == has_login(m@.login),
            forall|j: int| 0 <= j < i ==> !p(#[trigger] before[j]),
        decreases ms.len() - i,
    {
        assert(before[i as int] == ms@[i as int]@);
        if ms[i].login == m.login {
            proof {
                lemma_first_index_is(before, p, i as int);
            }
            let ghost mv = m@;
            ms.set(i, m);
            assert(member_views(ms@) =~= before.update(i as int, mv));
            return ;
        }
        i += 1;
    }
    proof {
        lemma_first_index_is(before, p, before.len() as int);
    }
    let ghost mv = m@;
    ms.push(m);
    assert(member_views(ms@) =~= before.push(mv));
}

/// The members of `list` by login: of two with one login the later stays.
pub fn collect_members(list: Vec<Member>) -> (r: Vec<Member>)
    ensures
        member_views(r@) == collected(member_views(list@)),
        distinct_logins(member_views(r@)),
{
    let ghost all = member_views(list@);
    let mut r: Vec<Member> = Vec::new();
    let mut i: usize = 0;
    assert(all.take(0) =~= Seq::empty());
    assert(member_views(r@) =~= Seq::empty());
    while i < list.len()
        invariant
            i <= list.len(),
            all == member_views(list@),
            member_views(r@) == collected(all.take(i as int)),
        decreases list.len() - i,
    {
        assert(all.take(i + 1).drop_last() =~= all.take(i as int));
        assert(all.take(i + 1).last() == list@[i as int]@);
        put_member(&mut r, list[i].clone());
        i += 1;
    }
    assert(all.take(list.len() as int) =~= all);
    proof {
        lemma_collected_distinct(all);
    }
    r
}

/// A sector with the local group that it is shown as, and its members.
///
/// The members stand in the order in which they were put in, and no login occurs twice
/// (see `wf`).
#[derive(Debug)]
pub struct SectorGroup {
    pub sector: Sector,
    pub gid: Option<u64>,
    pub group: Option<String>,
    pub members: Vec<Member>,
}

/// What a `SectorGroup` stands for in contracts.
pub struct SectorGroupView {
    pub sector: SectorView,
    pub gid: Option<u64>,
    pub group: Option<Seq<char>>,
    pub members: Seq<MemberView>,
}

impl View for SectorGroup {
    type V = SectorGroupView;

    open spec fn view(&self) -> SectorGroupView {
        SectorGroupView {
            sector: self.sector@,
            gid: self.gid,
            group: match self.group {
                Some(g) => Some(g@),
                None => None,
            },
            members: member_views(self.members@),
        }
    }
}

/// What the groups of a vector stand for.
pub open spec fn group_views(v: Seq<SectorGroup>) -> Seq<SectorGroupView> {
    Seq::new(v.len(), |i: int| v[i]@)
}

/// Reading of the members' field of a sector line: nothing in it for no member,
/// else the members with a blank between each two.
pub open spec fn parse_member_field(s: Seq<char>) -> Result<Seq<MemberView>, ParseMemberError> {
    if s.len() == 0 {
        Ok(Seq::empty())
    } else {
        parse_members(split(s, ' '))
    }
}

/// A login as the sector line can carry it.
pub open spec fn login_ok(login: Seq<char>) -> bool {
    !has_char(login, ':') && !has_char(login, ' ') && !has_char(login, '\t')
}

/// Reading of the gid field of a sector line: empty for none.
pub open spec fn parse_gid(s: Seq<char>) -> Result<Option<u64>, ParseIntError> {
    if s.len() == 0 {
        Ok(None)
    } else {
        match parse_dec(s, u64::MAX as nat) {
            Ok(n) => Ok(Some(n as u64)),
            Err(e) => Err(e),
        }
    }
}

impl SectorGroupView {
    /// No login occurs twice among the members.
    pub open spec fn wf(self) -> bool {
        distinct_logins(self.members)
    }

    /// The gid that the group has locally: the one set for it, else the sector's id.
    pub open spec fn effective_gid(self) -> u64 {
        match self.gid {
            Some(g) => g,
            None => self.sector.id,
        }
    }

    /// The name that the group has locally: the one set for it, else the sector's name.
    pub open spec fn effective_group(self) -> Seq<char> {
        match self.group {
            Some(g) => g,
            None => self.sector.name,
        }
    }

    /// The gid field of the sector line: empty where no gid is set.
    pub open spec fn gid_text(self) -> Seq<char> {
        match self.gid {
            Some(g) => dec(g as nat),
            None => Seq::empty(),
        }
    }

    /// The group field of the sector line: empty where no group name is set.
    pub open spec fn group_text(self) -> Seq<char> {
        match self.group {
            Some(g) => g,
            None => Seq::empty(),
        }
    }

    /// The sector line: sector, gid or nothing, group or nothing, and the members with
    /// a blank between each two, with a tab between the four.
    pub open spec fn text(self) -> Seq<char> {
        self.sector.text() + seq!['\t'] + self.gid_text() + seq!['\t'] + self.group_text()
            + seq!['\t'] + join(member_texts(self.members), ' ')
    }

    /// Reading of a sector line: four fields exactly. The sector is read first, then
    /// the fields are counted, then gid and members are read; the first step that
    /// fails gives the error.
    pub open spec fn parse(s: Seq<char>) -> Result<SectorGroupView, ParseSectorGroupError> {
        let parts = split(s, '\t');
        match SectorView::parse(parts[0]) {
            Err(e) => Err(ParseSectorGroupError::Sector(e)),
            Ok(sector) => if parts.len() != 4 {
                Err(ParseSectorGroupError::Sector(ParseSectorError::BadFormat))
            } else {
                match parse_gid(parts[1]) {
                    Err(e) => Err(ParseSectorGroupError::Gid(e)),
                    Ok(gid) => match parse_member_field(parts[3]) {
                        Err(e) => Err(ParseSectorGroupError::Member(e)),
                        Ok(list) => Ok(
                            SectorGroupView {
                                sector,
                                gid,
                                group: if parts[2].len() == 0 {
                                    None
                                } else {
                                    Some(parts[2])
                                },
                                members: collected(list),
                            },
                        ),
                    },
                }
            },
        }
    }

    /// A group as the sector line can carry it: the separators of the line occur in no
    /// field, a group name that is set is not empty, and no login occurs twice.
    pub open spec fn wire_ok(self) -> bool {
        &&& !has_char(self.sector.name, ':')
        &&& !has_char(self.sector.name, '\t')
        &&& match self.group {
            Some(g) => g.len() > 0 && !has_char(g, '\t'),
            None => true,
        }
        &&& distinct_logins(self.members)
        &&& forall|i: int| 0 <= i < self.members.len() ==> login_ok(#[trigger] self.members[i].login)
    }

    /// A group as a list of sector lines can carry it: as the sector line can, and
    /// with no line feed in any field.
    pub open spec fn line_ok(self) -> bool {
        &&& self.wire_ok()
        &&& !has_char(self.sector.name, '\n')
        &&& !has_char(self.group_text(), '\n')
        &&& forall|i: int|
            0 <= i < self.members.len() ==> !has_char(#[trigger] self.members[i].login, '\n')
    }

    /// The sector line holds a character that is neither a digit nor one of `:`, `T`,
    /// `R`, tab and blank only where one of its fields does.
    pub proof fn lemma_text_has_no(self, c: char)
        requires
            !crate::text::is_digit(c),
            c != ':',
            c != 'T',
            c != 'R',
            c != '\t',
            c != ' ',
            !has_char(self.sector.name, c),
            !has_char(self.group_text(), c),
            forall|i: int| 0 <= i < self.members.len() ==> !has_char(#[trigger] self.members[i].login, c),
        ensures
            !has_char(self.text(), c),
    {
        let mt = join(member_texts(self.members), ' ');
        self.lemma_members_text_has_no(c);
        self.sector.lemma_text_has(c);
        if self.gid is Some {
            lemma_dec_has_no_char(self.gid.unwrap() as nat, c);
        } else {
            assert(!has_char(self.gid_text(), c));
        }
        lemma_has_char_one('\t', c);
        let a = self.sector.text() + seq!['\t'];
        lemma_has_char_concat(self.sector.text(), seq!['\t'], c);
        lemma_has_char_concat(a, self.gid_text(), c);
        lemma_has_char_concat(a + self.gid_text(), seq!['\t'], c);
        lemma_has_char_concat(a + self.gid_text() + seq!['\t'], self.group_text(), c);
        lemma_has_char_concat(a + self.gid_text() + seq!['\t'] + self.group_text(), seq!['\t'], c);
        lemma_has_char_concat(
            a + self.gid_text() + seq!['\t'] + self.group_text() + seq!['\t'],
            mt,
            c,
        );
    }

    /// The members' field holds a character that is neither a digit, `:` nor blank
    /// where a login does.
    pub proof fn lemma_members_text_has_no(self, c: char)
        requires
            !crate::text::is_digit(c),
            c != ':',
            c != ' ',
            forall|i: int| 0 <= i < self.members.len() ==> !has_char(#[trigger] self.members[i].login, c),
        ensures
            !has_char(join(member_texts(self.members), ' '), c),
    {
        let texts = member_texts(self.members);
        assert forall|i: int| 0 <= i < texts.len() implies !has_char(#[trigger] texts[i], c) by {
            self.members[i].lemma_text_has(c);
            assert(!has_char(self.members[i].login, c));
        }
        lemma_join_has_no(texts, ' ', c);
    }

    /// A group is read back from its sector line as it was, where the line can carry it.
    pub proof fn lemma_round_trip(self)
        requires
            self.wire_ok(),
        ensures
            Self::parse(self.text()) == Ok::<SectorGroupView, ParseSectorGroupError>(self),
    {
        let texts = member_texts(self.members);
        let mt = join(texts, ' ');
        let parts = seq![self.sector.text(), self.gid_text(), self.group_text(), mt];
        assert(join(parts, '\t') =~= self.text()) by {
            let p1 = parts.drop_first();
            let p2 = p1.drop_first();
            let p3 = p2.drop_first();
            assert(p1 =~= seq![self.gid_text(), self.group_text(), mt]);
            assert(p2 =~= seq![self.group_text(), mt]);
            assert(p3 =~= seq![mt]);
            assert(join(p3, '\t') == mt);
            assert(join(p2, '\t') == self.group_text() + seq!['\t'] + mt);
            assert(join(p1, '\t') == self.gid_text() + seq!['\t'] + join(p2, '\t'));
        }
        assert forall|i: int| 0 <= i < parts.len() implies !has_char(#[trigger] parts[i], '\t') by {
            self.sector.lemma_text_has('\t');
            if self.gid is Some {
                lemma_dec_has_no_char(self.gid.unwrap() as nat, '\t');
            }
            assert forall|k: int| 0 <= k < self.members.len() implies !has_char(
                #[trigger] self.members[k].login,
                '\t',
            ) by {
                assert(login_ok(self.members[k].login));
            }
            self.lemma_members_text_has_no('\t');
        }
        lemma_split_join(parts, '\t');
        self.sector.lemma_round_trip();
        if self.gid is Some {
            lemma_dec_digits(self.gid.unwrap() as nat);
            lemma_parse_dec_of_dec(self.gid.unwrap() as nat, u64::MAX as nat);
        }
        assert forall|i: int| 0 <= i < texts.len() implies !has_char(#[trigger] texts[i], ' ') by {
            self.members[i].lemma_text_has(' ');
            assert(login_ok(self.members[i].login));
        }
        if texts.len() > 0 {
            lemma_split_join(texts, ' ');
            lemma_dec_digits(self.members[0].id as nat);
            assert(texts[0].len() > 0);
            assert(mt.len() > 0);
        } else {
            assert(mt.len() == 0);
            assert(self.members =~= Seq::empty());
        }
        assert forall|i: int| 0 <= i < self.members.len() implies !has_char(
            #[trigger] self.members[i].login,
            ':',
        ) by {
            assert(login_ok(self.members[i].login));
        }
        lemma_parse_member_texts(self.members);
        lemma_collected_of_distinct(self.members);
        let r = Self::parse(self.text());
        assert(r is Ok);
        assert(r.unwrap().group == self.group);
    }
}

/// A copy of the members.
pub fn clone_members(ms: &Vec<Member>) -> (r: Vec<Member>)
    ensures
        r@ == ms@,
{
    let mut r: Vec<Member> = Vec::new();
    let mut i: usize = 0;
    while i < ms.len()
        invariant
            i <= ms.len(),
            r@ == ms@.take(i as int),
        decreases ms.len() - i,
    {
        r.push(ms[i].clone());
        assert(r@ =~= ms@.take(i + 1));
        i += 1;
    }
    assert(ms@.take(ms.len() as int) =~= ms@);
    r
}

/// The texts of the members with a blank between each two.
fn members_to_string(ms: &Vec<Member>) -> (r: String)
    ensures
        r@ == join(member_texts(member_views(ms@)), ' '),
{
    let ghost texts = member_texts(member_views(ms@));
    let mut r = String::new();
    let mut i: usize = 0;
    assert(texts.take(0) =~= Seq::empty());
    while i < ms.len()
        invariant
            i <= ms.len(),
            texts == member_texts(member_views(ms@)),
            r@ == join(texts.take(i as int), ' '),
        decreases ms.len() - i,
    {
        let t = ms[i].to_string();
        assert(t@ == texts[i as int]);
        proof {
            reveal_strlit(" ");
            assert(texts.take(i + 1) =~= texts.take(i as int).push(texts[i as int]));
            if i > 0 {
                lemma_join_push(texts.take(i as int), texts[i as int], ' ');
            } else {
                assert(texts.take(1) =~= seq![texts[0]]);
            }
        }
        if i > 0 {
            r.append(" ");
            assert(r@ =~= join(texts.take(i as int), ' ') + seq![' ']);
        }
        r.append(t.as_str());
        assert(r@ =~= join(texts.take(i + 1), ' '));
        i += 1;
    }
    assert(texts.take(ms.len() as int) =~= texts);
    r
}

impl Clone for SectorGroup {
    fn clone(&self) -> (r: Self)
        ensures
            r@ == self@,
    {
        let group = match &self.group {
            Some(g) => Some(g.clone()),
            None => None,
        };
        let members = clone_members(&self.members);
        let r = SectorGroup { sector: self.sector.clone(), gid: self.gid, group, members };
        assert(r.members@ =~= self.members@);
        r
    }
}

impl SectorGroup {
    /// The gid that the group has locally.
    pub fn get_gid(&self) -> (r: u64)
        ensures
            r == self@.effective_gid(),
    {
        match self.gid {
            Some(g) => g,
            None => self.sector.id,
        }
    }

    /// The name that the group has locally.
    pub fn get_group(&self) -> (r: String)
        ensures
            r@ == self@.effective_group(),
    {
        match &self.group {
            Some(g) => g.clone(),
            None => self.sector.name.clone(),
        }
    }

    /// The sector line of the group.
    pub fn to_string(&self) -> (r: String)
        ensures
            r@ == self@.text(),
    {
        proof {
            reveal_strlit("\t");
        }
        let mut r = self.sector.to_string();
        r.append("\t");
        match self.gid {
            Some(g) => {
                let t = u64_to_string(g);
                r.append(t.as_str());
            },
            None => {},
        }
        r.append("\t");
        match &self.group {
            Some(g) => {
                r.append(g.as_str());
            },
            None => {},
        }
        r.append("\t");
        let ms = members_to_string(&self.members);
        r.append(ms.as_str());
        assert(r@ =~= self@.text());
        r
    }

    /// Reads a sector line.
    pub fn from_str(s: &str) -> (r: Result<SectorGroup, ParseSectorGroupError>)
        ensures
            match r {
                Ok(g) => SectorGroupView::parse(s@) == Ok::<SectorGroupView, ParseSectorGroupError>(
                    g@,
                ) && g@.wf(),
                Err(e) => SectorGroupView::parse(s@) == Err::<
                    SectorGroupView,
                    ParseSectorGroupError,
                >(e),
            },
    {
        let parts = split_str(s, '\t');
        proof {
            lemma_split_shape(s@, '\t');
        }
        assert(parts[0]@ == split(s@, '\t')[0]);
        let sector = match Sector::from_str(parts[0].as_str()) {
            Ok(v) => v,
            Err(e) => {
                return Err(ParseSectorGroupError::Sector(e));
            },
        };
        if parts.len() != 4 {
            return Err(ParseSectorGroupError::Sector(ParseSectorError::BadFormat));
        }
        assert(parts[1]@ == split(s@, '\t')[1]);
        assert(parts[2]@ == split(s@, '\t')[2]);
        assert(parts[3]@ == split(s@, '\t')[3]);
        let gid: Option<u64> = if parts[1].as_str().is_empty() {
            None
        } else {
            match parse_u64(parts[1].as_str()) {
                Ok(g) => Some(g),
                Err(e) => {
                    return Err(ParseSectorGroupError::Gid(e));
                },
            }
        };
        let group: Option<String> = if parts[2].as_str().is_empty() {
            None
        } else {
            Some(parts[2].clone())
        };
        let list = match read_members(parts[3].as_str()) {
            Ok(list) => list,
            Err(e) => {
                return Err(ParseSectorGroupError::Member(e));
            },
        };
        let members = collect_members(list);
        Ok(SectorGroup { sector, gid, group, members })
    }
}

/// Reads the members' field of a sector line.
fn read_members(field: &str) -> (r: Result<Vec<Member>, ParseMemberError>)
    ensures
        match r {
            Ok(list) => parse_member_field(field@) == Ok::<Seq<MemberView>, ParseMemberError>(
                member_views(list@),
            ),
            Err(e) => parse_member_field(field@) == Err::<Seq<MemberView>, ParseMemberError>(e),
        },
{
    let mut list: Vec<Member> = Vec::new();
    assert(member_views(list@) =~= Seq::empty());
    if field.is_empty() {
        return Ok(list);
    }
    let items = split_str(field, ' ');
    let ghost texts = split(field@, ' ');
    let mut i: usize = 0;
    assert(texts.take(0) =~= Seq::empty());
    while i < items.len()
        invariant
            i <= items.len(),
            field@.len() > 0,
            texts == split(field@, ' '),
            views(items@) == texts,
            parse_members(texts.take(i as int)) == Ok::<Seq<MemberView>, ParseMemberError>(
                member_views(list@),
            ),
        decreases items.len() - i,
    {
        assert(items[i as int]@ == texts[i as int]);
        assert(texts.take(i + 1).drop_last() =~= texts.take(i as int));
        let ghost before = member_views(list@);
        match Member::from_str(items[i].as_str()) {
            Ok(m) => {
                let ghost mv = m@;
                list.push(m);
                assert(member_views(list@) =~= before.push(mv));
            },
            Err(e) => {
                proof {
                    lemma_parse_members_fails(texts, i as int);
                }
                return Err(e);
            },
        }
        i += 1;
    }
    assert(texts.take(items.len() as int) =~= texts);
    Ok(list)
}

/// Where the items before `k` denote members and the one at `k` does not, the whole
/// list fails with the error of that one.
pub proof fn lemma_parse_members_fails(items: Seq<Seq<char>>, k: int)
    requires
        0 <= k < items.len(),
        parse_members(items.take(k)) is Ok,
        MemberView::parse(items[k]) is Err,
    ensures
        parse_members(items) == Err::<Seq<MemberView>, ParseMemberError>(
            MemberView::parse(items[k])->Err_0,
        ),
    decreases items.len(),
{
    if k == items.len() - 1 {
        assert(items.drop_last() =~= items.take(k));
    } else {
        let front = items.drop_last();
        assert(front.take(k) =~= items.take(k));
        lemma_parse_members_fails(front, k);
    }
}

/// A team as the remote service lists it.
#[derive(Debug)]
pub struct Team {
    pub id: u64,
    pub name: String,
}

impl Clone for Team {
    fn clone(&self) -> (r: Self)
        ensures
            r == *self,
    {
        Team { id: self.id, name: self.name.clone() }
    }
}

/// A repository as the remote service lists it.
#[derive(Debug)]
pub struct Repo {
    pub id: u64,
    pub name: String,
}

impl Clone for Repo {
    fn clone(&self) -> (r: Self)
        ensures
            r == *self,
    {
        Repo { id: self.id, name: self.name.clone() }
    }
}

impl From<Team> for Sector {
    fn from(team: Team) -> (r: Sector) {
        Sector { id: team.id, name: team.name, sector_type: SectorType::Team }
    }
}

impl FromSpecImpl<Team> for Sector {
    open spec fn obeys_from_spec() -> bool {
        true
    }

    open spec fn from_spec(team: Team) -> Sector {
        Sector { id: team.id, name: team.name, sector_type: SectorType::Team }
    }
}

impl From<Repo> for Sector {
    fn from(repo: Repo) -> (r: Sector) {
        Sector { id: repo.id, name: repo.name, sector_type: SectorType::Repo }
    }
}

impl FromSpecImpl<Repo> for Sector {
    open spec fn obeys_from_spec() -> bool {
        true
    }

    open spec fn from_spec(repo: Repo) -> Sector {
        Sector { id: repo.id, name: repo.name, sector_type: SectorType::Repo }
    }
}

/// A team that the administrator wants shown as a group: its name on the remote
/// service, and the gid and group name to show it under, where they are set.
#[derive(Debug)]
pub struct TeamConfig {
    pub name: String,
    pub gid: Option<u64>,
    pub group: Option<String>,
}

/// A repository that the administrator wants shown as a group.
#[derive(Debug)]
pub struct RepoConfig {
    pub name: String,
    pub gid: Option<u64>,
    pub group: Option<String>,
}

/// What the administrator has set.
#[derive(Debug)]
pub struct Config {
    pub token: String,
    pub org: String,
    pub team: Vec<TeamConfig>,
    pub repo: Vec<RepoConfig>,
    pub endpoint: String,
    pub home: String,
    pub sh: String,
    pub cache_duration: u64,
    pub cert_path: String,
    pub user_conf_path: String,
    pub socket_path: String,
    pub socket_dir: String,
    pub proxy_url: Option<String>,
}

/// What a user has set for the own account.
#[derive(Debug)]
pub struct UserConfig {
    pub sh: Option<String>,
    pub pass: Option<String>,
}

/// A public key of a user as the remote service lists it.
#[derive(Debug)]
pub struct PublicKey {
    pub id: u64,
    pub key: String,
}

/// The counters of the remote service's rate limit.
#[derive(Debug, Clone, Copy, PartialEq, Eq, Structural)]
pub struct Rate {
    pub limit: usize,
    pub remaining: usize,
    pub reset: usize,
}

/// The answer of the remote service to the question for its rate limit.
#[derive(Debug, Clone, Copy, PartialEq, Eq, Structural)]
pub struct RateLimit {
    pub rate: Rate,
}

/// No team is declared unless the file declares one.
pub fn default_team() -> (r: Vec<TeamConfig>)
    ensures
        r@.len() == 0,
{
    Vec::new()
}

/// No repository is declared unless the file declares one.
pub fn default_repo() -> (r: Vec<RepoConfig>)
    ensures
        r@.len() == 0,
{
    Vec::new()
}

/// The base address of the remote service.
pub fn default_endpoint() -> (r: String)
    ensures
        r@ == "https://api.github.com"@,
{
    String::from_str("https://api.github.com")
}

/// The template of the home directories.
pub fn default_home() -> (r: String)
    ensures
        r@ == "/home/{}"@,
{
    String::from_str("/home/{}")
}

/// The login shell.
pub fn default_sh() -> (r: String)
    ensures
        r@ == "/bin/bash"@,
{
    String::from_str("/bin/bash")
}

/// The seconds for which a cache entry is fresh.
pub fn default_cache_duration() -> (r: u64)
    ensures
        r == 3600,
{
    3600
}

/// The file of the trusted certificates.
pub fn default_cert_path() -> (r: String)
    ensures
        r@ == "/etc/ssl/certs/ca-certificates.crt"@,
{
    String::from_str("/etc/ssl/certs/ca-certificates.crt")
}

/// The path of a user's own settings, as seen from the home directory.
pub fn default_user_conf_path() -> (r: String)
    ensures
        r@ == ".config/sectora.toml"@,
{
    String::from_str(".config/sectora.toml")
}

/// The daemon's socket, in the directory for temporary files.
pub fn default_socket_path(temp_dir: &str) -> (r: String)
    ensures
        r@ == joined_path(temp_dir@, "sectorad"@),
{
    join_path(temp_dir, "sectorad")
}

/// The directory of the clients' sockets, in the directory for temporary files.
pub fn default_socket_dir(temp_dir: &str) -> (r: String)
    ensures
        r@ == joined_path(temp_dir@, "sectora"@),
{
    join_path(temp_dir, "sectora")
}

impl Config {
    /// The settings with every default in its place: only the token and the
    /// organization have none.
    pub fn with_defaults(token: String, org: String, temp_dir: &str) -> (r: Config)
        ensures
            r.token == token,
            r.org == org,
            r.team@.len() == 0,
            r.repo@.len() == 0,
            r.endpoint@ == "https://api.github.com"@,
            r.home@ == "/home/{}"@,
            r.sh@ == "/bin/bash"@,
            r.cache_duration == 3600,
            r.cert_path@ == "/etc/ssl/certs/ca-certificates.crt"@,
            r.user_conf_path@ == ".config/sectora.toml"@,
            r.socket_path@ == joined_path(temp_dir@, "sectorad"@),
            r.socket_dir@ == joined_path(temp_dir@, "sectora"@),
            r.proxy_url is None,
    {
        Config {
            token,
            org,
            team: default_team(),
            repo: default_repo(),
            endpoint: default_endpoint(),
            home: default_home(),
            sh: default_sh(),
            cache_duration: default_cache_duration(),
            cert_path: default_cert_path(),
            user_conf_path: default_user_conf_path(),
            socket_path: default_socket_path(temp_dir),
            socket_dir: default_socket_dir(temp_dir),
            proxy_url: None,
        }
    }
}

/// The path of the administrator's configuration file: the one that was set from
/// outside, else `/etc/sectora.conf`.
pub fn conf_path(overridden: Option<String>) -> (r: String)
    ensures
        r@ == match overridden {
            Some(p) => p@,
            None => "/etc/sectora.conf"@,
        },
{
    match overridden {
        Some(p) => p,
        None => String::from_str("/etc/sectora.conf"),
    }
}

/// What the configuration file holds, field by field: nothing for a field that it
/// does not set.
#[derive(Debug)]
pub struct RawConfig {
    pub token: Option<String>,
    pub org: Option<String>,
    pub team: Option<Vec<TeamConfig>>,
    pub repo: Option<Vec<RepoConfig>>,
    pub endpoint: Option<String>,
    pub home: Option<String>,
    pub sh: Option<String>,
    pub cache_duration: Option<u64>,
    pub cert_path: Option<String>,
    pub user_conf_path: Option<String>,
    pub socket_path: Option<String>,
    pub socket_dir: Option<String>,
    pub proxy_url: Option<String>,
}

/// The text that is set, else the default.
pub open spec fn text_or(set: Option<String>, default: Seq<char>) -> Seq<char> {
    match set {
        Some(s) => s@,
        None => default,
    }
}

fn or_text(set: Option<String>, default: String) -> (r: String)
    ensures
        r@ == text_or(set, default@),
{
    match set {
        Some(s) => s,
        None => default,
    }
}

impl Config {
    /// The settings that a configuration file comes to: every field that the file
    /// does not set has its default, but for the token and the organization, without
    /// which the file cannot be used.
    pub fn resolve(raw: RawConfig, temp_dir: &str) -> (r: Result<Config, ConfigError>)
        ensures
            match r {
                Err(e) => e == if raw.token is None {
                    ConfigError::MissingToken
                } else {
                    ConfigError::MissingOrg
                } && (raw.token is None || raw.org is None),
                Ok(c) => {
                    &&& raw.token == Some(c.token)
                    &&& raw.org == Some(c.org)
                    &&& c.team@ == match raw.team {
                        Some(t) => t@,
                        None => Seq::empty(),
                    }
                    &&& c.repo@ == match raw.repo {
                        Some(t) => t@,
                        None => Seq::empty(),
                    }
                    &&& c.endpoint@ == text_or(raw.endpoint, "https://api.github.com"@)
                    &&& c.home@ == text_or(raw.home, "/home/{}"@)
                    &&& c.sh@ == text_or(raw.sh, "/bin/bash"@)
                    &&& c.cache_duration == match raw.cache_duration {
                        Some(d) => d,
                        None => 3600,
                    }
                    &&& c.cert_path@ == text_or(
                        raw.cert_path,
                        "/etc/ssl/certs/ca-certificates.crt"@,
                    )
                    &&& c.user_conf_path@ == text_or(raw.user_conf_path, ".config/sectora.toml"@)
                    &&& c.socket_path@ == text_or(
                        raw.socket_path,
                        joined_path(temp_dir@, "sectorad"@),
                    )
                    &&& c.socket_dir@ == text_or(raw.socket_dir, joined_path(temp_dir@, "sectora"@))
                    &&& c.proxy_url == raw.proxy_url
                },
            },
    {
        let token = match raw.token {
            Some(t) => t,
            None => {
                return Err(ConfigError::MissingToken);
            },
        };
        let org = match raw.org {
            Some(o) => o,
            None => {
                return Err(ConfigError::MissingOrg);
            },
        };
        Ok(
            Config {
                token,
                org,
                team: match raw.team {
                    Some(t) => t,
                    None => default_team(),
                },
                repo: match raw.repo {
                    Some(t) => t,
                    None => default_repo(),
                },
                endpoint: or_text(raw.endpoint, default_endpoint()),
                home: or_text(raw.home, default_home()),
                sh: or_text(raw.sh, default_sh()),
                cache_duration: match raw.cache_duration {
                    Some(d) => d,
                    None => default_cache_duration(),
                },
                cert_path: or_text(raw.cert_path, default_cert_path()),
                user_conf_path: or_text(raw.user_conf_path, default_user_conf_path()),
                socket_path: or_text(raw.socket_path, default_socket_path(temp_dir)),
                socket_dir: or_text(raw.socket_dir, default_socket_dir(temp_dir)),
                proxy_url: raw.proxy_url,
            },
        )
    }
}

} // verus!

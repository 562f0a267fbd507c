use vstd::prelude::*;
use crate::error::ParseMessageError;
use crate::message::{
    assemble, ClientMessage, ClientMessageView, DaemonMessage, DaemonMessageView, divide,
    DividedMessage, DividedMessageView, frame_views, lemma_divide,
};
use crate::text::{dec, u64_to_string, views};

verus! {

/// The most bytes that one datagram carries.
pub const DATAGRAM_SIZE: usize = 4096;

/// The most bytes of payload in one frame: what the continuation flag and its colon
/// leave of a datagram.
pub const PIECE_SIZE: usize = 4094;

/// The permissions of the directory of the clients' sockets: any user's process
/// binds its socket there.
pub const SOCKET_DIR_MODE: u32 = 0o777;

/// The permissions of the daemon's socket: any user's process sends to it.
pub const SOCKET_MODE: u32 = 0o666;

/// The seconds that a client waits for an answer.
pub const READ_TIMEOUT_SECS: u64 = 5;

/// The path of the socket that the process `pid` binds: `<socket_dir>/<pid>`.
pub fn socket_path(socket_dir: &str, pid: u32) -> (r: String)
    ensures
        r@ == socket_dir@ + seq!['/'] + dec(pid as nat),
{
    proof {
        reveal_strlit("/");
    }
    let d = u64_to_string(pid as u64);
    let r = String::from_str(socket_dir).concat("/").concat(d.as_str());
    assert(r@ =~= socket_dir@ + seq!['/'] + dec(pid as nat));
    r
}

/// The texts of the frames, one each.
pub open spec fn frame_texts(frames: Seq<DividedMessageView>) -> Seq<Seq<char>> {
    Seq::new(frames.len(), |i: int| frames[i].text())
}

/// The datagrams that carry a reply, in the order in which they are sent: the first
/// at once, each further one after the client has asked for it with `c:cont`.
pub fn frames_of(reply: &DaemonMessage, size: usize) -> (r: Vec<String>)
    ensures
        views(r@) == frame_texts(divide(reply@.text(), size as nat)),
{
    let text = reply.to_string();
    let frames = DividedMessage::new(text.as_str(), size);
    let ghost fs = frame_views(frames@);
    let mut out: Vec<String> = Vec::new();
    let mut i: usize = 0;
    assert(views(out@) =~= frame_texts(fs).take(0));
    while i < frames.len()
        invariant
            i <= frames.len(),
            fs == frame_views(frames@),
            views(out@) == frame_texts(fs).take(i as int),
        decreases frames.len() - i,
    {
        let ghost before = views(out@);
        let t = frames[i].to_string();
        assert(t@ == frame_texts(fs)[i as int]);
        out.push(t);
        assert(views(out@) =~= before.push(frame_texts(fs)[i as int]));
        assert(frame_texts(fs).take(i + 1) =~= frame_texts(fs).take(i as int).push(
            frame_texts(fs)[i as int],
        ));
        i += 1;
    }
    assert(frame_texts(fs).take(frames.len() as int) =~= frame_texts(fs));
    out
}

/// A reply arrives whole: the frames that it is sent in are each read as they were
/// written, and what they carry, put together in order, is read as the reply. Only
/// the last frame says that nothing follows.
pub proof fn lemma_transfer(reply: DaemonMessageView, size: nat)
    requires
        reply.wire_ok(),
    ensures
        forall|i: int|
            0 <= i < divide(reply.text(), size).len() ==> DividedMessageView::parse(
                #[trigger] divide(reply.text(), size)[i].text(),
            ) == Ok::<DividedMessageView, ParseMessageError>(divide(reply.text(), size)[i]),
        forall|i: int|
            0 <= i < divide(reply.text(), size).len() ==> (#[trigger] divide(
                reply.text(),
                size,
            )[i]).cont == (i < divide(reply.text(), size).len() - 1),
        DaemonMessageView::parse(assemble(divide(reply.text(), size))) == Ok::<
            DaemonMessageView,
            ParseMessageError,
        >(reply),
{
    let fs = divide(reply.text(), size);
    lemma_divide(reply.text(), size);
    reply.lemma_round_trip();
    assert forall|i: int| 0 <= i < fs.len() implies DividedMessageView::parse(
        #[trigger] fs[i].text(),
    ) == Ok::<DividedMessageView, ParseMessageError>(fs[i]) by {
        fs[i].lemma_round_trip();
    }
}

/// What the client does after a datagram.
#[derive(Debug)]
pub enum Progress {
    /// More follows: ask for it with `c:cont` and receive again.
    More,
    /// The exchange is over, with the reply or with the reason why there is none.
    Done(Result<DaemonMessage, ParseMessageError>),
}

/// The payload of a reply as far as it has arrived, and whether its last frame
/// has.
pub struct Assembly {
    payload: String,
    complete: bool,
}

/// What the payload reads as, in the shape of the result of an exchange.
pub open spec fn reads_as(payload: Seq<char>, r: Result<DaemonMessage, ParseMessageError>) -> bool {
    match r {
        Ok(m) => DaemonMessageView::parse(payload) == Ok::<DaemonMessageView, ParseMessageError>(
            m@,
        ),
        Err(e) => DaemonMessageView::parse(payload) == Err::<DaemonMessageView, ParseMessageError>(
            e,
        ),
    }
}

impl Assembly {
    /// What has arrived.
    pub closed spec fn payload(&self) -> Seq<char> {
        self.payload@
    }

    /// Whether the last frame has arrived.
    pub closed spec fn complete(&self) -> bool {
        self.complete
    }

    /// An exchange of which nothing has arrived yet.
    pub fn new() -> (r: Assembly)
        ensures
            r.payload() == Seq::<char>::empty(),
            !r.complete(),
    {
        Assembly { payload: String::new(), complete: false }
    }

    /// Takes the next datagram in. One that is no frame ends the exchange with its
    /// error; a frame adds its piece, and the last frame ends the exchange with what
    /// the payload reads as. Once the last frame has arrived nothing is taken in any
    /// more, and the answer stays the same.
    pub fn accept(&mut self, datagram: &str) -> (r: Progress)
        ensures
            if old(self).complete() {
                &&& final(self).payload() == old(self).payload()
                &&& final(self).complete()
                &&& r matches Progress::Done(read)
                &&& reads_as(final(self).payload(), read)
            } else {
                match DividedMessageView::parse(datagram@) {
                    Err(e) => {
                        &&& final(self).payload() == old(self).payload()
                        &&& !final(self).complete()
                        &&& r == Progress::Done(Err(e))
                    },
                    Ok(frame) => {
                        &&& final(self).payload() == old(self).payload() + frame.message
                        &&& final(self).complete() == !frame.cont
                        &&& if frame.cont {
                            r is More
                        } else {
                            r matches Progress::Done(read) && reads_as(final(self).payload(), read)
                        }
                    },
                }
            },
    {
        if self.complete {
            return Progress::Done(DaemonMessage::from_str(self.payload.as_str()));
        }
        match DividedMessage::from_str(datagram) {
            Err(e) => Progress::Done(Err(e)),
            Ok(frame) => {
                self.payload.append(frame.message.as_str());
                if frame.cont {
                    Progress::More
                } else {
                    self.complete = true;
                    Progress::Done(DaemonMessage::from_str(self.payload.as_str()))
                }
            },
        }
    }

    /// Ends the exchange where nothing more arrives. Without the last frame there
    /// is no reply, whatever the pieces that did arrive read as: the caller has to
    /// try again.
    pub fn give_up(&self) -> (r: Result<DaemonMessage, ParseMessageError>)
        ensures
            if self.complete() {
                reads_as(self.payload(), r)
            } else {
                r == Err::<DaemonMessage, ParseMessageError>(
                    ParseMessageError::ParseDaemonMessageError,
                )
            },
    {
        if self.complete {
            DaemonMessage::from_str(self.payload.as_str())
        } else {
            Err(ParseMessageError::ParseDaemonMessageError)
        }
    }
}

/// A reply on its way to a client: the datagrams that carry it, and how many of
/// them are sent.
pub struct Sending {
    frames: Vec<String>,
    sent: usize,
}

/// What a `Sending` stands for in contracts.
pub struct SendingView {
    pub frames: Seq<Seq<char>>,
    pub sent: int,
}

impl View for Sending {
    type V = SendingView;

    closed spec fn view(&self) -> SendingView {
        SendingView { frames: views(self.frames@), sent: self.sent as int }
    }
}

impl Sending {
    /// A reply of which nothing is sent yet.
    pub fn new(reply: &DaemonMessage, size: usize) -> (r: Sending)
        ensures
            r@.frames == frame_texts(divide(reply@.text(), size as nat)),
            r@.sent == 0,
    {
        Sending { frames: frames_of(reply, size), sent: 0 }
    }

    /// Whether every datagram is sent.
    pub fn done(&self) -> (r: bool)
        ensures
            r == (self@.sent >= self@.frames.len()),
    {
        self.sent >= self.frames.len()
    }

    /// The datagram to send first; nothing where it is sent already.
    pub fn first(&mut self) -> (r: Option<String>)
        ensures
            final(self)@.frames == old(self)@.frames,
            match r {
                Some(frame) => old(self)@.sent == 0 && old(self)@.frames.len() > 0 && frame@ == old(
                    self,
                )@.frames[0] && final(self)@.sent == 1,
                None => (old(self)@.sent != 0 || old(self)@.frames.len() == 0) && final(self)@
                    == old(self)@,
            },
    {
        if self.sent == 0 && self.frames.len() > 0 {
            self.sent = 1;
            assert(views(self.frames@)[0] == self.frames@[0]@);
            Some(self.frames[0].clone())
        } else {
            None
        }
    }

    /// What to do with a datagram that arrives while the reply is on its way. One of
    /// another sender waits until the reply is through. The client's `c:cont`
    /// releases the next datagram where one is left after the first. Anything else
    /// of the client gives the rest of the reply up, and is a request of its own.
    pub fn next(&mut self, datagram: &str, from_peer: bool) -> (r: Turn)
        ensures
            final(self)@.frames == old(self)@.frames,
            if !from_peer {
                r is Defer && final(self)@ == old(self)@
            } else if ClientMessageView::parse(datagram@) == Ok::<
                ClientMessageView,
                ParseMessageError,
            >(ClientMessageView::Cont) && 0 < old(self)@.sent < old(self)@.frames.len() {
                &&& r matches Turn::Send(frame)
                &&& frame@ == old(self)@.frames[old(self)@.sent]
                &&& final(self)@.sent == old(self)@.sent + 1
            } else {
                &&& r is Abandon
                &&& final(self)@.sent == if old(self)@.sent == 0 {
                    0
                } else {
                    old(self)@.frames.len() as int
                }
            },
    {
        if !from_peer {
            return Turn::Defer;
        }
        let asked = match ClientMessage::from_str(datagram) {
            Ok(ClientMessage::Cont) => true,
            _ => false,
        };
        if asked && 0 < self.sent && self.sent < self.frames.len() {
            let i = self.sent;
            self.sent = i + 1;
            assert(views(self.frames@)[i as int] == self.frames@[i as int]@);
            Turn::Send(self.frames[i].clone())
        } else {
            if self.sent != 0 {
                self.sent = self.frames.len();
            }
            Turn::Abandon
        }
    }
}

/// What the daemon does with a datagram that arrives while a reply is on its way.
#[derive(Debug)]
pub enum Turn {
    /// Send this datagram to the client: it asked for it.
    Send(String),
    /// The datagram is another caller's: handle it when the reply is through, and
    /// go on waiting.
    Defer,
    /// The rest of the reply is given up; the datagram is a request of its own.
    Abandon,
}

} // verus!

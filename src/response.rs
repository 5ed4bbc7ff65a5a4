//! Response frames: the outbound actions that one inbound message causes,
//! staged against a fresh slice of history, and their resolved views.
use vstd::prelude::*;

use crate::error::{client_error_body, ClientError};
use crate::history::{History, HistoryM, history_wf};
use crate::protocol::{Body, IntoMessage, MessageM, MessageV2};

verus! {

/// The audience key that addresses every connection.
pub const ALL_AUDIENCE: &'static str = "system:all";

/// One outbound action.
pub enum YapnetResponse {
    /// Send the logged message with this number to the audience.
    Broadcast(u64, String),
    /// As `Broadcast`, but not to the connection that caused it.
    BroadcastExclusive(u64, String),
    /// Send the ephemeral message with this index to the originating connection only.
    Return(usize),
    /// Nothing.
    Empty,
}

/// The model of an action.
pub enum ResponseM {
    Broadcast(u64, Seq<char>),
    BroadcastExclusive(u64, Seq<char>),
    Return(nat),
    Empty,
}

impl View for YapnetResponse {
    type V = ResponseM;

    open spec fn view(&self) -> ResponseM {
        match self {
            YapnetResponse::Broadcast(s, c) => ResponseM::Broadcast(*s, c@),
            YapnetResponse::BroadcastExclusive(s, c) => ResponseM::BroadcastExclusive(*s, c@),
            YapnetResponse::Return(i) => ResponseM::Return(*i as nat),
            YapnetResponse::Empty => ResponseM::Empty,
        }
    }
}

impl YapnetResponse {
    pub fn duplicate(&self) -> (r: YapnetResponse)
        ensures
            r@ == self@,
    {
        match self {
            YapnetResponse::Broadcast(s, c) => YapnetResponse::Broadcast(*s, c.clone()),
            YapnetResponse::BroadcastExclusive(s, c) => YapnetResponse::BroadcastExclusive(*s, c.clone()),
            YapnetResponse::Return(i) => YapnetResponse::Return(*i),
            YapnetResponse::Empty => YapnetResponse::Empty,
        }
    }
}

/// The model of a frame.
pub struct FrameM {
    pub history: HistoryM,
    pub responses: Seq<ResponseM>,
    pub ephemerals: Seq<MessageM>,
}

/// Every action of the frame refers to a message that the frame holds.
pub open spec fn resolvable(f: FrameM, r: ResponseM) -> bool {
    match r {
        ResponseM::Broadcast(seq, _) => f.history.start <= seq < f.history.next,
        ResponseM::BroadcastExclusive(seq, _) => f.history.start <= seq < f.history.next,
        ResponseM::Return(id) => id < f.ephemerals.len(),
        ResponseM::Empty => false,
    }
}

pub open spec fn frame_wf(f: FrameM) -> bool {
    &&& history_wf(f.history)
    &&& f.ephemerals.len() <= usize::MAX
    &&& forall|i: int| 0 <= i < f.responses.len() ==> resolvable(f, #[trigger] f.responses[i])
}

/// The message an action of the frame refers to.
pub open spec fn resolve(f: FrameM, r: ResponseM) -> MessageM {
    match r {
        ResponseM::Broadcast(seq, _) => f.history.entries[seq - f.history.start]@,
        ResponseM::BroadcastExclusive(seq, _) => f.history.entries[seq - f.history.start]@,
        ResponseM::Return(id) => f.ephemerals[id as int],
        ResponseM::Empty => f.ephemerals[0],
    }
}

/// An action whose ephemeral index is moved up by `k`.
pub open spec fn shift(r: ResponseM, k: nat) -> ResponseM {
    match r {
        ResponseM::Return(id) => ResponseM::Return(id + k),
        _ => r,
    }
}

/// The resolved pairs of a frame, its ephemeral indices moved up by `k`.
pub open spec fn resolve_all(f: FrameM, k: nat) -> Seq<(ResponseM, MessageM)> {
    Seq::new(f.responses.len(), |i: int| (shift(f.responses[i], k), resolve(f, f.responses[i])))
}

/// The builder of the actions that answer one inbound message.
pub struct ResponseFrame {
    history: History,
    responses: Vec<YapnetResponse>,
    ephemeral_messages: Vec<MessageV2>,
}

impl View for ResponseFrame {
    type V = FrameM;

    closed spec fn view(&self) -> FrameM {
        FrameM {
            history: self.history@,
            responses: self.responses@.map_values(|r: YapnetResponse| r@),
            ephemerals: self.ephemeral_messages@.map_values(|m: MessageV2| m@),
        }
    }
}

impl ResponseFrame {
    pub open spec fn wf(&self) -> bool {
        frame_wf(self@)
    }

    /// A frame whose logged messages continue `history`.
    pub fn new(history: &History, cap: usize) -> (r: ResponseFrame)
        requires
            history.wf(),
        ensures
            r.wf(),
            r@ == (FrameM {
                history: HistoryM { start: history@.next, next: history@.next, entries: Seq::empty() },
                responses: Seq::empty(),
                ephemerals: Seq::empty(),
            }),
    {
        let r = ResponseFrame {
            history: history.get_frame(),
            responses: Vec::with_capacity(cap),
            ephemeral_messages: Vec::new(),
        };
        assert(r@.responses =~= Seq::empty());
        assert(r@.ephemerals =~= Seq::empty());
        r
    }

    /// Logs `msg` and sends it to the audience `chat`.
    pub fn broadcast(&mut self, msg: Body, chat: String)
        requires
            old(self).wf(),
            old(self)@.history.next < u64::MAX,
        ensures
            final(self).wf(),
            final(self)@ == (FrameM {
                history: HistoryM {
                    start: old(self)@.history.start,
                    next: (old(self)@.history.next + 1) as u64,
                    entries: old(self)@.history.entries.push(
                        MessageV2 { seq: old(self)@.history.next, data: msg },
                    ),
                },
                responses: old(self)@.responses.push(
                    ResponseM::Broadcast(old(self)@.history.next, chat@),
                ),
                ephemerals: old(self)@.ephemerals,
            }),
    {
        let seq = self.history.state_message(msg);
        let ghost c = chat@;
        self.responses.push(YapnetResponse::Broadcast(seq, chat));
        assert(self@.responses =~= old(self)@.responses.push(ResponseM::Broadcast(seq, c)));
        assert(self@.ephemerals =~= old(self)@.ephemerals);
        proof { self.lemma_wf_after_push(*old(self)); }
    }

    /// Logs `msg` and sends it to the audience `chat`, except to the originator.
    pub fn broadcast_ex(&mut self, msg: Body, chat: String)
        requires
            old(self).wf(),
            old(self)@.history.next < u64::MAX,
        ensures
            final(self).wf(),
            final(self)@ == (FrameM {
                history: HistoryM {
                    start: old(self)@.history.start,
                    next: (old(self)@.history.next + 1) as u64,
                    entries: old(self)@.history.entries.push(
                        MessageV2 { seq: old(self)@.history.next, data: msg },
                    ),
                },
                responses: old(self)@.responses.push(
                    ResponseM::BroadcastExclusive(old(self)@.history.next, chat@),
                ),
                ephemerals: old(self)@.ephemerals,
            }),
    {
        let seq = self.history.state_message(msg);
        let ghost c = chat@;
        self.responses.push(YapnetResponse::BroadcastExclusive(seq, chat));
        assert(self@.responses =~= old(self)@.responses.push(ResponseM::BroadcastExclusive(seq, c)));
        assert(self@.ephemerals =~= old(self)@.ephemerals);
        proof { self.lemma_wf_after_push(*old(self)); }
    }

    /// Sends the error's body back to the originator, without logging it.
    pub fn error(&mut self, error: ClientError)
        requires
            old(self).wf(),
        ensures
            final(self).wf(),
            final(self)@ == (FrameM {
                history: old(self)@.history,
                responses: old(self)@.responses.push(ResponseM::Return(old(self)@.ephemerals.len())),
                ephemerals: old(self)@.ephemerals.push(MessageM { seq: 0, data: client_error_body(error) }),
            }),
    {
        self.ret(error.into_body());
    }

    /// Sends `msg` back to the originator, without logging it.
    pub fn ret(&mut self, msg: Body)
        requires
            old(self).wf(),
        ensures
            final(self).wf(),
            final(self)@ == (FrameM {
                history: old(self)@.history,
                responses: old(self)@.responses.push(ResponseM::Return(old(self)@.ephemerals.len())),
                ephemerals: old(self)@.ephemerals.push(MessageM { seq: 0, data: msg@ }),
            }),
    {
        let i = self.ephemeral_messages.len();
        let ghost b = msg@;
        self.ephemeral_messages.push(msg.into_message());
        self.responses.push(YapnetResponse::Return(i));
        assert(self@.responses =~= old(self)@.responses.push(ResponseM::Return(i as nat)));
        assert(self@.ephemerals =~= old(self)@.ephemerals.push(MessageM { seq: 0, data: b }));
        proof { self.lemma_wf_after_push(*old(self)); }
    }

    /// Sends each body back to the originator, in order, without logging them.
    pub fn ret_all(&mut self, recap: Vec<Body>)
        requires
            old(self).wf(),
        ensures
            final(self).wf(),
            final(self)@ == (FrameM {
                history: old(self)@.history,
                responses: old(self)@.responses + Seq::new(
                    recap@.len(),
                    |i: int| ResponseM::Return((old(self)@.ephemerals.len() + i) as nat),
                ),
                ephemerals: old(self)@.ephemerals + Seq::new(
                    recap@.len(),
                    |i: int| MessageM { seq: 0, data: recap@[i]@ },
                ),
            }),
    {
        let ghost start = *self;
        let ghost items = recap@;
        let mut rest = recap;
        let mut done: usize = 0;
        let total = rest.len();
        while rest.len() > 0
            invariant
                self.wf(),
                items.len() == total,
                done + rest@.len() == items.len(),
                rest@ == items.subrange(done as int, items.len() as int),
                self@.history == start@.history,
                self@.responses == start@.responses + Seq::new(
                    done as nat,
                    |i: int| ResponseM::Return((start@.ephemerals.len() + i) as nat),
                ),
                self@.ephemerals == start@.ephemerals + Seq::new(
                    done as nat,
                    |i: int| MessageM { seq: 0, data: items[i]@ },
                ),
            decreases rest@.len(),
        {
            let b = rest.remove(0);
            let ghost before = *self;
            self.ret(b);
            assert(self@.responses =~= start@.responses + Seq::new(
                (done + 1) as nat,
                |i: int| ResponseM::Return((start@.ephemerals.len() + i) as nat),
            ));
            assert(self@.ephemerals =~= start@.ephemerals + Seq::new(
                (done + 1) as nat,
                |i: int| MessageM { seq: 0, data: items[i]@ },
            ));
            done = done + 1;
            assert(rest@ =~= items.subrange(done as int, items.len() as int));
        }
    }

    /// True when the frame logs nothing.
    pub fn is_ephemeral(&self) -> (r: bool)
        ensures
            r == (self@.history.entries.len() == 0),
    {
        self.history.is_empty()
    }

    /// The action at `index` with the message it refers to.
    pub fn fetch_pair(&self, index: usize) -> (r: Option<(&YapnetResponse, &MessageV2)>)
        requires
            self.wf(),
        ensures
            index >= self@.responses.len() <==> r is None,
            r matches Some(p) ==> p.0@ == self@.responses[index as int] && p.1@ == resolve(
                self@,
                self@.responses[index as int],
            ),
    {
        if index >= self.responses.len() {
            return None;
        }
        let response = &self.responses[index];
        assert(resolvable(self@, self@.responses[index as int]));
        match response {
            YapnetResponse::Broadcast(seq, _) | YapnetResponse::BroadcastExclusive(seq, _) => {
                match self.history.get_message(*seq) {
                    Some(m) => Some((response, m)),
                    None => None,
                }
            },
            YapnetResponse::Return(id) => Some((response, &self.ephemeral_messages[*id])),
            YapnetResponse::Empty => None,
        }
    }

    proof fn lemma_wf_after_push(&self, before: ResponseFrame)
        requires
            before.wf(),
            history_wf(self@.history),
            self@.history.start == before@.history.start,
            self@.history.next >= before@.history.next,
            self@.ephemerals.len() >= before@.ephemerals.len(),
            self@.responses.len() == before@.responses.len() + 1,
            forall|i: int| 0 <= i < before@.responses.len() ==> self@.responses[i] == before@.responses[i],
            resolvable(self@, self@.responses.last()),
        ensures
            self.wf(),
    {
        assert(self.ephemeral_messages.len() == self.ephemeral_messages@.len());
        assert forall|i: int| 0 <= i < self@.responses.len() implies resolvable(
            self@,
            #[trigger] self@.responses[i],
        ) by {
            if i < before@.responses.len() {
                assert(resolvable(before@, before@.responses[i]));
            }
        }
    }
}


/// The answer to one inbound message: each action with the message it sends,
/// in the order the actions were queued.
pub struct ResponseView {
    responses: Vec<YapnetResponse>,
    messages: Vec<MessageV2>,
    ephemeral_count: usize,
}

/// Walks the pairs of a view in order.
pub struct ResponseViewIter<'r> {
    frame: &'r ResponseView,
    response_index: usize,
}

impl ResponseView {
    /// The actions, each with the message it sends.
    pub closed spec fn pairs(&self) -> Seq<(ResponseM, MessageM)> {
        Seq::new(
            self.responses@.len(),
            |i: int| (self.responses@[i]@, self.messages@[i]@),
        )
    }

    /// How many ephemeral messages the view holds.
    pub closed spec fn ephemerals(&self) -> nat {
        self.ephemeral_count as nat
    }

    pub closed spec fn wf(&self) -> bool {
        self.responses@.len() == self.messages@.len()
    }

    /// A view with no actions.
    pub fn new(capacity: usize) -> (r: ResponseView)
        ensures
            r.wf(),
            r.pairs() == Seq::<(ResponseM, MessageM)>::empty(),
            r.ephemerals() == 0,
    {
        let r = ResponseView {
            responses: Vec::with_capacity(capacity),
            messages: Vec::with_capacity(capacity),
            ephemeral_count: 0,
        };
        assert(r.pairs() =~= Seq::<(ResponseM, MessageM)>::empty());
        r
    }

    /// A view that only returns `msg` to the originator.
    pub fn from_message_return<T: IntoMessage>(msg: T) -> (r: ResponseView)
        ensures
            r.wf(),
            r.pairs() == seq![(ResponseM::Return(0), MessageM { seq: 0, data: msg.message_body() })],
            r.ephemerals() == 1,
    {
        let mut s = ResponseView::new(1);
        s.messages.push(msg.into_message());
        s.responses.push(YapnetResponse::Return(0));
        s.ephemeral_count = 1;
        assert(s.pairs() =~= seq![(ResponseM::Return(0), MessageM { seq: 0, data: msg.message_body() })]);
        s
    }

    /// True when no action of the view sends a logged message.
    pub fn is_ephemeral(&self) -> (r: bool)
        requires
            self.wf(),
        ensures
            r == (forall|i: int| 0 <= i < self.pairs().len() ==> (#[trigger] self.pairs()[i]).0 is Return),
    {
        let n = self.responses.len();
        let mut i: usize = 0;
        while i < n
            invariant
                self.wf(),
                n == self.pairs().len(),
                i <= n,
                forall|j: int| 0 <= j < i ==> (#[trigger] self.pairs()[j]).0 is Return,
            decreases n - i,
        {
            match &self.responses[i] {
                YapnetResponse::Return(_) => {},
                _ => {
                    assert(!(self.pairs()[i as int].0 is Return));
                    return false;
                },
            }
            i += 1;
        }
        true
    }

    /// Commits a frame: its logged messages join `history`, and its actions,
    /// resolved, follow those already in the view.
    pub fn push_frame(&mut self, frame: ResponseFrame, history: &mut History)
        requires
            old(self).wf(),
            old(history).wf(),
            frame.wf(),
            old(history)@.next == frame@.history.start,
            old(self).ephemerals() + frame@.ephemerals.len() <= usize::MAX,
        ensures
            final(self).wf(),
            final(history).wf(),
            final(history)@ == (HistoryM {
                start: old(history)@.start,
                next: frame@.history.next,
                entries: old(history)@.entries + frame@.history.entries,
            }),
            final(self).pairs() == old(self).pairs() + resolve_all(frame@, old(self).ephemerals()),
            final(self).ephemerals() == old(self).ephemerals() + frame@.ephemerals.len(),
    {
        let offset = self.ephemeral_count;
        let n = frame.responses.len();
        let ghost f = frame@;
        let ghost start = *self;
        let mut i: usize = 0;
        while i < n
            invariant
                self.wf(),
                frame.wf(),
                f == frame@,
                n == f.responses.len(),
                i <= n,
                offset == start.ephemerals(),
                self.ephemerals() == start.ephemerals(),
                offset + f.ephemerals.len() <= usize::MAX,
                self.pairs() == start.pairs() + resolve_all(f, offset as nat).take(i as int),
            decreases n - i,
        {
            let ghost before = self.pairs();
            assert(resolvable(f, f.responses[i as int]));
            let response = &frame.responses[i];
            match response {
                YapnetResponse::Broadcast(seq, _) | YapnetResponse::BroadcastExclusive(seq, _) => {
                    let m = frame.history.get_message(*seq);
                    if let Some(m) = m {
                        self.messages.push(m.duplicate());
                    }
                    self.responses.push(response.duplicate());
                },
                YapnetResponse::Return(id) => {
                    self.messages.push(frame.ephemeral_messages[*id].duplicate());
                    self.responses.push(YapnetResponse::Return(*id + offset));
                },
                YapnetResponse::Empty => {},
            }
            assert(self.pairs() =~= before.push(resolve_all(f, offset as nat)[i as int]));
            assert(resolve_all(f, offset as nat).take(i + 1) =~= resolve_all(f, offset as nat).take(
                i as int,
            ).push(resolve_all(f, offset as nat)[i as int]));
            i += 1;
        }
        assert(resolve_all(f, offset as nat).take(n as int) =~= resolve_all(f, offset as nat));
        self.ephemeral_count = offset + frame.ephemeral_messages.len();
        history.merge(frame.history);
    }

    /// The number of actions.
    pub fn len(&self) -> (r: usize)
        requires
            self.wf(),
        ensures
            r == self.pairs().len(),
    {
        self.responses.len()
    }

    /// The action at position `i` with its message.
    pub fn get(&self, i: usize) -> (r: (&YapnetResponse, &MessageV2))
        requires
            self.wf(),
            i < self.pairs().len(),
        ensures
            (r.0@, r.1@) == self.pairs()[i as int],
    {
        (&self.responses[i], &self.messages[i])
    }

    pub fn iter(&self) -> (r: ResponseViewIter<'_>)
        ensures
            r.view_of() == self,
            r.position() == 0,
    {
        ResponseViewIter::new(self)
    }
}

impl<'r> ResponseViewIter<'r> {
    pub closed spec fn view_of(&self) -> &'r ResponseView {
        self.frame
    }

    pub closed spec fn position(&self) -> int {
        self.response_index as int
    }

    pub fn new(rv: &'r ResponseView) -> (r: ResponseViewIter<'r>)
        ensures
            r.view_of() == rv,
            r.position() == 0,
    {
        ResponseViewIter { frame: rv, response_index: 0 }
    }

    /// The next pair, or `None` once all have been walked.
    pub fn next(&mut self) -> (r: Option<(&'r YapnetResponse, &'r MessageV2)>)
        requires
            old(self).view_of().wf(),
        ensures
            final(self).view_of() == old(self).view_of(),
            old(self).position() < old(self).view_of().pairs().len() ==> {
                &&& r matches Some(p) && (p.0@, p.1@) == old(self).view_of().pairs()[old(self).position()]
                &&& final(self).position() == old(self).position() + 1
            },
            old(self).position() >= old(self).view_of().pairs().len() ==> {
                &&& r is None
                &&& final(self).position() == old(self).position()
            },
    {
        if self.response_index < self.frame.responses.len() {
            let i = self.response_index;
            self.response_index = i + 1;
            Some((&self.frame.responses[i], &self.frame.messages[i]))
        } else {
            None
        }
    }
}
} // verus!

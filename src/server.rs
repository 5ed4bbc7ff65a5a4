//! The connection layer's decisions: which connection is which user, how an
//! inbound message is dispatched, and who receives each outbound action.
use vstd::prelude::*;

use crate::error::{ClientError, ServerError, client_error_body, server_error_body};
use crate::protocol::{Body, BodyM, MessageM, MessageV2, Token};
use crate::response::{ALL_AUDIENCE, ResponseM, ResponseView, YapnetResponse};
use crate::state::{
    Chat, User, YapnetState, bodies_view, broadcast_pairs, handled_outcome, has_name, has_token, index_of, login_outcome, lookup,
    may_read, return_pairs, token_holder,
};

verus! {

/// A live connection and the user it is logged in as, if any.
pub struct Connection {
    pub id: usize,
    pub username: Option<String>,
}

/// Whether connection `c` belongs to the audience `key`: every connection
/// for the global key, otherwise the logged-in readers of that chat.
pub open spec fn in_audience(chats: Seq<(String, Chat)>, key: Seq<char>, c: Connection) -> bool {
    key == ALL_AUDIENCE@ || reads_chat(chats, key, c)
}

/// Whether connection `c` is logged in as a user who may read the
/// existing chat named `chat`.
pub open spec fn reads_chat(chats: Seq<(String, Chat)>, chat: Seq<char>, c: Connection) -> bool {
    c.username matches Some(u) && has_name(chats, chat) && may_read(chats[index_of(chats, chat)].1.perms@, u@)
}

/// The connections of the logged-in readers of the chat `chat`, in table order.
pub open spec fn chat_readers(conns: Seq<Connection>, chats: Seq<(String, Chat)>, chat: Seq<char>) -> Seq<usize>
    decreases conns.len(),
{
    if conns.len() == 0 {
        Seq::empty()
    } else {
        let rest = chat_readers(conns.drop_last(), chats, chat);
        if reads_chat(chats, chat, conns.last()) {
            rest.push(conns.last().id)
        } else {
            rest
        }
    }
}

/// A name that is no chat has no readers.
pub proof fn lemma_no_chat_no_readers(conns: Seq<Connection>, chats: Seq<(String, Chat)>, chat: Seq<char>)
    requires
        !has_name(chats, chat),
    ensures
        chat_readers(conns, chats, chat).len() == 0,
    decreases conns.len(),
{
    if conns.len() > 0 {
        lemma_no_chat_no_readers(conns.drop_last(), chats, chat);
    }
}

/// Whether connection `c` receives `action`, caused by connection `origin`.
pub open spec fn receives(chats: Seq<(String, Chat)>, origin: usize, action: ResponseM, c: Connection) -> bool {
    match action {
        ResponseM::Return(_) => c.id == origin,
        ResponseM::Broadcast(_, key) => in_audience(chats, key, c),
        ResponseM::BroadcastExclusive(_, key) => in_audience(chats, key, c) && c.id != origin,
        ResponseM::Empty => false,
    }
}

/// The connections that receive `action`, in table order.
pub open spec fn recipients(conns: Seq<Connection>, chats: Seq<(String, Chat)>, origin: usize, action: ResponseM) -> Seq<usize>
    decreases conns.len(),
{
    if conns.len() == 0 {
        Seq::empty()
    } else {
        let rest = recipients(conns.drop_last(), chats, origin, action);
        if receives(chats, origin, action, conns.last()) {
            rest.push(conns.last().id)
        } else {
            rest
        }
    }
}

/// Each pair's message, addressed to each of its recipients, pair by pair.
pub open spec fn fanout(
    conns: Seq<Connection>,
    chats: Seq<(String, Chat)>,
    origin: usize,
    pairs: Seq<(ResponseM, MessageM)>,
) -> Seq<(usize, MessageM)>
    decreases pairs.len(),
{
    if pairs.len() == 0 {
        Seq::empty()
    } else {
        let p = pairs.last();
        fanout(conns, chats, origin, pairs.drop_last()) + recipients(conns, chats, origin, p.0).map_values(
            |id: usize| (id, p.1),
        )
    }
}

pub open spec fn deliveries_view(s: Seq<(usize, MessageV2)>) -> Seq<(usize, MessageM)> {
    s.map_values(|d: (usize, MessageV2)| (d.0, d.1@))
}

/// The position of the connection `id`, if it is in the table.
pub open spec fn conn_index(conns: Seq<Connection>, id: usize) -> Option<int> {
    if exists|i: int| 0 <= i < conns.len() && (#[trigger] conns[i]).id == id {
        Some(choose|i: int| 0 <= i < conns.len() && (#[trigger] conns[i]).id == id)
    } else {
        None
    }
}

/// The user that connection `id` is logged in as, if any.
pub open spec fn conn_user(conns: Seq<Connection>, id: usize) -> Option<String> {
    match conn_index(conns, id) {
        Some(i) => conns[i].username,
        None => None,
    }
}

/// Connection ids are distinct and below the next id to hand out.
pub open spec fn table_wf(conns: Seq<Connection>, next_id: usize) -> bool {
    &&& forall|i: int| 0 <= i < conns.len() ==> (#[trigger] conns[i]).id < next_id
    &&& forall|i: int, j: int| 0 <= i < j < conns.len() ==> (#[trigger] conns[i]).id != (#[trigger] conns[j]).id
}

/// `new` is `old` with connection `cid`, if present, logged in as `name`.
pub open spec fn bound(old: Seq<Connection>, new: Seq<Connection>, cid: usize, name: String) -> bool {
    match conn_index(old, cid) {
        Some(i) => new == old.update(i, Connection { id: cid, username: Some(name) }),
        None => new == old,
    }
}

/// The outcome of `Hello` with `username` from connection `cid`.
pub open spec fn hello_outcome(old: Server, new: Server, pairs: Seq<(ResponseM, MessageM)>, cid: usize, username: String) -> bool {
    let unchanged = new.state == old.state && new.connections == old.connections;
    &&& has_name(old.state.users@, username@) ==> {
        &&& pairs == return_pairs(server_error_body(ServerError::NameTaken(username)))
        &&& unchanged
    }
    &&& !has_name(old.state.users@, username@) ==> {
        ||| (pairs == return_pairs(server_error_body(ServerError::InvalidToken)) && unchanged
            && old.state.users@.len() > 0)
        ||| {
            let token = new.state.users@.last().1.uuid;
            &&& !has_token(old.state.users@, token)
            &&& new.state.users@ == old.state.users@.push((username, User { online: true, uuid: token }))
            &&& login_outcome(old.state, new.state, pairs, username@, token)
            &&& bound(old.connections@, new.connections@, cid, username)
        }
    }
}

/// The outcome of `Back` with `token` from connection `cid`.
pub open spec fn back_outcome(old: Server, new: Server, pairs: Seq<(ResponseM, MessageM)>, cid: usize, token: Token) -> bool {
    let users = old.state.users@;
    let i = token_holder(users, token);
    &&& !has_token(users, token) ==> {
        &&& pairs == return_pairs(server_error_body(ServerError::InvalidToken))
        &&& new.state == old.state
        &&& new.connections == old.connections
    }
    &&& has_token(users, token) && users[i].1.online ==> {
        &&& pairs == return_pairs(server_error_body(ServerError::AlreadyJoinedOrLeft))
        &&& new.state == old.state
        &&& new.connections == old.connections
    }
    &&& has_token(users, token) && !users[i].1.online ==> {
        &&& new.state.users@ == users.update(i, (users[i].0, User { online: true, uuid: token }))
        &&& login_outcome(old.state, new.state, pairs, users[i].0@, token)
        &&& bound(old.connections@, new.connections@, cid, users[i].0)
    }
}

/// The server's state with its table of connections.
pub struct Server {
    pub state: YapnetState,
    pub connections: Vec<Connection>,
    pub highest_id: usize,
}

impl Server {
    pub open spec fn wf(&self) -> bool {
        &&& self.state.wf()
        &&& table_wf(self.connections@, self.highest_id)
    }

    pub fn new(state: YapnetState) -> (r: Server)
        requires
            state.wf(),
        ensures
            r.wf(),
            r.state == state,
            r.connections@ == Seq::<Connection>::empty(),
            r.highest_id == 0,
    {
        Server { state, connections: Vec::new(), highest_id: 0 }
    }

    /// Registers a new connection under the next id and returns that id.
    pub fn add_client(&mut self) -> (r: usize)
        requires
            old(self).wf(),
            old(self).highest_id < usize::MAX,
        ensures
            final(self).wf(),
            r == old(self).highest_id,
            final(self).highest_id == r + 1,
            final(self).state == old(self).state,
            final(self).connections@ == old(self).connections@.push(Connection { id: r, username: None }),
    {
        let id = self.highest_id;
        self.highest_id = id + 1;
        self.connections.push(Connection { id, username: None });
        id
    }

    /// The position of connection `id` in the table.
    pub fn find_connection(&self, id: usize) -> (r: Option<usize>)
        requires
            self.wf(),
        ensures
            r is None <==> conn_index(self.connections@, id) is None,
            r matches Some(i) ==> conn_index(self.connections@, id) == Some(i as int) && self.connections@[i as int].id == id,
    {
        let n = self.connections.len();
        let mut i: usize = 0;
        while i < n
            invariant
                self.wf(),
                n == self.connections@.len(),
                i <= n,
                forall|j: int| 0 <= j < i ==> (#[trigger] self.connections@[j]).id != id,
            decreases n - i,
        {
            if self.connections[i].id == id {
                proof {
                    let k = choose|k: int| 0 <= k < self.connections@.len() && (#[trigger] self.connections@[k]).id == id;
                    if k != i {
                        if k < i {
                            assert(self.connections@[k].id != self.connections@[i as int].id);
                        } else {
                            assert(self.connections@[i as int].id != self.connections@[k].id);
                        }
                    }
                }
                return Some(i);
            }
            i += 1;
        }
        None
    }

    /// Whether connection `c` belongs to the audience `key`.
    fn in_audience_exec(&self, key: &String, c: &Connection) -> (r: bool)
        ensures
            r == in_audience(self.state.chats@, key@, *c),
    {
        let all = String::from_str(ALL_AUDIENCE);
        if *key == all {
            return true;
        }
        self.reads_chat_exec(key, c)
    }

    /// Whether connection `c` receives `action`, caused by `origin`.
    fn receives_exec(&self, origin: usize, action: &YapnetResponse, c: &Connection) -> (r: bool)
        ensures
            r == receives(self.state.chats@, origin, action@, *c),
    {
        match action {
            YapnetResponse::Return(_) => c.id == origin,
            YapnetResponse::Broadcast(_, key) => self.in_audience_exec(key, c),
            YapnetResponse::BroadcastExclusive(_, key) => self.in_audience_exec(key, c) && c.id != origin,
            YapnetResponse::Empty => false,
        }
    }

    /// Whether connection `c` is logged in as a reader of the chat `chat`.
    fn reads_chat_exec(&self, chat: &String, c: &Connection) -> (r: bool)
        ensures
            r == reads_chat(self.state.chats@, chat@, *c),
    {
        match &c.username {
            None => false,
            Some(u) => match lookup(&self.state.chats, chat) {
                None => false,
                Some(j) => self.state.chats[j].1.can_read(u),
            },
        }
    }

    /// The connections of the logged-in users who may read the chat
    /// `chatid`; none when no chat has that name.
    pub fn all_participating_clients(&self, chatid: &String) -> (r: Vec<usize>)
        ensures
            r@ == chat_readers(self.connections@, self.state.chats@, chatid@),
            !has_name(self.state.chats@, chatid@) ==> r@.len() == 0,
    {
        let ghost conns = self.connections@;
        let mut out: Vec<usize> = Vec::new();
        let n = self.connections.len();
        let mut j: usize = 0;
        while j < n
            invariant
                conns == self.connections@,
                n == conns.len(),
                j <= n,
                out@ == chat_readers(conns.take(j as int), self.state.chats@, chatid@),
            decreases n - j,
        {
            assert(conns.take(j + 1).drop_last() =~= conns.take(j as int));
            assert(conns.take(j + 1).last() == conns[j as int]);
            if self.reads_chat_exec(chatid, &self.connections[j]) {
                out.push(self.connections[j].id);
            }
            j += 1;
        }
        assert(conns.take(n as int) =~= conns);
        proof {
            if !has_name(self.state.chats@, chatid@) {
                lemma_no_chat_no_readers(conns, self.state.chats@, chatid@);
            }
        }
        out
    }

    /// The connections that receive `action`, caused by `origin`, in table order.
    pub fn recipients_of(&self, origin: usize, action: &YapnetResponse) -> (r: Vec<usize>)
        ensures
            r@ == recipients(self.connections@, self.state.chats@, origin, action@),
    {
        let ghost conns = self.connections@;
        let mut out: Vec<usize> = Vec::new();
        let n = self.connections.len();
        let mut j: usize = 0;
        while j < n
            invariant
                conns == self.connections@,
                n == conns.len(),
                j <= n,
                out@ == recipients(conns.take(j as int), self.state.chats@, origin, action@),
            decreases n - j,
        {
            assert(conns.take(j + 1).drop_last() =~= conns.take(j as int));
            assert(conns.take(j + 1).last() == conns[j as int]);
            if self.receives_exec(origin, action, &self.connections[j]) {
                out.push(self.connections[j].id);
            }
            j += 1;
        }
        assert(conns.take(n as int) =~= conns);
        out
    }

    /// Addresses each action of `view`, caused by connection `origin`, to its recipients.
    pub fn route(&self, origin: usize, view: &ResponseView) -> (r: Vec<(usize, MessageV2)>)
        requires
            view.wf(),
        ensures
            deliveries_view(r@) == fanout(self.connections@, self.state.chats@, origin, view.pairs()),
    {
        let ghost pairs = view.pairs();
        let ghost conns = self.connections@;
        let ghost chats = self.state.chats@;
        let mut out: Vec<(usize, MessageV2)> = Vec::new();
        let n = view.len();
        let mut i: usize = 0;
        while i < n
            invariant
                view.wf(),
                pairs == view.pairs(),
                conns == self.connections@,
                chats == self.state.chats@,
                n == pairs.len(),
                i <= n,
                deliveries_view(out@) == fanout(conns, chats, origin, pairs.take(i as int)),
            decreases n - i,
        {
            let (action, msg) = view.get(i);
            let ids = self.recipients_of(origin, action);
            let ghost before = deliveries_view(out@);
            let ghost p = pairs[i as int];
            let mut k: usize = 0;
            while k < ids.len()
                invariant
                    0 <= k <= ids@.len(),
                    (action@, msg@) == p,
                    ids@ == recipients(conns, chats, origin, p.0),
                    deliveries_view(out@) == before + ids@.take(k as int).map_values(|id: usize| (id, p.1)),
                decreases ids@.len() - k,
            {
                let ghost prev = out@;
                out.push((ids[k], msg.duplicate()));
                assert(deliveries_view(out@) =~= deliveries_view(prev).push((ids@[k as int], p.1)));
                assert(ids@.take(k + 1).map_values(|id: usize| (id, p.1)) =~= ids@.take(k as int).map_values(
                    |id: usize| (id, p.1),
                ).push((ids@[k as int], p.1)));
                k += 1;
            }
            assert(ids@.take(ids@.len() as int) =~= ids@);
            assert(pairs.take(i + 1).drop_last() =~= pairs.take(i as int));
            assert(pairs.take(i + 1).last() == p);
            i += 1;
        }
        assert(pairs.take(n as int) =~= pairs);
        out
    }

    /// Binds connection `cid`, if it is in the table, to `name`.
    fn bind(&mut self, cid: usize, name: String)
        requires
            old(self).wf(),
        ensures
            final(self).wf(),
            final(self).state == old(self).state,
            final(self).highest_id == old(self).highest_id,
            bound(old(self).connections@, final(self).connections@, cid, name),
    {
        if let Some(i) = self.find_connection(cid) {
            self.connections.set(i, Connection { id: cid, username: Some(name) });
            proof {
                let c = self.connections@;
                assert forall|a: int, b: int| 0 <= a < b < c.len() implies (#[trigger] c[a]).id != (#[trigger] c[b]).id by {
                    assert(old(self).connections@[a].id != old(self).connections@[b].id);
                }
                assert forall|a: int| 0 <= a < c.len() implies (#[trigger] c[a]).id < self.highest_id by {
                    assert(old(self).connections@[a].id < self.highest_id);
                }
            }
        }
    }

    /// Answers a message from connection `cid`: `Hello` registers, `Back`
    /// logs back in, and anything else needs a logged-in connection.
    pub fn handle_message(&mut self, cid: usize, m: MessageV2, injected: Vec<Body>) -> (r: ResponseView)
        requires
            old(self).wf(),
            (m.data is Hello || m.data is Back || m.data is ChatSend) ==> old(self).state.has_room(injected@.len() + 1),
        ensures
            final(self).wf(),
            r.wf(),
            final(self).highest_id == old(self).highest_id,
            m.data matches Body::Hello { username } ==> hello_outcome(*old(self), *final(self), r.pairs(), cid, username),
            m.data matches Body::Back { token } ==> back_outcome(*old(self), *final(self), r.pairs(), cid, token),
            !(m.data is Hello) && !(m.data is Back) ==> {
                &&& final(self).connections == old(self).connections
                &&& conn_user(old(self).connections@, cid) is None ==> {
                    &&& r.pairs() == return_pairs(client_error_body(ClientError::NoLogin))
                    &&& final(self).state == old(self).state
                }
                &&& conn_user(old(self).connections@, cid) matches Some(u) ==> handled_outcome(
                    old(self).state,
                    final(self).state,
                    r.pairs(),
                    u@,
                    m@.data,
                    bodies_view(injected@),
                )
            },
    {
        match m.data {
            Body::Hello { username } => match self.state.new_user(&username) {
                Ok(view) => {
                    self.bind(cid, username);
                    view
                },
                Err(e) => ResponseView::from_message_return(e),
            },
            Body::Back { token } => match self.state.reauth_user(token) {
                Ok((username, view)) => {
                    self.bind(cid, username);
                    view
                },
                Err(e) => ResponseView::from_message_return(e),
            },
            data => self.auth_handle_message(cid, MessageV2 { seq: m.seq, data }, injected),
        }
    }

    /// Passes a message on to the state if connection `cid` is logged in.
    pub fn auth_handle_message(&mut self, cid: usize, m: MessageV2, injected: Vec<Body>) -> (r: ResponseView)
        requires
            old(self).wf(),
            m.data is ChatSend ==> old(self).state.has_room(injected@.len() + 1),
            !(m.data is Hello),
            !(m.data is Back),
        ensures
            final(self).wf(),
            r.wf(),
            final(self).highest_id == old(self).highest_id,
            final(self).connections == old(self).connections,
            conn_user(old(self).connections@, cid) is None ==> {
                &&& r.pairs() == return_pairs(client_error_body(ClientError::NoLogin))
                &&& final(self).state == old(self).state
            },
            conn_user(old(self).connections@, cid) matches Some(u) ==> handled_outcome(
                old(self).state,
                final(self).state,
                r.pairs(),
                u@,
                m@.data,
                bodies_view(injected@),
            ),
    {
        let username = match self.find_connection(cid) {
            Some(i) => match &self.connections[i].username {
                Some(u) => u.clone(),
                None => return ResponseView::from_message_return(ClientError::NoLogin),
            },
            None => return ResponseView::from_message_return(ClientError::NoLogin),
        };
        self.state.handle_message(&username, m, injected)
    }

    /// Removes connection `id`; if it was logged in, its user leaves, and
    /// the deliveries that announce it are returned. With no room left in
    /// the history the user is marked offline without an announcement.
    pub fn remove_client(&mut self, id: usize) -> (r: Vec<(usize, MessageV2)>)
        requires
            old(self).wf(),
        ensures
            final(self).wf(),
            final(self).highest_id == old(self).highest_id,
            conn_index(old(self).connections@, id) is None ==> *final(self) == *old(self) && r@.len() == 0,
            conn_index(old(self).connections@, id) matches Some(i) ==> {
                let users = old(self).state.users@;
                &&& final(self).connections@ == old(self).connections@.remove(i)
                &&& old(self).connections@[i].username is None ==> final(self).state == old(self).state && r@.len() == 0
                &&& old(self).connections@[i].username matches Some(u) ==> {
                    let k = index_of(users, u@);
                    let online = has_name(users, u@) && users[k].1.online;
                    &&& !online ==> final(self).state == old(self).state && r@.len() == 0
                    &&& online ==> final(self).state.users@ == users.update(
                        k,
                        (users[k].0, User { online: false, uuid: users[k].1.uuid }),
                    ) && final(self).state.chats == old(self).state.chats
                    &&& online && !old(self).state.has_room(1) ==> {
                        &&& final(self).state.history_view() == old(self).state.history_view()
                        &&& r@.len() == 0
                    }
                    &&& online && old(self).state.has_room(1) ==> {
                        &&& deliveries_view(r@) == fanout(
                            final(self).connections@,
                            final(self).state.chats@,
                            id,
                            broadcast_pairs(
                                old(self).state.history_view().next,
                                ALL_AUDIENCE@,
                                seq![BodyM::PlayerLeft { username: u@ }],
                            ),
                        )
                    }
                }
            },
    {
        let i = match self.find_connection(id) {
            Some(i) => i,
            None => return Vec::new(),
        };
        let conn = self.connections.remove(i);
        proof {
            let c = self.connections@;
            let o = old(self).connections@;
            assert forall|a: int, b: int| 0 <= a < b < c.len() implies (#[trigger] c[a]).id != (#[trigger] c[b]).id by {
                let a2 = if a < i { a } else { a + 1 };
                let b2 = if b < i { b } else { b + 1 };
                assert(c[a] == o[a2] && c[b] == o[b2]);
                assert(o[a2].id != o[b2].id);
            }
            assert forall|a: int| 0 <= a < c.len() implies (#[trigger] c[a]).id < self.highest_id by {
                let a2 = if a < i { a } else { a + 1 };
                assert(c[a] == o[a2]);
            }
        }
        match conn.username {
            Some(u) => {
                if self.state.next_seq() < u64::MAX - 1 {
                    match self.state.player_leave(&u) {
                        Ok(view) => self.route(id, &view),
                        Err(_) => Vec::new(),
                    }
                } else {
                    self.state.set_offline(&u);
                    Vec::new()
                }
            },
            None => Vec::new(),
        }
    }
}

/// An action queued as `BroadcastExclusive` never reaches the connection
/// whose message caused it.
pub proof fn lemma_exclusive_skips_origin(
    conns: Seq<Connection>,
    chats: Seq<(String, Chat)>,
    origin: usize,
    seq: u64,
    key: Seq<char>,
)
    ensures
        !recipients(conns, chats, origin, ResponseM::BroadcastExclusive(seq, key)).contains(origin),
    decreases conns.len(),
{
    if conns.len() > 0 {
        lemma_exclusive_skips_origin(conns.drop_last(), chats, origin, seq, key);
        let rest = recipients(conns.drop_last(), chats, origin, ResponseM::BroadcastExclusive(seq, key));
        if receives(chats, origin, ResponseM::BroadcastExclusive(seq, key), conns.last()) {
            assert(rest.push(conns.last().id).drop_last() =~= rest);
            assert forall|k: int| 0 <= k < rest.len() + 1 implies rest.push(conns.last().id)[k] != origin by {
                if k < rest.len() {
                    assert(rest.push(conns.last().id)[k] == rest[k]);
                }
            }
        }
    }
}

/// A `Return` action reaches the originating connection and no other.
pub proof fn lemma_return_only_origin(
    conns: Seq<Connection>,
    chats: Seq<(String, Chat)>,
    origin: usize,
    index: nat,
)
    ensures
        forall|k: int| 0 <= k < recipients(conns, chats, origin, ResponseM::Return(index)).len()
            ==> #[trigger] recipients(conns, chats, origin, ResponseM::Return(index))[k] == origin,
    decreases conns.len(),
{
    if conns.len() > 0 {
        lemma_return_only_origin(conns.drop_last(), chats, origin, index);
        let rest = recipients(conns.drop_last(), chats, origin, ResponseM::Return(index));
        let all = recipients(conns, chats, origin, ResponseM::Return(index));
        assert forall|k: int| 0 <= k < all.len() implies #[trigger] all[k] == origin by {
            if k < rest.len() {
                assert(rest[k] == origin);
            }
        }
    }
}

} // verus!

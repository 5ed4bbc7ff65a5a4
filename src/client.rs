//! The client's mirror of the lobby: the protocol state machine
//! (connecting, registered, recapping, live) and recap reassembly.
use vstd::prelude::*;

use crate::protocol::{Body, BodyM, ChatSetup, MessageM, MessageV2, Token};
use crate::state::{Chat, has_name, index_of, lookup, names_unique};

verus! {

/// Progress through a recap: messages and tails received, tails announced.
pub struct RecapInfo {
    pub current_seq: usize,
    pub tails_seen: usize,
    pub end_chunk: usize,
    pub chunk_sz: usize,
}

/// What the client knows about its own session.
pub struct GameState {
    pub messages: Vec<MessageV2>,
    pub registered: bool,
    pub username: Option<String>,
    pub token: Option<Token>,
}

/// Another player, as this client sees them.
pub struct PlayerState {
    pub username: String,
    pub connected: bool,
    pub role: String,
}

/// The players and chats of the lobby.
pub struct LobbyState {
    pub players: Vec<(String, PlayerState)>,
    pub chats: Vec<(String, Chat)>,
}

/// A failure on the client side.
pub enum Error {
    Unregistered,
    Websocket(String),
    NoRecapHead,
    RecapOutOfOrder,
}

/// What handling a message means for the user interface.
pub enum ClientAction {
    Nothing,
    Welcome,
    PlayerJoined(String),
    PlayerLeft(String),
    Chat(usize),
    RecapEnd,
    Error(String),
    Multiple(Vec<Result<ClientAction, Error>>),
}

pub type ClientResult = Result<ClientAction, Error>;

impl GameState {
    pub fn new() -> (r: GameState)
        ensures
            r.messages@.len() == 0,
            !r.registered,
            r.username is None,
            r.token is None,
    {
        GameState { messages: Vec::new(), registered: false, username: None, token: None }
    }

    /// The index the next recorded message will have.
    pub fn get_pending_index(&self) -> (r: usize)
        ensures
            r == self.messages@.len(),
    {
        self.messages.len()
    }
}

impl PlayerState {
    pub fn new(username: String) -> (r: PlayerState)
        ensures
            r.username == username,
            r.connected,
            r.role@ == "__default"@,
    {
        PlayerState { username, connected: true, role: String::from_str("__default") }
    }
}

impl LobbyState {
    pub fn new() -> (r: LobbyState)
        ensures
            r.players@.len() == 0,
            r.chats@.len() == 0,
    {
        LobbyState { chats: Vec::new(), players: Vec::new() }
    }
}

/// The client's mirror of the lobby and its place in the protocol.
pub struct Client {
    pub state: GameState,
    pub lobby: LobbyState,
    pub recap_info: Option<RecapInfo>,
}

/// Bodies that change the lobby, and are kept in the client's message list.
pub open spec fn recorded(b: BodyM) -> bool {
    b is Setup || b is PlayerJoined || b is PlayerLeft || b is ChatSent
}

/// The permissions of the chat named `name`.
pub open spec fn chat_perms(chats: Seq<(String, Chat)>, name: Seq<char>) -> Seq<crate::protocol::PermM> {
    chats[index_of(chats, name)].1.perms@
}

/// No entry after `k` and before `end` announces the same chat name.
pub open spec fn last_of_name(s: Seq<ChatSetup>, k: int, end: int) -> bool {
    forall|j: int| k < j < end ==> (#[trigger] s[j]).name@ != s[k].name@
}

/// `new` is `old` with the player `name` present and marked `connected`;
/// every other player is unchanged, and at most one entry is added.
pub open spec fn player_marked(
    old: Seq<(String, PlayerState)>,
    new: Seq<(String, PlayerState)>,
    name: Seq<char>,
    connected: bool,
) -> bool {
    &&& has_name(new, name)
    &&& new[index_of(new, name)].1.connected == connected
    &&& old.len() <= new.len() <= old.len() + 1
    &&& forall|i: int| 0 <= i < old.len() && i != index_of(new, name) ==> #[trigger] new[i] == old[i]
}

/// The chats after a chat message that will get index `index` is filed
/// under `target`; nothing changes if no chat has that name.
pub open spec fn chat_filed(old: Seq<(String, Chat)>, new: Seq<(String, Chat)>, target: Seq<char>, index: usize) -> bool {
    &&& has_name(old, target) ==> {
        let j = index_of(old, target);
        &&& new.len() == old.len()
        &&& forall|k: int| 0 <= k < old.len() && k != j ==> #[trigger] new[k] == old[k]
        &&& new[j].0 == old[j].0
        &&& new[j].1.perms == old[j].1.perms
        &&& new[j].1.messages@ == old[j].1.messages@.push(index)
    }
    &&& !has_name(old, target) ==> new == old
}

/// The chats after a `Setup` announcing `setups`: every announced chat is
/// present with the permissions of its last announcement, and the names
/// already there stay in place.
pub open spec fn setup_applied(old: Seq<(String, Chat)>, new: Seq<(String, Chat)>, setups: Seq<ChatSetup>) -> bool {
    &&& forall|k: int| 0 <= k < setups.len() ==> has_name(new, (#[trigger] setups[k]).name@)
    &&& forall|k: int| 0 <= k < setups.len() && last_of_name(setups, k, setups.len() as int)
        ==> chat_perms(new, #[trigger] setups[k].name@) == setups[k].perm@
    &&& new.len() >= old.len()
    &&& forall|i: int| 0 <= i < old.len() ==> (#[trigger] new[i]).0 == old[i].0
    &&& forall|i: int| 0 <= i < new.len() ==> i < old.len() || announced(setups, setups.len() as int, (#[trigger] new[i]).0@)
    &&& forall|i: int| 0 <= i < old.len() && !announced(setups, setups.len() as int, old[i].0@) ==> #[trigger] new[i] == old[i]
}

/// Some entry of `setups` before `end` announces the chat `name`.
pub open spec fn announced(setups: Seq<ChatSetup>, end: int, name: Seq<char>) -> bool {
    exists|k: int| 0 <= k < end && (#[trigger] setups[k]).name@ == name
}

/// The effect of applying `msg`, outside recap framing, with result `r`.
pub open spec fn apply_step(old: Client, new: Client, msg: MessageV2, r: ClientResult) -> bool {
    &&& new.recap_info == old.recap_info
    &&& recorded(msg@.data) ==> {
        &&& new.state.messages@ == old.state.messages@.push(msg)
        &&& new.state.registered == old.state.registered
        &&& new.state.username == old.state.username
        &&& new.state.token == old.state.token
    }
    &&& !recorded(msg@.data) && !(msg.data is Welcome) ==> new.state == old.state
    &&& match msg.data {
        Body::PlayerJoined { username } => {
            &&& new.lobby.chats == old.lobby.chats
            &&& is_self(old.state, username@) ==> new.lobby == old.lobby
            &&& !is_self(old.state, username@) ==> player_marked(old.lobby.players@, new.lobby.players@, username@, true)
            &&& (r matches Ok(ClientAction::PlayerJoined(u)) && u == username)
        },
        Body::PlayerLeft { username } => {
            &&& new.lobby.chats == old.lobby.chats
            &&& is_self(old.state, username@) ==> new.lobby == old.lobby
            &&& !is_self(old.state, username@) ==> player_marked(old.lobby.players@, new.lobby.players@, username@, false)
            &&& (r matches Ok(ClientAction::PlayerLeft(u)) && u == username)
        },
        Body::ChatSent { chat_target, .. } => {
            &&& new.lobby.players == old.lobby.players
            &&& chat_filed(old.lobby.chats@, new.lobby.chats@, chat_target@, old.state.messages@.len() as usize)
            &&& (r matches Ok(ClientAction::Chat(i)) && i == old.state.messages@.len())
        },
        Body::Setup { chats } => {
            &&& new.lobby.players == old.lobby.players
            &&& setup_applied(old.lobby.chats@, new.lobby.chats@, chats@)
            &&& r matches Ok(ClientAction::Nothing)
        },
        Body::Welcome { username, token } => {
            &&& new.lobby == old.lobby
            &&& new.state.messages == old.state.messages
            &&& new.state.registered
            &&& new.state.username == Some(username)
            &&& new.state.token == Some(token)
            &&& r matches Ok(ClientAction::Welcome)
        },
        Body::Error { kind, details, .. } => {
            &&& new.lobby == old.lobby
            &&& (r matches Ok(ClientAction::Error(t)) && t@ == kind@ + " => "@ + details@)
        },
        _ => {
            &&& new.lobby == old.lobby
            &&& r matches Ok(ClientAction::Nothing)
        },
    }
}

/// `cs` is the run of client states through applying `msgs` in order,
/// with the results in front of `results`.
pub open spec fn replayed(cs: Seq<Client>, msgs: Seq<MessageV2>, results: Seq<ClientResult>) -> bool {
    &&& cs.len() == msgs.len() + 1
    &&& results.len() >= msgs.len()
    &&& forall|k: int| 0 <= k < msgs.len() ==> #[trigger] apply_step(cs[k], cs[k + 1], msgs[k], results[k])
}

/// The effect of a recap tail starting at `start` with messages `msgs`.
pub open spec fn recap_progress(old: Client, new: Client, start: usize, msgs: Seq<MessageV2>, r: ClientResult) -> bool {
    &&& old.recap_info is None ==> (r matches Err(Error::NoRecapHead)) && new == old
    &&& old.recap_info matches Some(info) ==> {
        let fits = start == info.current_seq && info.current_seq + msgs.len() <= usize::MAX
            && info.tails_seen < usize::MAX;
        let ended = info.tails_seen + 1 >= info.end_chunk;
        &&& !fits ==> (r matches Err(Error::RecapOutOfOrder)) && new == old
        &&& fits ==> (r matches Ok(ClientAction::Multiple(v)) && {
            &&& v@.len() == msgs.len() + if ended { 1int } else { 0int }
            &&& ended ==> (v@.last() matches Ok(ClientAction::RecapEnd))
            &&& exists|cs: Seq<Client>| {
                &&& #[trigger] replayed(cs, msgs, v@)
                &&& cs[0] == old
                &&& new.state == cs.last().state
                &&& new.lobby == cs.last().lobby
            }
        })
        &&& fits && ended ==> new.recap_info is None
        &&& fits && !ended ==> new.recap_info == Some(RecapInfo {
            current_seq: (info.current_seq + msgs.len()) as usize,
            tails_seen: (info.tails_seen + 1) as usize,
            end_chunk: info.end_chunk,
            chunk_sz: info.chunk_sz,
        })
    }
}

/// Whether the player `name` is the client's own user.
pub open spec fn is_self(st: GameState, name: Seq<char>) -> bool {
    st.username matches Some(u) && u@ == name
}

impl Client {
    /// Player names and chat names are keys of the lobby.
    pub open spec fn wf(&self) -> bool {
        &&& names_unique(self.lobby.players@)
        &&& names_unique(self.lobby.chats@)
    }

    pub fn new() -> (r: Client)
        ensures
            r.wf(),
            !r.state.registered,
            r.state.messages@.len() == 0,
            r.recap_info is None,
            r.lobby.players@.len() == 0,
            r.lobby.chats@.len() == 0,
    {
        Client { state: GameState::new(), lobby: LobbyState::new(), recap_info: None }
    }

    /// The `Hello` that registers `username`.
    pub fn register_message(username: String) -> (r: MessageV2)
        ensures
            r@ == (MessageM { seq: 0, data: BodyM::Hello { username: username@ } }),
    {
        MessageV2 { seq: 0, data: Body::Hello { username } }
    }

    /// The `Back` that logs in again with `token`.
    pub fn login_message(token: Token) -> (r: MessageV2)
        ensures
            r@ == (MessageM { seq: 0, data: BodyM::Back { token } }),
    {
        MessageV2 { seq: 0, data: Body::Back { token } }
    }

    /// Wraps `msg` for sending; only a registered client may send.
    pub fn send_message(&self, msg: Body) -> (r: Result<MessageV2, Error>)
        ensures
            self.state.registered ==> (r matches Ok(m) && m@ == (MessageM { seq: 0, data: msg@ })),
            !self.state.registered ==> (r matches Err(Error::Unregistered)),
    {
        if self.state.registered {
            Ok(MessageV2 { seq: 0, data: msg })
        } else {
            Err(Error::Unregistered)
        }
    }

    /// Records the user's name and token; the client is now registered.
    pub fn handle_welcome(&mut self, username: String, token: Token) -> (r: ClientResult)
        ensures
            final(self).state.username == Some(username),
            final(self).state.token == Some(token),
            final(self).state.registered,
            final(self).state.messages == old(self).state.messages,
            final(self).lobby == old(self).lobby,
            final(self).recap_info == old(self).recap_info,
            r matches Ok(ClientAction::Welcome),
    {
        self.state.username = Some(username);
        self.state.token = Some(token);
        self.state.registered = true;
        Ok(ClientAction::Welcome)
    }

    fn is_self_exec(&self, name: &String) -> (r: bool)
        ensures
            r == is_self(self.state, name@),
    {
        match &self.state.username {
            Some(u) => *u == *name,
            None => false,
        }
    }

    /// Another player is online: added, or marked connected.
    pub fn handle_player_joined(&mut self, username: String) -> (r: ClientResult)
        requires
            old(self).wf(),
        ensures
            final(self).wf(),
            final(self).state == old(self).state,
            final(self).lobby.chats == old(self).lobby.chats,
            final(self).recap_info == old(self).recap_info,
            is_self(old(self).state, username@) ==> final(self).lobby == old(self).lobby,
            !is_self(old(self).state, username@) ==> player_marked(
                old(self).lobby.players@,
                final(self).lobby.players@,
                username@,
                true,
            ),
            r matches Ok(ClientAction::PlayerJoined(u)) && u == username,
    {
        if !self.is_self_exec(&username) {
            self.set_connected(&username, true);
        }
        Ok(ClientAction::PlayerJoined(username))
    }

    /// Another player went offline: marked not connected.
    pub fn handle_player_left(&mut self, username: String) -> (r: ClientResult)
        requires
            old(self).wf(),
        ensures
            final(self).wf(),
            final(self).state == old(self).state,
            final(self).lobby.chats == old(self).lobby.chats,
            final(self).recap_info == old(self).recap_info,
            is_self(old(self).state, username@) ==> final(self).lobby == old(self).lobby,
            !is_self(old(self).state, username@) ==> player_marked(
                old(self).lobby.players@,
                final(self).lobby.players@,
                username@,
                false,
            ),
            r matches Ok(ClientAction::PlayerLeft(u)) && u == username,
    {
        if !self.is_self_exec(&username) {
            self.set_connected(&username, false);
        }
        Ok(ClientAction::PlayerLeft(username))
    }

    fn set_connected(&mut self, username: &String, connected: bool)
        requires
            old(self).wf(),
        ensures
            final(self).wf(),
            final(self).state == old(self).state,
            final(self).lobby.chats == old(self).lobby.chats,
            final(self).recap_info == old(self).recap_info,
            player_marked(old(self).lobby.players@, final(self).lobby.players@, username@, connected),
    {
        match lookup(&self.lobby.players, username) {
            Some(i) => {
                let name = self.lobby.players[i].0.clone();
                let role = self.lobby.players[i].1.role.clone();
                let ghost before = self.lobby.players@;
                self.lobby.players.set(
                    i,
                    (name, PlayerState { username: username.clone(), connected, role }),
                );
                proof {
                    let p = self.lobby.players@;
                    assert(crate::state::first_named(p, username@, i as int)) by {
                        assert forall|j: int| 0 <= j < i implies (#[trigger] p[j]).0@ != username@ by {
                            assert(p[j] == before[j]);
                        }
                    }
                    crate::state::lemma_first_named_unique(p, username@, i as int);
                    assert forall|k: int| 0 <= k < before.len() && k != i implies #[trigger] p[k] == before[k] by {}
                }
            },
            None => {
                let mut player = PlayerState::new(username.clone());
                player.connected = connected;
                let ghost before = self.lobby.players@;
                self.lobby.players.push((username.clone(), player));
                proof {
                    let p = self.lobby.players@;
                    let i = before.len() as int;
                    assert(crate::state::first_named(p, username@, i)) by {
                        assert forall|j: int| 0 <= j < i implies (#[trigger] p[j]).0@ != username@ by {
                            assert(p[j] == before[j]);
                            assert(!(0 <= j < before.len() && before[j].0@ == username@));
                        }
                    }
                    crate::state::lemma_first_named_unique(p, username@, i);
                    assert forall|k: int| 0 <= k < before.len() && k != i implies #[trigger] p[k] == before[k] by {
                        assert(p[k] == before[k]);
                    }
                }
            },
        }
    }

    /// A chat message: its future index is filed under its chat.
    pub fn handle_chat(&mut self, chat_target: &String) -> (r: ClientResult)
        requires
            old(self).wf(),
        ensures
            final(self).wf(),
            final(self).state == old(self).state,
            final(self).lobby.players == old(self).lobby.players,
            final(self).recap_info == old(self).recap_info,
            r matches Ok(ClientAction::Chat(i)) && i == old(self).state.messages@.len(),
            chat_filed(old(self).lobby.chats@, final(self).lobby.chats@, chat_target@, old(self).state.messages@.len() as usize),
    {
        let ind = self.state.get_pending_index();
        if let Some(j) = lookup(&self.lobby.chats, chat_target) {
            let mut entry = self.lobby.chats.remove(j);
            entry.1.messages.push(ind);
            self.lobby.chats.insert(j, entry);
        }
        Ok(ClientAction::Chat(ind))
    }

    /// Adds the chat `name`, or replaces its permissions and empties it.
    fn put_chat(&mut self, name: String, perms: crate::protocol::Perms)
        requires
            old(self).wf(),
        ensures
            final(self).wf(),
            final(self).state == old(self).state,
            final(self).lobby.players == old(self).lobby.players,
            final(self).recap_info == old(self).recap_info,
            final(self).lobby.chats@.len() >= old(self).lobby.chats@.len(),
            forall|i: int| 0 <= i < old(self).lobby.chats@.len() ==> (#[trigger] final(self).lobby.chats@[i]).0 == old(
                self,
            ).lobby.chats@[i].0,
            has_name(final(self).lobby.chats@, name@),
            final(self).lobby.chats@[index_of(final(self).lobby.chats@, name@)].1.perms == perms,
            forall|i: int| 0 <= i < old(self).lobby.chats@.len() && i != index_of(final(self).lobby.chats@, name@)
                ==> #[trigger] final(self).lobby.chats@[i] == old(self).lobby.chats@[i],
            final(self).lobby.chats@.len() <= old(self).lobby.chats@.len() + 1,
            final(self).lobby.chats@.len() > old(self).lobby.chats@.len() ==> final(self).lobby.chats@.last().0@ == name@,
    {
        let ghost before = self.lobby.chats@;
        match lookup(&self.lobby.chats, &name) {
            Some(j) => {
                let entry = self.lobby.chats.remove(j);
                self.lobby.chats.insert(j, (entry.0, Chat::new(perms)));
                proof {
                    let c = self.lobby.chats@;
                    assert forall|i: int| 0 <= i < before.len() implies (#[trigger] c[i]).0 == before[i].0 by {
                        if i != j {
                            assert(c[i] == before[i]);
                        }
                    }
                    assert(crate::state::first_named(c, name@, j as int)) by {
                        assert forall|k: int| 0 <= k < j implies (#[trigger] c[k]).0@ != name@ by {
                            assert(c[k] == before[k]);
                        }
                    }
                    crate::state::lemma_first_named_unique(c, name@, j as int);
                }
            },
            None => {
                self.lobby.chats.push((name, Chat::new(perms)));
                proof {
                    let c = self.lobby.chats@;
                    let j = before.len() as int;
                    assert(crate::state::first_named(c, name@, j)) by {
                        assert forall|k: int| 0 <= k < j implies (#[trigger] c[k]).0@ != name@ by {
                            assert(c[k] == before[k]);
                            assert(!(0 <= k < before.len() && before[k].0@ == name@));
                        }
                    }
                    crate::state::lemma_first_named_unique(c, name@, j);
                }
            },
        }
    }

    /// Every announced chat is present afterwards.
    pub fn handle_setup(&mut self, chats: &Vec<ChatSetup>) -> (r: ClientResult)
        requires
            old(self).wf(),
        ensures
            final(self).wf(),
            final(self).state == old(self).state,
            final(self).lobby.players == old(self).lobby.players,
            final(self).recap_info == old(self).recap_info,
            setup_applied(old(self).lobby.chats@, final(self).lobby.chats@, chats@),
            r matches Ok(ClientAction::Nothing),
    {
        let ghost all = chats@;
        let ghost start = self.lobby.chats@;
        let total = chats.len();
        let mut done: usize = 0;
        while done < total
            invariant
                self.wf(),
                all == chats@,
                all.len() == total,
                done <= total,
                self.state == old(self).state,
                self.lobby.players == old(self).lobby.players,
                self.recap_info == old(self).recap_info,
                self.lobby.chats@.len() >= start.len(),
                forall|i: int| 0 <= i < start.len() ==> (#[trigger] self.lobby.chats@[i]).0 == start[i].0,
                forall|k: int| 0 <= k < done ==> has_name(self.lobby.chats@, (#[trigger] all[k]).name@),
                forall|k: int| 0 <= k < done && last_of_name(all, k, done as int)
                    ==> chat_perms(self.lobby.chats@, #[trigger] all[k].name@) == all[k].perm@,
                forall|i: int| 0 <= i < self.lobby.chats@.len() ==> i < start.len() || announced(
                    all,
                    done as int,
                    (#[trigger] self.lobby.chats@[i]).0@,
                ),
                forall|i: int| 0 <= i < start.len() && !announced(all, done as int, start[i].0@)
                    ==> #[trigger] self.lobby.chats@[i] == start[i],
            decreases total - done,
        {
            let ghost before = self.lobby.chats@;
            self.put_chat(chats[done].name.clone(), chats[done].perm.duplicate());
            proof {
                let now = self.lobby.chats@;
                assert forall|k: int| 0 <= k < done + 1 implies has_name(now, (#[trigger] all[k]).name@) by {
                    if k < done {
                        assert(has_name(before, all[k].name@));
                        let w = choose|w: int| 0 <= w < before.len() && (#[trigger] before[w]).0@ == all[k].name@;
                        assert(now[w].0 == before[w].0);
                    }
                }
                let n = all[done as int].name@;
                assert forall|i: int| 0 <= i < now.len() implies i < start.len() || announced(
                    all,
                    done + 1,
                    (#[trigger] now[i]).0@,
                ) by {
                    if i >= start.len() {
                        if i < before.len() {
                            assert(announced(all, done as int, before[i].0@));
                            let k = choose|k: int| 0 <= k < done && (#[trigger] all[k]).name@ == before[i].0@;
                            assert(now[i].0 == before[i].0);
                            assert(all[k].name@ == now[i].0@);
                        } else {
                            assert(now[i].0@ == n);
                            assert(all[done as int].name@ == now[i].0@);
                        }
                    }
                }
                assert forall|i: int| 0 <= i < start.len() && !announced(all, done + 1, start[i].0@)
                    implies #[trigger] now[i] == start[i] by {
                    assert(!announced(all, done as int, start[i].0@)) by {
                        if announced(all, done as int, start[i].0@) {
                            let k = choose|k: int| 0 <= k < done && (#[trigger] all[k]).name@ == start[i].0@;
                            assert(all[k].name@ == start[i].0@);
                        }
                    }
                    assert(before[i] == start[i]);
                    let jn = index_of(now, n);
                    let j0 = choose|j0: int| 0 <= j0 < now.len() && (#[trigger] now[j0]).0@ == n;
                    crate::state::lemma_index_of_first(now, n, j0);
                    assert(all[done as int].name@ != start[i].0@);
                    assert(now[i].0 == before[i].0);
                    assert(i != jn);
                }
                assert forall|k: int| 0 <= k < done + 1 && last_of_name(all, k, done + 1) implies chat_perms(
                    now,
                    #[trigger] all[k].name@,
                ) == all[k].perm@ by {
                    if k < done {
                        let x = all[k].name@;
                        assert(x != n);
                        assert(last_of_name(all, k, done as int));
                        let w = index_of(before, x);
                        let w0 = choose|w0: int| 0 <= w0 < before.len() && (#[trigger] before[w0]).0@ == x;
                        crate::state::lemma_index_of_first(before, x, w0);
                        let jn = index_of(now, n);
                        let j0 = choose|j0: int| 0 <= j0 < now.len() && (#[trigger] now[j0]).0@ == n;
                        crate::state::lemma_index_of_first(now, n, j0);
                        assert(w != jn);
                        assert(now[w] == before[w]);
                        assert(crate::state::first_named(now, x, w)) by {
                            assert forall|j: int| 0 <= j < w implies (#[trigger] now[j]).0@ != x by {
                                assert(now[j].0 == before[j].0);
                            }
                        }
                        crate::state::lemma_first_named_unique(now, x, w);
                    }
                }
            }
            done = done + 1;
        }
        Ok(ClientAction::Nothing)
    }

    /// A recap begins; with no tails announced it is over at once.
    pub fn start_recap(&mut self, count: usize, chunk_sz: usize) -> (r: ClientResult)
        ensures
            final(self).state == old(self).state,
            final(self).lobby == old(self).lobby,
            count == 0 ==> final(self).recap_info is None && r matches Ok(ClientAction::RecapEnd),
            count > 0 ==> final(self).recap_info == Some(RecapInfo { current_seq: 0, tails_seen: 0, end_chunk: count, chunk_sz })
                && r matches Ok(ClientAction::Nothing),
    {
        if count == 0 {
            self.recap_info = None;
            return Ok(ClientAction::RecapEnd);
        }
        self.recap_info = Some(RecapInfo { chunk_sz, end_chunk: count, current_seq: 0, tails_seen: 0 });
        Ok(ClientAction::Nothing)
    }

    /// An error from the server, for the user interface.
    pub fn handle_error(kind: &String, details: &String) -> (r: ClientResult)
        ensures
            r matches Ok(ClientAction::Error(t)) && t@ == kind@ + " => "@ + details@,
    {
        let mut t = kind.clone();
        t.append(" => ");
        t.append(details.as_str());
        Ok(ClientAction::Error(t))
    }

    /// Applies a message that is not part of recap framing. Messages that
    /// change the lobby are recorded.
    pub fn apply_message(&mut self, msg: MessageV2) -> (r: ClientResult)
        requires
            old(self).wf(),
        ensures
            final(self).wf(),
            apply_step(*old(self), *final(self), msg, r),
    {
        let r = match &msg.data {
            Body::Error { kind, details, .. } => {
                return Client::handle_error(kind, details);
            },
            Body::Welcome { username, token } => {
                return self.handle_welcome(username.clone(), *token);
            },
            Body::PlayerJoined { username } => self.handle_player_joined(username.clone()),
            Body::PlayerLeft { username } => self.handle_player_left(username.clone()),
            Body::ChatSent { chat_target, .. } => self.handle_chat(chat_target),
            Body::Setup { chats } => self.handle_setup(chats),
            _ => {
                return Ok(ClientAction::Nothing);
            },
        };
        self.state.messages.push(msg);
        r
    }

    /// A recap tail: its messages are applied in order; the tail after the
    /// last announced one ends the recap.
    pub fn progress_recap(&mut self, start: usize, msgs: Vec<MessageV2>) -> (r: ClientResult)
        requires
            old(self).wf(),
        ensures
            final(self).wf(),
            recap_progress(*old(self), *final(self), start, msgs@, r),
    {
        let (current, seen, end, chunk_sz) = match &self.recap_info {
            Some(recap) => (recap.current_seq, recap.tails_seen, recap.end_chunk, recap.chunk_sz),
            None => {
                return Err(Error::NoRecapHead);
            },
        };
        if start != current || msgs.len() > usize::MAX - current || seen == usize::MAX {
            return Err(Error::RecapOutOfOrder);
        }
        let ghost info = self.recap_info;
        let ghost all = msgs@;
        let ghost mut cs: Seq<Client> = seq![*self];
        let mut actions: Vec<ClientResult> = Vec::new();
        let mut rest = msgs;
        let total = rest.len();
        while rest.len() > 0
            invariant
                self.wf(),
                self.recap_info == info,
                all.len() == total,
                actions@.len() + rest@.len() == total,
                rest@ == all.subrange(actions@.len() as int, total as int),
                cs.len() == actions@.len() + 1,
                cs[0] == *old(self),
                cs.last() == *self,
                forall|k: int| 0 <= k < actions@.len() ==> #[trigger] apply_step(cs[k], cs[k + 1], all[k], actions@[k]),
            decreases rest@.len(),
        {
            let ghost done = actions@.len() as int;
            let ghost before = actions@;
            let m = rest.remove(0);
            assert(m == all[done]);
            let a = self.apply_message(m);
            actions.push(a);
            proof {
                cs = cs.push(*self);
                assert forall|k: int| 0 <= k < actions@.len() implies #[trigger] apply_step(
                    cs[k],
                    cs[k + 1],
                    all[k],
                    actions@[k],
                ) by {
                    if k < done {
                        assert(actions@[k] == before[k]);
                        assert(cs[k] == cs.drop_last()[k]);
                        assert(cs[k + 1] == cs.drop_last()[k + 1]);
                    }
                }
            }
            assert(rest@ =~= all.subrange(actions@.len() as int, total as int));
        }
        let ghost replay = actions@;
        let current = current + total;
        let seen = seen + 1;
        if seen >= end {
            actions.push(Ok(ClientAction::RecapEnd));
            self.recap_info = None;
        } else {
            self.recap_info = Some(RecapInfo { current_seq: current, tails_seen: seen, end_chunk: end, chunk_sz });
        }
        proof {
            assert forall|k: int| 0 <= k < all.len() implies #[trigger] apply_step(cs[k], cs[k + 1], all[k], actions@[k]) by {
                assert(actions@[k] == replay[k]);
                assert(apply_step(cs[k], cs[k + 1], all[k], replay[k]));
            }
            assert(replayed(cs, all, actions@));
        }
        Ok(ClientAction::Multiple(actions))
    }

    /// Handles one message from the server.
    pub fn handle_message(&mut self, msg: MessageV2) -> (r: ClientResult)
        requires
            old(self).wf(),
        ensures
            final(self).wf(),
            msg@.data matches BodyM::RecapHead { count, chunk_sz } ==> {
                &&& final(self).state == old(self).state
                &&& final(self).lobby == old(self).lobby
                &&& count == 0 ==> (final(self).recap_info is None && r matches Ok(ClientAction::RecapEnd))
                &&& count > 0 ==> final(self).recap_info == Some(
                    RecapInfo { current_seq: 0, tails_seen: 0, end_chunk: count, chunk_sz },
                ) && r matches Ok(ClientAction::Nothing)
            },
            msg.data matches Body::RecapTail { start, msgs } ==> recap_progress(*old(self), *final(self), start, msgs@, r),
            !(msg@.data is RecapHead) && !(msg@.data is RecapTail) ==> apply_step(*old(self), *final(self), msg, r),
    {
        match msg.data {
            Body::RecapHead { count, chunk_sz } => self.start_recap(count, chunk_sz),
            Body::RecapTail { start, msgs } => self.progress_recap(start, msgs),
            data => self.apply_message(MessageV2 { seq: msg.seq, data }),
        }
    }
}

} // verus!

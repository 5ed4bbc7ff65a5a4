//! The server's authoritative state: history, users and chats, and the
//! operations that answer inbound messages with response views.
use vstd::prelude::*;

use crate::error::{ClientError, ServerError, client_error_body, error_m, json_pair};
use crate::history::{History, HistoryM, history_wf};
use crate::protocol::{
    Body, BodyM, ChatSetup, ChatSetupM, MessageDataV2, MessageM, MessageV2, Perm, PermM, Perms, Token,
    chat_of, global_of, tag_of, messages_view, perms_player_bits, subject_of,
};
use crate::response::{
    ALL_AUDIENCE, FrameM, ResponseFrame, ResponseM, ResponseView, resolve_all,
};

verus! {

/// How many fresh tokens a registration draws before it gives up.
pub const TOKEN_DRAWS: usize = 16;

/// Visible messages are sent to a joining user in chunks of this size.
pub const RECAP_CHUNK_SZ: usize = 64;

/// A user: whether a connection is logged in as them, and their token.
pub struct User {
    pub online: bool,
    pub uuid: Token,
}

impl User {
    pub fn new(uuid: Token) -> (r: User)
        ensures
            r == (User { online: true, uuid }),
    {
        User { uuid, online: true }
    }
}

/// A chat: its permissions and the numbers of its messages.
pub struct Chat {
    pub perms: Perms,
    pub messages: Vec<usize>,
}

/// The read bit of a user's effective permission.
pub open spec fn may_read(perms: Seq<PermM>, username: Seq<char>) -> bool {
    perms_player_bits(perms, username) & 1 != 0
}

/// The write bit of a user's effective permission.
pub open spec fn may_write(perms: Seq<PermM>, username: Seq<char>) -> bool {
    perms_player_bits(perms, username) & 2 != 0
}

impl Chat {
    pub fn new(perms: Perms) -> (r: Chat)
        ensures
            r.perms == perms,
            r.messages@ == Seq::<usize>::empty(),
    {
        Chat { perms, messages: Vec::new() }
    }

    pub fn can_write(&self, username: &String) -> (r: bool)
        ensures
            r == may_write(self.perms@, username@),
    {
        self.perms.check_player(username) & 2 != 0
    }

    pub fn can_read(&self, username: &String) -> (r: bool)
        ensures
            r == may_read(self.perms@, username@),
    {
        self.perms.check_player(username) & 1 != 0
    }
}

/// `i` is the first position whose name is `name`.
pub open spec fn first_named<T>(s: Seq<(String, T)>, name: Seq<char>, i: int) -> bool {
    &&& 0 <= i < s.len()
    &&& s[i].0@ == name
    &&& forall|j: int| 0 <= j < i ==> (#[trigger] s[j]).0@ != name
}

pub open spec fn has_name<T>(s: Seq<(String, T)>, name: Seq<char>) -> bool {
    exists|i: int| 0 <= i < s.len() && (#[trigger] s[i]).0@ == name
}

/// The first position whose name is `name` (meaningful when there is one).
pub open spec fn index_of<T>(s: Seq<(String, T)>, name: Seq<char>) -> int {
    choose|i: int| first_named(s, name, i)
}

pub proof fn lemma_first_named_unique<T>(s: Seq<(String, T)>, name: Seq<char>, i: int)
    requires
        first_named(s, name, i),
    ensures
        index_of(s, name) == i,
        has_name(s, name),
{
    let k = index_of(s, name);
    assert(first_named(s, name, k));
    if k < i {
        assert(s[k].0@ != name);
    }
    if i < k {
        assert(s[i].0@ != name);
    }
}

/// A name that occurs has a first position.
pub proof fn lemma_index_of_first<T>(s: Seq<(String, T)>, name: Seq<char>, i: int)
    requires
        0 <= i < s.len(),
        s[i].0@ == name,
    ensures
        first_named(s, name, index_of(s, name)),
    decreases i,
{
    if forall|j: int| 0 <= j < i ==> (#[trigger] s[j]).0@ != name {
        lemma_first_named_unique(s, name, i);
    } else {
        let j = choose|j: int| 0 <= j < i && (#[trigger] s[j]).0@ == name;
        lemma_index_of_first(s, name, j);
    }
}

/// The position of the first entry named `name`.
pub fn lookup<T>(v: &Vec<(String, T)>, name: &String) -> (r: Option<usize>)
    ensures
        r is None <==> !has_name(v@, name@),
        r matches Some(i) ==> first_named(v@, name@, i as int) && index_of(v@, name@) == i,
{
    let n = v.len();
    let mut i: usize = 0;
    while i < n
        invariant
            n == v@.len(),
            i <= n,
            forall|j: int| 0 <= j < i ==> (#[trigger] v@[j]).0@ != name@,
        decreases n - i,
    {
        if v[i].0 == *name {
            proof { lemma_first_named_unique(v@, name@, i as int); }
            return Some(i);
        }
        i += 1;
    }
    None
}

/// No two entries carry the same name.
pub open spec fn names_unique<T>(s: Seq<(String, T)>) -> bool {
    forall|i: int, j: int| 0 <= i < j < s.len() ==> (#[trigger] s[i]).0@ != (#[trigger] s[j]).0@
}

/// No two users hold the same token.
pub open spec fn tokens_unique(s: Seq<(String, User)>) -> bool {
    forall|i: int, j: int| 0 <= i < j < s.len() ==> (#[trigger] s[i]).1.uuid != (#[trigger] s[j]).1.uuid
}

/// `new` differs from `old` at most at position `i`, which keeps its name and token.
pub proof fn lemma_keys_kept(old: Seq<(String, User)>, new: Seq<(String, User)>)
    requires
        names_unique(old),
        tokens_unique(old),
        new.len() == old.len(),
        forall|k: int| 0 <= k < old.len() ==> (#[trigger] new[k]).0 == old[k].0 && new[k].1.uuid == old[k].1.uuid,
    ensures
        names_unique(new),
        tokens_unique(new),
{
    assert forall|i: int, j: int| 0 <= i < j < new.len() implies (#[trigger] new[i]).0@ != (#[trigger] new[j]).0@ by {
        assert(old[i].0@ != old[j].0@);
    }
    assert forall|i: int, j: int| 0 <= i < j < new.len() implies (#[trigger] new[i]).1.uuid != (#[trigger] new[j]).1.uuid by {
        assert(old[i].1.uuid != old[j].1.uuid);
    }
}

/// `i` is the first position of a user holding `token`.
pub open spec fn first_with_token(s: Seq<(String, User)>, token: Token, i: int) -> bool {
    &&& 0 <= i < s.len()
    &&& s[i].1.uuid == token
    &&& forall|j: int| 0 <= j < i ==> (#[trigger] s[j]).1.uuid != token
}

pub open spec fn has_token(s: Seq<(String, User)>, token: Token) -> bool {
    exists|i: int| 0 <= i < s.len() && (#[trigger] s[i]).1.uuid == token
}

pub open spec fn token_holder(s: Seq<(String, User)>, token: Token) -> int {
    choose|i: int| first_with_token(s, token, i)
}

/// Whether `username` may see a message with body `b`.
pub open spec fn can_view(b: BodyM, username: Seq<char>, chats: Seq<(String, Chat)>) -> bool {
    ||| global_of(b)
    ||| subject_of(b) == Some(username)
    ||| (chat_of(b) matches Some(c) && has_name(chats, c) && may_read(
        chats[index_of(chats, c)].1.perms@,
        username,
    ))
}

/// The entries that `username` may see, in order.
pub open spec fn visible(entries: Seq<MessageV2>, username: Seq<char>, chats: Seq<(String, Chat)>) -> Seq<MessageM>
    decreases entries.len(),
{
    if entries.len() == 0 {
        Seq::empty()
    } else {
        let rest = visible(entries.drop_last(), username, chats);
        if can_view(entries.last()@.data, username, chats) {
            rest.push(entries.last()@)
        } else {
            rest
        }
    }
}

/// The recap tails for `vis` from position `start` on, in chunks of `n`.
pub open spec fn tails_from(vis: Seq<MessageM>, n: nat, start: nat) -> Seq<BodyM>
    decreases vis.len() - start,
{
    if start >= vis.len() || n == 0 {
        Seq::empty()
    } else {
        let end: nat = if start + n < vis.len() { start + n } else { vis.len() };
        seq![BodyM::RecapTail { start: start as usize, msgs: vis.subrange(start as int, end as int) }]
            + tails_from(vis, n, end)
    }
}

/// The recap of `vis`: a head with the number of chunks, then the chunks.
pub open spec fn recap_bodies(vis: Seq<MessageM>, n: nat) -> Seq<BodyM> {
    seq![BodyM::RecapHead { count: tails_from(vis, n, 0).len() as usize, chunk_sz: n as usize }]
        + tails_from(vis, n, 0)
}

pub open spec fn refs_view(s: Seq<&MessageV2>) -> Seq<MessageM> {
    s.map_values(|m: &MessageV2| (*m)@)
}

pub open spec fn bodies_view(s: Seq<Body>) -> Seq<BodyM> {
    s.map_values(|b: Body| b@)
}

pub proof fn lemma_messages_view_push(s: Seq<MessageV2>, m: MessageV2)
    ensures
        messages_view(s.push(m)) == messages_view(s).push(m@),
{
    assert(s.push(m).drop_last() =~= s);
}

pub proof fn lemma_tails_from_len(vis: Seq<MessageM>, n: nat, start: nat)
    ensures
        start <= vis.len() ==> tails_from(vis, n, start).len() + start <= vis.len(),
    decreases vis.len() - start,
{
    if start >= vis.len() || n == 0 {
    } else {
        let end: nat = if start + n < vis.len() { start + n } else { vis.len() };
        lemma_tails_from_len(vis, n, end);
    }
}

/// Splits the visible messages into a recap: a head, then the tails.
pub fn recap_chunks(visible: &Vec<&MessageV2>, chunk_sz: usize) -> (r: Vec<Body>)
    requires
        chunk_sz > 0,
    ensures
        bodies_view(r@) == recap_bodies(refs_view(visible@), chunk_sz as nat),
{
    let ghost vis = refs_view(visible@);
    let ghost n = chunk_sz as nat;
    let len = visible.len();
    let mut tails: Vec<Body> = Vec::new();
    let mut start: usize = 0;
    while start < len
        invariant
            len == visible@.len(),
            vis == refs_view(visible@),
            n == chunk_sz,
            n > 0,
            start <= len,
            bodies_view(tails@) + tails_from(vis, n, start as nat) == tails_from(vis, n, 0),
        decreases len - start,
    {
        let end = if len - start > chunk_sz { start + chunk_sz } else { len };
        let mut msgs: Vec<MessageV2> = Vec::new();
        let mut j = start;
        while j < end
            invariant
                len == visible@.len(),
                vis == refs_view(visible@),
                start <= j <= end <= len,
                messages_view(msgs@) == vis.subrange(start as int, j as int),
            decreases end - j,
        {
            let m = visible[j].duplicate();
            proof { lemma_messages_view_push(msgs@, m); }
            msgs.push(m);
            assert(vis.subrange(start as int, j + 1) =~= vis.subrange(start as int, j as int).push(vis[j as int]));
            j += 1;
        }
        let ghost before = tails@;
        let tail = Body::RecapTail { start, msgs };
        assert(tail@ == BodyM::RecapTail { start, msgs: vis.subrange(start as int, end as int) });
        tails.push(tail);
        assert(bodies_view(tails@) =~= bodies_view(before).push(tail@));
        assert(tails_from(vis, n, start as nat) == seq![tail@] + tails_from(vis, n, end as nat));
        assert(bodies_view(tails@) + tails_from(vis, n, end as nat) =~= bodies_view(before) + tails_from(vis, n, start as nat));
        start = end;
    }
    assert(bodies_view(tails@) =~= tails_from(vis, n, 0));
    proof { lemma_tails_from_len(vis, n, 0); }
    let count = tails.len();
    let mut out: Vec<Body> = Vec::new();
    out.push(Body::RecapHead { count, chunk_sz });
    out.append(&mut tails);
    assert(bodies_view(out@) =~= recap_bodies(vis, n));
    out
}


/// `new` is `old` with the messages `bodies` logged, numbered on from `old.next`.
pub open spec fn logged(old: HistoryM, new: HistoryM, bodies: Seq<BodyM>) -> bool {
    &&& new.start == old.start
    &&& new.next == old.next + bodies.len()
    &&& new.entries.len() == old.entries.len() + bodies.len()
    &&& new.entries.take(old.entries.len() as int) == old.entries
    &&& forall|i: int|
        0 <= i < bodies.len() ==> (#[trigger] new.entries[old.entries.len() + i])@ == (MessageM {
            seq: (old.next + i) as u64,
            data: bodies[i],
        })
}

/// What a joining user receives, and what the others are sent.
pub open spec fn login_pairs(username: Seq<char>, token: Token, recap: Seq<BodyM>, seq: u64) -> Seq<(ResponseM, MessageM)> {
    seq![(ResponseM::Return(0), MessageM { seq: 0, data: BodyM::Welcome { username, token } })]
        + Seq::new(
        recap.len(),
        |i: int| (ResponseM::Return((i + 1) as nat), MessageM { seq: 0, data: recap[i] }),
    ) + seq![(ResponseM::BroadcastExclusive(seq, ALL_AUDIENCE@), MessageM { seq, data: BodyM::PlayerJoined { username } })]
}

/// Logged messages, numbered from `seq`, each broadcast to `audience`.
pub open spec fn broadcast_pairs(seq: u64, audience: Seq<char>, bodies: Seq<BodyM>) -> Seq<(ResponseM, MessageM)> {
    Seq::new(
        bodies.len(),
        |i: int| (ResponseM::Broadcast((seq + i) as u64, audience), MessageM { seq: (seq + i) as u64, data: bodies[i] }),
    )
}

/// A single message returned to the originator.
pub open spec fn return_pairs(b: BodyM) -> Seq<(ResponseM, MessageM)> {
    seq![(ResponseM::Return(0), MessageM { seq: 0, data: b })]
}

pub open spec fn invalid_chat_body(target: Seq<char>) -> BodyM {
    error_m("InvalidChat"@, target + ", cannot be targeted for that action"@, json_pair("reason"@, "Not found"@))
}

pub open spec fn no_permission_body(target: Seq<char>) -> BodyM {
    error_m(
        "NoPermission"@,
        "The action on "@ + target + " requires permissions you don\u{27}t have"@,
        json_pair("reason"@, "No write permission"@),
    )
}

pub open spec fn invalid_action_body(tag: Seq<char>) -> BodyM {
    error_m(
        "InvalidAction"@,
        "the action, "@ + tag + ", cannot be performed"@,
        json_pair("reason"@, "Server side message sent by a client"@),
    )
}

/// The state engine: the single owner of history, users and chats.
pub struct YapnetState {
    pub history: History,
    pub chats: Vec<(String, Chat)>,
    pub users: Vec<(String, User)>,
}

/// The outcome of a chat send by `sender` to `target`, script messages `injected` first.
pub open spec fn chat_send_outcome(
    old: YapnetState,
    new: YapnetState,
    pairs: Seq<(ResponseM, MessageM)>,
    sender: Seq<char>,
    target: Seq<char>,
    content: Seq<char>,
    injected: Seq<BodyM>,
) -> bool {
    &&& new.users == old.users
    &&& new.chats == old.chats
    &&& new.wf()
    &&& !has_name(old.chats@, target) ==> {
        &&& new.history_view() == old.history_view()
        &&& pairs == return_pairs(invalid_chat_body(target))
    }
    &&& has_name(old.chats@, target) && !may_write(old.chats@[index_of(old.chats@, target)].1.perms@, sender) ==> {
        &&& new.history_view() == old.history_view()
        &&& pairs == return_pairs(no_permission_body(target))
    }
    &&& has_name(old.chats@, target) && may_write(old.chats@[index_of(old.chats@, target)].1.perms@, sender) ==> {
        let bodies = injected.push(BodyM::ChatSent { chat_sender: sender, chat_target: target, chat_content: content });
        &&& logged(old.history_view(), new.history_view(), bodies)
        &&& pairs == broadcast_pairs(old.history_view().next, target, bodies)
    }
}

pub open spec fn setup_entry(c: (String, Chat)) -> ChatSetupM {
    ChatSetupM { name: c.0@, perm: c.1.perms@ }
}

pub open spec fn setup_entries(chats: Seq<(String, Chat)>) -> Seq<ChatSetupM> {
    Seq::new(chats.len(), |i: int| setup_entry(chats[i]))
}

/// The `Setup` message that announces `chats`.
pub open spec fn setup_body(chats: Seq<(String, Chat)>) -> BodyM {
    BodyM::Setup { chats: setup_entries(chats) }
}

/// The outcome of a successful login of `name` holding `token`: the history
/// gains `PlayerJoined`, and the user receives welcome and recap.
pub open spec fn login_outcome(old: YapnetState, new: YapnetState, pairs: Seq<(ResponseM, MessageM)>, name: Seq<char>, token: Token) -> bool {
    &&& new.wf()
    &&& new.chats == old.chats
    &&& logged(old.history_view(), new.history_view(), seq![BodyM::PlayerJoined { username: name }])
    &&& pairs == login_pairs(
        name,
        token,
        recap_bodies(visible(old.history_view().entries, name, old.chats@), RECAP_CHUNK_SZ as nat),
        old.history_view().next,
    )
}

/// The outcome of a message `b` from the logged-in user `username`.
pub open spec fn handled_outcome(
    old: YapnetState,
    new: YapnetState,
    pairs: Seq<(ResponseM, MessageM)>,
    username: Seq<char>,
    b: BodyM,
    injected: Seq<BodyM>,
) -> bool {
    &&& new.wf()
    &&& b matches BodyM::ChatSend { chat_target, chat_content } ==> chat_send_outcome(
        old,
        new,
        pairs,
        username,
        chat_target,
        chat_content,
        injected,
    )
    &&& !(b is ChatSend) ==> {
        &&& new.users == old.users
        &&& new.chats == old.chats
        &&& new.history_view() == old.history_view()
    }
    &&& b matches BodyM::Echo { payload } ==> pairs == return_pairs(BodyM::Echo { payload })
    &&& server_only(b) ==> pairs == return_pairs(invalid_action_body(tag_of(b)))
    &&& b is Error ==> pairs == Seq::<(ResponseM, MessageM)>::empty()
}

/// Bodies that only the server sends.
pub open spec fn server_only(b: BodyM) -> bool {
    ||| b is Welcome
    ||| b is ChatSent
    ||| b is PlayerLeft
    ||| b is PlayerJoined
    ||| b is RecapHead
    ||| b is RecapTail
    ||| b is Setup
}

/// The permission clause for a chat's `allowed` setting: everyone for
/// `any` or `all`, nobody for `none`, otherwise the group of that name.
pub open spec fn allowed_perm(allowed: Seq<char>) -> PermM {
    if allowed == "any"@ || allowed == "all"@ {
        PermM::Any { rw: 3 }
    } else if allowed == "none"@ {
        PermM::User { rw: 3, name: "__Noone"@ }
    } else {
        PermM::Group { rw: 3, name: allowed }
    }
}

/// The chat `chat` comes from a `(name, allowed)` pair of `configs`.
pub open spec fn configured(configs: Seq<(String, String)>, chat: (String, Chat)) -> bool {
    exists|k: int| {
        &&& 0 <= k < configs.len()
        &&& (#[trigger] configs[k]).0 == chat.0
        &&& chat.1.perms@ == seq![allowed_perm(configs[k].1@)]
    }
}

/// The permission clause for a chat's `allowed` setting.
pub fn perm_for_allowed(allowed: &String) -> (r: Perm)
    ensures
        (allowed@ == "any"@ || allowed@ == "all"@) ==> r@ == (PermM::Any { rw: 3 }),
        allowed@ == "none"@ ==> r@ == (PermM::User { rw: 3, name: "__Noone"@ }),
        !(allowed@ == "any"@ || allowed@ == "all"@ || allowed@ == "none"@) ==> r@ == (PermM::Group { rw: 3, name: allowed@ }),
        r@ == allowed_perm(allowed@),
{
    proof {
        reveal_strlit("any");
        reveal_strlit("all");
        reveal_strlit("none");
        assert("any"@.len() == 3 && "all"@.len() == 3 && "none"@.len() == 4);
        assert("any"@ != "none"@ && "all"@ != "none"@);
    }
    let any = String::from_str("any");
    let all = String::from_str("all");
    let none = String::from_str("none");
    if *allowed == any || *allowed == all {
        Perm::Any { rw: 3 }
    } else if *allowed == none {
        assert(allowed@ != "any"@ && allowed@ != "all"@);
        let r = Perm::User { rw: 3, name: String::from_str("__Noone") };
        assert(r@ == (PermM::User { rw: 3, name: "__Noone"@ }));
        r
    } else {
        Perm::Group { rw: 3, name: allowed.clone() }
    }
}

/// Relies on uuid::Uuid::new_v4: a fresh random token, of which nothing is promised.
#[verifier::external_body]
fn fresh_token() -> (r: Token) {
    uuid::Uuid::new_v4().as_u128()
}

impl ResponseFrame {
    /// A frame whose logged messages continue the state's history.
    pub fn from_state(state: &YapnetState, cap: usize) -> (r: ResponseFrame)
        requires
            state.wf(),
        ensures
            r.wf(),
            r@ == (FrameM {
                history: HistoryM { start: state.history_view().next, next: state.history_view().next, entries: Seq::empty() },
                responses: Seq::empty(),
                ephemerals: Seq::empty(),
            }),
    {
        ResponseFrame::new(&state.history, cap)
    }
}

impl YapnetState {
    pub open spec fn history_view(&self) -> HistoryM {
        self.history@
    }

    /// The history is numbered without gaps, user and chat names are keys,
    /// and no two users hold the same token.
    pub open spec fn wf(&self) -> bool {
        &&& history_wf(self.history_view())
        &&& names_unique(self.users@)
        &&& names_unique(self.chats@)
        &&& tokens_unique(self.users@)
    }

    /// `k` more messages can be numbered.
    pub open spec fn has_room(&self, k: nat) -> bool {
        self.history_view().next + k < u64::MAX
    }

    pub fn new() -> (r: YapnetState)
        ensures
            r.wf(),
            r.history_view() == (HistoryM { start: 0, next: 0, entries: Seq::empty() }),
            r.chats@ == Seq::<(String, Chat)>::empty(),
            r.users@ == Seq::<(String, User)>::empty(),
    {
        YapnetState { history: History::new(), chats: Vec::new(), users: Vec::new() }
    }

    /// The history of logged messages.
    pub fn history(&self) -> (r: &History)
        ensures
            r@ == self.history_view(),
    {
        &self.history
    }

    /// The number the next logged message will carry.
    pub fn next_seq(&self) -> (r: u64)
        ensures
            r == self.history_view().next,
    {
        self.history.next_seq()
    }

    /// Adds a chat, unless one of that name exists; says whether it did.
    pub fn add_chat(&mut self, name: String, perms: Perms) -> (r: bool)
        requires
            old(self).wf(),
        ensures
            final(self).wf(),
            r == !has_name(old(self).chats@, name@),
            final(self).users == old(self).users,
            final(self).history_view() == old(self).history_view(),
            !r ==> final(self).chats == old(self).chats,
            r ==> {
                &&& final(self).chats@.len() == old(self).chats@.len() + 1
                &&& final(self).chats@.drop_last() == old(self).chats@
                &&& final(self).chats@.last().0 == name
                &&& final(self).chats@.last().1.perms == perms
                &&& final(self).chats@.last().1.messages@ == Seq::<usize>::empty()
            },
    {
        if lookup(&self.chats, &name).is_some() {
            return false;
        }
        let ghost nm = name@;
        self.chats.push((name, Chat::new(perms)));
        assert(self.chats@.drop_last() =~= old(self).chats@);
        proof {
            let c = self.chats@;
            assert forall|i: int, j: int| 0 <= i < j < c.len() implies (#[trigger] c[i]).0@ != (#[trigger] c[j]).0@ by {
                assert(c[i] == old(self).chats@[i]);
                if j < c.len() - 1 {
                    assert(c[j] == old(self).chats@[j]);
                } else {
                    assert(!(0 <= i < old(self).chats@.len() && (#[trigger] old(self).chats@[i]).0@ == nm));
                }
            }
        }
        true
    }

    /// Logs a `Setup` message that announces every chat with its permissions.
    pub fn push_setup_message(&mut self)
        requires
            old(self).wf(),
            old(self).has_room(1),
        ensures
            final(self).wf(),
            final(self).users == old(self).users,
            final(self).chats == old(self).chats,
            logged(old(self).history_view(), final(self).history_view(), seq![setup_body(old(self).chats@)]),
    {
        let mut chats: Vec<ChatSetup> = Vec::new();
        let n = self.chats.len();
        let mut i: usize = 0;
        while i < n
            invariant
                n == self.chats@.len(),
                i <= n,
                chats@.len() == i,
                forall|j: int| 0 <= j < i ==> (#[trigger] chats@[j])@ == setup_entry(self.chats@[j]),
            decreases n - i,
        {
            chats.push(ChatSetup { name: self.chats[i].0.clone(), perm: self.chats[i].1.perms.duplicate() });
            i += 1;
        }
        let ghost expect = setup_entries(self.chats@);
        let body = Body::Setup { chats };
        assert(body@ == setup_body(self.chats@)) by {
            assert(chats@.map_values(|c: ChatSetup| c@) =~= expect);
        }
        let ghost h0 = self.history@;
        self.history.push(body);
        assert(self.history@.entries.take(h0.entries.len() as int) =~= h0.entries);
    }

    /// Whether `username` may see `msg`.
    pub fn user_can_view(&self, msg: &MessageV2, username: &String) -> (r: bool)
        ensures
            r == can_view(msg@.data, username@, self.chats@),
    {
        if msg.data.is_global() {
            return true;
        }
        if let Some(uname) = msg.data.subject() {
            if uname == *username {
                return true;
            }
        }
        if let Some(chatn) = msg.data.chat() {
            if let Some(j) = lookup(&self.chats, &chatn) {
                return self.chats[j].1.can_read(username);
            }
        }
        false
    }

    /// The recap for `username`: a head, then the visible history in chunks.
    pub fn recap(&self, username: &String) -> (r: Vec<Body>)
        requires
            self.wf(),
        ensures
            bodies_view(r@) == recap_bodies(
                visible(self.history_view().entries, username@, self.chats@),
                RECAP_CHUNK_SZ as nat,
            ),
    {
        let ghost entries = self.history_view().entries;
        let mut mbuf: Vec<&MessageV2> = Vec::new();
        let n = self.history.len();
        let mut i: usize = 0;
        while i < n
            invariant
                self.wf(),
                entries == self.history_view().entries,
                n == entries.len(),
                i <= n,
                refs_view(mbuf@) == visible(entries.take(i as int), username@, self.chats@),
            decreases n - i,
        {
            let m = self.history.get(i);
            assert(entries.take(i + 1).drop_last() =~= entries.take(i as int));
            assert(entries.take(i + 1).last() == entries[i as int]);
            let ghost before = mbuf@;
            if self.user_can_view(m, username) {
                mbuf.push(m);
                assert(refs_view(mbuf@) =~= refs_view(before).push((*m)@));
            }
            i += 1;
        }
        assert(entries.take(n as int) =~= entries);
        recap_chunks(&mbuf, RECAP_CHUNK_SZ)
    }

    /// Welcome, then recap, to the joining user; `PlayerJoined` to the others.
    fn successful_login(&mut self, username: &String, uuid: Token) -> (r: ResponseView)
        requires
            old(self).wf(),
            old(self).has_room(1),
        ensures
            final(self).wf(),
            r.wf(),
            final(self).users == old(self).users,
            final(self).chats == old(self).chats,
            logged(
                old(self).history_view(),
                final(self).history_view(),
                seq![BodyM::PlayerJoined { username: username@ }],
            ),
            r.pairs() == login_pairs(
                username@,
                uuid,
                recap_bodies(visible(old(self).history_view().entries, username@, old(self).chats@), RECAP_CHUNK_SZ as nat),
                old(self).history_view().next,
            ),
    {
        let recap = self.recap(username);
        let ghost rb = bodies_view(recap@);
        let ghost next = self.history_view().next;
        let mut frame = ResponseFrame::new(&self.history, 8);
        frame.ret(Body::Welcome { username: username.clone(), token: uuid });
        frame.ret_all(recap);
        frame.broadcast_ex(Body::PlayerJoined { username: username.clone() }, String::from_str(ALL_AUDIENCE));
        let ghost f = frame@;
        let ghost h0 = self.history_view();
        let view = self.commit(frame);
        proof {
            let expect = login_pairs(username@, uuid, rb, next);
            let got = resolve_all(f, 0);
            assert(got.len() == expect.len());
            assert forall|i: int| 0 <= i < got.len() implies got[i] == expect[i] by {
                if i == 0 {
                } else if i <= rb.len() {
                    assert(f.responses[i] == ResponseM::Return(i as nat));
                    assert(f.ephemerals[i] == (MessageM { seq: 0, data: rb[i - 1] }));
                } else {
                    assert(f.history.entries[0]@ == (MessageM { seq: next, data: BodyM::PlayerJoined { username: username@ } }));
                }
            }
            assert(got =~= expect);
            assert(self.history_view().entries.take(h0.entries.len() as int) =~= h0.entries);
            assert(self.history_view().entries[h0.entries.len() as int] == f.history.entries[0]);
        }
        view
    }

    /// Registers a new user with the given token and logs them in. A name
    /// that is taken is refused, and so is a token that another user holds.
    pub fn new_user_with_token(&mut self, username: &String, token: Token) -> (r: Result<ResponseView, ServerError>)
        requires
            old(self).wf(),
            old(self).has_room(1),
        ensures
            final(self).wf(),
            has_name(old(self).users@, username@) <==> (r matches Err(e) && e == ServerError::NameTaken(*username)),
            !has_name(old(self).users@, username@) && has_token(old(self).users@, token)
                <==> r matches Err(ServerError::InvalidToken),
            r matches Err(e) ==> (e == ServerError::NameTaken(*username) || e is InvalidToken),
            r is Err ==> *final(self) == *old(self),
            r matches Ok(view) ==> {
                &&& final(self).users@ == old(self).users@.push((*username, User { online: true, uuid: token }))
                &&& login_outcome(*old(self), *final(self), view.pairs(), username@, token)
                &&& view.wf()
            },
    {
        if lookup(&self.users, username).is_some() {
            return Err(ServerError::NameTaken(username.clone()));
        }
        if self.find_token(token).is_some() {
            return Err(ServerError::InvalidToken);
        }
        let ghost nm = username@;
        self.users.push((username.clone(), User::new(token)));
        proof {
            let u = self.users@;
            let o = old(self).users@;
            assert forall|i: int, j: int| 0 <= i < j < u.len() implies (#[trigger] u[i]).0@ != (#[trigger] u[j]).0@
                && u[i].1.uuid != u[j].1.uuid by {
                assert(u[i] == o[i]);
                if j < o.len() {
                    assert(u[j] == o[j]);
                } else {
                    assert(!(0 <= i < o.len() && (#[trigger] o[i]).0@ == nm));
                    assert(!(0 <= i < o.len() && (#[trigger] o[i]).1.uuid == token));
                }
            }
        }
        Ok(self.successful_login(username, token))
    }

    /// Registers a new user under a fresh random token that no user holds,
    /// and logs them in. A taken name is refused. With no users yet the
    /// registration succeeds; otherwise, should every draw of a few collide
    /// with a held token, it fails with `InvalidToken` and nothing changes.
    pub fn new_user(&mut self, username: &String) -> (r: Result<ResponseView, ServerError>)
        requires
            old(self).wf(),
            old(self).has_room(1),
        ensures
            final(self).wf(),
            has_name(old(self).users@, username@) <==> (r matches Err(e) && e == ServerError::NameTaken(*username)),
            old(self).users@.len() == 0 ==> r is Ok,
            r matches Err(e) ==> (e == ServerError::NameTaken(*username) || e is InvalidToken),
            r is Err ==> *final(self) == *old(self),
            r matches Ok(view) ==> {
                let token = final(self).users@.last().1.uuid;
                &&& !has_token(old(self).users@, token)
                &&& final(self).users@ == old(self).users@.push((*username, User { online: true, uuid: token }))
                &&& login_outcome(*old(self), *final(self), view.pairs(), username@, token)
                &&& view.wf()
            },
    {
        if lookup(&self.users, username).is_some() {
            return Err(ServerError::NameTaken(username.clone()));
        }
        let mut tries: usize = 0;
        while tries < TOKEN_DRAWS
            invariant
                *self == *old(self),
                self.wf(),
                self.has_room(1),
                !has_name(old(self).users@, username@),
                old(self).users@.len() == 0 ==> tries == 0,
            decreases TOKEN_DRAWS - tries,
        {
            let token = fresh_token();
            if self.find_token(token).is_none() {
                return self.new_user_with_token(username, token);
            }
            tries += 1;
        }
        Err(ServerError::InvalidToken)
    }

    /// The position of the first user holding `token`.
    fn find_token(&self, token: Token) -> (r: Option<usize>)
        ensures
            r is None <==> !has_token(self.users@, token),
            r matches Some(i) ==> first_with_token(self.users@, token, i as int) && token_holder(self.users@, token) == i,
    {
        let n = self.users.len();
        let mut i: usize = 0;
        while i < n
            invariant
                n == self.users@.len(),
                i <= n,
                forall|j: int| 0 <= j < i ==> (#[trigger] self.users@[j]).1.uuid != token,
            decreases n - i,
        {
            if self.users[i].1.uuid == token {
                proof {
                    let k = token_holder(self.users@, token);
                    assert(first_with_token(self.users@, token, i as int));
                    assert(first_with_token(self.users@, token, k));
                    if k < i {
                        assert(self.users@[k].1.uuid != token);
                    }
                    if i < k {
                        assert(self.users@[i as int].1.uuid != token);
                    }
                }
                return Some(i);
            }
            i += 1;
        }
        None
    }

    /// Logs back in the offline user who holds `token`.
    pub fn reauth_user(&mut self, token: Token) -> (r: Result<(String, ResponseView), ServerError>)
        requires
            old(self).wf(),
            old(self).has_room(1),
        ensures
            final(self).wf(),
            !has_token(old(self).users@, token) <==> r matches Err(ServerError::InvalidToken),
            has_token(old(self).users@, token) && old(self).users@[token_holder(old(self).users@, token)].1.online
                <==> r matches Err(ServerError::AlreadyJoinedOrLeft),
            r is Err ==> *final(self) == *old(self),
            r matches Err(e) ==> (e is InvalidToken || e is AlreadyJoinedOrLeft),
            forall|k: int| 0 <= k < old(self).users@.len() && (#[trigger] old(self).users@[k]).1.uuid == token
                ==> token_holder(old(self).users@, token) == k,
            r matches Ok(p) ==> {
                let i = token_holder(old(self).users@, token);
                let name = old(self).users@[i].0;
                &&& p.0 == name
                &&& final(self).users@ == old(self).users@.update(i, (name, User { online: true, uuid: token }))
                &&& login_outcome(*old(self), *final(self), p.1.pairs(), name@, token)
                &&& p.1.wf()
            },
    {
        let i = match self.find_token(token) {
            Some(i) => i,
            None => return Err(ServerError::InvalidToken),
        };
        proof {
            let u = old(self).users@;
            assert forall|k: int| 0 <= k < u.len() && (#[trigger] u[k]).1.uuid == token implies token_holder(u, token) == k by {
                if k < i {
                    assert(u[k].1.uuid != u[i as int].1.uuid);
                } else if k > i {
                    assert(u[i as int].1.uuid != u[k].1.uuid);
                }
            }
        }
        if self.users[i].1.online {
            return Err(ServerError::AlreadyJoinedOrLeft);
        }
        let uname = self.users[i].0.clone();
        self.users.set(i, (uname.clone(), User { online: true, uuid: token }));
        proof { lemma_keys_kept(old(self).users@, self.users@); }
        let view = self.successful_login(&uname, token);
        Ok((uname, view))
    }

    /// Marks the user `username` offline without logging anything; says
    /// whether they were online.
    pub fn set_offline(&mut self, username: &String) -> (r: bool)
        requires
            old(self).wf(),
        ensures
            final(self).wf(),
            final(self).chats == old(self).chats,
            final(self).history_view() == old(self).history_view(),
            r == (has_name(old(self).users@, username@) && old(self).users@[index_of(old(self).users@, username@)].1.online),
            !r ==> *final(self) == *old(self),
            r ==> {
                let k = index_of(old(self).users@, username@);
                let user = old(self).users@[k];
                final(self).users@ == old(self).users@.update(k, (user.0, User { online: false, uuid: user.1.uuid }))
            },
    {
        let i = match lookup(&self.users, username) {
            Some(i) => i,
            None => return false,
        };
        if !self.users[i].1.online {
            return false;
        }
        let uuid = self.users[i].1.uuid;
        let name = self.users[i].0.clone();
        self.users.set(i, (name, User { online: false, uuid }));
        proof { lemma_keys_kept(old(self).users@, self.users@); }
        true
    }

    /// A lobby with one chat per configured `(name, allowed)` pair, in the
    /// order given (a repeated name keeps its first setting), and the
    /// `Setup` message that announces them logged as entry 0.
    pub fn from_chat_configs(configs: &Vec<(String, String)>) -> (r: YapnetState)
        ensures
            r.wf(),
            r.users@.len() == 0,
            r.chats@.len() <= configs@.len(),
            forall|k: int| 0 <= k < configs@.len() ==> has_name(r.chats@, (#[trigger] configs@[k]).0@),
            forall|i: int| 0 <= i < r.chats@.len() ==> configured(configs@, #[trigger] r.chats@[i]),
            logged(
                HistoryM { start: 0, next: 0, entries: Seq::empty() },
                r.history_view(),
                seq![setup_body(r.chats@)],
            ),
    {
        let mut state = YapnetState::new();
        let n = configs.len();
        let mut i: usize = 0;
        while i < n
            invariant
                n == configs@.len(),
                i <= n,
                state.wf(),
                state.users@.len() == 0,
                state.history_view() == (HistoryM { start: 0, next: 0, entries: Seq::empty() }),
                state.chats@.len() <= i,
                forall|k: int| 0 <= k < i ==> has_name(state.chats@, (#[trigger] configs@[k]).0@),
                forall|c: int| 0 <= c < state.chats@.len() ==> configured(configs@, #[trigger] state.chats@[c]),
            decreases n - i,
        {
            let ghost before = state.chats@;
            let perm = perm_for_allowed(&configs[i].1);
            let perms = Perms::wrap_vec(vec![perm]);
            assert(perms@ =~= seq![allowed_perm(configs@[i as int].1@)]);
            let added = state.add_chat(configs[i].0.clone(), perms);
            proof {
                let now = state.chats@;
                assert forall|k: int| 0 <= k < i + 1 implies has_name(now, (#[trigger] configs@[k]).0@) by {
                    if k < i {
                        let w = choose|w: int| 0 <= w < before.len() && (#[trigger] before[w]).0@ == configs@[k].0@;
                        if added {
                            assert(now[w] == now.drop_last()[w]);
                        }
                    } else if added {
                        assert(now[now.len() - 1].0@ == configs@[k].0@);
                    }
                }
                assert forall|c: int| 0 <= c < now.len() implies configured(configs@, #[trigger] now[c]) by {
                    if c < before.len() {
                        if added {
                            assert(now[c] == now.drop_last()[c]);
                        }
                        assert(now[c] == before[c]);
                    } else {
                        assert(configs@[i as int].0 == now[c].0);
                        assert(configured(configs@, now[c]));
                    }
                }
            }
            i += 1;
        }
        let ghost c0 = state.chats@;
        state.push_setup_message();
        proof {
            let c1 = state.chats@;
            assert(c1 == c0);
            assert forall|c: int| 0 <= c < c1.len() implies configured(configs@, #[trigger] c1[c]) by {
                assert(c0[c] == c1[c]);
            }
        }
        state
    }

    /// Adds the chat that a lobby without configuration has: `general`,
    /// open to everyone for reading and writing.
    pub fn add_default_chats(&mut self)
        requires
            old(self).wf(),
        ensures
            final(self).wf(),
            final(self).users == old(self).users,
            final(self).history_view() == old(self).history_view(),
            !has_name(old(self).chats@, "general"@) ==> {
                &&& final(self).chats@.drop_last() == old(self).chats@
                &&& final(self).chats@.last().0@ == "general"@
                &&& final(self).chats@.last().1.perms@ == seq![PermM::Any { rw: 3 }]
            },
            has_name(old(self).chats@, "general"@) ==> final(self).chats == old(self).chats,
    {
        let perms = Perms::wrap_vec(vec![Perm::Any { rw: 3 }]);
        assert(perms@ =~= seq![PermM::Any { rw: 3 }]);
        self.add_chat(String::from_str("general"), perms);
    }

    /// Marks an online user offline and tells everyone that they left.
    pub fn player_leave(&mut self, userc: &String) -> (r: Result<ResponseView, ServerError>)
        requires
            old(self).wf(),
            old(self).has_room(1),
        ensures
            final(self).wf(),
            !has_name(old(self).users@, userc@) || !old(self).users@[index_of(old(self).users@, userc@)].1.online
                <==> r is Err,
            r matches Err(e) ==> e == ServerError::AlreadyJoinedOrLeft && *final(self) == *old(self),
            r matches Ok(view) ==> {
                let i = index_of(old(self).users@, userc@);
                let user = old(self).users@[i];
                &&& final(self).users@ == old(self).users@.update(i, (user.0, User { online: false, uuid: user.1.uuid }))
                &&& final(self).chats == old(self).chats
                &&& logged(old(self).history_view(), final(self).history_view(), seq![BodyM::PlayerLeft { username: userc@ }])
                &&& view.pairs() == broadcast_pairs(
                    old(self).history_view().next,
                    ALL_AUDIENCE@,
                    seq![BodyM::PlayerLeft { username: userc@ }],
                )
                &&& view.wf()
            },
    {
        let i = match lookup(&self.users, userc) {
            Some(i) => i,
            None => return Err(ServerError::AlreadyJoinedOrLeft),
        };
        if !self.users[i].1.online {
            return Err(ServerError::AlreadyJoinedOrLeft);
        }
        let uuid = self.users[i].1.uuid;
        let name = self.users[i].0.clone();
        self.users.set(i, (name, User { online: false, uuid }));
        proof { lemma_keys_kept(old(self).users@, self.users@); }
        let ghost next = self.history_view().next;
        let ghost h0 = self.history_view();
        let mut frame = ResponseFrame::new(&self.history, 1);
        frame.broadcast(Body::PlayerLeft { username: userc.clone() }, String::from_str(ALL_AUDIENCE));
        let ghost f = frame@;
        let view = self.commit(frame);
        proof {
            let expect = broadcast_pairs(next, ALL_AUDIENCE@, seq![BodyM::PlayerLeft { username: userc@ }]);
            assert(resolve_all(f, 0) =~= expect);
            assert(self.history_view().entries.take(h0.entries.len() as int) =~= h0.entries);
            assert(self.history_view().entries[h0.entries.len() as int] == f.history.entries[0]);
        }
        Ok(view)
    }

    /// Whether `sender` may send to the chat `chat_target`, and if not, why.
    pub fn check_chat_send(&self, sender: &String, chat_target: &String) -> (r: Result<usize, ClientError>)
        ensures
            !has_name(self.chats@, chat_target@) ==> (r matches Err(e) && client_error_body(e) == invalid_chat_body(chat_target@)),
            has_name(self.chats@, chat_target@) && !may_write(self.chats@[index_of(self.chats@, chat_target@)].1.perms@, sender@)
                ==> (r matches Err(e) && client_error_body(e) == no_permission_body(chat_target@)),
            has_name(self.chats@, chat_target@) && may_write(self.chats@[index_of(self.chats@, chat_target@)].1.perms@, sender@)
                ==> r == Ok::<usize, ClientError>(index_of(self.chats@, chat_target@) as usize),
    {
        match lookup(&self.chats, chat_target) {
            None => Err(ClientError::InvalidChat(chat_target.clone(), String::from_str("Not found"))),
            Some(j) => {
                if self.chats[j].1.can_write(sender) {
                    Ok(j)
                } else {
                    Err(ClientError::NoPermission(chat_target.clone(), String::from_str("No write permission")))
                }
            },
        }
    }

    /// A chat send: script messages first, then the `ChatSent`, each
    /// broadcast to the chat's readers; or an error to the sender.
    pub fn handle_chat(&mut self, sender: &String, chat_target: String, chat_content: String, injected: Vec<Body>) -> (r: ResponseView)
        requires
            old(self).wf(),
            old(self).has_room(injected@.len() + 1),
        ensures
            chat_send_outcome(*old(self), *final(self), r.pairs(), sender@, chat_target@, chat_content@, bodies_view(injected@)),
            r.wf(),
    {
        let ghost h0 = self.history_view();
        let ghost items = bodies_view(injected@);
        let ghost target = chat_target@;
        let ghost sent = BodyM::ChatSent { chat_sender: sender@, chat_target: chat_target@, chat_content: chat_content@ };
        let mut frame = ResponseFrame::new(&self.history, 2);
        match self.check_chat_send(sender, &chat_target) {
            Err(e) => {
                let ghost eb = client_error_body(e);
                frame.error(e);
                let ghost f = frame@;
                let view = self.commit(frame);
                assert(resolve_all(f, 0) =~= return_pairs(eb));
                assert(self.history_view().entries =~= h0.entries);
                view
            },
            Ok(_) => {
                let mut rest = injected;
                let ghost all = rest@;
                let mut done: usize = 0;
                let total = rest.len();
                while rest.len() > 0
                    invariant
                        frame.wf(),
                        all.len() == total,
                        items == bodies_view(all),
                        done + rest@.len() == all.len(),
                        rest@ == all.subrange(done as int, all.len() as int),
                        h0.next + all.len() + 1 < u64::MAX,
                        frame@.history.start == h0.next,
                        frame@.history.next == h0.next + done,
                        frame@.ephemerals.len() == 0,
                        frame@.history.entries.len() == done,
                        forall|i: int| 0 <= i < done ==> (#[trigger] frame@.history.entries[i])@ == (MessageM {
                            seq: (h0.next + i) as u64,
                            data: items[i],
                        }),
                        frame@.responses == Seq::new(done as nat, |i: int| ResponseM::Broadcast((h0.next + i) as u64, chat_target@)),
                    decreases rest@.len(),
                {
                    let b = rest.remove(0);
                    assert(b@ == items[done as int]);
                    frame.broadcast(b, chat_target.clone());
                    assert(frame@.responses =~= Seq::new(
                        (done + 1) as nat,
                        |i: int| ResponseM::Broadcast((h0.next + i) as u64, chat_target@),
                    ));
                    done = done + 1;
                    assert(rest@ =~= all.subrange(done as int, all.len() as int));
                }
                let key = chat_target.clone();
                frame.broadcast(Body::ChatSent { chat_sender: sender.clone(), chat_target, chat_content }, key);
                let ghost f = frame@;
                let ghost bodies = items.push(sent);
                let view = self.commit(frame);
                proof {
                    let expect = broadcast_pairs(h0.next, target, bodies);
                    let got = resolve_all(f, 0);
                    assert forall|i: int| 0 <= i < got.len() implies got[i] == expect[i] by {
                        assert(f.history.entries[i]@ == (MessageM { seq: (h0.next + i) as u64, data: bodies[i] }));
                    }
                    assert(got =~= expect);
                    let h1 = self.history_view();
                    assert(h1.entries.take(h0.entries.len() as int) =~= h0.entries);
                    assert forall|i: int| 0 <= i < bodies.len() implies (#[trigger] h1.entries[h0.entries.len() + i])@
                        == (MessageM { seq: (h0.next + i) as u64, data: bodies[i] }) by {
                        assert(h1.entries[h0.entries.len() + i] == f.history.entries[i]);
                    }
                }
                view
            },
        }
    }

    /// Sends `msg` back to the originator only.
    pub fn return_response(&mut self, msg: Body) -> (r: ResponseView)
        requires
            old(self).wf(),
        ensures
            final(self).wf(),
            final(self).users == old(self).users,
            final(self).chats == old(self).chats,
            final(self).history_view() == old(self).history_view(),
            r.pairs() == return_pairs(msg@),
            r.wf(),
    {
        let ghost b = msg@;
        let ghost h0 = self.history_view();
        let mut frame = ResponseFrame::new(&self.history, 1);
        frame.ret(msg);
        let ghost f = frame@;
        let view = self.commit(frame);
        assert(resolve_all(f, 0) =~= return_pairs(b));
        assert(self.history_view().entries =~= h0.entries);
        view
    }

    /// Answers a message from a logged-in user: a chat send is carried out,
    /// an echo is sent back unchanged, a server-only body is refused, and an
    /// error body is ignored.
    pub fn handle_message(&mut self, username: &String, m: MessageV2, injected: Vec<Body>) -> (r: ResponseView)
        requires
            old(self).wf(),
            m.data is ChatSend ==> old(self).has_room(injected@.len() + 1),
            !(m.data is Hello),
            !(m.data is Back),
        ensures
            handled_outcome(*old(self), *final(self), r.pairs(), username@, m@.data, bodies_view(injected@)),
            r.wf(),
    {
        let tag = m.data.msg_type();
        match m.data {
            Body::ChatSend { chat_target, chat_content } => self.handle_chat(username, chat_target, chat_content, injected),
            Body::Echo { payload } => self.return_response(Body::Echo { payload }),
            Body::Error { .. } | Body::Hello { .. } | Body::Back { .. } => ResponseView::new(0),
            _ => {
                let e = ClientError::InvalidAction(String::from_str(tag), String::from_str("Server side message sent by a client"));
                self.return_response(e.into_body())
            },
        }
    }

    /// Merges a frame into the history and resolves its actions.
    fn commit(&mut self, frame: ResponseFrame) -> (r: ResponseView)
        requires
            old(self).wf(),
            frame.wf(),
            frame@.history.start == old(self).history_view().next,
        ensures
            final(self).wf(),
            final(self).users == old(self).users,
            final(self).chats == old(self).chats,
            final(self).history_view() == (HistoryM {
                start: old(self).history_view().start,
                next: frame@.history.next,
                entries: old(self).history_view().entries + frame@.history.entries,
            }),
            r.pairs() == resolve_all(frame@, 0),
            r.wf(),
    {
        let mut view = ResponseView::new(2);
        view.push_frame(frame, &mut self.history);
        assert(view.pairs() =~= resolve_all(frame@, 0));
        view
    }
}

/// The messages a recap body carries.
pub open spec fn tail_msgs(b: BodyM) -> Seq<MessageM> {
    match b {
        BodyM::RecapTail { msgs, .. } => msgs,
        _ => Seq::empty(),
    }
}

/// The messages of a run of recap bodies, concatenated in order.
pub open spec fn concat_msgs(s: Seq<BodyM>) -> Seq<MessageM>
    decreases s.len(),
{
    if s.len() == 0 {
        Seq::empty()
    } else {
        tail_msgs(s[0]) + concat_msgs(s.drop_first())
    }
}

proof fn lemma_tails_concat(vis: Seq<MessageM>, n: nat, start: nat)
    requires
        n > 0,
        start <= vis.len(),
    ensures
        concat_msgs(tails_from(vis, n, start)) == vis.subrange(start as int, vis.len() as int),
    decreases vis.len() - start,
{
    if start < vis.len() {
        let end: nat = if start + n < vis.len() { start + n } else { vis.len() };
        lemma_tails_concat(vis, n, end);
        let t = tails_from(vis, n, start);
        assert(t.drop_first() =~= tails_from(vis, n, end));
        assert(vis.subrange(start as int, end as int) + vis.subrange(end as int, vis.len() as int) =~= vis.subrange(
            start as int,
            vis.len() as int,
        ));
    } else {
        assert(vis.subrange(start as int, vis.len() as int) =~= Seq::<MessageM>::empty());
    }
}

proof fn lemma_tails_count(vis: Seq<MessageM>, n: nat, start: nat)
    requires
        n > 0,
        start <= vis.len(),
    ensures
        tails_from(vis, n, start).len() * n >= vis.len() - start,
        tails_from(vis, n, start).len() == 0 || (tails_from(vis, n, start).len() - 1) * n < vis.len() - start,
        tails_from(vis, n, start).len() == 0 <==> start == vis.len(),
    decreases vis.len() - start,
{
    if start < vis.len() {
        let end: nat = if start + n < vis.len() { start + n } else { vis.len() };
        lemma_tails_count(vis, n, end);
        let t: nat = tails_from(vis, n, end).len();
        let rem: int = vis.len() - start;
        assert(tails_from(vis, n, start).len() == t + 1);
        if start + n < vis.len() {
            assert(t * n >= rem - n);
            assert(t == 0 || (t - 1) * n < rem - n);
            assert((t + 1) * n >= rem) by (nonlinear_arith)
                requires
                    t * n >= rem - n,
            ;
            assert(t * n < rem) by (nonlinear_arith)
                requires
                    t == 0 || (t - 1) * n < rem - n,
                    rem > n,
                    n > 0,
            ;
        } else {
            assert(t == 0);
            assert((t + 1) * n == n) by (nonlinear_arith)
                requires
                    t == 0,
            ;
        }
    } else {
        assert(0 * n == 0) by (nonlinear_arith);
    }
}

/// Visibility soundness: an entry of the history is in the recap for
/// `username` exactly when that user may see it.
pub proof fn lemma_recap_visibility(h: HistoryM, username: Seq<char>, chats: Seq<(String, Chat)>, i: int)
    requires
        history_wf(h),
        0 <= i < h.entries.len(),
    ensures
        concat_msgs(recap_bodies(visible(h.entries, username, chats), RECAP_CHUNK_SZ as nat).drop_first()).contains(
            h.entries[i]@,
        ) <==> can_view(h.entries[i]@.data, username, chats),
{
    let vis = visible(h.entries, username, chats);
    let n = RECAP_CHUNK_SZ as nat;
    assert(recap_bodies(vis, n).drop_first() =~= tails_from(vis, n, 0));
    lemma_visible_len(h.entries, username, chats);
    lemma_tails_concat(vis, n, 0);
    assert(vis.subrange(0, vis.len() as int) =~= vis);
    lemma_visible_members(h.entries, username, chats, h.start);
}

proof fn lemma_visible_len(entries: Seq<MessageV2>, username: Seq<char>, chats: Seq<(String, Chat)>)
    ensures
        visible(entries, username, chats).len() <= entries.len(),
    decreases entries.len(),
{
    if entries.len() > 0 {
        lemma_visible_len(entries.drop_last(), username, chats);
    }
}

/// With entries numbered `start + i`, an entry's model is among the
/// visible ones exactly when it may be seen, and only entries are there.
proof fn lemma_visible_members(entries: Seq<MessageV2>, username: Seq<char>, chats: Seq<(String, Chat)>, start: u64)
    requires
        forall|i: int| 0 <= i < entries.len() ==> (#[trigger] entries[i]).seq == start + i,
    ensures
        forall|i: int| 0 <= i < entries.len() ==> (visible(entries, username, chats).contains(#[trigger] entries[i]@)
            <==> can_view(entries[i]@.data, username, chats)),
        forall|k: int| 0 <= k < visible(entries, username, chats).len() ==> {
            let s = (#[trigger] visible(entries, username, chats)[k]).seq;
            start <= s < start + entries.len()
        },
    decreases entries.len(),
{
    if entries.len() > 0 {
        let rest = entries.drop_last();
        lemma_visible_members(rest, username, chats, start);
        let vr = visible(rest, username, chats);
        let v = visible(entries, username, chats);
        let last = entries.last();
        assert(last@.seq == start + entries.len() - 1);
        assert forall|i: int| 0 <= i < entries.len() implies (v.contains(#[trigger] entries[i]@) <==> can_view(
            entries[i]@.data,
            username,
            chats,
        )) by {
            if i < entries.len() - 1 {
                assert(entries[i] == rest[i]);
                assert(entries[i]@.seq == start + i);
                if can_view(last@.data, username, chats) {
                    assert(v == vr.push(last@));
                    if v.contains(entries[i]@) {
                        let k = choose|k: int| 0 <= k < v.len() && v[k] == entries[i]@;
                        if k == vr.len() {
                            assert(v[k] == last@);
                        } else {
                            assert(v[k] == vr[k]);
                        }
                    }
                    if vr.contains(entries[i]@) {
                        let k = choose|k: int| 0 <= k < vr.len() && vr[k] == entries[i]@;
                        assert(v[k] == vr[k]);
                    }
                }
            } else {
                if can_view(last@.data, username, chats) {
                    assert(v[vr.len() as int] == last@);
                } else {
                    if vr.contains(last@) {
                        let k = choose|k: int| 0 <= k < vr.len() && vr[k] == last@;
                        assert(vr[k].seq < start + rest.len());
                    }
                }
            }
        }
        assert forall|k: int| 0 <= k < v.len() implies {
            let s = (#[trigger] v[k]).seq;
            start <= s < start + entries.len()
        } by {
            if k < vr.len() {
                assert(vr[k] == v[k]);
            }
        }
    }
}

/// Recap completeness: the head counts the tails, the count is the
/// visible length divided by the chunk size, rounded up, and the tails
/// carry exactly the visible messages, in order.
pub proof fn lemma_recap_complete(vis: Seq<MessageM>, n: nat)
    requires
        n > 0,
        vis.len() <= usize::MAX,
        n <= usize::MAX,
    ensures
        recap_bodies(vis, n)[0] == (BodyM::RecapHead {
            count: (recap_bodies(vis, n).len() - 1) as usize,
            chunk_sz: n as usize,
        }),
        forall|k: int| 1 <= k < recap_bodies(vis, n).len() ==> #[trigger] recap_bodies(vis, n)[k] is RecapTail,
        (recap_bodies(vis, n).len() - 1) * n >= vis.len(),
        recap_bodies(vis, n).len() == 1 || (recap_bodies(vis, n).len() - 2) * n < vis.len(),
        recap_bodies(vis, n).len() - 1 == (vis.len() + n - 1) / (n as int),
        concat_msgs(recap_bodies(vis, n).drop_first()) == vis,
        concat_msgs(recap_bodies(vis, n).drop_first()).len() == vis.len(),
{
    lemma_tails_count(vis, n, 0);
    lemma_tails_concat(vis, n, 0);
    lemma_tails_from_shape(vis, n, 0);
    let t = tails_from(vis, n, 0);
    let c: int = t.len() as int;
    let l: int = vis.len() as int;
    let nn: int = n as int;
    assert(recap_bodies(vis, n).drop_first() =~= t);
    assert(vis.subrange(0, vis.len() as int) =~= vis);
    assert(c == (l + nn - 1) / nn) by {
        if c == 0 {
            assert(l == 0);
            assert((nn - 1) / nn == 0) by (nonlinear_arith)
                requires
                    nn > 0,
            ;
        } else {
            assert((c - 1) * nn < l && c * nn >= l);
            assert(c * nn <= l + nn - 1 < (c + 1) * nn) by (nonlinear_arith)
                requires
                    (c - 1) * nn < l,
                    c * nn >= l,
                    nn > 0,
            ;
            vstd::arithmetic::div_mod::lemma_fundamental_div_mod_converse(l + nn - 1, nn, c, l + nn - 1 - c * nn);
        }
    }
}

proof fn lemma_tails_from_shape(vis: Seq<MessageM>, n: nat, start: nat)
    requires
        n > 0,
    ensures
        forall|k: int| 0 <= k < tails_from(vis, n, start).len() ==> #[trigger] tails_from(vis, n, start)[k] is RecapTail,
    decreases vis.len() - start,
{
    if start < vis.len() {
        let end: nat = if start + n < vis.len() { start + n } else { vis.len() };
        lemma_tails_from_shape(vis, n, end);
        let t = tails_from(vis, n, start);
        assert forall|k: int| 0 <= k < t.len() implies #[trigger] t[k] is RecapTail by {
            if k > 0 {
                assert(t[k] == tails_from(vis, n, end)[k - 1]);
            }
        }
    }
}

} // verus!

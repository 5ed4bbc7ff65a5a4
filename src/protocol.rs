//! Message bodies, numbered envelopes and chat permissions.
use vstd::prelude::*;

verus! {

/// The token a user presents to reconnect (the value of a UUID).
pub type Token = u128;

/// The message body: a closed set of variants, each with a fixed short tag.
pub enum Body {
    Hello { username: String },
    Back { token: Token },
    Welcome { username: String, token: Token },
    Setup { chats: Vec<ChatSetup> },
    PlayerJoined { username: String },
    PlayerLeft { username: String },
    ChatSend { chat_target: String, chat_content: String },
    ChatSent { chat_sender: String, chat_target: String, chat_content: String },
    RecapHead { count: usize, chunk_sz: usize },
    RecapTail { start: usize, msgs: Vec<MessageV2> },
    Error { kind: String, info: String, details: String },
    Echo { payload: String },
}

/// A numbered envelope around a body.
pub struct MessageV2 {
    pub seq: u64,
    pub data: Body,
}

/// One permission clause of a chat.
pub enum Perm {
    User { rw: u8, name: String },
    Group { rw: u8, name: String },
    Any { rw: u8 },
}

/// The permission clauses of a chat; they combine by bitwise or.
pub struct Perms {
    pub clauses: Vec<Perm>,
}

/// The configuration of one chat, as announced in `Setup`.
pub struct ChatSetup {
    pub name: String,
    pub perm: Perms,
}


/// The model of a permission clause.
pub enum PermM {
    User { rw: u8, name: Seq<char> },
    Group { rw: u8, name: Seq<char> },
    Any { rw: u8 },
}

/// The model of a chat's configuration.
pub struct ChatSetupM {
    pub name: Seq<char>,
    pub perm: Seq<PermM>,
}

/// The model of a body.
pub enum BodyM {
    Hello { username: Seq<char> },
    Back { token: Token },
    Welcome { username: Seq<char>, token: Token },
    Setup { chats: Seq<ChatSetupM> },
    PlayerJoined { username: Seq<char> },
    PlayerLeft { username: Seq<char> },
    ChatSend { chat_target: Seq<char>, chat_content: Seq<char> },
    ChatSent { chat_sender: Seq<char>, chat_target: Seq<char>, chat_content: Seq<char> },
    RecapHead { count: usize, chunk_sz: usize },
    RecapTail { start: usize, msgs: Seq<MessageM> },
    Error { kind: Seq<char>, info: Seq<char>, details: Seq<char> },
    Echo { payload: Seq<char> },
}

/// The model of an envelope.
pub struct MessageM {
    pub seq: u64,
    pub data: BodyM,
}

impl View for Perm {
    type V = PermM;

    open spec fn view(&self) -> PermM {
        match self {
            Perm::User { rw, name } => PermM::User { rw: *rw, name: name@ },
            Perm::Group { rw, name } => PermM::Group { rw: *rw, name: name@ },
            Perm::Any { rw } => PermM::Any { rw: *rw },
        }
    }
}

impl View for Perms {
    type V = Seq<PermM>;

    open spec fn view(&self) -> Seq<PermM> {
        self.clauses@.map_values(|p: Perm| p@)
    }
}

impl View for ChatSetup {
    type V = ChatSetupM;

    open spec fn view(&self) -> ChatSetupM {
        ChatSetupM { name: self.name@, perm: self.perm@ }
    }
}

pub open spec fn message_view(m: MessageV2) -> MessageM
    decreases m,
{
    MessageM { seq: m.seq, data: body_view(m.data) }
}

pub open spec fn messages_view(s: Seq<MessageV2>) -> Seq<MessageM>
    decreases s,
{
    if s.len() == 0 {
        Seq::empty()
    } else {
        messages_view(s.drop_last()).push(message_view(s.last()))
    }
}

pub open spec fn body_view(b: Body) -> BodyM
    decreases b,
{
    match b {
        Body::Hello { username } => BodyM::Hello { username: username@ },
        Body::Back { token } => BodyM::Back { token },
        Body::Welcome { username, token } => BodyM::Welcome { username: username@, token },
        Body::Setup { chats } => BodyM::Setup { chats: chats@.map_values(|c: ChatSetup| c@) },
        Body::PlayerJoined { username } => BodyM::PlayerJoined { username: username@ },
        Body::PlayerLeft { username } => BodyM::PlayerLeft { username: username@ },
        Body::ChatSend { chat_target, chat_content } => BodyM::ChatSend {
            chat_target: chat_target@,
            chat_content: chat_content@,
        },
        Body::ChatSent { chat_sender, chat_target, chat_content } => BodyM::ChatSent {
            chat_sender: chat_sender@,
            chat_target: chat_target@,
            chat_content: chat_content@,
        },
        Body::RecapHead { count, chunk_sz } => BodyM::RecapHead { count, chunk_sz },
        Body::RecapTail { start, msgs } => BodyM::RecapTail { start, msgs: messages_view(msgs@) },
        Body::Error { kind, info, details } => BodyM::Error {
            kind: kind@,
            info: info@,
            details: details@,
        },
        Body::Echo { payload } => BodyM::Echo { payload: payload@ },
    }
}

impl View for Body {
    type V = BodyM;

    open spec fn view(&self) -> BodyM {
        body_view(*self)
    }
}

impl View for MessageV2 {
    type V = MessageM;

    open spec fn view(&self) -> MessageM {
        message_view(*self)
    }
}

impl Perm {
    pub fn duplicate(&self) -> (r: Perm)
        ensures
            r@ == self@,
    {
        match self {
            Perm::User { rw, name } => Perm::User { rw: *rw, name: name.clone() },
            Perm::Group { rw, name } => Perm::Group { rw: *rw, name: name.clone() },
            Perm::Any { rw } => Perm::Any { rw: *rw },
        }
    }
}

impl Perms {
    pub fn duplicate(&self) -> (r: Perms)
        ensures
            r@ == self@,
    {
        let mut out: Vec<Perm> = Vec::new();
        let n = self.clauses.len();
        let mut i: usize = 0;
        while i < n
            invariant
                n == self.clauses@.len(),
                i <= n,
                out@.len() == i,
                forall|j: int| 0 <= j < i ==> #[trigger] out@[j]@ == self.clauses@[j]@,
            decreases n - i,
        {
            out.push(self.clauses[i].duplicate());
            i += 1;
        }
        assert(out@.map_values(|p: Perm| p@) =~= self.clauses@.map_values(|p: Perm| p@));
        Perms { clauses: out }
    }
}

impl ChatSetup {
    pub fn duplicate(&self) -> (r: ChatSetup)
        ensures
            r@ == self@,
    {
        ChatSetup { name: self.name.clone(), perm: self.perm.duplicate() }
    }
}

impl MessageV2 {
    pub fn duplicate(&self) -> (r: MessageV2)
        ensures
            r@ == self@,
        decreases self,
    {
        MessageV2 { seq: self.seq, data: self.data.duplicate() }
    }
}

impl Body {
    pub fn duplicate(&self) -> (r: Body)
        ensures
            r@ == self@,
        decreases self,
    {
        match self {
            Body::Hello { username } => Body::Hello { username: username.clone() },
            Body::Back { token } => Body::Back { token: *token },
            Body::Welcome { username, token } => Body::Welcome { username: username.clone(), token: *token },
            Body::Setup { chats } => {
                let mut out: Vec<ChatSetup> = Vec::new();
                let n = chats.len();
                let mut i: usize = 0;
                while i < n
                    invariant
                        n == chats@.len(),
                        i <= n,
                        out@.len() == i,
                        forall|j: int| 0 <= j < i ==> #[trigger] out@[j]@ == chats@[j]@,
                    decreases n - i,
                {
                    out.push(chats[i].duplicate());
                    i += 1;
                }
                assert(out@.map_values(|c: ChatSetup| c@) =~= chats@.map_values(|c: ChatSetup| c@));
                Body::Setup { chats: out }
            },
            Body::PlayerJoined { username } => Body::PlayerJoined { username: username.clone() },
            Body::PlayerLeft { username } => Body::PlayerLeft { username: username.clone() },
            Body::ChatSend { chat_target, chat_content } => Body::ChatSend {
                chat_target: chat_target.clone(),
                chat_content: chat_content.clone(),
            },
            Body::ChatSent { chat_sender, chat_target, chat_content } => Body::ChatSent {
                chat_sender: chat_sender.clone(),
                chat_target: chat_target.clone(),
                chat_content: chat_content.clone(),
            },
            Body::RecapHead { count, chunk_sz } => Body::RecapHead { count: *count, chunk_sz: *chunk_sz },
            Body::RecapTail { start, msgs } => {
                let mut out: Vec<MessageV2> = Vec::new();
                let n = msgs.len();
                let mut i: usize = 0;
                while i < n
                    invariant
                        n == msgs@.len(),
                        i <= n,
                        messages_view(out@) == messages_view(msgs@.take(i as int)),
                        *self is RecapTail,
                        self->msgs == *msgs,
                    decreases n - i,
                {
                    proof {
                        assert(decreases_to!(*self => self->msgs));
                        assert(decreases_to!(self->msgs => self->msgs[i as int]));
                    }
                    let ghost prev = out@;
                    out.push(msgs[i].duplicate());
                    assert(out@.drop_last() =~= prev);
                    assert(msgs@.take(i + 1).drop_last() =~= msgs@.take(i as int));
                    i += 1;
                }
                assert(msgs@.take(n as int) =~= msgs@);
                Body::RecapTail { start: *start, msgs: out }
            },
            Body::Error { kind, info, details } => Body::Error {
                kind: kind.clone(),
                info: info.clone(),
                details: details.clone(),
            },
            Body::Echo { payload } => Body::Echo { payload: payload.clone() },
        }
    }
}


/// The bits a clause grants to a user, if it names that user.
pub open spec fn perm_player_bits(p: PermM, username: Seq<char>) -> Option<u8> {
    match p {
        PermM::Any { rw } => Some(rw),
        PermM::User { rw, name } => if name == username { Some(rw) } else { None },
        PermM::Group { .. } => None,
    }
}

/// The bits a clause grants to a group, if it names that group.
pub open spec fn perm_group_bits(p: PermM, group: Seq<char>) -> Option<u8> {
    match p {
        PermM::Any { rw } => Some(rw),
        PermM::Group { rw, name } => if name == group { Some(rw) } else { None },
        PermM::User { .. } => None,
    }
}

/// The effective permission of a user: the bitwise or of the clauses that match.
pub open spec fn perms_player_bits(s: Seq<PermM>, username: Seq<char>) -> u8
    decreases s.len(),
{
    if s.len() == 0 {
        0
    } else {
        let rest = perms_player_bits(s.drop_last(), username);
        match perm_player_bits(s.last(), username) {
            Some(b) => rest | b,
            None => rest,
        }
    }
}

/// The effective permission of a group: the bitwise or of the clauses that match.
pub open spec fn perms_group_bits(s: Seq<PermM>, group: Seq<char>) -> u8
    decreases s.len(),
{
    if s.len() == 0 {
        0
    } else {
        let rest = perms_group_bits(s.drop_last(), group);
        match perm_group_bits(s.last(), group) {
            Some(b) => rest | b,
            None => rest,
        }
    }
}

pub open spec fn opt_str(o: Option<String>) -> Option<Seq<char>> {
    match o {
        Some(s) => Some(s@),
        None => None,
    }
}

impl Perm {
    pub fn check_player(&self, username: &String) -> (r: Option<u8>)
        ensures
            r == perm_player_bits(self@, username@),
    {
        match self {
            Perm::Any { rw } => Some(*rw),
            Perm::User { name, rw } => {
                if *name == *username {
                    Some(*rw)
                } else {
                    None
                }
            },
            _ => None,
        }
    }

    pub fn check_group(&self, groupname: &String) -> (r: Option<u8>)
        ensures
            r == perm_group_bits(self@, groupname@),
    {
        match self {
            Perm::Any { rw } => Some(*rw),
            Perm::Group { name, rw } => {
                if *name == *groupname {
                    Some(*rw)
                } else {
                    None
                }
            },
            _ => None,
        }
    }
}

impl Perms {
    pub fn new() -> (r: Perms)
        ensures
            r@ == Seq::<PermM>::empty(),
    {
        let r = Perms { clauses: Vec::new() };
        assert(r@ =~= Seq::<PermM>::empty());
        r
    }

    pub fn wrap_vec(v: Vec<Perm>) -> (r: Perms)
        ensures
            r.clauses@ == v@,
    {
        Perms { clauses: v }
    }

    pub fn check_player(&self, username: &String) -> (r: u8)
        ensures
            r == perms_player_bits(self@, username@),
    {
        let mut rw: u8 = 0;
        let n = self.clauses.len();
        let mut i: usize = 0;
        while i < n
            invariant
                n == self.clauses@.len(),
                i <= n,
                rw == perms_player_bits(self@.take(i as int), username@),
            decreases n - i,
        {
            assert(self@.take(i + 1).drop_last() =~= self@.take(i as int));
            if let Some(p) = self.clauses[i].check_player(username) {
                rw = rw | p;
            }
            i += 1;
        }
        assert(self@.take(n as int) =~= self@);
        rw
    }

    pub fn check_group(&self, groupname: &String) -> (r: u8)
        ensures
            r == perms_group_bits(self@, groupname@),
    {
        let mut rw: u8 = 0;
        let n = self.clauses.len();
        let mut i: usize = 0;
        while i < n
            invariant
                n == self.clauses@.len(),
                i <= n,
                rw == perms_group_bits(self@.take(i as int), groupname@),
            decreases n - i,
        {
            assert(self@.take(i + 1).drop_last() =~= self@.take(i as int));
            if let Some(p) = self.clauses[i].check_group(groupname) {
                rw = rw | p;
            }
            i += 1;
        }
        assert(self@.take(n as int) =~= self@);
        rw
    }
}

impl Default for Perms {
    fn default() -> (r: Perms)
        ensures
            r@ == Seq::<PermM>::empty(),
    {
        Perms::new()
    }
}

/// The short tag that names a body on the wire.
pub open spec fn tag_of(b: BodyM) -> Seq<char> {
    match b {
        BodyM::Hello { .. } => "helo"@,
        BodyM::Back { .. } => "back"@,
        BodyM::Welcome { .. } => "welc"@,
        BodyM::Setup { .. } => "setp"@,
        BodyM::PlayerJoined { .. } => "plrj"@,
        BodyM::PlayerLeft { .. } => "plrl"@,
        BodyM::ChatSend { .. } => "chas"@,
        BodyM::ChatSent { .. } => "chat"@,
        BodyM::RecapHead { .. } => "rech"@,
        BodyM::RecapTail { .. } => "recx"@,
        BodyM::Error { .. } => "err"@,
        BodyM::Echo { .. } => "echo"@,
    }
}

/// Bodies that every user may see.
pub open spec fn global_of(b: BodyM) -> bool {
    b is Setup || b is PlayerJoined || b is PlayerLeft
}

/// The user a body is about, if any.
pub open spec fn subject_of(b: BodyM) -> Option<Seq<char>> {
    match b {
        BodyM::Hello { username } => Some(username),
        BodyM::PlayerJoined { username } => Some(username),
        BodyM::PlayerLeft { username } => Some(username),
        BodyM::ChatSent { chat_sender, .. } => Some(chat_sender),
        _ => None,
    }
}

/// The user a body is addressed to, if any.
pub open spec fn object_of(b: BodyM) -> Option<Seq<char>> {
    match b {
        BodyM::Welcome { username, .. } => Some(username),
        _ => None,
    }
}

/// The chat a body belongs to, if any.
pub open spec fn chat_of(b: BodyM) -> Option<Seq<char>> {
    match b {
        BodyM::ChatSent { chat_target, .. } => Some(chat_target),
        _ => None,
    }
}

/// Visibility metadata that every body declares.
pub trait MessageDataV2 {
    spec fn tag(&self) -> Seq<char>;

    spec fn global(&self) -> bool;

    spec fn subject_name(&self) -> Option<Seq<char>>;

    spec fn object_name(&self) -> Option<Seq<char>>;

    spec fn chat_name(&self) -> Option<Seq<char>>;

    /// The `msg_type` field.
    fn msg_type(&self) -> (r: &'static str)
        ensures
            r@ == self.tag();

    fn is_global(&self) -> (r: bool)
        ensures
            r == self.global();

    fn subject(&self) -> (r: Option<String>)
        ensures
            opt_str(r) == self.subject_name();

    fn object(&self) -> (r: Option<String>)
        ensures
            opt_str(r) == self.object_name();

    fn chat(&self) -> (r: Option<String>)
        ensures
            opt_str(r) == self.chat_name();
}

impl MessageDataV2 for Body {
    open spec fn tag(&self) -> Seq<char> {
        tag_of(self@)
    }

    open spec fn global(&self) -> bool {
        global_of(self@)
    }

    open spec fn subject_name(&self) -> Option<Seq<char>> {
        subject_of(self@)
    }

    open spec fn object_name(&self) -> Option<Seq<char>> {
        object_of(self@)
    }

    open spec fn chat_name(&self) -> Option<Seq<char>> {
        chat_of(self@)
    }

    fn msg_type(&self) -> (r: &'static str) {
        match self {
            Body::Hello { .. } => "helo",
            Body::Back { .. } => "back",
            Body::Welcome { .. } => "welc",
            Body::Setup { .. } => "setp",
            Body::PlayerJoined { .. } => "plrj",
            Body::PlayerLeft { .. } => "plrl",
            Body::ChatSend { .. } => "chas",
            Body::ChatSent { .. } => "chat",
            Body::RecapHead { .. } => "rech",
            Body::RecapTail { .. } => "recx",
            Body::Error { .. } => "err",
            Body::Echo { .. } => "echo",
        }
    }

    fn is_global(&self) -> (r: bool) {
        match self {
            Body::Setup { .. } | Body::PlayerJoined { .. } | Body::PlayerLeft { .. } => true,
            _ => false,
        }
    }

    fn subject(&self) -> (r: Option<String>) {
        match self {
            Body::Hello { username } => Some(username.clone()),
            Body::PlayerJoined { username } => Some(username.clone()),
            Body::PlayerLeft { username } => Some(username.clone()),
            Body::ChatSent { chat_sender, .. } => Some(chat_sender.clone()),
            _ => None,
        }
    }

    fn object(&self) -> (r: Option<String>) {
        match self {
            Body::Welcome { username, .. } => Some(username.clone()),
            _ => None,
        }
    }

    fn chat(&self) -> (r: Option<String>) {
        match self {
            Body::ChatSent { chat_target, .. } => Some(chat_target.clone()),
            _ => None,
        }
    }
}

/// Values that can be wrapped into an envelope.
pub trait IntoMessage: Sized {
    spec fn message_body(&self) -> BodyM;

    /// Wraps the value with sequence number 0.
    fn into_message(self) -> (r: MessageV2)
        ensures
            r@ == (MessageM { seq: 0, data: self.message_body() });

    /// Wraps the value with the given sequence number.
    fn into_numbered_message(self, seq: u64) -> (r: MessageV2)
        ensures
            r@ == (MessageM { seq: seq, data: self.message_body() }),
    {
        let mut msg = self.into_message();
        msg.seq = seq;
        msg
    }
}

impl IntoMessage for Body {
    open spec fn message_body(&self) -> BodyM {
        self@
    }

    fn into_message(self) -> (r: MessageV2) {
        MessageV2 { seq: 0, data: self }
    }
}

} // verus!

use yapnet::client::{Client, ClientAction, Error};
use yapnet::protocol::{Body, ChatSetup, MessageV2, Perm, Perms};

fn s(x: &str) -> String {
    x.to_string()
}

fn msg(seq: u64, data: Body) -> MessageV2 {
    MessageV2 { seq, data }
}

fn setup() -> Body {
    Body::Setup {
        chats: vec![ChatSetup { name: s("general"), perm: Perms::wrap_vec(vec![Perm::Any { rw: 3 }]) }],
    }
}

#[test]
fn unregistered_client_cannot_send() {
    let c = Client::new();
    assert!(matches!(c.send_message(Body::ChatSend { chat_target: s("g"), chat_content: s("x") }), Err(Error::Unregistered)));
    assert!(matches!(Client::register_message(s("alice")).data, Body::Hello { .. }));
    assert!(matches!(Client::login_message(5).data, Body::Back { token: 5 }));
}

#[test]
fn welcome_registers() {
    let mut c = Client::new();
    let r = c.handle_message(msg(0, Body::Welcome { username: s("alice"), token: 9 }));
    assert!(matches!(r, Ok(ClientAction::Welcome)));
    assert!(c.state.registered);
    assert_eq!(c.state.token, Some(9));
    assert!(c.send_message(Body::Echo { payload: s("1") }).is_ok());
    assert_eq!(c.state.messages.len(), 0);
}

#[test]
fn tail_before_head_is_an_error() {
    let mut c = Client::new();
    let r = c.handle_message(msg(0, Body::RecapTail { start: 0, msgs: vec![] }));
    assert!(matches!(r, Err(Error::NoRecapHead)));
}

#[test]
fn recap_is_replayed_then_ends() {
    let mut c = Client::new();
    c.handle_message(msg(0, Body::Welcome { username: s("alice"), token: 9 }));
    assert!(matches!(c.handle_message(msg(0, Body::RecapHead { count: 2, chunk_sz: 2 })), Ok(ClientAction::Nothing)));
    let r = c.handle_message(msg(0, Body::RecapTail {
        start: 0,
        msgs: vec![msg(0, setup()), msg(1, Body::PlayerJoined { username: s("bob") })],
    }));
    match r {
        Ok(ClientAction::Multiple(v)) => assert_eq!(v.len(), 2),
        _ => panic!("expected replayed actions"),
    }
    assert!(c.recap_info.is_some());
    let r = c.handle_message(msg(0, Body::RecapTail { start: 1, msgs: vec![] }));
    assert!(matches!(r, Err(Error::RecapOutOfOrder)));
    let r = c.handle_message(msg(0, Body::RecapTail {
        start: 2,
        msgs: vec![msg(2, Body::ChatSent { chat_sender: s("bob"), chat_target: s("general"), chat_content: s("hi") })],
    }));
    match r {
        Ok(ClientAction::Multiple(v)) => {
            assert_eq!(v.len(), 2);
            assert!(matches!(v[0], Ok(ClientAction::Chat(2))));
            assert!(matches!(v[1], Ok(ClientAction::RecapEnd)));
        }
        _ => panic!("expected replayed actions"),
    }
    assert!(c.recap_info.is_none());
    assert_eq!(c.state.messages.len(), 3);
    assert_eq!(c.lobby.chats[0].1.messages, vec![2]);
    assert!(c.lobby.players[0].1.connected);
}

#[test]
fn empty_recap_ends_at_once() {
    let mut c = Client::new();
    assert!(matches!(c.handle_message(msg(0, Body::RecapHead { count: 0, chunk_sz: 64 })), Ok(ClientAction::RecapEnd)));
    assert!(c.recap_info.is_none());
}

#[test]
fn players_join_and_leave() {
    let mut c = Client::new();
    c.handle_message(msg(0, Body::Welcome { username: s("alice"), token: 1 }));
    c.handle_message(msg(1, Body::PlayerJoined { username: s("alice") }));
    assert_eq!(c.lobby.players.len(), 0);
    c.handle_message(msg(2, Body::PlayerJoined { username: s("bob") }));
    let r = c.handle_message(msg(3, Body::PlayerLeft { username: s("bob") }));
    assert!(matches!(r, Ok(ClientAction::PlayerLeft(u)) if u == "bob"));
    assert_eq!(c.lobby.players.len(), 1);
    assert!(!c.lobby.players[0].1.connected);
    assert_eq!(c.lobby.players[0].1.role, "__default");
    let r = c.handle_message(msg(0, Body::Error { kind: s("NoLogin"), info: s("i"), details: s("{}") }));
    assert!(matches!(r, Ok(ClientAction::Error(t)) if t == "NoLogin => {}"));
}

#[test]
fn leaving_touches_only_that_player() {
    let mut c = Client::new();
    c.handle_message(msg(0, Body::Welcome { username: s("alice"), token: 1 }));
    c.handle_message(msg(1, Body::PlayerJoined { username: s("bob") }));
    c.handle_message(msg(2, Body::PlayerJoined { username: s("carol") }));
    c.handle_message(msg(3, Body::PlayerLeft { username: s("carol") }));
    assert_eq!(c.lobby.players.len(), 2);
    assert_eq!(c.lobby.players[0].0, "bob");
    assert!(c.lobby.players[0].1.connected);
    assert!(!c.lobby.players[1].1.connected);
    c.handle_message(msg(4, Body::PlayerLeft { username: s("dave") }));
    assert_eq!(c.lobby.players.len(), 3);
    assert!(!c.lobby.players[2].1.connected);
}

#[test]
fn setup_keeps_the_last_announcement() {
    let mut c = Client::new();
    let chats = vec![
        ChatSetup { name: s("g"), perm: Perms::wrap_vec(vec![Perm::Any { rw: 1 }]) },
        ChatSetup { name: s("g"), perm: Perms::wrap_vec(vec![Perm::Any { rw: 3 }]) },
    ];
    c.handle_message(msg(0, Body::Setup { chats }));
    assert_eq!(c.lobby.chats.len(), 1);
    assert!(c.lobby.chats[0].1.can_write(&s("x")));
}

#[test]
fn setup_leaves_unannounced_chats_alone() {
    let mut c = Client::new();
    c.handle_message(msg(0, setup()));
    c.handle_message(msg(1, Body::ChatSent { chat_sender: s("b"), chat_target: s("general"), chat_content: s("x") }));
    let other = vec![ChatSetup { name: s("side"), perm: Perms::wrap_vec(vec![]) }];
    c.handle_message(msg(2, Body::Setup { chats: other }));
    assert_eq!(c.lobby.chats.len(), 2);
    assert_eq!(c.lobby.chats[0].1.messages, vec![1]);
    assert_eq!(c.lobby.chats[1].0, "side");
}

#[test]
fn recap_head_with_tails_starts_a_recap() {
    let mut c = Client::new();
    assert!(matches!(c.handle_message(msg(0, Body::RecapHead { count: 1, chunk_sz: 64 })), Ok(ClientAction::Nothing)));
    assert!(c.recap_info.is_some());
}

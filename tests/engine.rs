use yapnet::error::ServerError;
use yapnet::history::History;
use yapnet::protocol::{Body, MessageV2, Perm, Perms};
use yapnet::response::{ResponseView, YapnetResponse};
use yapnet::state::{perm_for_allowed, recap_chunks, YapnetState, RECAP_CHUNK_SZ};

fn s(x: &str) -> String {
    x.to_string()
}

fn any_rw() -> Perms {
    Perms::wrap_vec(vec![Perm::Any { rw: 3 }])
}

fn state_with_general() -> YapnetState {
    let mut st = YapnetState::new();
    assert!(st.add_chat(s("general"), any_rw()));
    st.push_setup_message();
    st
}

fn chat(sender: &str, target: &str, content: &str) -> Body {
    Body::ChatSent { chat_sender: s(sender), chat_target: s(target), chat_content: s(content) }
}

fn pairs(view: &ResponseView) -> Vec<(&YapnetResponse, &MessageV2)> {
    (0..view.len()).map(|i| view.get(i)).collect()
}

fn recap_tail_sizes(bodies: &[Body]) -> Vec<usize> {
    bodies
        .iter()
        .filter_map(|b| match b {
            Body::RecapTail { msgs, .. } => Some(msgs.len()),
            _ => None,
        })
        .collect()
}

#[test]
fn recap_of_nothing_is_a_bare_head() {
    let st = YapnetState::new();
    let r = st.recap(&s("alice"));
    assert_eq!(r.len(), 1);
    assert!(matches!(r[0], Body::RecapHead { count: 0, chunk_sz: 64 }));
}

#[test]
fn recap_of_exactly_one_chunk() {
    let mut st = state_with_general();
    for i in 0..63 {
        st.history.push(chat("bob", "general", &format!("m{}", i)));
    }
    let r = st.recap(&s("alice"));
    assert!(matches!(r[0], Body::RecapHead { count: 1, chunk_sz: 64 }));
    assert_eq!(recap_tail_sizes(&r), vec![64]);
}

#[test]
fn recap_of_one_chunk_and_one() {
    let mut st = state_with_general();
    for i in 0..64 {
        st.history.push(chat("bob", "general", &format!("m{}", i)));
    }
    let r = st.recap(&s("alice"));
    assert!(matches!(r[0], Body::RecapHead { count: 2, chunk_sz: 64 }));
    assert_eq!(recap_tail_sizes(&r), vec![64, 1]);
    match &r[2] {
        Body::RecapTail { start, msgs } => {
            assert_eq!(*start, 64);
            assert_eq!(msgs[0].seq, 64);
        }
        _ => panic!("expected a tail"),
    }
}

#[test]
fn recap_chunks_with_small_chunk_size() {
    let msgs: Vec<MessageV2> = (0..5u64)
        .map(|i| MessageV2 { seq: i, data: Body::PlayerJoined { username: format!("p{}", i) } })
        .collect();
    let refs: Vec<&MessageV2> = msgs.iter().collect();
    let r = recap_chunks(&refs, 2);
    assert!(matches!(r[0], Body::RecapHead { count: 3, chunk_sz: 2 }));
    assert_eq!(recap_tail_sizes(&r), vec![2, 2, 1]);
    let starts: Vec<usize> = r
        .iter()
        .filter_map(|b| match b {
            Body::RecapTail { start, .. } => Some(*start),
            _ => None,
        })
        .collect();
    assert_eq!(starts, vec![0, 2, 4]);
    assert_eq!(RECAP_CHUNK_SZ, 64);
}

#[test]
fn recap_leaves_out_what_the_user_cannot_read() {
    let mut st = YapnetState::new();
    st.add_chat(s("general"), any_rw());
    st.add_chat(s("secret"), Perms::wrap_vec(vec![Perm::Group { rw: 3, name: s("mods") }]));
    st.push_setup_message();
    st.history.push(chat("bob", "secret", "hidden"));
    st.history.push(chat("bob", "general", "shown"));
    st.history.push(chat("alice", "secret", "own"));
    let r = st.recap(&s("alice"));
    match &r[1] {
        Body::RecapTail { msgs, .. } => {
            let seqs: Vec<u64> = msgs.iter().map(|m| m.seq).collect();
            assert_eq!(seqs, vec![0, 2, 3]);
        }
        _ => panic!("expected a tail"),
    }
    let total: usize = recap_tail_sizes(&r).iter().sum();
    assert_eq!(total, 3);
}

#[test]
fn history_numbers_run_without_gaps() {
    let mut st = state_with_general();
    st.new_user_with_token(&s("alice"), 1).ok().unwrap();
    st.new_user_with_token(&s("bob"), 2).ok().unwrap();
    st.handle_chat(&s("bob"), s("general"), s("hi"), vec![]);
    st.player_leave(&s("alice")).ok().unwrap();
    let h = st.history();
    assert_eq!(h.len(), 5);
    for i in 0..h.len() {
        assert_eq!(h.get(i).seq, i as u64);
    }
    assert_eq!(st.next_seq(), 5);
}

#[test]
fn history_frame_and_merge() {
    let mut h = History::new();
    h.push(Body::PlayerJoined { username: s("a") });
    let mut f = h.get_frame();
    assert!(f.is_empty());
    assert_eq!(f.state_message(Body::PlayerLeft { username: s("a") }), 1);
    h.merge(f);
    assert_eq!(h.len(), 2);
    assert!(h.get_message(2).is_none());
    assert!(matches!(h.get_message(1).unwrap().data, Body::PlayerLeft { .. }));
    let mut it = h.iter();
    assert_eq!(it.next().unwrap().seq, 0);
    assert_eq!(it.next().unwrap().seq, 1);
    assert!(it.next().is_none());
}

#[test]
fn history_remove_renumbers() {
    let mut h = History::new();
    for n in ["a", "b", "c"] {
        h.push(Body::PlayerJoined { username: s(n) });
    }
    assert!(!h.remove_message(3));
    assert!(h.remove_message(1));
    assert_eq!(h.len(), 2);
    assert_eq!(h.get(1).seq, 1);
    assert!(matches!(&h.get(1).data, Body::PlayerJoined { username } if username == "c"));
}

#[test]
fn hello_for_a_taken_name_changes_nothing() {
    let mut st = state_with_general();
    st.new_user_with_token(&s("alice"), 7).ok().unwrap();
    let before = st.next_seq();
    match st.new_user(&s("alice")) {
        Err(ServerError::NameTaken(n)) => assert_eq!(n, "alice"),
        _ => panic!("expected NameTaken"),
    }
    assert_eq!(st.next_seq(), before);
    assert_eq!(st.users.len(), 1);
}

#[test]
fn back_for_an_online_user_changes_nothing() {
    let mut st = state_with_general();
    st.new_user_with_token(&s("alice"), 7).ok().unwrap();
    let before = st.next_seq();
    assert!(matches!(st.reauth_user(7), Err(ServerError::AlreadyJoinedOrLeft)));
    assert_eq!(st.next_seq(), before);
    assert!(st.users[0].1.online);
}

#[test]
fn back_with_an_unknown_token() {
    let mut st = state_with_general();
    assert!(matches!(st.reauth_user(99), Err(ServerError::InvalidToken)));
}

#[test]
fn leave_twice_is_refused() {
    let mut st = state_with_general();
    st.new_user_with_token(&s("alice"), 7).ok().unwrap();
    let v = st.player_leave(&s("alice")).ok().unwrap();
    let p = pairs(&v);
    assert_eq!(p.len(), 1);
    assert!(matches!(p[0].0, YapnetResponse::Broadcast(2, k) if k == "system:all"));
    assert!(matches!(st.player_leave(&s("alice")), Err(ServerError::AlreadyJoinedOrLeft)));
    assert!(matches!(st.player_leave(&s("nobody")), Err(ServerError::AlreadyJoinedOrLeft)));
}

#[test]
fn fresh_tokens_differ() {
    let mut st = state_with_general();
    st.new_user(&s("alice")).ok().unwrap();
    st.new_user(&s("bob")).ok().unwrap();
    assert_ne!(st.users[0].1.uuid, st.users[1].1.uuid);
}

#[test]
fn login_view_order() {
    let mut st = state_with_general();
    let v = st.new_user_with_token(&s("alice"), 42).ok().unwrap();
    let p = pairs(&v);
    assert_eq!(p.len(), 4);
    assert!(matches!(p[0].0, YapnetResponse::Return(0)));
    assert!(matches!(&p[0].1.data, Body::Welcome { username, token: 42 } if username == "alice"));
    assert!(matches!(p[1].0, YapnetResponse::Return(1)));
    assert!(matches!(p[1].1.data, Body::RecapHead { count: 1, chunk_sz: 64 }));
    assert!(matches!(p[2].0, YapnetResponse::Return(2)));
    assert!(matches!(&p[2].1.data, Body::RecapTail { start: 0, msgs } if msgs.len() == 1));
    assert!(matches!(p[3].0, YapnetResponse::BroadcastExclusive(1, k) if k == "system:all"));
    assert!(matches!(&p[3].1.data, Body::PlayerJoined { username } if username == "alice"));
    assert_eq!(p[3].1.seq, 1);
    assert!(!v.is_ephemeral());
}

#[test]
fn echo_comes_back_unchanged() {
    let mut st = state_with_general();
    st.new_user_with_token(&s("alice"), 1).ok().unwrap();
    let payload = s("{\"x\": [1, 2, \"three\"]}");
    let before = st.next_seq();
    let v = st.handle_message(&s("alice"), MessageV2 { seq: 0, data: Body::Echo { payload: payload.clone() } }, vec![]);
    let p = pairs(&v);
    assert_eq!(p.len(), 1);
    assert!(matches!(p[0].0, YapnetResponse::Return(0)));
    assert!(matches!(&p[0].1.data, Body::Echo { payload: q } if *q == payload));
    assert_eq!(st.next_seq(), before);
    assert!(v.is_ephemeral());
}

#[test]
fn server_bodies_from_a_client_are_refused() {
    let mut st = state_with_general();
    st.new_user_with_token(&s("alice"), 1).ok().unwrap();
    let v = st.handle_message(&s("alice"), MessageV2 { seq: 0, data: Body::PlayerLeft { username: s("bob") } }, vec![]);
    let p = pairs(&v);
    assert_eq!(p.len(), 1);
    assert!(matches!(&p[0].1.data, Body::Error { kind, info, .. } if kind == "InvalidAction" && info == "the action, plrl, cannot be performed"));
    let v = st.handle_message(
        &s("alice"),
        MessageV2 { seq: 0, data: Body::Error { kind: s("x"), info: s("y"), details: s("{}") } },
        vec![],
    );
    assert_eq!(v.len(), 0);
}

#[test]
fn script_messages_precede_the_chat() {
    let mut st = state_with_general();
    st.new_user_with_token(&s("alice"), 1).ok().unwrap();
    let injected = vec![Body::PlayerJoined { username: s("narrator") }];
    let v = st.handle_chat(&s("alice"), s("general"), s("hello"), injected);
    let p = pairs(&v);
    assert_eq!(p.len(), 2);
    assert!(matches!(p[0].0, YapnetResponse::Broadcast(2, k) if k == "general"));
    assert!(matches!(&p[0].1.data, Body::PlayerJoined { username } if username == "narrator"));
    assert!(matches!(p[1].0, YapnetResponse::Broadcast(3, k) if k == "general"));
    assert!(matches!(&p[1].1.data, Body::ChatSent { chat_content, .. } if chat_content == "hello"));
}

#[test]
fn allowed_settings_map_to_perms() {
    assert!(matches!(perm_for_allowed(&s("any")), Perm::Any { rw: 3 }));
    assert!(matches!(perm_for_allowed(&s("all")), Perm::Any { rw: 3 }));
    assert!(matches!(perm_for_allowed(&s("none")), Perm::User { rw: 3, name } if name == "__Noone"));
    assert!(matches!(perm_for_allowed(&s("mods")), Perm::Group { rw: 3, name } if name == "mods"));
}

#[test]
fn setup_lists_every_chat() {
    let mut st = YapnetState::new();
    st.add_chat(s("general"), any_rw());
    assert!(!st.add_chat(s("general"), Perms::new()));
    st.add_chat(s("secret"), Perms::wrap_vec(vec![Perm::Group { rw: 3, name: s("mods") }]));
    st.push_setup_message();
    match &st.history().get(0).data {
        Body::Setup { chats } => {
            assert_eq!(chats.len(), 2);
            assert_eq!(chats[0].name, "general");
            assert_eq!(chats[1].name, "secret");
            assert_eq!(chats[1].perm.check_group(&s("mods")), 3);
        }
        _ => panic!("expected setup"),
    }
}

#[test]
fn a_held_token_is_refused() {
    let mut st = state_with_general();
    st.new_user_with_token(&s("alice"), 7).ok().unwrap();
    let before = st.next_seq();
    assert!(matches!(st.new_user_with_token(&s("bob"), 7), Err(ServerError::InvalidToken)));
    assert_eq!(st.users.len(), 1);
    assert_eq!(st.next_seq(), before);
}

#[test]
fn offline_without_announcement() {
    let mut st = state_with_general();
    st.new_user_with_token(&s("alice"), 7).ok().unwrap();
    let before = st.next_seq();
    assert!(st.set_offline(&s("alice")));
    assert!(!st.users[0].1.online);
    assert!(!st.set_offline(&s("alice")));
    assert!(!st.set_offline(&s("nobody")));
    assert_eq!(st.next_seq(), before);
}

#[test]
fn default_chat_is_open_general() {
    let mut st = YapnetState::new();
    st.add_default_chats();
    assert_eq!(st.chats.len(), 1);
    assert_eq!(st.chats[0].0, "general");
    assert!(st.chats[0].1.can_write(&s("anyone")));
    st.add_default_chats();
    assert_eq!(st.chats.len(), 1);
}

#[test]
fn first_registration_on_an_empty_lobby() {
    let mut st = YapnetState::new();
    st.push_setup_message();
    let v = st.new_user(&s("alice")).ok().unwrap();
    assert_eq!(v.len(), 4);
    assert_eq!(st.users.len(), 1);
    assert!(st.users[0].1.online);
    assert!(matches!(&st.history().get_message(1).unwrap().data, Body::PlayerJoined { username } if username == "alice"));
}

#[test]
fn lobby_from_chat_configs() {
    let configs = vec![(s("general"), s("any")), (s("mods"), s("mods")), (s("general"), s("none"))];
    let st = YapnetState::from_chat_configs(&configs);
    assert_eq!(st.chats.len(), 2);
    assert_eq!(st.chats[0].0, "general");
    assert!(st.chats[0].1.can_write(&s("x")));
    assert_eq!(st.chats[1].1.perms.check_group(&s("mods")), 3);
    assert_eq!(st.history().len(), 1);
    assert!(matches!(&st.history().get(0).data, Body::Setup { chats } if chats.len() == 2));
    assert_eq!(YapnetState::from_chat_configs(&vec![]).chats.len(), 0);
}

use yapnet::protocol::{Body, MessageV2, Perm, Perms};
use yapnet::server::Server;
use yapnet::state::YapnetState;

fn s(x: &str) -> String {
    x.to_string()
}

fn server() -> Server {
    let mut st = YapnetState::new();
    st.add_chat(s("general"), Perms::wrap_vec(vec![Perm::Any { rw: 3 }]));
    st.add_chat(s("secret"), Perms::wrap_vec(vec![Perm::Group { rw: 3, name: s("mods") }]));
    st.push_setup_message();
    Server::new(st)
}

fn send(sv: &mut Server, cid: usize, data: Body) -> Vec<(usize, MessageV2)> {
    let view = sv.handle_message(cid, MessageV2 { seq: cid as u64, data }, vec![]);
    sv.route(cid, &view)
}

fn hello(sv: &mut Server, cid: usize, name: &str) -> Vec<(usize, MessageV2)> {
    send(sv, cid, Body::Hello { username: s(name) })
}

fn to(d: &[(usize, MessageV2)], cid: usize) -> Vec<&MessageV2> {
    d.iter().filter(|(c, _)| *c == cid).map(|(_, m)| m).collect()
}

#[test]
fn fresh_login_sequence() {
    let mut sv = server();
    let a = sv.add_client();
    let d = hello(&mut sv, a, "alice");
    let mine = to(&d, a);
    assert_eq!(mine.len(), 3);
    assert!(matches!(&mine[0].data, Body::Welcome { username, .. } if username == "alice"));
    assert!(matches!(mine[1].data, Body::RecapHead { count: 1, chunk_sz: 64 }));
    assert!(matches!(&mine[2].data, Body::RecapTail { start: 0, msgs } if msgs.len() == 1 && matches!(msgs[0].data, Body::Setup { .. })));
    assert_eq!(d.len(), 3);
    assert_eq!(sv.state.users.len(), 1);
    assert_eq!(sv.state.users[0].0, "alice");
    let h = sv.state.history();
    assert_eq!(h.len(), 2);
    assert!(matches!(&h.get(1).data, Body::PlayerJoined { username } if username == "alice"));
    assert_eq!(h.get(1).seq, 1);
}

#[test]
fn second_login_is_announced_to_others_only() {
    let mut sv = server();
    let a = sv.add_client();
    let b = sv.add_client();
    hello(&mut sv, a, "alice");
    let d = hello(&mut sv, b, "bob");
    let for_a = to(&d, a);
    assert_eq!(for_a.len(), 1);
    assert!(matches!(&for_a[0].data, Body::PlayerJoined { username } if username == "bob"));
    assert!(to(&d, b).iter().all(|m| !matches!(m.data, Body::PlayerJoined { .. })));
}

#[test]
fn two_party_chat_broadcast() {
    let mut sv = server();
    let a = sv.add_client();
    let b = sv.add_client();
    hello(&mut sv, a, "alice");
    hello(&mut sv, b, "bob");
    let before = sv.state.history().len();
    let d = send(&mut sv, b, Body::ChatSend { chat_target: s("general"), chat_content: s("hi") });
    assert_eq!(d.len(), 2);
    for cid in [a, b] {
        let got = to(&d, cid);
        assert_eq!(got.len(), 1);
        assert_eq!(got[0].seq, before as u64);
        assert!(matches!(&got[0].data, Body::ChatSent { chat_sender, chat_target, chat_content }
            if chat_sender == "bob" && chat_target == "general" && chat_content == "hi"));
    }
    assert_eq!(sv.state.history().len(), before + 1);
}

#[test]
fn send_to_unknown_chat() {
    let mut sv = server();
    let a = sv.add_client();
    let b = sv.add_client();
    hello(&mut sv, a, "alice");
    hello(&mut sv, b, "bob");
    let before = sv.state.history().len();
    let d = send(&mut sv, a, Body::ChatSend { chat_target: s("nope"), chat_content: s("x") });
    assert_eq!(d.len(), 1);
    assert_eq!(d[0].0, a);
    assert!(matches!(&d[0].1.data, Body::Error { kind, details, .. } if kind == "InvalidChat" && details == "{\"reason\":\"Not found\"}"));
    assert_eq!(sv.state.history().len(), before);
}

#[test]
fn reconnect_with_recap() {
    let mut sv = server();
    let a = sv.add_client();
    let b = sv.add_client();
    hello(&mut sv, a, "alice");
    let token = sv.state.users[0].1.uuid;
    for i in 0..3 {
        send(&mut sv, a, Body::ChatSend { chat_target: s("general"), chat_content: format!("c{}", i) });
    }
    sv.remove_client(a);
    hello(&mut sv, b, "bob");
    let a2 = sv.add_client();
    let d = send(&mut sv, a2, Body::Back { token });
    let mine = to(&d, a2);
    assert_eq!(mine.len(), 3);
    assert!(matches!(&mine[0].data, Body::Welcome { username, token: t } if username == "alice" && *t == token));
    assert!(matches!(mine[1].data, Body::RecapHead { count: 1, chunk_sz: 64 }));
    match &mine[2].data {
        Body::RecapTail { start, msgs } => {
            assert_eq!(*start, 0);
            let tags: Vec<&str> = msgs
                .iter()
                .map(|m| match &m.data {
                    Body::Setup { .. } => "setp",
                    Body::PlayerJoined { .. } => "plrj",
                    Body::ChatSent { .. } => "chat",
                    Body::PlayerLeft { .. } => "plrl",
                    _ => "other",
                })
                .collect();
            assert_eq!(tags, vec!["setp", "plrj", "chat", "chat", "chat", "plrl", "plrj"]);
        }
        _ => panic!("expected a tail"),
    }
    let others = to(&d, b);
    assert_eq!(others.len(), 1);
    assert!(matches!(&others[0].data, Body::PlayerJoined { username } if username == "alice"));
}

#[test]
fn permission_denied_write() {
    let mut sv = server();
    let a = sv.add_client();
    let b = sv.add_client();
    hello(&mut sv, a, "alice");
    hello(&mut sv, b, "bob");
    let before = sv.state.history().len();
    let d = send(&mut sv, a, Body::ChatSend { chat_target: s("secret"), chat_content: s("x") });
    assert_eq!(d.len(), 1);
    assert_eq!(d[0].0, a);
    assert!(matches!(&d[0].1.data, Body::Error { kind, .. } if kind == "NoPermission"));
    assert_eq!(sv.state.history().len(), before);
}

#[test]
fn duplicate_name() {
    let mut sv = server();
    let a = sv.add_client();
    let c = sv.add_client();
    hello(&mut sv, a, "alice");
    let before = sv.state.history().len();
    let d = hello(&mut sv, c, "alice");
    assert_eq!(d.len(), 1);
    assert_eq!(d[0].0, c);
    assert!(matches!(&d[0].1.data, Body::Error { kind, .. } if kind == "NameTaken"));
    assert_eq!(sv.state.history().len(), before);
    assert_eq!(sv.state.users.len(), 1);
    assert!(sv.connections[1].username.is_none());
    let d = send(&mut sv, c, Body::ChatSend { chat_target: s("general"), chat_content: s("x") });
    assert!(matches!(&d[0].1.data, Body::Error { kind, .. } if kind == "NoLogin"));
}

#[test]
fn return_reaches_only_the_originator() {
    let mut sv = server();
    let a = sv.add_client();
    let b = sv.add_client();
    hello(&mut sv, a, "alice");
    hello(&mut sv, b, "bob");
    let d = send(&mut sv, b, Body::Echo { payload: s("[1,2]") });
    assert_eq!(d.len(), 1);
    assert_eq!(d[0].0, b);
    assert!(matches!(&d[0].1.data, Body::Echo { payload } if payload == "[1,2]"));
}

#[test]
fn chat_audience_is_its_readers() {
    let mut st = YapnetState::new();
    st.add_chat(s("secret"), Perms::wrap_vec(vec![Perm::User { rw: 3, name: s("alice") }]));
    let mut sv = Server::new(st);
    let a = sv.add_client();
    let b = sv.add_client();
    let _anon = sv.add_client();
    hello(&mut sv, a, "alice");
    hello(&mut sv, b, "bob");
    assert_eq!(sv.all_participating_clients(&s("secret")), vec![a]);
    let d = send(&mut sv, a, Body::ChatSend { chat_target: s("secret"), chat_content: s("x") });
    assert_eq!(d.len(), 1);
    assert_eq!(d[0].0, a);
}

#[test]
fn closing_a_logged_in_connection_announces_leave() {
    let mut sv = server();
    let a = sv.add_client();
    let b = sv.add_client();
    hello(&mut sv, a, "alice");
    hello(&mut sv, b, "bob");
    let d = sv.remove_client(a);
    assert_eq!(d.len(), 1);
    assert_eq!(d[0].0, b);
    assert!(matches!(&d[0].1.data, Body::PlayerLeft { username } if username == "alice"));
    assert!(!sv.state.users[0].1.online);
    assert!(sv.remove_client(a).is_empty());
    assert_eq!(sv.find_connection(a), None);
}

#[test]
fn participants_of_a_name_that_is_no_chat() {
    let mut sv = server();
    let a = sv.add_client();
    let _anon = sv.add_client();
    hello(&mut sv, a, "alice");
    assert!(sv.all_participating_clients(&s("system:all")).is_empty());
    assert!(sv.all_participating_clients(&s("nope")).is_empty());
    assert_eq!(sv.all_participating_clients(&s("general")), vec![a]);
}

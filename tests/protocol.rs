use yapnet::error::{simple_json_object, ClientError, ServerError};
use yapnet::protocol::{Body, IntoMessage, MessageDataV2, Perm, Perms};
use yapnet::state::Chat;

fn s(x: &str) -> String {
    x.to_string()
}

fn kind_info_details(b: Body) -> (String, String, String) {
    match b {
        Body::Error { kind, info, details } => (kind, info, details),
        _ => panic!("expected an error body"),
    }
}

#[test]
fn json_pair_text() {
    assert_eq!(simple_json_object("reason", &s("Not found")), "{\"reason\":\"Not found\"}");
}

#[test]
fn client_error_bodies() {
    let (k, i, d) = kind_info_details(ClientError::InvalidChat(s("nope"), s("Not found")).into_body());
    assert_eq!((k.as_str(), i.as_str(), d.as_str()), ("InvalidChat", "nope, cannot be targeted for that action", "{\"reason\":\"Not found\"}"));
    let (k, i, d) = kind_info_details(ClientError::NameTaken(s("alice")).into_body());
    assert_eq!((k.as_str(), i.as_str(), d.as_str()), ("NameTaken", "The name: alice is taken", "{\"invalid_name\":\"alice\"}"));
    let (k, _, d) = kind_info_details(ClientError::InvalidToken.into_body());
    assert_eq!((k.as_str(), d.as_str()), ("InvalidToken", "{}"));
    let (k, i, _) = kind_info_details(ClientError::NoLogin.into_body());
    assert_eq!((k.as_str(), i.as_str()), ("NoLogin", "The action requires login"));
    let (k, i, _) = kind_info_details(ClientError::NoPermission(s("secret"), s("r")).into_body());
    assert_eq!((k.as_str(), i.as_str()), ("NoPermission", "The action on secret requires permissions you don\u{27}t have"));
    let (k, i, _) = kind_info_details(ClientError::InvalidObject(s("x"), s("r")).into_body());
    assert_eq!((k.as_str(), i.as_str()), ("InvalidObject", "x, cannot be the object of that action"));
    let (k, i, _) = kind_info_details(ClientError::InvalidSubject(s("x"), s("r")).into_body());
    assert_eq!((k.as_str(), i.as_str()), ("InvalidSubject", "x, cannot be the subject of that action"));
    let (k, i, _) = kind_info_details(ClientError::InvalidAction(s("x"), s("r")).into_body());
    assert_eq!((k.as_str(), i.as_str()), ("InvalidAction", "the action, x, cannot be performed"));
    let (k, i, d) = kind_info_details(ClientError::Custom(s("a"), s("{\"b\":1}")).into_body());
    assert_eq!((k.as_str(), i.as_str(), d.as_str()), ("Custom", "a", "{\"b\":1}"));
}

#[test]
fn server_error_bodies() {
    let (k, _, _) = kind_info_details(ServerError::InvalidToken.into_body());
    assert_eq!(k, "InvalidToken");
    let (k, _, _) = kind_info_details(ServerError::AlreadyJoinedOrLeft.into_body());
    assert_eq!(k, "AlreadyJoinedOrLeft");
    let (k, i, _) = kind_info_details(ServerError::NameTaken(s("bob")).into_body());
    assert_eq!((k.as_str(), i.as_str()), ("NameTaken", "The name: bob is taken"));
    let m = ServerError::Custom(s("i"), s("d")).into_numbered_message(9);
    assert_eq!(m.seq, 9);
    assert!(matches!(&m.data, Body::Error { kind, .. } if kind == "ServerError"));
}

#[test]
fn tags_and_visibility_metadata() {
    let sent = Body::ChatSent { chat_sender: s("bob"), chat_target: s("general"), chat_content: s("hi") };
    assert_eq!(sent.msg_type(), "chat");
    assert!(!sent.is_global());
    assert_eq!(sent.subject(), Some(s("bob")));
    assert_eq!(sent.chat(), Some(s("general")));
    assert_eq!(sent.object(), None);
    let welcome = Body::Welcome { username: s("a"), token: 1 };
    assert_eq!(welcome.msg_type(), "welc");
    assert_eq!(welcome.object(), Some(s("a")));
    assert!(Body::PlayerLeft { username: s("a") }.is_global());
    assert_eq!(Body::RecapHead { count: 0, chunk_sz: 64 }.msg_type(), "rech");
    assert_eq!(Body::Echo { payload: s("1") }.msg_type(), "echo");
    assert_eq!(Body::Setup { chats: vec![] }.msg_type(), "setp");
    let m = Body::Hello { username: s("x") }.into_message();
    assert_eq!(m.seq, 0);
}

#[test]
fn perms_combine_by_or() {
    let p = Perms::wrap_vec(vec![
        Perm::User { rw: 1, name: s("alice") },
        Perm::Group { rw: 2, name: s("mods") },
        Perm::User { rw: 2, name: s("alice") },
    ]);
    assert_eq!(p.check_player(&s("alice")), 3);
    assert_eq!(p.check_player(&s("bob")), 0);
    assert_eq!(p.check_group(&s("mods")), 2);
    assert_eq!(Perm::Any { rw: 1 }.check_group(&s("x")), Some(1));
    assert_eq!(Perms::default().check_player(&s("x")), 0);
    let c = Chat::new(Perms::wrap_vec(vec![Perm::User { rw: 1, name: s("alice") }]));
    assert!(c.can_read(&s("alice")));
    assert!(!c.can_write(&s("alice")));
    assert!(!c.can_read(&s("bob")));
}

#[test]
fn json_values_are_escaped() {
    assert_eq!(simple_json_object("reason", &s("a\"b\\c\nd")), "{\"reason\":\"a\\\"b\\\\c\\u000ad\"}");
    assert_eq!(yapnet::error::escape_json(&s("plain ü")), "plain ü");
    let (_, _, d) = kind_info_details(ClientError::NameTaken(s("x\"y")).into_body());
    assert_eq!(d, "{\"invalid_name\":\"x\\\"y\"}");
}

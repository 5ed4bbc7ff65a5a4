use yapnet::error::ClientError;
use yapnet::history::History;
use yapnet::protocol::Body;
use yapnet::response::{ResponseFrame, ResponseView, YapnetResponse};
use yapnet::state::YapnetState;

fn s(x: &str) -> String {
    x.to_string()
}

#[test]
fn frame_pairs_resolve_to_their_messages() {
    let mut h = History::new();
    h.push(Body::PlayerJoined { username: s("a") });
    let mut f = ResponseFrame::new(&h, 4);
    assert!(f.is_ephemeral());
    f.ret(Body::Echo { payload: s("1") });
    f.broadcast(Body::PlayerLeft { username: s("a") }, s("system:all"));
    f.error(ClientError::NoLogin);
    f.ret_all(vec![Body::RecapHead { count: 0, chunk_sz: 64 }]);
    assert!(!f.is_ephemeral());
    let (r, m) = f.fetch_pair(1).unwrap();
    assert!(matches!(r, YapnetResponse::Broadcast(1, k) if k == "system:all"));
    assert_eq!(m.seq, 1);
    let (r, m) = f.fetch_pair(2).unwrap();
    assert!(matches!(r, YapnetResponse::Return(1)));
    assert!(matches!(&m.data, Body::Error { kind, .. } if kind == "NoLogin"));
    assert!(matches!(f.fetch_pair(3).unwrap().0, YapnetResponse::Return(2)));
    assert!(f.fetch_pair(4).is_none());

    let mut view = ResponseView::new(1);
    view.push_frame(f, &mut h);
    assert_eq!(h.len(), 2);
    assert_eq!(view.len(), 4);
    let mut it = view.iter();
    let mut n = 0;
    while let Some((_, m)) = it.next() {
        if n == 1 {
            assert!(matches!(m.data, Body::PlayerLeft { .. }));
        }
        n += 1;
    }
    assert_eq!(n, 4);
}

#[test]
fn returns_shift_past_earlier_ephemerals() {
    let mut h = History::new();
    let mut view = ResponseView::from_message_return(ClientError::InvalidToken);
    let mut f = ResponseFrame::new(&h, 1);
    f.ret(Body::Echo { payload: s("x") });
    view.push_frame(f, &mut h);
    assert_eq!(view.len(), 2);
    assert!(matches!(view.get(1).0, YapnetResponse::Return(1)));
    assert!(view.is_ephemeral());
}

#[test]
fn frame_from_state_continues_its_history() {
    let mut st = YapnetState::new();
    st.add_chat(s("general"), yapnet::protocol::Perms::new());
    st.push_setup_message();
    let mut f = ResponseFrame::from_state(&st, 1);
    f.broadcast(Body::PlayerJoined { username: s("a") }, s("system:all"));
    assert_eq!(f.fetch_pair(0).unwrap().1.seq, 1);
}

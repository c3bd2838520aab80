use todo_session::session::SessionId;
use todo_session::store::{
    session_key, store_address, REDIS_ADDRESS_CONFIG_KEY, REDIS_DEFAULT_ADDRESS,
    SESSION_KEY_PREFIX,
};

#[test]
fn configuration_names() {
    assert_eq!(REDIS_ADDRESS_CONFIG_KEY, "redis_connection_address");
    assert_eq!(REDIS_DEFAULT_ADDRESS, "redis://localhost");
    assert_eq!(SESSION_KEY_PREFIX, "todos:");
}

#[test]
fn configured_address_wins() {
    assert_eq!(store_address(Some("redis://store.internal:6380")), "redis://store.internal:6380");
    assert_eq!(store_address(Some("")), "");
}

#[test]
fn default_address_where_none_is_configured() {
    assert_eq!(store_address(None), "redis://localhost");
}

#[test]
fn session_keys_are_prefix_and_number() {
    assert_eq!(session_key(SessionId(0)), "todos:0");
    assert_eq!(session_key(SessionId(4711)), "todos:4711");
    assert_eq!(session_key(SessionId(usize::MAX)), format!("todos:{}", usize::MAX));
}

#[test]
fn session_keys_differ() {
    let ids = [0usize, 1, 10, 11, 100, 101, 110, 111, usize::MAX];
    for a in ids {
        for b in ids {
            assert_eq!(session_key(SessionId(a)) == session_key(SessionId(b)), a == b);
        }
    }
}

use fortytwo::store::types::{MessageRole, TokenKind};

#[test]
fn token_kind_names_round_trip() {
    for k in [TokenKind::Session, TokenKind::Bearer] {
        assert_eq!(TokenKind::from_str_loose(k.as_str()), k);
    }
    assert_eq!(TokenKind::Session.as_str(), "session");
    assert_eq!(TokenKind::Bearer.as_str(), "bearer");
    assert_eq!(TokenKind::from_str_loose("anything"), TokenKind::Session);
    assert_eq!(TokenKind::from_str_loose("Bearer"), TokenKind::Session);
}

#[test]
fn role_names_round_trip() {
    for r in [MessageRole::User, MessageRole::Assistant] {
        assert_eq!(MessageRole::from_str_loose(r.as_str()), r);
    }
    assert_eq!(MessageRole::User.as_str(), "user");
    assert_eq!(MessageRole::Assistant.as_str(), "assistant");
    assert_eq!(MessageRole::from_str_loose("system"), MessageRole::User);
}

//! Persistent entity types.

use vstd::prelude::*;
use crate::engine::citations::Source;
use crate::text::str_equals;

verus! {

#[derive(Debug, Clone)]
pub struct User {
    pub id: i64,
    pub username: String,
    /// argon2id hash; never exposed over the API.
    pub password_hash: String,
    pub is_admin: bool,
    pub created_at: String,
}

#[derive(Debug, Clone, Copy, PartialEq, Eq, Structural)]
pub enum TokenKind {
    Session,
    Bearer,
}

/// The name under which a token kind is stored.
pub open spec fn token_kind_name(k: TokenKind) -> Seq<char> {
    match k {
        TokenKind::Session => "session"@,
        TokenKind::Bearer => "bearer"@,
    }
}

/// The token kind a stored name denotes: `bearer`, and `session` for
/// anything else.
pub open spec fn token_kind_of(s: Seq<char>) -> TokenKind {
    if s == "bearer"@ {
        TokenKind::Bearer
    } else {
        TokenKind::Session
    }
}

impl TokenKind {
    pub fn as_str(self) -> (r: &'static str)
        ensures
            r@ == token_kind_name(self),
    {
        match self {
            TokenKind::Session => "session",
            TokenKind::Bearer => "bearer",
        }
    }

    pub fn from_str_loose(s: &str) -> (r: Self)
        ensures
            r == token_kind_of(s@),
    {
        if str_equals(s, "bearer") {
            TokenKind::Bearer
        } else {
            TokenKind::Session
        }
    }
}

/// Reading back the stored name of a token kind gives the same kind.
pub proof fn lemma_token_kind_round_trip(k: TokenKind)
    ensures
        token_kind_of(token_kind_name(k)) == k,
{
    reveal_strlit("bearer");
    reveal_strlit("session");
    assert("session"@.len() == 7);
    assert("bearer"@.len() == 6);
}

#[derive(Debug, Clone)]
pub struct Conversation {
    pub id: String,
    pub user_id: i64,
    pub title: String,
    pub created_at: String,
    pub updated_at: String,
}

#[derive(Debug, Clone, Copy, PartialEq, Eq, Structural)]
pub enum MessageRole {
    User,
    Assistant,
}

/// The name of a role, as stored and as sent to the model.
pub open spec fn role_name(r: MessageRole) -> Seq<char> {
    match r {
        MessageRole::User => "user"@,
        MessageRole::Assistant => "assistant"@,
    }
}

/// The role a stored name denotes: `assistant`, and `user` for anything
/// else.
pub open spec fn role_of(s: Seq<char>) -> MessageRole {
    if s == "assistant"@ {
        MessageRole::Assistant
    } else {
        MessageRole::User
    }
}

impl MessageRole {
    pub fn as_str(self) -> (r: &'static str)
        ensures
            r@ == role_name(self),
    {
        match self {
            MessageRole::User => "user",
            MessageRole::Assistant => "assistant",
        }
    }

    pub fn from_str_loose(s: &str) -> (r: Self)
        ensures
            r == role_of(s@),
    {
        if str_equals(s, "assistant") {
            MessageRole::Assistant
        } else {
            MessageRole::User
        }
    }
}

/// Reading back the stored name of a role gives the same role.
pub proof fn lemma_role_round_trip(r: MessageRole)
    ensures
        role_of(role_name(r)) == r,
{
    reveal_strlit("assistant");
    reveal_strlit("user");
    assert("user"@.len() == 4);
    assert("assistant"@.len() == 9);
}

#[derive(Debug, Clone)]
pub struct Message {
    pub role: MessageRole,
    pub content: String,
    /// Sources attached to an assistant message (empty for user messages).
    pub sources: Vec<Source>,
}

} // verus!

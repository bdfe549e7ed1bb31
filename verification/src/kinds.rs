//! The small enumerations stored in the local database and carried on the wire:
//! what a server is, what a channel is, and what role a member holds.

use vstd::prelude::*;

use crate::error::GhostError;
use crate::text::str_eq;

verus! {

/// What kind of conversation a server is.
#[derive(Debug, Clone, Copy, PartialEq, Eq, Structural)]
pub enum ServerKind {
    Server,
    Group,
    Dm,
}

impl ServerKind {
    /// The name stored in the database.
    pub open spec fn name(self) -> Seq<char> {
        match self {
            ServerKind::Server => "server"@,
            ServerKind::Group => "group"@,
            ServerKind::Dm => "dm"@,
        }
    }

    /// The kind whose stored name is `s`, if any.
    pub open spec fn of_name(s: Seq<char>) -> Option<ServerKind> {
        if s == "server"@ {
            Some(ServerKind::Server)
        } else if s == "group"@ {
            Some(ServerKind::Group)
        } else if s == "dm"@ {
            Some(ServerKind::Dm)
        } else {
            None
        }
    }

    /// The byte written on the wire.
    pub open spec fn byte(self) -> u8 {
        match self {
            ServerKind::Server => 0,
            ServerKind::Group => 2,
            ServerKind::Dm => 1,
        }
    }

    /// The kind whose wire byte is `b`, if any.
    pub open spec fn of_byte(b: u8) -> Option<ServerKind> {
        if b == 0 {
            Some(ServerKind::Server)
        } else if b == 2 {
            Some(ServerKind::Group)
        } else if b == 1 {
            Some(ServerKind::Dm)
        } else {
            None
        }
    }

    pub fn as_str(&self) -> (s: &'static str)
        ensures
            s@ == self.name(),
    {
        match self {
            ServerKind::Server => "server",
            ServerKind::Group => "group",
            ServerKind::Dm => "dm",
        }
    }

    pub fn parse(s: &str) -> (r: Result<ServerKind, GhostError>)
        ensures
            match r {
                Ok(k) => ServerKind::of_name(s@) == Some(k),
                Err(e) => ServerKind::of_name(s@) is None && e is Database,
            },
    {
        if str_eq(s, "server") {
            Ok(ServerKind::Server)
        } else if str_eq(s, "group") {
            Ok(ServerKind::Group)
        } else if str_eq(s, "dm") {
            Ok(ServerKind::Dm)
        } else {
            Err(GhostError::Database("unknown server kind".to_string()))
        }
    }

    pub fn to_byte(self) -> (b: u8)
        ensures
            b == self.byte(),
    {
        match self {
            ServerKind::Server => 0,
            ServerKind::Group => 2,
            ServerKind::Dm => 1,
        }
    }

    pub fn from_byte(b: u8) -> (r: Result<ServerKind, GhostError>)
        ensures
            match r {
                Ok(k) => ServerKind::of_byte(b) == Some(k),
                Err(e) => ServerKind::of_byte(b) is None && e is Format,
            },
    {
        if b == 0 {
            Ok(ServerKind::Server)
        } else if b == 2 {
            Ok(ServerKind::Group)
        } else if b == 1 {
            Ok(ServerKind::Dm)
        } else {
            Err(GhostError::Format("unknown server kind byte".to_string()))
        }
    }
}

/// Whether a channel carries text or voice.
#[derive(Debug, Clone, Copy, PartialEq, Eq, Structural)]
pub enum ChannelKind {
    Text,
    Voice,
}

impl ChannelKind {
    /// The name stored in the database.
    pub open spec fn name(self) -> Seq<char> {
        match self {
            ChannelKind::Text => "text"@,
            ChannelKind::Voice => "voice"@,
        }
    }

    /// The kind whose stored name is `s`, if any.
    pub open spec fn of_name(s: Seq<char>) -> Option<ChannelKind> {
        if s == "text"@ {
            Some(ChannelKind::Text)
        } else if s == "voice"@ {
            Some(ChannelKind::Voice)
        } else {
            None
        }
    }

    /// The byte written on the wire.
    pub open spec fn byte(self) -> u8 {
        match self {
            ChannelKind::Text => 0,
            ChannelKind::Voice => 1,
        }
    }

    /// The kind whose wire byte is `b`, if any.
    pub open spec fn of_byte(b: u8) -> Option<ChannelKind> {
        if b == 0 {
            Some(ChannelKind::Text)
        } else if b == 1 {
            Some(ChannelKind::Voice)
        } else {
            None
        }
    }

    pub fn as_str(&self) -> (s: &'static str)
        ensures
            s@ == self.name(),
    {
        match self {
            ChannelKind::Text => "text",
            ChannelKind::Voice => "voice",
        }
    }

    pub fn parse(s: &str) -> (r: Result<ChannelKind, GhostError>)
        ensures
            match r {
                Ok(k) => ChannelKind::of_name(s@) == Some(k),
                Err(e) => ChannelKind::of_name(s@) is None && e is Database,
            },
    {
        if str_eq(s, "text") {
            Ok(ChannelKind::Text)
        } else if str_eq(s, "voice") {
            Ok(ChannelKind::Voice)
        } else {
            Err(GhostError::Database("unknown channel kind".to_string()))
        }
    }

    pub fn to_byte(self) -> (b: u8)
        ensures
            b == self.byte(),
    {
        match self {
            ChannelKind::Text => 0,
            ChannelKind::Voice => 1,
        }
    }

    pub fn from_byte(b: u8) -> (r: Result<ChannelKind, GhostError>)
        ensures
            match r {
                Ok(k) => ChannelKind::of_byte(b) == Some(k),
                Err(e) => ChannelKind::of_byte(b) is None && e is Format,
            },
    {
        if b == 0 {
            Ok(ChannelKind::Text)
        } else if b == 1 {
            Ok(ChannelKind::Voice)
        } else {
            Err(GhostError::Format("unknown channel kind byte".to_string()))
        }
    }
}

/// A member's role in a server.
#[derive(Debug, Clone, Copy, PartialEq, Eq, Structural)]
pub enum MemberRole {
    Creator,
    Member,
}

impl MemberRole {
    /// The name stored in the database.
    pub open spec fn name(self) -> Seq<char> {
        match self {
            MemberRole::Creator => "creator"@,
            MemberRole::Member => "member"@,
        }
    }

    /// The role whose stored name is `s`, if any.
    pub open spec fn of_name(s: Seq<char>) -> Option<MemberRole> {
        if s == "creator"@ {
            Some(MemberRole::Creator)
        } else if s == "member"@ {
            Some(MemberRole::Member)
        } else {
            None
        }
    }

    /// The byte written on the wire.
    pub open spec fn byte(self) -> u8 {
        match self {
            MemberRole::Creator => 0,
            MemberRole::Member => 1,
        }
    }

    /// The role whose wire byte is `b`, if any.
    pub open spec fn of_byte(b: u8) -> Option<MemberRole> {
        if b == 0 {
            Some(MemberRole::Creator)
        } else if b == 1 {
            Some(MemberRole::Member)
        } else {
            None
        }
    }

    pub fn as_str(&self) -> (s: &'static str)
        ensures
            s@ == self.name(),
    {
        match self {
            MemberRole::Creator => "creator",
            MemberRole::Member => "member",
        }
    }

    pub fn parse(s: &str) -> (r: Result<MemberRole, GhostError>)
        ensures
            match r {
                Ok(k) => MemberRole::of_name(s@) == Some(k),
                Err(e) => MemberRole::of_name(s@) is None && e is Database,
            },
    {
        if str_eq(s, "creator") {
            Ok(MemberRole::Creator)
        } else if str_eq(s, "member") {
            Ok(MemberRole::Member)
        } else {
            Err(GhostError::Database("unknown role".to_string()))
        }
    }

    pub fn to_byte(self) -> (b: u8)
        ensures
            b == self.byte(),
    {
        match self {
            MemberRole::Creator => 0,
            MemberRole::Member => 1,
        }
    }

    pub fn from_byte(b: u8) -> (r: Result<MemberRole, GhostError>)
        ensures
            match r {
                Ok(k) => MemberRole::of_byte(b) == Some(k),
                Err(e) => MemberRole::of_byte(b) is None && e is Format,
            },
    {
        if b == 0 {
            Ok(MemberRole::Creator)
        } else if b == 1 {
            Ok(MemberRole::Member)
        } else {
            Err(GhostError::Format("unknown role byte".to_string()))
        }
    }
}

/// Reading back the byte of a server kind gives the kind; only its own byte does.
pub proof fn law_server_kind_byte(k: ServerKind, b: u8)
    ensures
        ServerKind::of_byte(k.byte()) == Some(k),
        ServerKind::of_byte(b) == Some(k) ==> k.byte() == b,
{
}

/// Parsing the stored name of a server kind gives the kind; only its own name does.
pub proof fn law_server_kind_name(k: ServerKind, s: Seq<char>)
    ensures
        ServerKind::of_name(k.name()) == Some(k),
        ServerKind::of_name(s) == Some(k) ==> k.name() == s,
{
    reveal_strlit("server");
    reveal_strlit("group");
    reveal_strlit("dm");
    assert("server"@.len() == 6 && "group"@.len() == 5 && "dm"@.len() == 2);
}

/// Reading back the byte of a channel kind gives the kind; only its own byte does.
pub proof fn law_channel_kind_byte(k: ChannelKind, b: u8)
    ensures
        ChannelKind::of_byte(k.byte()) == Some(k),
        ChannelKind::of_byte(b) == Some(k) ==> k.byte() == b,
{
}

/// Parsing the stored name of a channel kind gives the kind; only its own name does.
pub proof fn law_channel_kind_name(k: ChannelKind, s: Seq<char>)
    ensures
        ChannelKind::of_name(k.name()) == Some(k),
        ChannelKind::of_name(s) == Some(k) ==> k.name() == s,
{
    reveal_strlit("text");
    reveal_strlit("voice");
    assert("text"@.len() == 4 && "voice"@.len() == 5);
}

/// Reading back the byte of a role gives the role; only its own byte does.
pub proof fn law_member_role_byte(k: MemberRole, b: u8)
    ensures
        MemberRole::of_byte(k.byte()) == Some(k),
        MemberRole::of_byte(b) == Some(k) ==> k.byte() == b,
{
}

/// Parsing the stored name of a role gives the role; only its own name does.
pub proof fn law_member_role_name(k: MemberRole, s: Seq<char>)
    ensures
        MemberRole::of_name(k.name()) == Some(k),
        MemberRole::of_name(s) == Some(k) ==> k.name() == s,
{
    reveal_strlit("creator");
    reveal_strlit("member");
    assert("creator"@.len() == 7 && "member"@.len() == 6);
}

/// A role's wire byte agrees with its stored name: byte 0 is the creator and
/// byte 1 a plain member, whichever way a role is read back.
pub proof fn law_member_role_wire_matches_name(r: MemberRole, b: u8)
    ensures
        (r.byte() == 0) == (r.name() == "creator"@),
        (r.byte() == 1) == (r.name() == "member"@),
        MemberRole::of_byte(b) matches Some(k) ==> ((k.name() == "creator"@) == (b == 0)),
        MemberRole::of_byte(b) matches Some(k) ==> ((k.name() == "member"@) == (b == 1)),
        MemberRole::of_byte(b) is Some == (b <= 1),
        MemberRole::of_byte(0) == Some(MemberRole::Creator),
        MemberRole::of_byte(1) == Some(MemberRole::Member),
        MemberRole::Creator.name() == "creator"@,
{
    reveal_strlit("creator");
    reveal_strlit("member");
    assert("creator"@.len() == 7 && "member"@.len() == 6);
}

} // verus!

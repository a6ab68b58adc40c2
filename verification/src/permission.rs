//! Whether a tool may run.
use vstd::prelude::*;
use crate::text::chars::same;

verus! {

/// What the user lets a tool do.
#[derive(Clone, Copy, Debug, PartialEq, Eq, Structural)]
pub enum ToolPermission {
    Allow,
    Deny,
    /// Ask before each call.
    Ask,
}

impl Default for ToolPermission {
    fn default() -> (r: ToolPermission)
        ensures
            r == ToolPermission::Ask,
    {
        ToolPermission::Ask
    }
}

/// The permission that a word names. No other word names one.
pub open spec fn permission_of(word: Seq<char>) -> Option<ToolPermission> {
    if word == "allow"@ {
        Some(ToolPermission::Allow)
    } else if word == "deny"@ {
        Some(ToolPermission::Deny)
    } else if word == "ask"@ {
        Some(ToolPermission::Ask)
    } else {
        None
    }
}

impl ToolPermission {
    /// The word for the permission.
    pub open spec fn word(self) -> Seq<char> {
        match self {
            ToolPermission::Allow => "allow"@,
            ToolPermission::Deny => "deny"@,
            ToolPermission::Ask => "ask"@,
        }
    }

    /// The word for the permission.
    pub fn as_str(&self) -> (r: &'static str)
        ensures
            r@ == self.word(),
    {
        match self {
            ToolPermission::Allow => "allow",
            ToolPermission::Deny => "deny",
            ToolPermission::Ask => "ask",
        }
    }

    /// The permission that a word names, or the message that none does.
    pub fn parse(value: &str) -> (r: Result<ToolPermission, String>)
        ensures
            match r {
                Ok(p) => permission_of(value@) == Some(p),
                Err(e) => permission_of(value@) is None && e@
                    == "权限必须是 allow、deny 或 ask"@,
            },
    {
        if same(value, "allow") {
            Ok(ToolPermission::Allow)
        } else if same(value, "deny") {
            Ok(ToolPermission::Deny)
        } else if same(value, "ask") {
            Ok(ToolPermission::Ask)
        } else {
            Err("权限必须是 allow、deny 或 ask".to_owned())
        }
    }
}

/// The word of a permission names that permission.
pub proof fn law_permission_words_round_trip(p: ToolPermission)
    ensures
        permission_of(p.word()) == Some(p),
{
    reveal_strlit("allow");
    reveal_strlit("deny");
    reveal_strlit("ask");
    assert("allow"@.len() == 5 && "deny"@.len() == 4 && "ask"@.len() == 3);
}

} // verus!

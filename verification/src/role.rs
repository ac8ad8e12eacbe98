use vstd::prelude::*;

use crate::text::str_eq;

verus! {

/// The side a player or a piece belongs to.
#[derive(Clone, Copy, Debug, PartialEq, Eq, Structural, Hash)]
pub enum Role {
    Attacker,
    Defender,
    Roleless,
}

impl Role {
    /// The other side; `Roleless` stays `Roleless`.
    pub fn opposite(&self) -> (r: Role)
        ensures
            r == self.spec_opposite(),
    {
        match self {
            Role::Attacker => Role::Defender,
            Role::Defender => Role::Attacker,
            Role::Roleless => Role::Roleless,
        }
    }

    pub open spec fn spec_opposite(self) -> Role {
        match self {
            Role::Attacker => Role::Defender,
            Role::Defender => Role::Attacker,
            Role::Roleless => Role::Roleless,
        }
    }
}


/// The Unicode lowercase mapping of a text, as std's `str::to_lowercase` gives it.
pub uninterp spec fn lowercase(s: Seq<char>) -> Seq<char>;

/// std's `str::to_lowercase`: each character replaced by its Unicode lowercase mapping. The
/// mapping is a fixed table of the Unicode standard, not restated here: the result is named.
#[verifier::external_body]
fn to_lowercase(s: &str) -> (r: String)
    ensures
        r@ == lowercase(s@),
{
    s.to_lowercase()
}

/// The text names no side.
#[derive(Clone, Debug)]
pub struct RoleError {
    /// The text, in lowercase.
    pub text: String,
}

/// The side a lowercase text names: `a` or `attacker`, `d` or `defender`.
pub open spec fn spec_role_from_lowercase(s: Seq<char>) -> Option<Role> {
    if s == "a"@ || s == "attacker"@ {
        Some(Role::Attacker)
    } else if s == "d"@ || s == "defender"@ {
        Some(Role::Defender)
    } else {
        None
    }
}

impl Role {
    /// The name of the side.
    pub open spec fn spec_to_str(self) -> Seq<char> {
        match self {
            Role::Attacker => "attacker"@,
            Role::Defender => "defender"@,
            Role::Roleless => "roleless"@,
        }
    }

    /// `attacker`, `defender` or `roleless`.
    pub fn to_str(&self) -> (s: &'static str)
        ensures
            s@ == self.spec_to_str(),
    {
        match self {
            Role::Attacker => "attacker",
            Role::Defender => "defender",
            Role::Roleless => "roleless",
        }
    }

    /// Reads a side from a lowercase text: `a` or `attacker`, `d` or `defender`.
    pub fn from_lowercase(string: &str) -> (r: Result<Role, RoleError>)
        ensures
            match spec_role_from_lowercase(string@) {
                Some(role) => r == Ok::<Role, RoleError>(role),
                None => r matches Err(e) && e.text@ == string@,
            },
    {
        if str_eq(string, "a") || str_eq(string, "attacker") {
            Ok(Role::Attacker)
        } else if str_eq(string, "d") || str_eq(string, "defender") {
            Ok(Role::Defender)
        } else {
            Err(RoleError { text: string.to_string() })
        }
    }

    /// Reads a side, in any case: `a` or `attacker`, `d` or `defender`.
    pub fn from_str(string: &str) -> (r: Result<Role, RoleError>)
        ensures
            match spec_role_from_lowercase(lowercase(string@)) {
                Some(role) => r == Ok::<Role, RoleError>(role),
                None => r matches Err(e) && e.text@ == lowercase(string@),
            },
    {
        let lower = to_lowercase(string);
        Role::from_lowercase(lower.as_str())
    }
}

impl RoleError {
    /// What went wrong, in words.
    pub fn message(&self) -> (s: String)
        ensures
            s@ == "Error trying to convert '"@ + self.text@ + "' to a Role!"@,
    {
        let mut s = String::new();
        crate::text::push_str(&mut s, "Error trying to convert '");
        crate::text::push_str(&mut s, self.text.as_str());
        crate::text::push_str(&mut s, "' to a Role!");
        s
    }
}

} // verus!

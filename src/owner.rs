//! Owners: user names, teams and e-mail addresses, classified from tokens.
use crate::text::{chars_of, is_space, is_space_char};
use vstd::prelude::*;

verus! {

/// The three forms an owner can take.
#[derive(Clone, Copy, Debug, PartialEq, Eq, Structural)]
pub enum OwnerKind {
    /// `@user`
    Username,
    /// `@org/team`
    Team,
    /// `user@domain.com`
    Email,
}

/// An owner named in a CODEOWNERS rule, holding its token as written.
#[derive(Clone, Debug, PartialEq, Eq)]
pub enum Owner {
    /// Owner in the form @username
    Username(String),
    /// Owner in the form @org/team
    Team(String),
    /// Owner in the form user@domain.com
    Email(String),
}

impl View for Owner {
    type V = (OwnerKind, Seq<char>);

    open spec fn view(&self) -> (OwnerKind, Seq<char>) {
        match self {
            Owner::Username(s) => (OwnerKind::Username, s@),
            Owner::Team(s) => (OwnerKind::Team, s@),
            Owner::Email(s) => (OwnerKind::Email, s@),
        }
    }
}

/// Some `i >= min` holds `marker`, is followed by a non-whitespace character,
/// and every character from `start` up to `i` is not whitespace.
pub open spec fn marked(s: Seq<char>, start: int, marker: char, min: int) -> bool {
    exists|i: int|
        #![trigger s[i]]
        min <= i && i + 1 < s.len() && s[i] == marker && !is_space(s[i + 1]) && forall|j: int|
            start <= j < i ==> !is_space(s[j])
}

/// `s` starts with `@org/team` (`@`, non-whitespace, `/`, non-whitespace).
pub open spec fn is_team(s: Seq<char>) -> bool {
    s.len() > 0 && s[0] == '@' && marked(s, 1, '/', 2)
}

/// `s` starts with `@`.
pub open spec fn is_username(s: Seq<char>) -> bool {
    s.len() > 0 && s[0] == '@'
}

/// `s` starts with `user@domain`: non-whitespace, `@`, non-whitespace.
pub open spec fn is_email(s: Seq<char>) -> bool {
    marked(s, 0, '@', 1)
}

/// The kind of owner that `s` names, the first test that holds deciding:
/// team, then user name, then e-mail; `None` when `s` names no owner.
pub open spec fn classify(s: Seq<char>) -> Option<OwnerKind> {
    if is_team(s) {
        Some(OwnerKind::Team)
    } else if is_username(s) {
        Some(OwnerKind::Username)
    } else if is_email(s) {
        Some(OwnerKind::Email)
    } else {
        None
    }
}

/// The owner that the token `s` parses to, if any.
pub open spec fn parse_owner(s: Seq<char>) -> Option<(OwnerKind, Seq<char>)> {
    match classify(s) {
        Some(k) => Some((k, s)),
        None => None,
    }
}

/// The text an owner is written as.
pub open spec fn render(o: (OwnerKind, Seq<char>)) -> Seq<char> {
    o.1
}

/// Every owner that a token parses to renders back to that token, and the
/// rendered text parses to the same owner again.
pub proof fn lemma_owner_round_trip(s: Seq<char>)
    requires
        parse_owner(s) is Some,
    ensures
        render(parse_owner(s)->0) == s,
        parse_owner(render(parse_owner(s)->0)) == parse_owner(s),
{
}

fn is_marked(s: &Vec<char>, start: usize, marker: char, min: usize) -> (r: bool)
    requires
        start <= min,
        start <= s.len(),
        !is_space(marker),
    ensures
        r == marked(s@, start as int, marker, min as int),
{
    let mut i: usize = start;
    while i < s.len()
        invariant
            start <= i <= s.len(),
            start <= min,
            !is_space(marker),
            forall|j: int| start <= j < i ==> !is_space(s@[j]),
            forall|k: int|
                #![trigger s@[k]]
                min <= k < i && k + 1 < s@.len() && s@[k] == marker ==> is_space(s@[k + 1]),
        decreases s.len() - i,
    {
        if is_space_char(s[i]) {
            proof {
                if marked(s@, start as int, marker, min as int) {
                    let k = choose|k: int|
                        #![trigger s@[k]]
                        min <= k && k + 1 < s@.len() && s@[k] == marker && !is_space(s@[k + 1])
                            && forall|j: int| start <= j < k ==> !is_space(s@[j]);
                    if k < i {
                        assert(is_space(s@[k + 1]));
                    } else if k > i {
                        assert(!is_space(s@[i as int]));
                    }
                }
            }
            return false;
        }
        if i >= min && i + 1 < s.len() && s[i] == marker && !is_space_char(s[i + 1]) {
            return true;
        }
        i = i + 1;
    }
    false
}

/// The kind of owner that the characters `s` name (see `classify`).
pub fn kind_of(s: &Vec<char>) -> (r: Option<OwnerKind>)
    ensures
        r == classify(s@),
{
    if s.len() > 0 && s[0] == '@' && is_marked(s, 1, '/', 2) {
        Some(OwnerKind::Team)
    } else if s.len() > 0 && s[0] == '@' {
        Some(OwnerKind::Username)
    } else if is_marked(s, 0, '@', 1) {
        Some(OwnerKind::Email)
    } else {
        None
    }
}

impl Owner {
    /// The owner of the given kind written as `token`.
    pub fn new(kind: OwnerKind, token: String) -> (r: Owner)
        ensures
            r@ == (kind, token@),
    {
        match kind {
            OwnerKind::Username => Owner::Username(token),
            OwnerKind::Team => Owner::Team(token),
            OwnerKind::Email => Owner::Email(token),
        }
    }

    /// Parses a token as an owner; a token that names none is refused with
    /// the message `not an owner`.
    pub fn classify(token: &str) -> (r: Result<Owner, String>)
        ensures
            match parse_owner(token@) {
                Some(o) => r matches Ok(x) && x@ == o,
                None => r matches Err(e) && e@ == "not an owner"@,
            },
    {
        let chars = chars_of(token);
        match kind_of(&chars) {
            Some(k) => Ok(Owner::new(k, String::from_str(token))),
            None => Err(String::from_str("not an owner")),
        }
    }

    pub fn kind(&self) -> (r: OwnerKind)
        ensures
            r == self@.0,
    {
        match self {
            Owner::Username(_) => OwnerKind::Username,
            Owner::Team(_) => OwnerKind::Team,
            Owner::Email(_) => OwnerKind::Email,
        }
    }

    /// The token this owner was written as.
    pub fn as_str(&self) -> (r: &str)
        ensures
            r@ == render(self@),
    {
        match self {
            Owner::Username(u) => u.as_str(),
            Owner::Team(t) => t.as_str(),
            Owner::Email(e) => e.as_str(),
        }
    }

    /// The token this owner was written as, as an owned string.
    pub fn to_string(&self) -> (r: String)
        ensures
            r@ == render(self@),
    {
        String::from_str(self.as_str())
    }
}

impl std::str::FromStr for Owner {
    type Err = String;

    fn from_str(s: &str) -> (r: Result<Owner, String>)
        ensures
            match parse_owner(s@) {
                Some(o) => r matches Ok(x) && x@ == o,
                None => r matches Err(e) && e@ == "not an owner"@,
            },
    {
        Owner::classify(s)
    }
}

} // verus!

use vstd::prelude::*;

verus! {

/// Why a username was refused.
#[derive(Debug, Clone, Copy, PartialEq, Eq)]
pub enum UserNameError {
    /// The username is the empty string.
    Empty,
    /// The username holds a character outside the allowed set.
    Char(char),
}

/// The characters a username may hold: `0-9`, `@`, `A-Z`, `_` and `a-z`.
pub open spec fn name_char_allowed(c: char) -> bool {
    let u = c as u32;
    (48 <= u <= 57) || (64 <= u <= 90) || u == 95 || (97 <= u <= 122)
}

/// A username is non-empty and made of allowed characters only.
pub open spec fn valid_username(s: Seq<char>) -> bool {
    s.len() > 0 && forall|i: int| 0 <= i < s.len() ==> #[trigger] name_char_allowed(s[i])
}

/// The first character of `s` that a username cannot hold, if any.
pub open spec fn first_disallowed(s: Seq<char>) -> Option<char>
    decreases s.len(),
{
    if s.len() == 0 {
        None
    } else if !name_char_allowed(s[0]) {
        Some(s[0])
    } else {
        first_disallowed(s.drop_first())
    }
}

/// The outcome of checking a username: `Empty` for the empty string, else the
/// first character that is not allowed, if any.
pub open spec fn username_check(s: Seq<char>) -> Result<(), UserNameError> {
    if s.len() == 0 {
        Err(UserNameError::Empty)
    } else {
        match first_disallowed(s) {
            Some(c) => Err(UserNameError::Char(c)),
            None => Ok(()),
        }
    }
}

/// `first_disallowed` finds nothing exactly where every character is allowed.
pub proof fn lemma_first_disallowed(s: Seq<char>)
    ensures
        first_disallowed(s) is None <==> forall|i: int| 0 <= i < s.len() ==> #[trigger] name_char_allowed(s[i]),
    decreases s.len(),
{
    if s.len() > 0 {
        let t = s.drop_first();
        lemma_first_disallowed(t);
        if first_disallowed(s) is None {
            assert forall|i: int| 0 <= i < s.len() implies #[trigger] name_char_allowed(s[i]) by {
                if i > 0 {
                    assert(s[i] == t[i - 1]);
                }
            }
        }
        if forall|i: int| 0 <= i < s.len() ==> #[trigger] name_char_allowed(s[i]) {
            assert(name_char_allowed(s[0]));
            assert forall|i: int| 0 <= i < t.len() implies #[trigger] name_char_allowed(t[i]) by {
                assert(t[i] == s[i + 1]);
            }
        }
    }
}

impl UserNameError {
    /// The error for a character that is not allowed.
    pub fn from_char(ch: char) -> (r: UserNameError)
        ensures
            r == UserNameError::Char(ch),
    {
        UserNameError::Char(ch)
    }

    /// `Some(c)` names an offending character; `None` stands for an empty name.
    pub fn from_option(value: Option<char>) -> (r: UserNameError)
        ensures
            r == match value {
                Some(ch) => UserNameError::Char(ch),
                None => UserNameError::Empty,
            },
    {
        match value {
            Some(ch) => UserNameError::Char(ch),
            None => UserNameError::Empty,
        }
    }
}

/// Whether `ch` may appear in a username.
pub fn validate_username_char(ch: char) -> (r: bool)
    ensures
        r == name_char_allowed(ch),
{
    let u = ch as u32;
    (48 <= u && u <= 57) || (64 <= u && u <= 90) || u == 95 || (97 <= u && u <= 122)
}

/// Checks a username: `Err(Empty)` for the empty string, `Err(Char(c))` for
/// the first character `c` that is not allowed, `Ok(())` otherwise.
pub fn validate_username(username: &str) -> (r: Result<(), UserNameError>)
    ensures
        r == username_check(username@),
        r is Ok <==> valid_username(username@),
{
    proof {
        lemma_first_disallowed(username@);
    }
    let chars = crate::text::chars_of(username);
    let n = chars.len();
    if n == 0 {
        return Err(UserNameError::Empty);
    }
    let ghost s = username@;
    let mut i: usize = 0;
    assert(s.skip(0) =~= s);
    while i < n
        invariant
            s == username@,
            chars@ == s,
            0 < n == s.len(),
            i <= n,
            first_disallowed(s) == first_disallowed(s.skip(i as int)),
        decreases n - i,
    {
        let ch = chars[i];
        assert(s.skip(i as int).drop_first() =~= s.skip(i + 1));
        assert(s.skip(i as int)[0] == ch);
        if !validate_username_char(ch) {
            assert(s.skip(i as int).len() > 0);
            assert(first_disallowed(s.skip(i as int)) == Some(ch));
            return Err(UserNameError::Char(ch));
        }
        i = i + 1;
    }
    assert(s.skip(n as int) =~= Seq::<char>::empty());
    Ok(())
}

/// Checking a username depends on its characters alone: checking the same
/// name again gives the same outcome, and a name that passed passes again.
pub proof fn lemma_revalidate(a: Seq<char>, b: Seq<char>)
    requires
        a == b,
    ensures
        username_check(a) == username_check(b),
        username_check(a) is Ok ==> username_check(b) == Ok::<(), UserNameError>(()) && valid_username(b),
{
    lemma_first_disallowed(a);
}

} // verus!

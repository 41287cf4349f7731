//! Live sessions: random tokens, each with the username it logged in.
//! Nothing here is persisted; a restart ends every session.

use crate::textmap::TextMap;
use rand::distributions::Alphanumeric;
use rand::Rng;
use vstd::prelude::*;

verus! {

/// The length of a session token, in characters.
pub const TOKEN_LEN: usize = 37;

/// How many tokens `new_session` draws before it gives up on collisions:
/// as good as without end, since a collision needs a live token among
/// 62^37 equally likely ones.
pub const TOKEN_DRAWS: u64 = 0xFFFF_FFFF_FFFF_FFFF;

/// The name of the cookie that carries the session token.
pub const SESSION_COOKIE: &'static str = "session_uuid";

/// No live token has the length of a drawn one, so no draw can collide.
pub open spec fn no_token_sized(live: Map<Seq<char>, Seq<char>>) -> bool {
    forall|k: Seq<char>| #[trigger] live.contains_key(k) ==> k.len() != TOKEN_LEN
}

/// Whether `c` is an ASCII letter or digit.
pub open spec fn token_char(c: char) -> bool {
    let u = c as u32;
    (48 <= u <= 57) || (65 <= u <= 90) || (97 <= u <= 122)
}

/// Relies on `rand::thread_rng` sampling `Alphanumeric`: each character is
/// drawn from `A-Z`, `a-z` and `0-9`.
#[verifier::external_body]
fn random_token(len: usize) -> (r: String)
    ensures
        r@.len() == len,
        forall|i: int| 0 <= i < r@.len() ==> token_char(#[trigger] r@[i]),
{
    rand::thread_rng().sample_iter(&Alphanumeric).take(len).map(char::from).collect()
}

/// The table of live sessions: token to username.
pub struct SessionTable {
    map: TextMap,
}

impl View for SessionTable {
    type V = Map<Seq<char>, Seq<char>>;

    closed spec fn view(&self) -> Map<Seq<char>, Seq<char>> {
        self.map@
    }
}

impl SessionTable {
    pub closed spec fn wf(&self) -> bool {
        self.map.wf()
    }

    /// The table with no session.
    pub fn new() -> (r: SessionTable)
        ensures
            r.wf(),
            r@ == Map::<Seq<char>, Seq<char>>::empty(),
    {
        SessionTable { map: TextMap::new() }
    }

    /// Opens a session under `token` for `username`, unless `token` is
    /// already live; then the table is left as it was and `false` returned.
    pub fn start_session(&mut self, token: String, username: &str) -> (r: bool)
        requires
            old(self).wf(),
        ensures
            final(self).wf(),
            r == !old(self)@.contains_key(token@),
            r ==> final(self)@ == old(self)@.insert(token@, username@),
            !r ==> final(self)@ == old(self)@,
    {
        if self.map.contains(token.as_str()) {
            return false;
        }
        self.map.insert(token, username.to_owned());
        true
    }

    /// Opens a session for `username` under a fresh random token of
    /// `TOKEN_LEN` letters and digits, drawing again while the token is
    /// already live; the first token that is not live is the one returned.
    /// `None`, with the table unchanged, only where `TOKEN_DRAWS` draws in a
    /// row all collided, which cannot happen while no live token has
    /// `TOKEN_LEN` characters (an empty table, for one).
    pub fn new_session(&mut self, username: &str) -> (r: Option<String>)
        requires
            old(self).wf(),
        ensures
            final(self).wf(),
            match r {
                Some(token) => {
                    &&& token@.len() == TOKEN_LEN
                    &&& forall|i: int| 0 <= i < token@.len() ==> token_char(#[trigger] token@[i])
                    &&& !old(self)@.contains_key(token@)
                    &&& final(self)@ == old(self)@.insert(token@, username@)
                },
                None => final(self)@ == old(self)@,
            },
            no_token_sized(old(self)@) ==> r is Some,
    {
        let mut draws: u64 = 0;
        while draws < TOKEN_DRAWS
            invariant
                self.wf(),
                self@ == old(self)@,
                no_token_sized(old(self)@) ==> draws == 0,
            decreases TOKEN_DRAWS - draws,
        {
            let token = random_token(TOKEN_LEN);
            let kept = token.clone();
            if self.start_session(token, username) {
                return Some(kept);
            }
            assert(self@.contains_key(kept@));
            draws = draws + 1;
        }
        None
    }

    /// The username of the session `token`, if it is live.
    pub fn validate_session(&self, token: &str) -> (r: Option<String>)
        requires
            self.wf(),
        ensures
            match r {
                Some(user) => self@.contains_key(token@) && self@[token@] == user@,
                None => !self@.contains_key(token@),
            },
    {
        match self.map.get(token) {
            Some(user) => Some(user.clone()),
            None => None,
        }
    }

    /// Ends the session `token`; ending one that is not live is no error.
    pub fn remove_session(&mut self, token: &str)
        requires
            old(self).wf(),
        ensures
            final(self).wf(),
            final(self)@ == old(self)@.remove(token@),
    {
        self.map.remove(token);
    }
}

/// The `Set-Cookie` value that hands `token` to the browser: secure,
/// HTTP-only and sent only to this site.
pub fn session_cookie(token: &str) -> (r: String)
    ensures
        r@ == seq!['s', 'e', 's', 's', 'i', 'o', 'n', '_', 'u', 'u', 'i', 'd', '='] + token@
            + seq![';', ' ', 'S', 'e', 'c', 'u', 'r', 'e', ';', ' ', 'H', 't', 't', 'p', 'O', 'n', 'l', 'y', ';', ' ', 'S', 'a', 'm', 'e', 'S', 'i', 't', 'e', '=', 'S', 't', 'r', 'i', 'c', 't'],
{
    proof {
        reveal_strlit("session_uuid");
        reveal_strlit("=");
        reveal_strlit("; Secure; HttpOnly; SameSite=Strict");
    }
    let mut out = String::from_str(SESSION_COOKIE);
    out.append("=");
    out.append(token);
    out.append("; Secure; HttpOnly; SameSite=Strict");
    assert(out@ =~= seq!['s', 'e', 's', 's', 'i', 'o', 'n', '_', 'u', 'u', 'i', 'd', '='] + token@
            + seq![';', ' ', 'S', 'e', 'c', 'u', 'r', 'e', ';', ' ', 'H', 't', 't', 'p', 'O', 'n', 'l', 'y', ';', ' ', 'S', 'a', 'm', 'e', 'S', 'i', 't', 'e', '=', 'S', 't', 'r', 'i', 'c', 't']);
    out
}

/// After a session is ended its token no longer resolves, while every other
/// session keeps its user.
pub proof fn lemma_ended_session_gone(live: Map<Seq<char>, Seq<char>>, token: Seq<char>, other: Seq<char>)
    requires
        other != token,
    ensures
        !live.remove(token).contains_key(token),
        live.remove(token).contains_key(other) == live.contains_key(other),
        live.contains_key(other) ==> live.remove(token)[other] == live[other],
{
}

} // verus!

//! Who is looking at a page: the user of the request's session, and what the
//! page header shows of them.

use crate::users::Users;
use vstd::prelude::*;

verus! {

/// The directory of profile pictures, one file per username.
pub const DEFAULT_PFP_PATH: &'static str = "./res/users-pfp/";

/// The characters of `DEFAULT_PFP_PATH`.
pub open spec fn pfp_dir() -> Seq<char> {
    seq!['.', '/', 'r', 'e', 's', '/', 'u', 's', 'e', 'r', 's', '-', 'p', 'f', 'p', '/']
}

/// The user of a live session.
pub struct User {
    pub name: String,
    /// Where the user's profile picture is, if known.
    pub pfp_path: Option<String>,
}

impl User {
    /// The user of the live session `token`, if any. No profile picture is
    /// recorded for sessions.
    pub fn from_session(users: &Users, token: &str) -> (r: Option<User>)
        requires
            users.wf(),
        ensures
            match r {
                Some(u) => users.sessions@.contains_key(token@) && u.name@ == users.sessions@[token@]
                    && u.pfp_path is None,
                None => !users.sessions@.contains_key(token@),
            },
    {
        match users.validate_session(token) {
            Some(name) => Some(User { name, pfp_path: None }),
            None => None,
        }
    }
}

/// What the page header shows: the username, and the picture, if any.
pub struct UserInfo {
    pub username: Option<String>,
    pub pfp_path: Option<String>,
}

impl Default for UserInfo {
    /// Nobody logged in.
    fn default() -> (r: UserInfo)
        ensures
            r.username is None,
            r.pfp_path is None,
    {
        UserInfo { username: None, pfp_path: None }
    }
}

impl UserInfo {
    /// The header of `username`, with the picture of that name in
    /// `DEFAULT_PFP_PATH`.
    pub fn from_username(username: String) -> (r: UserInfo)
        ensures
            r.username matches Some(n) && n@ == username@,
            r.pfp_path matches Some(p) && p@ == pfp_dir() + username@,
    {
        proof {
            reveal_strlit("./res/users-pfp/");
            assert(DEFAULT_PFP_PATH@ =~= pfp_dir());
        }
        let mut path = String::from_str(DEFAULT_PFP_PATH);
        path.append(username.as_str());
        UserInfo { username: Some(username), pfp_path: Some(path) }
    }

    /// The header of `username` where someone is logged in; the empty header
    /// otherwise.
    pub fn from_optional_username(username: Option<String>) -> (r: UserInfo)
        ensures
            match username {
                Some(name) => (r.username matches Some(n) && n@ == name@) && (r.pfp_path matches Some(p)
                    && p@ == pfp_dir() + name@),
                None => r.username is None && r.pfp_path is None,
            },
    {
        match username {
            Some(name) => UserInfo::from_username(name),
            None => UserInfo::default(),
        }
    }

    /// The header of a session's user, taken over as it is.
    pub fn from_user(user: Option<User>) -> (r: UserInfo)
        ensures
            match user {
                Some(u) => r.username == Some(u.name) && r.pfp_path == u.pfp_path,
                None => r.username is None && r.pfp_path is None,
            },
    {
        match user {
            Some(u) => UserInfo { username: Some(u.name), pfp_path: u.pfp_path },
            None => UserInfo::default(),
        }
    }
}

/// A page whose body is ready-made HTML, such as rendered markdown.
pub struct InnerHtmlProps {
    pub title: String,
    pub header: UserInfo,
    pub content: String,
}

} // verus!

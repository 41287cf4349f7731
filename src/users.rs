//! The facade over the credential store and the session table: register,
//! log in, and look up, end or check sessions.
//!
//! A registration has two steps around the append to the credentials file,
//! which the caller performs: `prepare_user` checks the request, hashes the
//! password and writes the record line; `commit_user` then makes the user
//! visible and opens a session. A failed append leaves the store untouched.

use crate::codec::{
    decode_spec, encode_all, encode_record, encode_spec, lemma_decode_encode_all, lemma_round_trip,
    record_ok, CredentialRecord,
};
use crate::error::{LoadFault, LoadUsersError, LoginError, RegisterError, RegisterFault};
use crate::hasher::{create_pass_hash, fresh_hash, password_matches, verify_with_hash};
use crate::sessions::{no_token_sized, SessionTable};
use crate::store::{db_from_str, records_map, CredentialStore};
use crate::username::{username_check, validate_username};
use vstd::prelude::*;
use vstd::utf8::{encode_utf8, is_ascii_chars};

verus! {

/// The one username with the right to register others.
pub const ADMIN_USR_ID: &'static str = "admin";

/// The characters of the admin's username.
pub open spec fn admin_name() -> Seq<char> {
    seq!['a', 'd', 'm', 'i', 'n']
}

/// What refuses a registration before any hashing: a taken name, then an
/// invalid name, then a password outside ASCII.
pub open spec fn registration_fault(
    db: Map<Seq<char>, Seq<char>>,
    name: Seq<char>,
    password: Seq<char>,
) -> Option<RegisterFault> {
    if db.contains_key(name) {
        Some(RegisterFault::ExistingUser)
    } else {
        new_user_fault(name, password)
    }
}

/// What refuses a new user by its own name and password: an invalid name,
/// then a password outside ASCII.
pub open spec fn new_user_fault(name: Seq<char>, password: Seq<char>) -> Option<RegisterFault> {
    if username_check(name) is Err {
        Some(RegisterFault::InvalidName(username_check(name)->Err_0))
    } else if !is_ascii_chars(password) {
        Some(RegisterFault::NonAsciiPassword)
    } else {
        None
    }
}

/// The outcome of a login: an unknown name, then a password outside ASCII,
/// then a password that does not match the stored hash.
pub open spec fn login_outcome(
    db: Map<Seq<char>, Seq<char>>,
    name: Seq<char>,
    password: Seq<char>,
) -> Result<(), LoginError> {
    password_check(
        if db.contains_key(name) {
            Some(db[name])
        } else {
            None
        },
        password,
    )
}

/// The outcome of a login given the stored hash of the name, if any.
pub open spec fn password_check(stored: Option<Seq<char>>, password: Seq<char>) -> Result<(), LoginError> {
    match stored {
        None => Err(LoginError::UnknownUser),
        Some(hash) => if !is_ascii_chars(password) {
            Err(LoginError::NonAsciiPassword)
        } else if !password_matches(encode_utf8(password), hash) {
            Err(LoginError::WrongPassword)
        } else {
            Ok(())
        },
    }
}

/// Checks a password against the stored hash of a name (`None`: no such
/// user). Holds no lock of the store while Argon2 runs.
pub fn check_password(stored: Option<&String>, password: &str) -> (r: Result<(), LoginError>)
    ensures
        r == password_check(
            match stored {
                Some(h) => Some(h@),
                None => None,
            },
            password@,
        ),
{
    let hash = match stored {
        Some(h) => h,
        None => {
            return Err(LoginError::UnknownUser);
        },
    };
    if !password.is_ascii() {
        return Err(LoginError::NonAsciiPassword);
    }
    if verify_with_hash(password.as_bytes(), hash.as_str()) {
        Ok(())
    } else {
        Err(LoginError::WrongPassword)
    }
}

/// A registration that passed its checks and whose record line is ready to
/// be appended to the credentials file.
pub struct NewUser {
    name: String,
    hash: String,
    line: String,
}

impl NewUser {
    pub closed spec fn name_view(&self) -> Seq<char> {
        self.name@
    }

    pub closed spec fn hash_view(&self) -> Seq<char> {
        self.hash@
    }

    /// The record can be stored, and the line is its encoding.
    #[verifier::type_invariant]
    spec fn inv(&self) -> bool {
        &&& record_ok((self.name@, self.hash@))
        &&& self.line@ == encode_spec(self.name@, self.hash@)
    }

    /// Checks a new user's name and password and hashes the password,
    /// without looking at the store: refuses an invalid name, then a
    /// password outside ASCII; otherwise succeeds for every password of at
    /// most 0xFFFFFFFF characters.
    pub fn create(username: &str, password: &str) -> (r: Result<NewUser, RegisterError>)
        ensures
            match new_user_fault(username@, password@) {
                Some(f) => r matches Err(e) && e.fault() == f,
                None => {
                    &&& password@.len() <= 0xFFFF_FFFF ==> r is Ok
                    &&& match r {
                        Ok(user) => user.name_view() == username@ && fresh_hash(user.hash_view())
                            && password_matches(encode_utf8(password@), user.hash_view()),
                        Err(e) => e.fault() == RegisterFault::Hash,
                    }
                },
            },
    {
        match validate_username(username) {
            Ok(()) => {},
            Err(e) => {
                return Err(RegisterError::InvalidName(e));
            },
        }
        if !password.is_ascii() {
            return Err(RegisterError::NonAsciiPassword);
        }
        let bytes = password.as_bytes();
        proof {
            vstd::string::is_ascii_spec_bytes(password);
        }
        let hash = match create_pass_hash(bytes) {
            Ok(h) => h,
            Err(e) => {
                return Err(RegisterError::HashError(e));
            },
        };
        let line = encode_record(username, hash.as_str());
        Ok(NewUser { name: username.to_owned(), hash, line })
    }

    /// The record to store, once its line is in the credentials file.
    pub fn into_record(self) -> (r: CredentialRecord)
        ensures
            r@ == (self.name_view(), self.hash_view()),
            record_ok(r@),
    {
        proof {
            use_type_invariant(&self);
        }
        CredentialRecord { name: self.name, hash: self.hash }
    }

    /// The username being registered.
    pub fn name(&self) -> (r: &String)
        ensures
            r@ == self.name_view(),
    {
        &self.name
    }

    /// The line to append to the credentials file.
    pub fn record_line(&self) -> (r: &String)
        ensures
            r@ == encode_spec(self.name_view(), self.hash_view()),
            record_ok((self.name_view(), self.hash_view())),
    {
        proof {
            use_type_invariant(self);
        }
        &self.line
    }
}

/// The credential store together with the live sessions.
pub struct Users {
    pub store: CredentialStore,
    pub sessions: SessionTable,
}

impl Users {
    pub open spec fn wf(&self) -> bool {
        self.store.wf() && self.sessions.wf()
    }

    /// No user and no session.
    pub fn new() -> (r: Users)
        ensures
            r.wf(),
            r.store@ == Map::<Seq<char>, Seq<char>>::empty(),
            r.sessions@ == Map::<Seq<char>, Seq<char>>::empty(),
    {
        Users { store: CredentialStore::new(), sessions: SessionTable::new() }
    }

    /// The users that the text of a credentials file holds, with no session.
    /// A fault anywhere in the file fails the whole load.
    pub fn load_str(contents: &str) -> (r: Result<Users, LoadUsersError>)
        ensures
            match r {
                Ok(users) => users.wf() && users.sessions@ == Map::<Seq<char>, Seq<char>>::empty()
                    && (decode_spec(contents@) matches Ok(rs) && users.store@ == records_map(rs)),
                Err(e) => decode_spec(contents@) == Err::<Seq<(Seq<char>, Seq<char>)>, LoadFault>(
                    e.fault(),
                ),
            },
    {
        let store = db_from_str(contents)?;
        Ok(Users { store, sessions: SessionTable::new() })
    }

    /// Checks a registration and hashes its password. Refuses, in this order,
    /// a taken name, an invalid name and a password outside ASCII, before any
    /// hashing; otherwise succeeds for every password of at most 0xFFFFFFFF
    /// characters. Changes nothing.
    pub fn prepare_user(&self, username: &str, password: &str) -> (r: Result<NewUser, RegisterError>)
        requires
            self.wf(),
        ensures
            match registration_fault(self.store@, username@, password@) {
                Some(f) => r matches Err(e) && e.fault() == f,
                None => {
                    &&& password@.len() <= 0xFFFF_FFFF ==> r is Ok
                    &&& match r {
                        Ok(user) => user.name_view() == username@ && fresh_hash(user.hash_view())
                            && password_matches(encode_utf8(password@), user.hash_view()),
                        Err(e) => e.fault() == RegisterFault::Hash,
                    }
                },
            },
    {
        if self.store.contains(username) {
            return Err(RegisterError::ExistingUser);
        }
        NewUser::create(username, password)
    }

    /// Stores a prepared user, whose line the caller has appended to the
    /// credentials file, and opens a session for it. The user is stored
    /// whether or not a session could be opened (see `new_session`).
    pub fn commit_user(&mut self, user: NewUser) -> (r: Option<String>)
        requires
            old(self).wf(),
            !old(self).store@.contains_key(user.name_view()),
        ensures
            final(self).wf(),
            final(self).store@ == old(self).store@.insert(user.name_view(), user.hash_view()),
            match r {
                Some(token) => {
                    &&& !old(self).sessions@.contains_key(token@)
                    &&& final(self).sessions@ == old(self).sessions@.insert(token@, user.name_view())
                },
                None => final(self).sessions@ == old(self).sessions@,
            },
            no_token_sized(old(self).sessions@) ==> r is Some,
    {
        let name = user.name().clone();
        let rec = user.into_record();
        self.store.insert_new(rec);
        self.sessions.new_session(name.as_str())
    }

    /// Checks a login against the store without opening a session.
    pub fn check_login(&self, username: &str, password: &str) -> (r: Result<(), LoginError>)
        requires
            self.wf(),
        ensures
            r == login_outcome(self.store@, username@, password@),
    {
        check_password(self.store.get(username), password)
    }

    /// Logs a user in: checks the login and, where it passes, opens a
    /// session. `Ok(None)` only where the login passed but every token drawn
    /// collided (see `new_session`), which cannot happen while no live token
    /// has `TOKEN_LEN` characters.
    pub fn verify_user(&mut self, username: &str, password: &str) -> (r: Result<Option<String>, LoginError>)
        requires
            old(self).wf(),
        ensures
            final(self).wf(),
            final(self).store@ == old(self).store@,
            match login_outcome(old(self).store@, username@, password@) {
                Err(e) => r == Err::<Option<String>, LoginError>(e) && final(self).sessions@ == old(self).sessions@,
                Ok(()) => match r {
                    Ok(Some(token)) => {
                        &&& !old(self).sessions@.contains_key(token@)
                        &&& final(self).sessions@ == old(self).sessions@.insert(token@, username@)
                    },
                    Ok(None) => final(self).sessions@ == old(self).sessions@ && !no_token_sized(
                        old(self).sessions@,
                    ),
                    Err(_) => false,
                },
            },
    {
        self.check_login(username, password)?;
        Ok(self.sessions.new_session(username))
    }

    /// The username of the live session `token`, if any.
    pub fn validate_session(&self, token: &str) -> (r: Option<String>)
        requires
            self.wf(),
        ensures
            match r {
                Some(user) => self.sessions@.contains_key(token@) && self.sessions@[token@] == user@,
                None => !self.sessions@.contains_key(token@),
            },
    {
        self.sessions.validate_session(token)
    }

    /// Ends the session `token`; ending one that is not live is no error.
    pub fn remove_session(&mut self, token: &str)
        requires
            old(self).wf(),
        ensures
            final(self).wf(),
            final(self).store@ == old(self).store@,
            final(self).sessions@ == old(self).sessions@.remove(token@),
    {
        self.sessions.remove_session(token);
    }

    /// Whether the live session `token` belongs to the admin.
    pub fn is_admin_session(&self, token: &str) -> (r: bool)
        requires
            self.wf(),
        ensures
            r == (self.sessions@.contains_key(token@) && self.sessions@[token@] == admin_name()),
    {
        match self.sessions.validate_session(token) {
            Some(user) => is_admin(user.as_str()),
            None => false,
        }
    }
}

/// Whether the admin user has been registered.
pub fn admin_user_exists(users: &Users) -> (r: bool)
    requires
        users.wf(),
    ensures
        r == users.store@.contains_key(admin_name()),
{
    proof {
        reveal_strlit("admin");
        assert(ADMIN_USR_ID@ =~= admin_name());
    }
    users.store.contains(ADMIN_USR_ID)
}

/// Whether `username` is the admin's name.
pub fn is_admin(username: &str) -> (r: bool)
    ensures
        r == (username@ == admin_name()),
{
    proof {
        reveal_strlit("admin");
        assert(ADMIN_USR_ID@ =~= admin_name());
    }
    let name: String = username.to_owned();
    let admin: String = ADMIN_USR_ID.to_owned();
    name == admin
}

/// A user registered with a password can then log in with that password:
/// the stored hash is one that the password matches.
pub proof fn lemma_register_then_login(
    db: Map<Seq<char>, Seq<char>>,
    name: Seq<char>,
    password: Seq<char>,
    hash: Seq<char>,
)
    requires
        registration_fault(db, name, password) is None,
        password_matches(encode_utf8(password), hash),
    ensures
        login_outcome(db.insert(name, hash), name, password) == Ok::<(), LoginError>(()),
{
}

/// Once a name is stored, a second registration of it is refused as taken,
/// whatever its password, before any hashing: no second record line exists
/// to be appended.
pub proof fn lemma_register_twice(
    db: Map<Seq<char>, Seq<char>>,
    name: Seq<char>,
    hash: Seq<char>,
    password: Seq<char>,
)
    ensures
        registration_fault(db.insert(name, hash), name, password) == Some(RegisterFault::ExistingUser),
{
}

/// Appending a new record's line to a file made of whole record lines, as
/// this store writes them, gives a file that loads as the old records
/// followed by the new one. (A file whose last record lacks its newline
/// needs one first: see `text_to_append`.)
pub proof fn lemma_append_record(
    rs: Seq<(Seq<char>, Seq<char>)>,
    name: Seq<char>,
    hash: Seq<char>,
)
    requires
        forall|i: int| 0 <= i < rs.len() ==> record_ok(#[trigger] rs[i]),
        record_ok((name, hash)),
    ensures
        decode_spec(encode_all(rs) + encode_spec(name, hash)) == Ok::<_, LoadFault>(rs.push((name, hash))),
{
    lemma_decode_encode_all(rs, encode_spec(name, hash));
    lemma_round_trip(name, hash);
    assert(rs + seq![(name, hash)] =~= rs.push((name, hash)));
}

} // verus!

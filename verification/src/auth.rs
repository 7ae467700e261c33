//! Account registration, login and session validation: the authentication
//! edge the game server consumes. Password hashing, identifier generation
//! and the clock are external collaborators; every decision taken on their
//! results is verified here.

use vstd::prelude::*;

use crate::types::{LoginResponse, Session, User, UserRole};
use vstd::string::StringExecFns;

verus! {

/// Names the outcome of bcrypt's check of `password` against `hash`:
/// `bcrypt::verify` is a function of these two arguments alone.
pub uninterp spec fn bcrypt_verifies(password: Seq<char>, hash: Seq<char>) -> bool;

/// Relies on bcrypt::verify: deterministic in the password and the hash
/// text; a malformed hash yields an error, which is reported as no match.
#[verifier::external_body]
fn verify_password(password: &str, hash: &str) -> (r: bool)
    ensures
        r == bcrypt_verifies(password@, hash@),
{
    bcrypt::verify(password, hash).unwrap_or(false)
}

/// Relies on bcrypt::hash: the salt comes from the operating system's
/// randomness, so nothing is promised of the hash text itself beyond
/// bcrypt's round-trip property — a hash it returns verifies against the
/// password it was made from. A fixed low work factor keeps the cost of a
/// check small.
#[verifier::external_body]
fn hash_password(password: &str) -> (r: Option<String>)
    ensures
        r matches Some(h) ==> bcrypt_verifies(password@, h@),
{
    bcrypt::hash(password, 4).ok()
}

/// Relies on uuid::Uuid::new_v4 and Uuid::as_u128: a freshly drawn random
/// identifier as its 128-bit value; nothing is promised of it.
#[verifier::external_body]
fn fresh_id() -> u128 {
    uuid::Uuid::new_v4().as_u128()
}

/// Relies on chrono::Utc::now and DateTime::timestamp: the current time as
/// a Unix timestamp in seconds; nothing is promised of it.
#[verifier::external_body]
fn now_timestamp() -> i64 {
    chrono::Utc::now().timestamp()
}

/// Whether some account in `users` carries the id `id`.
pub open spec fn owner_exists(users: Seq<User>, id: u128) -> bool {
    exists|k: int| 0 <= k < users.len() && (#[trigger] users[k]).id == id
}

/// The predicate selecting the sessions still alive at time `now`.
pub open spec fn session_alive(now: i64) -> spec_fn(Session) -> bool {
    |s: Session| s.expires_at > now
}

/// The authentication state: registered accounts and live sessions.
pub struct AuthState {
    pub users: Vec<User>,
    pub sessions: Vec<Session>,
}

impl AuthState {
    /// Whether some account carries the given username.
    pub open spec fn has_user(self, username: Seq<char>) -> bool {
        exists|i: int|
            0 <= i < self.users@.len() && (#[trigger] self.users@[i]).username@ == username
    }

    /// The index of the account with the given username (unique under `wf`).
    pub open spec fn user_index(self, username: Seq<char>) -> int {
        choose|i: int|
            0 <= i < self.users@.len() && (#[trigger] self.users@[i]).username@ == username
    }

    /// The account with the given username.
    pub open spec fn user_by_name(self, username: Seq<char>) -> User {
        self.users@[self.user_index(username)]
    }

    /// Whether some live session carries the given token.
    pub open spec fn has_session(self, token: u128) -> bool {
        exists|i: int| 0 <= i < self.sessions@.len() && (#[trigger] self.sessions@[i]).token == token
    }

    /// The index of the session with the given token (unique under `wf`).
    pub open spec fn session_index(self, token: u128) -> int {
        choose|i: int| 0 <= i < self.sessions@.len() && (#[trigger] self.sessions@[i]).token == token
    }

    /// Well-formedness: usernames are distinct, session tokens are distinct,
    /// and every session belongs to a registered account.
    pub open spec fn wf(self) -> bool {
        &&& forall|i: int, j: int| 0 <= i < j < self.users@.len()
            ==> (#[trigger] self.users@[i]).username@ != (#[trigger] self.users@[j]).username@
        &&& forall|i: int, j: int| 0 <= i < j < self.sessions@.len()
            ==> (#[trigger] self.sessions@[i]).token != (#[trigger] self.sessions@[j]).token
        &&& forall|i: int| 0 <= i < self.sessions@.len() ==> owner_exists(
            self.users@,
            (#[trigger] self.sessions@[i]).user_id,
        )
    }

    /// Under `wf` a username determines exactly one account index.
    proof fn lemma_user_index_agrees(self, i: int)
        requires
            self.wf(),
            0 <= i < self.users@.len(),
        ensures
            self.user_index(self.users@[i].username@) == i,
            self.has_user(self.users@[i].username@),
    {
        let name = self.users@[i].username@;
        assert(self.has_user(name));
        let j = self.user_index(name);
        if j < i {
            assert(self.users@[j].username@ != self.users@[i].username@);
        } else if j > i {
            assert(self.users@[i].username@ != self.users@[j].username@);
        }
    }

    /// Under `wf` a token determines exactly one session index.
    proof fn lemma_session_index_agrees(self, i: int)
        requires
            self.wf(),
            0 <= i < self.sessions@.len(),
        ensures
            self.session_index(self.sessions@[i].token) == i,
            self.has_session(self.sessions@[i].token),
    {
        let tok = self.sessions@[i].token;
        assert(self.has_session(tok));
        let j = self.session_index(tok);
        if j < i {
            assert(self.sessions@[j].token != self.sessions@[i].token);
        } else if j > i {
            assert(self.sessions@[i].token != self.sessions@[j].token);
        }
    }

    /// Finds the index of the account with the given username.
    fn find_user_index(&self, username: &String) -> (r: Option<usize>)
        requires
            self.wf(),
        ensures
            match r {
                Some(i) => {
                    &&& i < self.users@.len()
                    &&& self.users@[i as int].username@ == username@
                    &&& self.has_user(username@)
                    &&& self.user_index(username@) == i
                },
                None => !self.has_user(username@),
            },
    {
        let n = self.users.len();
        let mut i: usize = 0;
        while i < n
            invariant
                self.wf(),
                n == self.users@.len(),
                i <= n,
                forall|j: int| 0 <= j < i ==> (#[trigger] self.users@[j]).username@ != username@,
            decreases n - i,
        {
            if self.users[i].username.eq(username) {
                proof {
                    self.lemma_user_index_agrees(i as int);
                }
                return Some(i);
            }
            i = i + 1;
        }
        None
    }

    /// Finds the index of the session with the given token.
    fn find_session_index(&self, token: u128) -> (r: Option<usize>)
        requires
            self.wf(),
        ensures
            match r {
                Some(i) => {
                    &&& i < self.sessions@.len()
                    &&& self.sessions@[i as int].token == token
                    &&& self.has_session(token)
                    &&& self.session_index(token) == i
                },
                None => !self.has_session(token),
            },
    {
        let n = self.sessions.len();
        let mut i: usize = 0;
        while i < n
            invariant
                self.wf(),
                n == self.sessions@.len(),
                i <= n,
                forall|j: int| 0 <= j < i ==> (#[trigger] self.sessions@[j]).token != token,
            decreases n - i,
        {
            if self.sessions[i].token == token {
                proof {
                    self.lemma_session_index_agrees(i as int);
                }
                return Some(i);
            }
            i = i + 1;
        }
        None
    }

    /// A fresh state holding at most the default admin account (none when
    /// the password hash could not be produced) and no sessions.
    pub fn new() -> (s: AuthState)
        ensures
            s.wf(),
            s.sessions@ =~= Seq::<Session>::empty(),
            s.users@.len() <= 1,
            forall|i: int| 0 <= i < s.users@.len() ==> {
                &&& (#[trigger] s.users@[i]).username@ == "admin"@
                &&& s.users@[i].role == UserRole::Admin
                &&& bcrypt_verifies("admin123"@, s.users@[i].password_hash@)
            },
    {
        let mut state = AuthState { users: Vec::new(), sessions: Vec::new() };
        state.create_default_admin();
        state
    }

    /// Installs the default admin account, whose password must be changed in
    /// production; skipped when the password hash cannot be produced.
    fn create_default_admin(&mut self)
        requires
            old(self).users@.len() == 0,
            old(self).sessions@.len() == 0,
        ensures
            final(self).wf(),
            final(self).sessions@ == old(self).sessions@,
            final(self).users@.len() <= 1,
            forall|i: int| 0 <= i < final(self).users@.len() ==> {
                &&& (#[trigger] final(self).users@[i]).username@ == "admin"@
                &&& final(self).users@[i].role == UserRole::Admin
                &&& bcrypt_verifies("admin123"@, final(self).users@[i].password_hash@)
            },
    {
        match hash_password("admin123") {
            Some(password_hash) => {
                let admin = User {
                    id: fresh_id(),
                    username: String::from_str("admin"),
                    password_hash,
                    created_at: now_timestamp(),
                    role: UserRole::Admin,
                };
                self.users.push(admin);
            },
            None => {},
        }
    }

    /// Registers an account. Fails, leaving the state unchanged, exactly
    /// when the username is taken, the username length is not 3 to 20
    /// characters, the password is shorter than 6 characters, or the
    /// password hash cannot be produced — each with its fixed message, tried
    /// in that order. On success the account is appended with a fresh id and
    /// a hash that verifies against the password.
    pub fn register_user(&mut self, username: String, password: String) -> (r: Result<
        u128,
        String,
    >)
        requires
            old(self).wf(),
        ensures
            final(self).wf(),
            final(self).sessions == old(self).sessions,
            match r {
                Ok(id) => {
                    &&& !old(self).has_user(username@)
                    &&& 3 <= username@.len() <= 20
                    &&& password@.len() >= 6
                    &&& final(self).users@.len() == old(self).users@.len() + 1
                    &&& forall|j: int| 0 <= j < old(self).users@.len()
                        ==> #[trigger] final(self).users@[j] == old(self).users@[j]
                    &&& {
                        let u = final(self).users@.last();
                        &&& u.id == id
                        &&& u.username == username
                        &&& u.role == UserRole::Player
                        &&& bcrypt_verifies(password@, u.password_hash@)
                    }
                },
                Err(msg) => {
                    &&& *final(self) == *old(self)
                    &&& if old(self).has_user(username@) {
                        msg@ == "Username j\u{e1} existe"@
                    } else if !(3 <= username@.len() <= 20) {
                        msg@ == "Username deve ter entre 3 e 20 caracteres"@
                    } else if password@.len() < 6 {
                        msg@ == "Senha deve ter pelo menos 6 caracteres"@
                    } else {
                        msg@ == "Erro ao criar hash da senha"@
                    }
                },
            },
    {
        if self.find_user_index(&username).is_some() {
            return Err(String::from_str("Username j\u{e1} existe"));
        }
        let name_len = username.as_str().unicode_len();
        if name_len < 3 || name_len > 20 {
            return Err(String::from_str("Username deve ter entre 3 e 20 caracteres"));
        }
        if password.as_str().unicode_len() < 6 {
            return Err(String::from_str("Senha deve ter pelo menos 6 caracteres"));
        }
        let password_hash = match hash_password(password.as_str()) {
            Some(h) => h,
            None => {
                return Err(String::from_str("Erro ao criar hash da senha"));
            },
        };
        let user_id = fresh_id();
        let user = User {
            id: user_id,
            username,
            password_hash,
            created_at: now_timestamp(),
            role: UserRole::Player,
        };
        self.users.push(user);
        proof {
            let pre = *old(self);
            let post = *self;
            let n = pre.users@.len() as int;
            assert forall|i: int, j: int| 0 <= i < j < post.users@.len()
                implies (#[trigger] post.users@[i]).username@
                    != (#[trigger] post.users@[j]).username@ by {
                if j < n {
                    assert(pre.users@[i].username@ != pre.users@[j].username@);
                } else {
                    assert(post.users@[i] == pre.users@[i]);
                }
            }
            assert forall|i: int| 0 <= i < post.sessions@.len() implies owner_exists(
                post.users@,
                (#[trigger] post.sessions@[i]).user_id,
            ) by {
                assert(owner_exists(pre.users@, pre.sessions@[i].user_id));
                let k = choose|k: int|
                    0 <= k < pre.users@.len() && (#[trigger] pre.users@[k]).id
                        == pre.sessions@[i].user_id;
                assert(post.users@[k].id == post.sessions@[i].user_id);
            }
        }
        Ok(user_id)
    }

    /// Authenticates a user. Succeeds exactly when the username is
    /// registered and the password verifies against its stored hash; then a
    /// fresh session token is issued (a colliding token replaces the older
    /// session) and the greeting names the user. Otherwise the fixed
    /// rejection message is returned and nothing changes.
    pub fn login(&mut self, username: String, password: String, ip: String) -> (r: LoginResponse)
        requires
            old(self).wf(),
        ensures
            final(self).wf(),
            final(self).users == old(self).users,
            r.success == (old(self).has_user(username@) && bcrypt_verifies(
                password@,
                old(self).user_by_name(username@).password_hash@,
            )),
            r.success ==> {
                let u = old(self).user_by_name(username@);
                &&& r.token is Some
                &&& r.message@ == "Bem-vindo, "@ + username@ + "!"@
                &&& r.role == Some(u.role)
                &&& {
                    let tok = r.token->Some_0;
                    let idx = if old(self).has_session(tok) {
                        old(self).session_index(tok)
                    } else {
                        old(self).sessions@.len() as int
                    };
                    &&& final(self).sessions@.len() == (if old(self).has_session(tok) {
                        old(self).sessions@.len() as int
                    } else {
                        old(self).sessions@.len() as int + 1
                    })
                    &&& forall|j: int| 0 <= j < final(self).sessions@.len() && j != idx
                        ==> #[trigger] final(self).sessions@[j] == old(self).sessions@[j]
                    &&& final(self).sessions@[idx].token == tok
                    &&& final(self).sessions@[idx].user_id == u.id
                    &&& final(self).sessions@[idx].ip_address == ip
                }
            },
            !r.success ==> {
                &&& *final(self) == *old(self)
                &&& r.token is None
                &&& r.message@ == "Usu\u{e1}rio ou senha inv\u{e1}lidos"@
                &&& r.role is None
            },
    {
        let uidx: usize = match self.find_user_index(&username) {
            Some(i) => i,
            None => {
                return LoginResponse {
                    success: false,
                    token: None,
                    message: String::from_str("Usu\u{e1}rio ou senha inv\u{e1}lidos"),
                    role: None,
                };
            },
        };
        let ok = verify_password(password.as_str(), self.users[uidx].password_hash.as_str());
        if !ok {
            return LoginResponse {
                success: false,
                token: None,
                message: String::from_str("Usu\u{e1}rio ou senha inv\u{e1}lidos"),
                role: None,
            };
        }
        let token = fresh_id();
        let now = now_timestamp();
        let expires_at: i64 = if now > i64::MAX - 86400 {
            i64::MAX
        } else {
            now + 86400
        };
        let session = Session { token, user_id: self.users[uidx].id, expires_at, ip_address: ip };
        let sidx_opt = self.find_session_index(token);
        match sidx_opt {
            Some(sidx) => {
                let _ = self.sessions.remove(sidx);
                self.sessions.insert(sidx, session);
                proof {
                    let pre = *old(self);
                    let post = *self;
                    assert forall|j: int|
                        0 <= j < post.sessions@.len() && j != sidx implies #[trigger] post.sessions@[j]
                        == pre.sessions@[j] by {}
                    assert forall|i: int, j: int| 0 <= i < j < post.sessions@.len()
                        implies (#[trigger] post.sessions@[i]).token
                            != (#[trigger] post.sessions@[j]).token by {
                        if i != sidx && j != sidx {
                            assert(pre.sessions@[i].token != pre.sessions@[j].token);
                        } else if i == sidx {
                            assert(pre.sessions@[j].token != pre.sessions@[sidx as int].token);
                        } else {
                            assert(pre.sessions@[i].token != pre.sessions@[sidx as int].token);
                        }
                    }
                    assert forall|i: int| 0 <= i < post.sessions@.len() implies owner_exists(
                        post.users@,
                        (#[trigger] post.sessions@[i]).user_id,
                    ) by {
                        if i == sidx {
                            assert(post.users@[uidx as int].id == post.sessions@[i].user_id);
                        } else {
                            assert(owner_exists(pre.users@, pre.sessions@[i].user_id));
                            let k = choose|k: int|
                                0 <= k < pre.users@.len() && (#[trigger] pre.users@[k]).id
                                    == pre.sessions@[i].user_id;
                            assert(post.users@[k].id == post.sessions@[i].user_id);
                        }
                    }
                }
            },
            None => {
                self.sessions.push(session);
                proof {
                    let pre = *old(self);
                    let post = *self;
                    let n = pre.sessions@.len() as int;
                    assert forall|i: int, j: int| 0 <= i < j < post.sessions@.len()
                        implies (#[trigger] post.sessions@[i]).token
                            != (#[trigger] post.sessions@[j]).token by {
                        if j < n {
                            assert(pre.sessions@[i].token != pre.sessions@[j].token);
                        } else {
                            assert(post.sessions@[i] == pre.sessions@[i]);
                        }
                    }
                    assert forall|i: int| 0 <= i < post.sessions@.len() implies owner_exists(
                        post.users@,
                        (#[trigger] post.sessions@[i]).user_id,
                    ) by {
                        if i == n {
                            assert(post.users@[uidx as int].id == post.sessions@[i].user_id);
                        } else {
                            assert(post.sessions@[i] == pre.sessions@[i]);
                            assert(owner_exists(pre.users@, pre.sessions@[i].user_id));
                            let k = choose|k: int|
                                0 <= k < pre.users@.len() && (#[trigger] pre.users@[k]).id
                                    == pre.sessions@[i].user_id;
                            assert(post.users@[k].id == post.sessions@[i].user_id);
                        }
                    }
                }
            },
        }
        let greeting = String::from_str("Bem-vindo, ").concat(username.as_str()).concat("!");
        let role = self.users[uidx].role;
        LoginResponse { success: true, token: Some(token), message: greeting, role: Some(role) }
    }

    /// Removes every expired session as of `now`, then resolves the token:
    /// the account is returned exactly when the token names a session that
    /// is still alive at `now`.
    pub fn validate_session_at(&mut self, token: u128, now: i64) -> (r: Option<User>)
        requires
            old(self).wf(),
        ensures
            final(self).wf(),
            final(self).users == old(self).users,
            final(self).sessions@ == old(self).sessions@.filter(session_alive(now)),
            r is Some <==> exists|i: int|
                0 <= i < old(self).sessions@.len() && (#[trigger] old(self).sessions@[i]).token
                    == token && old(self).sessions@[i].expires_at > now,
            r matches Some(u) ==> exists|i: int|
                {
                    &&& 0 <= i < old(self).sessions@.len()
                    &&& (#[trigger] old(self).sessions@[i]).token == token
                    &&& old(self).sessions@[i].expires_at > now
                    &&& u.id == old(self).sessions@[i].user_id
                    &&& old(self).users@.contains(u)
                },
    {
        let ghost pred = session_alive(now);
        let mut kept: Vec<Session> = Vec::new();
        let n = self.sessions.len();
        let mut i: usize = 0;
        while i < n
            invariant
                self.wf(),
                *self == *old(self),
                n == self.sessions@.len(),
                i <= n,
                pred == session_alive(now),
                kept@ == self.sessions@.take(i as int).filter(pred),
            decreases n - i,
        {
            let alive = self.sessions[i].expires_at > now;
            proof {
                reveal(Seq::filter);
                let s = self.sessions@;
                assert(s.take(i as int + 1).drop_last() =~= s.take(i as int));
                assert(s.take(i as int + 1).last() == s[i as int]);
                assert(alive == pred(s[i as int]));
            }
            if alive {
                kept.push(self.sessions[i].duplicate());
            }
            i = i + 1;
        }
        proof {
            assert(self.sessions@.take(n as int) =~= self.sessions@);
        }
        self.sessions = kept;
        proof {
            let pre = *old(self);
            let post = *self;
            assert forall|i: int, j: int| 0 <= i < j < post.users@.len()
                implies (#[trigger] post.users@[i]).username@
                    != (#[trigger] post.users@[j]).username@ by {
                assert(pre.users@[i].username@ != pre.users@[j].username@);
            }
            assert forall|i: int, j: int| 0 <= i < j < post.sessions@.len()
                implies (#[trigger] post.sessions@[i]).token
                    != (#[trigger] post.sessions@[j]).token by {
                let s = pre.sessions@;
                s.lemma_filter_pred(pred, i);
                s.lemma_filter_pred(pred, j);
                lemma_filter_distinct_tokens(s, pred, i, j);
            }
            assert forall|i: int| 0 <= i < post.sessions@.len() implies owner_exists(
                post.users@,
                (#[trigger] post.sessions@[i]).user_id,
            ) by {
                let s = pre.sessions@;
                assert(s.filter(pred)[i] == post.sessions@[i]);
                assert(s.filter(pred).contains(post.sessions@[i]));
                s.lemma_filter_contains_rev(pred, post.sessions@[i]);
                let w = choose|w: int| 0 <= w < s.len() && s[w] == post.sessions@[i];
                assert(pre.sessions@[w] == post.sessions@[i]);
                assert(owner_exists(pre.users@, pre.sessions@[w].user_id));
                let k = choose|k: int|
                    0 <= k < pre.users@.len() && (#[trigger] pre.users@[k]).id
                        == pre.sessions@[w].user_id;
                assert(post.users@[k].id == post.sessions@[i].user_id);
            }
        }
        let sidx: usize = match self.find_session_index(token) {
            Some(i) => i,
            None => {
                proof {
                    let s = old(self).sessions@;
                    if exists|i: int|
                        0 <= i < s.len() && (#[trigger] s[i]).token == token && s[i].expires_at
                            > now {
                        let i = choose|i: int|
                            0 <= i < s.len() && (#[trigger] s[i]).token == token && s[i].expires_at
                                > now;
                        assert(pred(s[i]));
                        s.lemma_filter_contains(pred, i);
                        let w = choose|w: int|
                            0 <= w < s.filter(pred).len() && s.filter(pred)[w] == s[i];
                        assert(self.sessions@[w] == s[i]);
                        assert(self.sessions@[w].token == token);
                        assert(self.has_session(token));
                        assert(false);
                    }
                }
                return None;
            },
        };
        let user_id = self.sessions[sidx].user_id;
        proof {
            let s = old(self).sessions@;
            s.lemma_filter_pred(pred, sidx as int);
            assert(s.filter(pred)[sidx as int] == self.sessions@[sidx as int]);
            assert(s.filter(pred).contains(self.sessions@[sidx as int]));
            s.lemma_filter_contains_rev(pred, self.sessions@[sidx as int]);
            let w = choose|w: int| 0 <= w < s.len() && s[w] == self.sessions@[sidx as int];
            assert(s[w].token == token && s[w].expires_at > now);
        }
        let m = self.users.len();
        let mut k: usize = 0;
        while k < m
            invariant
                self.wf(),
                m == self.users@.len(),
                k <= m,
                self.users == old(self).users,
                pred == session_alive(now),
                self.sessions@ == old(self).sessions@.filter(pred),
                sidx < self.sessions@.len(),
                self.sessions@[sidx as int].user_id == user_id,
                self.sessions@[sidx as int].token == token,
                forall|j: int| 0 <= j < k ==> (#[trigger] self.users@[j]).id != user_id,
            decreases m - k,
        {
            if self.users[k].id == user_id {
                let u = self.users[k].duplicate();
                proof {
                    assert(self.users@.contains(self.users@[k as int]));
                    let s = old(self).sessions@;
                    s.lemma_filter_pred(pred, sidx as int);
                    assert(s.filter(pred)[sidx as int] == self.sessions@[sidx as int]);
                    assert(s.filter(pred).contains(self.sessions@[sidx as int]));
                    s.lemma_filter_contains_rev(pred, self.sessions@[sidx as int]);
                    let w = choose|w: int|
                        0 <= w < s.len() && s[w] == self.sessions@[sidx as int];
                    assert(s[w].token == token && s[w].expires_at > now && u.id == s[w].user_id);
                }
                return Some(u);
            }
            k = k + 1;
        }
        proof {
            assert(owner_exists(self.users@, self.sessions@[sidx as int].user_id));
            let k0 = choose|k0: int|
                0 <= k0 < self.users@.len() && (#[trigger] self.users@[k0]).id
                    == self.sessions@[sidx as int].user_id;
            assert(self.users@[k0].id == user_id);
            assert(false);
        }
        None
    }

    /// Resolves a session token against the clock now: expired sessions are
    /// swept out, and the account is returned exactly when the token names a
    /// session still alive. Which sessions are alive depends on the clock,
    /// so only the sweep's shape is promised here; `validate_session_at`
    /// carries the exact contract.
    pub fn validate_session(&mut self, token: u128) -> (r: Option<User>)
        requires
            old(self).wf(),
        ensures
            final(self).wf(),
            final(self).users == old(self).users,
            r matches Some(u) ==> final(self).users@.contains(u),
    {
        let now = now_timestamp();
        self.validate_session_at(token, now)
    }

    /// Ends the session with the given token, if one is live.
    pub fn logout(&mut self, token: u128)
        requires
            old(self).wf(),
        ensures
            final(self).wf(),
            final(self).users == old(self).users,
            old(self).has_session(token) ==> final(self).sessions@ =~= old(
                self,
            ).sessions@.remove(old(self).session_index(token)),
            !old(self).has_session(token) ==> final(self).sessions == old(self).sessions,
    {
        match self.find_session_index(token) {
            Some(i) => {
                let _ = self.sessions.remove(i);
                proof {
                    let pre = *old(self);
                    let post = *self;
                    pre.sessions@.remove_ensures(i as int);
                    assert forall|a: int, b: int| 0 <= a < b < post.sessions@.len()
                        implies (#[trigger] post.sessions@[a]).token
                            != (#[trigger] post.sessions@[b]).token by {
                        let pa: int = if a < i { a } else { a + 1 };
                        let pb: int = if b < i { b } else { b + 1 };
                        assert(post.sessions@[a] == pre.sessions@[pa]);
                        assert(post.sessions@[b] == pre.sessions@[pb]);
                        assert(pre.sessions@[pa].token != pre.sessions@[pb].token);
                    }
                    assert forall|a: int| 0 <= a < post.sessions@.len() implies owner_exists(
                        post.users@,
                        (#[trigger] post.sessions@[a]).user_id,
                    ) by {
                        let pa: int = if a < i { a } else { a + 1 };
                        assert(post.sessions@[a] == pre.sessions@[pa]);
                        assert(owner_exists(pre.users@, pre.sessions@[pa].user_id));
                        let k = choose|k: int|
                            0 <= k < pre.users@.len() && (#[trigger] pre.users@[k]).id
                                == pre.sessions@[pa].user_id;
                        assert(post.users@[k].id == post.sessions@[a].user_id);
                    }
                }
            },
            None => {},
        }
    }
}

/// Two distinct positions of a token-distinct session list cannot hold the
/// same token after filtering.
proof fn lemma_filter_distinct_tokens(
    s: Seq<Session>,
    pred: spec_fn(Session) -> bool,
    i: int,
    j: int,
)
    requires
        forall|a: int, b: int| 0 <= a < b < s.len()
            ==> (#[trigger] s[a]).token != (#[trigger] s[b]).token,
        0 <= i < j < s.filter(pred).len(),
    ensures
        s.filter(pred)[i].token != s.filter(pred)[j].token,
    decreases s.len(),
{
    reveal(Seq::filter);
    if s.len() == 0 {
    } else {
        let rest = s.drop_last();
        let last = s.last();
        assert forall|a: int, b: int| 0 <= a < b < rest.len()
            implies (#[trigger] rest[a]).token != (#[trigger] rest[b]).token by {
            assert(s[a].token != s[b].token);
        }
        if pred(last) {
            if j < s.filter(pred).len() - 1 {
                lemma_filter_distinct_tokens(rest, pred, i, j);
            } else {
                rest.lemma_filter_contains_rev(pred, s.filter(pred)[i]);
                let w = choose|w: int| 0 <= w < rest.len() && rest[w] == s.filter(pred)[i];
                assert(s[w].token != s[s.len() - 1].token);
            }
        } else {
            lemma_filter_distinct_tokens(rest, pred, i, j);
        }
    }
}

} // verus!

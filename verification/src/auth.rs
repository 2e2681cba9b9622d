//! Accounts and SASL authentication (PLAIN and SCRAM-SHA-1).

use vstd::prelude::*;
use vstd::utf8::encode_utf8;
use crate::crypto::{
    base64_decode, base64_decode_spec, base64_encode, base64_encode_spec, generate_nonce,
    generate_salt, hex_decode, hex_decode_bytes, hex_decode_spec, hex_encode, hex_lower_spec, hi,
    hi_spec, hmac_sha1, hmac_sha1_spec, sha1_raw, sha1_spec, sha1_hex, sha256_hex, sha256_spec,
    lemma_lossy_text_encoded, lossy_text, utf8_lossy, xor_bytes, xor_spec,
};
use crate::seqs::{
    field_value, fields_without, find_field, join_comma, join_fields_without, pieces_view,
    remove_dashes, split_bytes, split_chars, split_seq, without_dashes,
};
use crate::text::{chars_eq, chars_of, copy_opt, copy_str, str_eq, string_from_chars};

verus! {

broadcast use vstd::string::group_string_axioms;

/// A user account with SCRAM credentials.
#[derive(Debug)]
pub struct User {
    pub username: String,
    pub password_hash: String,
    pub salt: String,
    pub iterations: u32,
}

/// The credentials that SCRAM keeps for an account.
#[derive(Debug)]
pub struct ScramCredentials {
    pub salt: String,
    pub iterations: u32,
    pub stored_key: String,
    pub server_key: String,
}

#[derive(Debug, Clone, Copy, PartialEq, Eq)]
pub enum AuthMechanism {
    Plain,
    ScramSha1,
}

/// The state of an authentication exchange in progress on one stream.
#[derive(Debug)]
pub struct AuthState {
    pub mechanism: AuthMechanism,
    pub username: Option<String>,
    pub step: u32,
    pub client_nonce: Option<String>,
    pub server_nonce: Option<String>,
    pub auth_message: Option<String>,
    pub server_first_msg: Option<String>,
}

/// The stored record of an account.
#[derive(Debug)]
pub struct UserData {
    pub username: String,
    pub password: String,
    pub password_hash: String,
    pub salt: String,
    pub stored_key: String,
    pub server_key: String,
}

pub struct UserView {
    pub username: Seq<char>,
    pub password: Seq<char>,
    pub password_hash: Seq<char>,
    pub salt: Seq<char>,
    pub stored_key: Seq<char>,
    pub server_key: Seq<char>,
}

impl View for UserData {
    type V = UserView;

    open spec fn view(&self) -> UserView {
        UserView {
            username: self.username@,
            password: self.password@,
            password_hash: self.password_hash@,
            salt: self.salt@,
            stored_key: self.stored_key@,
            server_key: self.server_key@,
        }
    }
}

pub struct AuthStateView {
    pub mechanism: AuthMechanism,
    pub username: Option<Seq<char>>,
    pub step: u32,
    pub client_nonce: Option<Seq<char>>,
    pub server_nonce: Option<Seq<char>>,
    pub auth_message: Option<Seq<char>>,
    pub server_first_msg: Option<Seq<char>>,
}

pub open spec fn ostr(o: Option<String>) -> Option<Seq<char>> {
    match o {
        Some(s) => Some(s@),
        None => None,
    }
}

impl View for AuthState {
    type V = AuthStateView;

    open spec fn view(&self) -> AuthStateView {
        AuthStateView {
            mechanism: self.mechanism,
            username: ostr(self.username),
            step: self.step,
            client_nonce: ostr(self.client_nonce),
            server_nonce: ostr(self.server_nonce),
            auth_message: ostr(self.auth_message),
            server_first_msg: ostr(self.server_first_msg),
        }
    }
}

impl UserData {
    /// A copy of the record.
    pub fn copy(&self) -> (r: UserData)
        ensures
            r@ == self@,
    {
        UserData {
            username: copy_str(self.username.as_str()),
            password: copy_str(self.password.as_str()),
            password_hash: copy_str(self.password_hash.as_str()),
            salt: copy_str(self.salt.as_str()),
            stored_key: copy_str(self.stored_key.as_str()),
            server_key: copy_str(self.server_key.as_str()),
        }
    }
}

// ---------------------------------------------------------------------------
// Models
// ---------------------------------------------------------------------------

/// The position of the first account from `i` on named `name`.
pub open spec fn user_index_from(us: Seq<UserView>, name: Seq<char>, i: int) -> Option<int>
    decreases us.len() - i,
{
    if 0 <= i < us.len() {
        if us[i].username == name {
            Some(i)
        } else {
            user_index_from(us, name, i + 1)
        }
    } else {
        None
    }
}

/// The account named `name`.
pub open spec fn lookup_user(us: Seq<UserView>, name: Seq<char>) -> Option<UserView> {
    match user_index_from(us, name, 0) {
        Some(k) => Some(us[k]),
        None => None,
    }
}

/// No two accounts share a name.
pub open spec fn names_distinct(us: Seq<UserView>) -> bool {
    forall|i: int, j: int| 0 <= i < j < us.len() ==> us[i].username != us[j].username
}

/// The position of the first exchange from `i` on kept for stream `sid`.
pub open spec fn pending_index_from(ps: Seq<(Seq<char>, AuthStateView)>, sid: Seq<char>, i: int) -> Option<int>
    decreases ps.len() - i,
{
    if 0 <= i < ps.len() {
        if ps[i].0 == sid {
            Some(i)
        } else {
            pending_index_from(ps, sid, i + 1)
        }
    } else {
        None
    }
}

/// The exchange kept for stream `sid`.
pub open spec fn lookup_pending(ps: Seq<(Seq<char>, AuthStateView)>, sid: Seq<char>) -> Option<AuthStateView> {
    match pending_index_from(ps, sid, 0) {
        Some(k) => Some(ps[k].1),
        None => None,
    }
}

/// Keeps `st` for stream `sid`, in place of any exchange kept for it.
pub open spec fn pending_insert(ps: Seq<(Seq<char>, AuthStateView)>, sid: Seq<char>, st: AuthStateView) -> Seq<
    (Seq<char>, AuthStateView),
> {
    match pending_index_from(ps, sid, 0) {
        Some(k) => ps.update(k, (sid, st)),
        None => ps.push((sid, st)),
    }
}

/// Forgets the exchange kept for stream `sid`.
pub open spec fn pending_remove(ps: Seq<(Seq<char>, AuthStateView)>, sid: Seq<char>) -> Seq<
    (Seq<char>, AuthStateView),
> {
    match pending_index_from(ps, sid, 0) {
        Some(k) => ps.remove(k),
        None => ps,
    }
}

/// No two exchanges are kept for the same stream.
pub open spec fn keys_distinct(ps: Seq<(Seq<char>, AuthStateView)>) -> bool {
    forall|i: int, j: int| 0 <= i < j < ps.len() ==> ps[i].0 != ps[j].0
}

/// The account that registering `name` with `password` and `salt` creates.
pub open spec fn scram_user(name: Seq<char>, password: Seq<char>, salt: Seq<char>) -> UserView {
    let pwb = encode_utf8(password);
    let salted = hi_spec(pwb, encode_utf8(salt), 4096);
    UserView {
        username: name,
        password: password,
        password_hash: hex_lower_spec(sha256_spec(pwb)),
        salt: salt,
        stored_key: hex_lower_spec(sha1_spec(hmac_sha1_spec(salted, encode_utf8("Client Key"@)))),
        server_key: hex_lower_spec(hmac_sha1_spec(salted, encode_utf8("Server Key"@))),
    }
}

pub open spec fn res_view(r: Result<String, String>) -> Result<Seq<char>, Seq<char>> {
    match r {
        Ok(s) => Ok(s@),
        Err(e) => Err(e@),
    }
}

pub open spec fn triple_view(r: Result<(String, String, String), String>) -> Result<
    (Seq<char>, Seq<char>, Seq<char>),
    Seq<char>,
> {
    match r {
        Ok(t) => Ok((t.0@, t.1@, t.2@)),
        Err(e) => Err(e@),
    }
}

/// The answer to a PLAIN authentication whose Base64 payload has the bytes `data`.
pub open spec fn plain_auth_spec(us: Seq<UserView>, data: Seq<u8>) -> Result<Seq<char>, Seq<char>> {
    match base64_decode_spec(data) {
        None => Err("invalid-base64"@),
        Some(d) => {
            let parts = split_seq(d, 0u8);
            if parts.len() < 3 {
                Err("bad-protocol"@)
            } else {
                let u = lossy_text(parts[1]);
                let p = lossy_text(parts[2]);
                match lookup_user(us, u) {
                    None => Err("not-authorized"@),
                    Some(uv) => if uv.password == p || uv.password_hash == hex_lower_spec(
                        sha256_spec(encode_utf8(p)),
                    ) {
                        Ok(u)
                    } else {
                        Err("not-authorized"@)
                    },
                }
            }
        },
    }
}

/// The answer to the first SCRAM-SHA-1 message, whose Base64 payload has
/// the bytes `data`, on stream `sid`, when the server's random nonce part
/// is `rnd`; and the exchanges kept afterwards.
pub open spec fn scram_start_spec(
    us: Seq<UserView>,
    ps: Seq<(Seq<char>, AuthStateView)>,
    sid: Seq<char>,
    data: Seq<u8>,
    rnd: Seq<u8>,
) -> (Result<(Seq<char>, Seq<char>, Seq<char>), Seq<char>>, Seq<(Seq<char>, AuthStateView)>) {
    match base64_decode_spec(data) {
        None => (Err("invalid-base64"@), ps),
        Some(d) => {
            let fields = split_seq(lossy_text(d), ',');
            match field_value(fields, "n="@) {
                None => (Err("invalid-username"@), ps),
                Some(un) => match field_value(fields, "r="@) {
                    None => (Err("invalid-nonce"@), ps),
                    Some(cn) => {
                        let sn = cn + hex_lower_spec(rnd);
                        match lookup_user(us, un) {
                            None => (Err("not-authorized"@), ps),
                            Some(u) => {
                                let sf = "r="@ + sn + ",s="@ + u.salt + ",i=4096"@;
                                let st = AuthStateView {
                                    mechanism: AuthMechanism::ScramSha1,
                                    username: Some(un),
                                    step: 1,
                                    client_nonce: Some(cn),
                                    server_nonce: Some(sn),
                                    auth_message: None,
                                    server_first_msg: Some(sf),
                                };
                                (
                                    Ok((base64_encode_spec(encode_utf8(sf)), un, sf)),
                                    pending_insert(ps, sid, st),
                                )
                            },
                        }
                    },
                },
            }
        },
    }
}

/// The answer to the final SCRAM-SHA-1 message, whose Base64 payload has
/// the bytes `data`, on stream `sid`; and the exchanges kept afterwards.
pub open spec fn scram_finish_spec(
    us: Seq<UserView>,
    ps: Seq<(Seq<char>, AuthStateView)>,
    sid: Seq<char>,
    data: Seq<u8>,
) -> (Result<Seq<char>, Seq<char>>, Seq<(Seq<char>, AuthStateView)>) {
    match base64_decode_spec(data) {
        None => (Err("invalid-base64"@), ps),
        Some(d) => {
            let fields = split_seq(lossy_text(d), ',');
            match lookup_pending(ps, sid) {
                None => (Err("not-authorized"@), ps),
                Some(st) => {
                    if st.username is None || st.server_first_msg is None || st.client_nonce is None {
                        (Err("not-authorized"@), ps)
                    } else {
                        match lookup_user(us, st.username->0) {
                            None => (Err("not-authorized"@), ps),
                            Some(u) => match field_value(fields, "p="@) {
                                None => (Err("invalid-proof"@), ps),
                                Some(proof) => {
                                    let auth_msg = st.server_first_msg->0 + seq![','] + join_comma(
                                        fields_without(fields, "p="@),
                                    );
                                    match hex_decode_spec(encode_utf8(u.stored_key)) {
                                        None => (Err("invalid-key"@), ps),
                                        Some(ck) => match base64_decode_spec(encode_utf8(proof)) {
                                            None => (Err("invalid-proof-encoding"@), ps),
                                            Some(pb) => if hex_lower_spec(sha1_spec(xor_spec(ck, pb)))
                                                != remove_dashes(u.stored_key) {
                                                (Err("not-authorized"@), ps)
                                            } else {
                                                match hex_decode_spec(encode_utf8(u.server_key)) {
                                                    None => (Err("invalid-server-key"@), ps),
                                                    Some(sk) => {
                                                        let sig = hmac_sha1_spec(sk, encode_utf8(auth_msg));
                                                        (
                                                            Ok(
                                                                base64_encode_spec(
                                                                    encode_utf8("v="@ + base64_encode_spec(sig)),
                                                                ),
                                                            ),
                                                            pending_remove(ps, sid),
                                                        )
                                                    },
                                                }
                                            },
                                        },
                                    }
                                },
                            },
                        }
                    }
                },
            }
        },
    }
}

// ---------------------------------------------------------------------------
// The account store
// ---------------------------------------------------------------------------

/// The accounts of the server and the authentication exchanges in progress.
pub struct AuthManager {
    users: Vec<UserData>,
    pending_auth: Vec<(String, AuthState)>,
}

impl AuthManager {
    /// The accounts, in the order they were added.
    pub closed spec fn users_view(&self) -> Seq<UserView> {
        self.users@.map_values(|u: UserData| u@)
    }

    /// The exchanges in progress, keyed by stream id.
    pub closed spec fn pending_view(&self) -> Seq<(Seq<char>, AuthStateView)> {
        self.pending_auth@.map_values(|p: (String, AuthState)| (p.0@, p.1@))
    }

    /// Account names and stream ids are each unique.
    pub open spec fn wf(&self) -> bool {
        names_distinct(self.users_view()) && keys_distinct(self.pending_view())
    }

    pub fn new() -> (r: AuthManager)
        ensures
            r.wf(),
            r.users_view().len() == 0,
            r.pending_view().len() == 0,
    {
        let r = AuthManager { users: Vec::new(), pending_auth: Vec::new() };
        assert(r.users_view() =~= seq![]);
        assert(r.pending_view() =~= seq![]);
        r
    }

    fn find_user(&self, name: &str) -> (r: Option<usize>)
        ensures
            r matches Some(j) ==> user_index_from(self.users_view(), name@, 0) == Some(j as int) && j
                < self.users@.len(),
            r is None ==> user_index_from(self.users_view(), name@, 0) is None,
    {
        let ghost us = self.users_view();
        let mut i: usize = 0;
        while i < self.users.len()
            invariant
                i <= self.users.len(),
                us == self.users_view(),
                us.len() == self.users@.len(),
                user_index_from(us, name@, 0) == user_index_from(us, name@, i as int),
            decreases self.users.len() - i,
        {
            assert(us[i as int] == self.users@[i as int]@);
            if str_eq(self.users[i].username.as_str(), name) {
                return Some(i);
            }
            i = i + 1;
        }
        None
    }

    fn find_pending(&self, sid: &str) -> (r: Option<usize>)
        ensures
            r matches Some(j) ==> pending_index_from(self.pending_view(), sid@, 0) == Some(j as int)
                && j < self.pending_auth@.len(),
            r is None ==> pending_index_from(self.pending_view(), sid@, 0) is None,
    {
        let ghost ps = self.pending_view();
        let mut i: usize = 0;
        while i < self.pending_auth.len()
            invariant
                i <= self.pending_auth.len(),
                ps == self.pending_view(),
                ps.len() == self.pending_auth@.len(),
                pending_index_from(ps, sid@, 0) == pending_index_from(ps, sid@, i as int),
            decreases self.pending_auth.len() - i,
        {
            assert(ps[i as int].0 == self.pending_auth@[i as int].0@);
            if str_eq(self.pending_auth[i].0.as_str(), sid) {
                return Some(i);
            }
            i = i + 1;
        }
        None
    }

    proof fn lemma_index_found(us: Seq<UserView>, name: Seq<char>, i: int)
        requires
            0 <= i <= us.len(),
            forall|j: int| 0 <= j < i ==> us[j].username != name,
        ensures
            user_index_from(us, name, 0) == user_index_from(us, name, i),
        decreases i,
    {
        if i > 0 {
            Self::lemma_index_found(us, name, i - 1);
        }
    }

    proof fn lemma_index_is(us: Seq<UserView>, name: Seq<char>, k: int)
        requires
            user_index_from(us, name, 0) == Some(k),
        ensures
            0 <= k < us.len(),
            us[k].username == name,
            forall|j: int| 0 <= j < k ==> us[j].username != name,
    {
        Self::lemma_index_is_from(us, name, 0, k);
    }

    proof fn lemma_index_is_from(us: Seq<UserView>, name: Seq<char>, i: int, k: int)
        requires
            0 <= i,
            user_index_from(us, name, i) == Some(k),
        ensures
            i <= k < us.len(),
            us[k].username == name,
            forall|j: int| i <= j < k ==> us[j].username != name,
        decreases us.len() - i,
    {
        if i < us.len() && us[i].username != name {
            Self::lemma_index_is_from(us, name, i + 1, k);
        }
    }

    proof fn lemma_pending_is_from(ps: Seq<(Seq<char>, AuthStateView)>, sid: Seq<char>, i: int, k: int)
        requires
            0 <= i,
            pending_index_from(ps, sid, i) == Some(k),
        ensures
            i <= k < ps.len(),
            ps[k].0 == sid,
            forall|j: int| i <= j < k ==> ps[j].0 != sid,
        decreases ps.len() - i,
    {
        if i < ps.len() && ps[i].0 != sid {
            Self::lemma_pending_is_from(ps, sid, i + 1, k);
        }
    }

    proof fn lemma_pending_none_from(ps: Seq<(Seq<char>, AuthStateView)>, sid: Seq<char>, i: int)
        requires
            0 <= i,
            pending_index_from(ps, sid, i) is None,
        ensures
            forall|j: int| i <= j < ps.len() ==> ps[j].0 != sid,
        decreases ps.len() - i,
    {
        if i < ps.len() {
            Self::lemma_pending_none_from(ps, sid, i + 1);
        }
    }

    proof fn lemma_user_none_from(us: Seq<UserView>, name: Seq<char>, i: int)
        requires
            0 <= i,
            user_index_from(us, name, i) is None,
        ensures
            forall|j: int| i <= j < us.len() ==> us[j].username != name,
        decreases us.len() - i,
    {
        if i < us.len() {
            Self::lemma_user_none_from(us, name, i + 1);
        }
    }

    fn set_pending(&mut self, sid: &str, st: AuthState)
        requires
            old(self).wf(),
        ensures
            final(self).wf(),
            final(self).users_view() == old(self).users_view(),
            final(self).pending_view() == pending_insert(old(self).pending_view(), sid@, st@),
    {
        let ghost ps = self.pending_view();
        let ghost stv = st@;
        match self.find_pending(sid) {
            Some(i) => {
                proof {
                    Self::lemma_pending_is_from(ps, sid@, 0, i as int);
                }
                self.pending_auth.set(i, (copy_str(sid), st));
                assert(self.pending_view() =~= ps.update(i as int, (sid@, stv)));
            },
            None => {
                proof {
                    Self::lemma_pending_none_from(ps, sid@, 0);
                }
                self.pending_auth.push((copy_str(sid), st));
                assert(self.pending_view() =~= ps.push((sid@, stv)));
            },
        }
        assert(self.users_view() =~= old(self).users_view());
    }

    fn drop_pending(&mut self, sid: &str)
        requires
            old(self).wf(),
        ensures
            final(self).wf(),
            final(self).users_view() == old(self).users_view(),
            final(self).pending_view() == pending_remove(old(self).pending_view(), sid@),
    {
        let ghost ps = self.pending_view();
        match self.find_pending(sid) {
            Some(i) => {
                self.pending_auth.remove(i);
                assert(self.pending_view() =~= ps.remove(i as int));
                assert forall|a: int, b: int| 0 <= a < b < self.pending_view().len() implies self.pending_view()[a].0
                    != self.pending_view()[b].0 by {
                    let a2 = if a < i { a } else { a + 1 };
                    let b2 = if b < i { b } else { b + 1 };
                    assert(self.pending_view()[a] == ps[a2]);
                    assert(self.pending_view()[b] == ps[b2]);
                }
            },
            None => {},
        }
        assert(self.users_view() =~= old(self).users_view());
    }

    /// Creates an account with SCRAM-SHA-1 credentials derived from a fresh
    /// random salt; an existing name is refused.
    pub fn register_user(&mut self, username: &str, password: &str) -> (r: Result<(), String>)
        requires
            old(self).wf(),
        ensures
            final(self).wf(),
            final(self).pending_view() == old(self).pending_view(),
            lookup_user(old(self).users_view(), username@) is Some ==> (r matches Err(e) && e@
                == "User already exists"@) && final(self).users_view() == old(self).users_view(),
            lookup_user(old(self).users_view(), username@) is None ==> r is Ok && exists|b: Seq<u8>|
                b.len() == 16 && final(self).users_view() == old(self).users_view().push(
                    scram_user(username@, password@, base64_encode_spec(b)),
                ),
            lookup_user(old(self).users_view(), username@) is None ==> {
                let u = final(self).users_view().last();
                &&& u.salt.len() == 24
                &&& u.password_hash.len() == 64
                &&& u.stored_key.len() == 40
                &&& u.server_key.len() == 40
            },
    {
        let ghost us = self.users_view();
        if self.find_user(username).is_some() {
            return Err(copy_str("User already exists"));
        }
        let salt = generate_salt();
        let ghost b = choose|b: Seq<u8>| b.len() == 16 && salt@ == base64_encode_spec(b);
        let salted = hi(password.as_bytes(), salt.as_str().as_bytes(), 4096);
        let client_key = hmac_sha1(salted.as_slice(), "Client Key".as_bytes());
        let stored_key = sha1_hex(client_key.as_slice());
        let server_key = hmac_sha1(salted.as_slice(), "Server Key".as_bytes());
        let server_key_hex = hex_encode(server_key.as_slice());
        proof {
            crate::crypto::lemma_hex_len(server_key@);
        }
        let user = UserData {
            username: copy_str(username),
            password: copy_str(password),
            password_hash: sha256_hex(password),
            salt,
            stored_key,
            server_key: server_key_hex,
        };
        let ghost uv = user@;
        assert(uv == scram_user(username@, password@, base64_encode_spec(b)));
        proof {
            Self::lemma_user_none_from(us, username@, 0);
        }
        self.users.push(user);
        assert(self.users_view() =~= us.push(uv));
        assert(self.pending_view() =~= old(self).pending_view());
        Ok(())
    }

    /// Adds an account record as it is, in place of any account of the same name.
    pub fn insert_user(&mut self, user: UserData)
        requires
            old(self).wf(),
        ensures
            final(self).wf(),
            final(self).pending_view() == old(self).pending_view(),
            final(self).users_view() == match user_index_from(old(self).users_view(), user.username@, 0) {
                Some(k) => old(self).users_view().update(k, user@),
                None => old(self).users_view().push(user@),
            },
    {
        let ghost us = self.users_view();
        let ghost uv = user@;
        match self.find_user(user.username.as_str()) {
            Some(i) => {
                proof {
                    Self::lemma_index_is(us, uv.username, i as int);
                }
                self.users.set(i, user);
                assert(self.users_view() =~= us.update(i as int, uv));
            },
            None => {
                proof {
                    Self::lemma_user_none_from(us, uv.username, 0);
                }
                self.users.push(user);
                assert(self.users_view() =~= us.push(uv));
            },
        }
        assert(self.pending_view() =~= old(self).pending_view());
    }

    /// Checks a SASL PLAIN payload (`authzid NUL authcid NUL password`, in
    /// Base64) against the stored password or its SHA-256 digest.
    pub fn authenticate_plain(&self, stream_id: &str, auth_data: &str) -> (r: Result<String, String>)
        ensures
            res_view(r) == plain_auth_spec(self.users_view(), encode_utf8(auth_data@)),
    {
        let decoded = match base64_decode(auth_data.as_bytes()) {
            Ok(d) => d,
            Err(_) => {
                return Err(copy_str("invalid-base64"));
            },
        };
        let parts = split_bytes(decoded.as_slice(), 0);
        if parts.len() < 3 {
            return Err(copy_str("bad-protocol"));
        }
        let username = utf8_lossy(parts[1].as_slice());
        let password = utf8_lossy(parts[2].as_slice());
        let ghost us = self.users_view();
        match self.find_user(username.as_str()) {
            None => Err(copy_str("not-authorized")),
            Some(i) => {
                let user = &self.users[i];
                assert(us[i as int] == user@);
                if str_eq(user.password.as_str(), password.as_str()) {
                    return Ok(username);
                }
                let h = sha256_hex(password.as_str());
                if str_eq(user.password_hash.as_str(), h.as_str()) {
                    Ok(username)
                } else {
                    Err(copy_str("not-authorized"))
                }
            },
        }
    }

    /// Answers the client-first message of SCRAM-SHA-1 with the
    /// server-first message, and keeps the exchange for the stream.
    pub fn start_scram_sha1(&mut self, stream_id: &str, initial_data: &str) -> (r: Result<
        (String, String, String),
        String,
    >)
        requires
            old(self).wf(),
        ensures
            final(self).wf(),
            final(self).users_view() == old(self).users_view(),
            exists|rnd: Seq<u8>|
                rnd.len() == 16 && (triple_view(r), final(self).pending_view()) == scram_start_spec(
                    old(self).users_view(),
                    old(self).pending_view(),
                    stream_id@,
                    encode_utf8(initial_data@),
                    rnd,
                ),
    {
        let ghost us = self.users_view();
        let ghost ps = self.pending_view();
        let ghost data = encode_utf8(initial_data@);
        let nonce = generate_nonce();
        let ghost rnd = choose|b: Seq<u8>| b.len() == 16 && nonce@ == hex_lower_spec(b);
        let decoded = match base64_decode(initial_data.as_bytes()) {
            Ok(d) => d,
            Err(_) => {
                let r = Err(copy_str("invalid-base64"));
                assert((triple_view(r), self.pending_view()) == scram_start_spec(us, ps, stream_id@, data, rnd));
                return r;
            },
        };
        let client_first = utf8_lossy(decoded.as_slice());
        let cf = chars_of(client_first.as_str());
        let fields = split_chars(cf.as_slice(), ',');
        let np = chars_of("n=");
        let rp = chars_of("r=");
        let username = match find_field(&fields, np.as_slice()) {
            Some(u) => string_from_chars(u.as_slice()),
            None => {
                let r = Err(copy_str("invalid-username"));
                assert((triple_view(r), self.pending_view()) == scram_start_spec(us, ps, stream_id@, data, rnd));
                return r;
            },
        };
        let client_nonce = match find_field(&fields, rp.as_slice()) {
            Some(c) => string_from_chars(c.as_slice()),
            None => {
                let r = Err(copy_str("invalid-nonce"));
                assert((triple_view(r), self.pending_view()) == scram_start_spec(us, ps, stream_id@, data, rnd));
                return r;
            },
        };
        let mut server_nonce = copy_str(client_nonce.as_str());
        server_nonce.append(nonce.as_str());
        let i = match self.find_user(username.as_str()) {
            Some(i) => i,
            None => {
                let r = Err(copy_str("not-authorized"));
                assert((triple_view(r), self.pending_view()) == scram_start_spec(us, ps, stream_id@, data, rnd));
                return r;
            },
        };
        assert(us[i as int] == self.users@[i as int]@);
        let mut server_first = copy_str("r=");
        server_first.append(server_nonce.as_str());
        server_first.append(",s=");
        server_first.append(self.users[i].salt.as_str());
        server_first.append(",i=4096");
        let state = AuthState {
            mechanism: AuthMechanism::ScramSha1,
            username: Some(copy_str(username.as_str())),
            step: 1,
            client_nonce: Some(client_nonce),
            server_nonce: Some(server_nonce),
            auth_message: None,
            server_first_msg: Some(copy_str(server_first.as_str())),
        };
        self.set_pending(stream_id, state);
        let challenge = base64_encode(server_first.as_str().as_bytes());
        let r = Ok((challenge, username, server_first));
        assert((triple_view(r), self.pending_view()) == scram_start_spec(us, ps, stream_id@, data, rnd));
        r
    }

    /// Checks the client-final message of SCRAM-SHA-1 against the stored
    /// keys and answers with the server signature; the exchange is then
    /// forgotten.
    pub fn finish_scram_sha1(&mut self, stream_id: &str, response: &str) -> (r: Result<String, String>)
        requires
            old(self).wf(),
        ensures
            final(self).wf(),
            final(self).users_view() == old(self).users_view(),
            (res_view(r), final(self).pending_view()) == scram_finish_spec(
                old(self).users_view(),
                old(self).pending_view(),
                stream_id@,
                encode_utf8(response@),
            ),
    {
        let ghost us = self.users_view();
        let ghost ps = self.pending_view();
        let ghost data = encode_utf8(response@);
        let decoded = match base64_decode(response.as_bytes()) {
            Ok(d) => d,
            Err(_) => {
                return Err(copy_str("invalid-base64"));
            },
        };
        let client_final = utf8_lossy(decoded.as_slice());
        let cf = chars_of(client_final.as_str());
        let fields = split_chars(cf.as_slice(), ',');
        let k = match self.find_pending(stream_id) {
            Some(k) => k,
            None => {
                return Err(copy_str("not-authorized"));
            },
        };
        assert(ps[k as int].1 == self.pending_auth@[k as int].1@);
        let username = match &self.pending_auth[k].1.username {
            Some(u) => copy_str(u.as_str()),
            None => {
                return Err(copy_str("not-authorized"));
            },
        };
        let server_first = match &self.pending_auth[k].1.server_first_msg {
            Some(s) => copy_str(s.as_str()),
            None => {
                return Err(copy_str("not-authorized"));
            },
        };
        if self.pending_auth[k].1.client_nonce.is_none() {
            return Err(copy_str("not-authorized"));
        }
        let i = match self.find_user(username.as_str()) {
            Some(i) => i,
            None => {
                return Err(copy_str("not-authorized"));
            },
        };
        assert(us[i as int] == self.users@[i as int]@);
        let stored_key = copy_str(self.users[i].stored_key.as_str());
        let server_key_str = copy_str(self.users[i].server_key.as_str());
        let pp = chars_of("p=");
        let expected_proof = match find_field(&fields, pp.as_slice()) {
            Some(p) => string_from_chars(p.as_slice()),
            None => {
                return Err(copy_str("invalid-proof"));
            },
        };
        let rest = join_fields_without(&fields, pp.as_slice());
        let mut auth_msg = copy_str(server_first.as_str());
        auth_msg.append(",");
        let rest_s = string_from_chars(rest.as_slice());
        auth_msg.append(rest_s.as_str());
        assert(","@ =~= seq![',']) by {
            reveal_strlit(",");
        }
        let client_key = match hex_decode_bytes(stored_key.as_str().as_bytes()) {
            Ok(v) => v,
            Err(_) => {
                return Err(copy_str("invalid-key"));
            },
        };
        let client_proof_bytes = match hex_decode(expected_proof.as_str()) {
            Ok(v) => v,
            Err(_) => {
                return Err(copy_str("invalid-proof-encoding"));
            },
        };
        let stored_client_key = xor_bytes(client_key.as_slice(), client_proof_bytes.as_slice());
        let digest = sha1_raw(stored_client_key.as_slice());
        let digest_hex = hex_encode(digest.as_slice());
        let sk_chars = chars_of(stored_key.as_str());
        let undashed = without_dashes(sk_chars.as_slice());
        let dh = chars_of(digest_hex.as_str());
        if !chars_eq(dh.as_slice(), undashed.as_slice()) {
            return Err(copy_str("not-authorized"));
        }
        let server_key = match hex_decode_bytes(server_key_str.as_str().as_bytes()) {
            Ok(v) => v,
            Err(_) => {
                return Err(copy_str("invalid-server-key"));
            },
        };
        let server_signature = hmac_sha1(server_key.as_slice(), auth_msg.as_str().as_bytes());
        let sig_b64 = base64_encode(server_signature.as_slice());
        self.drop_pending(stream_id);
        let mut v = copy_str("v=");
        v.append(sig_b64.as_str());
        let success = base64_encode(v.as_str().as_bytes());
        Ok(success)
    }

    /// The user name of the exchange kept for the stream.
    pub fn get_username_for_stream(&self, stream_id: &str) -> (r: Option<String>)
        ensures
            ostr(r) == match lookup_pending(self.pending_view(), stream_id@) {
                Some(st) => st.username,
                None => None,
            },
    {
        match self.find_pending(stream_id) {
            Some(k) => {
                assert(self.pending_view()[k as int].1 == self.pending_auth@[k as int].1@);
                copy_opt(&self.pending_auth[k].1.username)
            },
            None => None,
        }
    }

    /// Forgets the exchange kept for the stream.
    pub fn remove_auth_state(&mut self, stream_id: &str)
        requires
            old(self).wf(),
        ensures
            final(self).wf(),
            final(self).users_view() == old(self).users_view(),
            final(self).pending_view() == pending_remove(old(self).pending_view(), stream_id@),
    {
        self.drop_pending(stream_id);
    }

    pub fn user_exists(&self, username: &str) -> (r: bool)
        ensures
            r == lookup_user(self.users_view(), username@) is Some,
    {
        self.find_user(username).is_some()
    }

    pub fn get_user(&self, username: &str) -> (r: Option<UserData>)
        ensures
            match lookup_user(self.users_view(), username@) {
                Some(u) => r matches Some(x) && x@ == u,
                None => r is None,
            },
    {
        match self.find_user(username) {
            Some(i) => {
                assert(self.users_view()[i as int] == self.users@[i as int]@);
                Some(self.users[i].copy())
            },
            None => None,
        }
    }

    /// The names of all accounts.
    pub fn list_users(&self) -> (r: Vec<String>)
        ensures
            r@.len() == self.users_view().len(),
            forall|i: int| 0 <= i < r@.len() ==> r@[i]@ == self.users_view()[i].username,
    {
        let mut r: Vec<String> = Vec::new();
        let mut i: usize = 0;
        while i < self.users.len()
            invariant
                i <= self.users.len(),
                self.users_view().len() == self.users@.len(),
                r@.len() == i,
                forall|j: int| 0 <= j < i ==> r@[j]@ == self.users_view()[j].username,
            decreases self.users.len() - i,
        {
            assert(self.users_view()[i as int] == self.users@[i as int]@);
            r.push(copy_str(self.users[i].username.as_str()));
            i = i + 1;
        }
        r
    }

    /// Copies of all account records, in order.
    pub fn all_users(&self) -> (r: Vec<UserData>)
        ensures
            r@.map_values(|u: UserData| u@) == self.users_view(),
    {
        let mut r: Vec<UserData> = Vec::new();
        let mut i: usize = 0;
        while i < self.users.len()
            invariant
                i <= self.users.len(),
                r@.map_values(|u: UserData| u@) == self.users_view().subrange(0, i as int),
                self.users_view().len() == self.users@.len(),
            decreases self.users.len() - i,
        {
            let ghost pre = r@;
            assert(self.users_view()[i as int] == self.users@[i as int]@);
            r.push(self.users[i].copy());
            assert(r@.map_values(|u: UserData| u@).drop_last() =~= pre.map_values(|u: UserData| u@));
            assert(r@.map_values(|u: UserData| u@) =~= self.users_view().subrange(0, i + 1));
            i = i + 1;
        }
        assert(self.users_view().subrange(0, self.users.len() as int) =~= self.users_view());
        r
    }
}


// ---------------------------------------------------------------------------
// Laws
// ---------------------------------------------------------------------------

/// An account added under a name that was free is what a lookup of that
/// name then finds.
pub proof fn law_lookup_after_add(us: Seq<UserView>, u: UserView)
    requires
        lookup_user(us, u.username) is None,
    ensures
        lookup_user(us.push(u), u.username) == Some(u),
{
    AuthManager::lemma_user_none_from(us, u.username, 0);
    AuthManager::lemma_index_found(us.push(u), u.username, us.len() as int);
}

/// Adding an account does not change what a lookup of another name finds.
pub proof fn law_lookup_other_after_add(us: Seq<UserView>, u: UserView, name: Seq<char>)
    requires
        name != u.username,
    ensures
        lookup_user(us.push(u), name) == lookup_user(us, name),
{
    lemma_user_index_push(us, u, name, 0);
    match user_index_from(us, name, 0) {
        Some(k) => {
            AuthManager::lemma_index_is(us, name, k);
            assert(us.push(u)[k] == us[k]);
        },
        None => {},
    }
}

proof fn lemma_user_index_push(us: Seq<UserView>, u: UserView, name: Seq<char>, i: int)
    requires
        name != u.username,
        0 <= i,
    ensures
        user_index_from(us.push(u), name, i) == user_index_from(us, name, i),
    decreases us.len() + 1 - i,
{
    if i < us.len() {
        assert(us.push(u)[i] == us[i]);
        lemma_user_index_push(us, u, name, i + 1);
    } else if i == us.len() {
        assert(us.push(u)[i] == u);
        assert(user_index_from(us.push(u), name, i + 1) is None);
    }
}

/// A user who registered with a password is let in by PLAIN with that
/// user name and password: whatever the salt, when the payload decodes to
/// three or more NUL-separated parts whose second and third are the name
/// and the password encoded as UTF-8.
pub proof fn law_plain_after_register(
    us: Seq<UserView>,
    name: Seq<char>,
    password: Seq<char>,
    salt: Seq<char>,
    data: Seq<u8>,
    d: Seq<u8>,
)
    requires
        lookup_user(us, name) is None,
        base64_decode_spec(data) == Some(d),
        split_seq(d, 0u8).len() >= 3,
        split_seq(d, 0u8)[1] == encode_utf8(name),
        split_seq(d, 0u8)[2] == encode_utf8(password),
    ensures
        plain_auth_spec(us.push(scram_user(name, password, salt)), data) == Ok::<Seq<char>, Seq<char>>(name),
{
    lemma_lossy_text_encoded(name);
    lemma_lossy_text_encoded(password);
    law_lookup_after_add(us, scram_user(name, password, salt));
}

/// PLAIN refuses a password that is neither the stored one nor one whose
/// SHA-256 digest is the stored digest.
pub proof fn law_plain_wrong_password(us: Seq<UserView>, data: Seq<u8>, d: Seq<u8>, u: UserView)
    requires
        base64_decode_spec(data) == Some(d),
        split_seq(d, 0u8).len() >= 3,
        lookup_user(us, lossy_text(split_seq(d, 0u8)[1])) == Some(u),
        u.password != lossy_text(split_seq(d, 0u8)[2]),
        u.password_hash != hex_lower_spec(sha256_spec(encode_utf8(lossy_text(split_seq(d, 0u8)[2])))),
    ensures
        plain_auth_spec(us, data) == Err::<Seq<char>, Seq<char>>("not-authorized"@),
{
}

/// The exchange kept for a stream is the one last kept for it.
pub proof fn law_pending_insert_lookup(ps: Seq<(Seq<char>, AuthStateView)>, sid: Seq<char>, st: AuthStateView)
    ensures
        lookup_pending(pending_insert(ps, sid, st), sid) == Some(st),
{
    match pending_index_from(ps, sid, 0) {
        Some(k) => {
            AuthManager::lemma_pending_is_from(ps, sid, 0, k);
            lemma_pending_index_found(ps.update(k, (sid, st)), sid, k);
        },
        None => {
            AuthManager::lemma_pending_none_from(ps, sid, 0);
            lemma_pending_index_found(ps.push((sid, st)), sid, ps.len() as int);
        },
    }
}

proof fn lemma_pending_index_found(ps: Seq<(Seq<char>, AuthStateView)>, sid: Seq<char>, k: int)
    requires
        0 <= k < ps.len(),
        ps[k].0 == sid,
        forall|j: int| 0 <= j < k ==> ps[j].0 != sid,
    ensures
        pending_index_from(ps, sid, 0) == Some(k),
{
    lemma_pending_index_found_from(ps, sid, k, 0);
}

proof fn lemma_pending_index_found_from(ps: Seq<(Seq<char>, AuthStateView)>, sid: Seq<char>, k: int, i: int)
    requires
        0 <= i <= k < ps.len(),
        ps[k].0 == sid,
        forall|j: int| i <= j < k ==> ps[j].0 != sid,
    ensures
        pending_index_from(ps, sid, i) == Some(k),
    decreases k - i,
{
    if i < k {
        lemma_pending_index_found_from(ps, sid, k, i + 1);
    }
}

/// Once the exchange of a stream is forgotten, none is kept for it.
pub proof fn law_pending_remove_lookup(ps: Seq<(Seq<char>, AuthStateView)>, sid: Seq<char>)
    requires
        keys_distinct(ps),
    ensures
        lookup_pending(pending_remove(ps, sid), sid) is None,
{
    match pending_index_from(ps, sid, 0) {
        Some(k) => {
            AuthManager::lemma_pending_is_from(ps, sid, 0, k);
            let r = ps.remove(k);
            assert forall|j: int| 0 <= j < r.len() implies r[j].0 != sid by {
                if j < k {
                    assert(r[j] == ps[j]);
                } else {
                    assert(r[j] == ps[j + 1]);
                }
            }
            lemma_pending_absent(r, sid, 0);
        },
        None => {},
    }
}

proof fn lemma_pending_absent(ps: Seq<(Seq<char>, AuthStateView)>, sid: Seq<char>, i: int)
    requires
        0 <= i,
        forall|j: int| 0 <= j < ps.len() ==> ps[j].0 != sid,
    ensures
        pending_index_from(ps, sid, i) is None,
    decreases ps.len() - i,
{
    if i < ps.len() {
        lemma_pending_absent(ps, sid, i + 1);
    }
}

/// After the first SCRAM message is accepted, the exchange kept for the
/// stream names the user that the message named.
pub proof fn law_scram_start_keeps_user(
    us: Seq<UserView>,
    ps: Seq<(Seq<char>, AuthStateView)>,
    sid: Seq<char>,
    data: Seq<u8>,
    rnd: Seq<u8>,
)
    requires
        scram_start_spec(us, ps, sid, data, rnd).0 is Ok,
    ensures
        lookup_pending(scram_start_spec(us, ps, sid, data, rnd).1, sid) matches Some(st) && st.username
            == Some(scram_start_spec(us, ps, sid, data, rnd).0->Ok_0.1),
{
    let d = base64_decode_spec(data)->0;
    let fields = split_seq(lossy_text(d), ',');
    let un = field_value(fields, "n="@)->0;
    let cn = field_value(fields, "r="@)->0;
    let sn = cn + hex_lower_spec(rnd);
    let u = lookup_user(us, un)->0;
    let sf = "r="@ + sn + ",s="@ + u.salt + ",i=4096"@;
    let st = AuthStateView {
        mechanism: AuthMechanism::ScramSha1,
        username: Some(un),
        step: 1,
        client_nonce: Some(cn),
        server_nonce: Some(sn),
        auth_message: None,
        server_first_msg: Some(sf),
    };
    law_pending_insert_lookup(ps, sid, st);
}

/// A failed SCRAM exchange does not forget the exchange kept for the stream.
pub proof fn law_scram_finish_failure_keeps_state(
    us: Seq<UserView>,
    ps: Seq<(Seq<char>, AuthStateView)>,
    sid: Seq<char>,
    data: Seq<u8>,
)
    requires
        scram_finish_spec(us, ps, sid, data).0 is Err,
    ensures
        scram_finish_spec(us, ps, sid, data).1 == ps,
{
}

} // verus!

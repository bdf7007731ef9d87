//! The temporary site-wide login requirement: one shared password, random session
//! tokens carried in a cookie, sessions that expire after twelve hours without
//! use, and what is answered to a request that carries no valid session.
use vstd::prelude::*;
use vstd::utf8::{decode_utf8, encode_utf8};
use rand::RngCore;
use crate::api_keys::{bytes_ct_eq, hex_encode, hex_of};
use crate::digits::{decimal, decimal_chars};
use crate::text::{
    chars_eq, chars_of, concat, contains, contains_chars, copy_range, find, find_from,
    lemma_find_from, occurs_at, starts_with, starts_with_chars, string_of, trim, trim_chars,
};

verus! {

broadcast use vstd::string::group_string_axioms;

/// How long a session lasts without use, in seconds.
pub const SESSION_TTL_SECS: i64 = 43200;

/// The shared password.
pub open spec fn login_password() -> Seq<char> {
    "142536"@
}

/// The name of the session cookie.
pub open spec fn session_cookie_name() -> Seq<char> {
    "scholarlens_temp_session"@
}

/// The submitted login form.
#[derive(Debug, Clone)]
pub struct LoginForm {
    pub password: String,
}

/// Whether `password` is the shared password; the comparison takes the same
/// time wherever the two differ.
pub fn is_valid_password(password: &str) -> (r: bool)
    ensures
        r == (password@ == login_password()),
{
    let expected = "142536";
    let same = bytes_ct_eq(password.as_bytes(), expected.as_bytes());
    proof {
        broadcast use vstd::utf8::encode_utf8_decode_utf8;

        if encode_utf8(password@) == encode_utf8(expected@) {
            assert(decode_utf8(encode_utf8(password@)) == decode_utf8(encode_utf8(expected@)));
        }
    }
    same
}

impl LoginForm {
    /// Whether the form carries the shared password.
    pub fn is_valid(&self) -> (r: bool)
        ensures
            r == (self.password@ == login_password()),
    {
        is_valid_password(self.password.as_str())
    }
}

// ---------------------------------------------------------------------------
// Reading the session cookie
// ---------------------------------------------------------------------------

/// The index of the first `;` at or after `i`, or the length of `s`.
pub open spec fn segment_end(s: Seq<char>, i: int) -> int
    decreases s.len() - i,
{
    if i < 0 || i >= s.len() {
        s.len() as int
    } else if s[i] == ';' {
        i
    } else {
        segment_end(s, i + 1)
    }
}

/// Where `segment_end` stops: at the first `;` from `i` on, or at the end.
pub proof fn lemma_segment_end(s: Seq<char>, i: int)
    requires
        0 <= i <= s.len(),
    ensures
        i <= segment_end(s, i) <= s.len(),
        segment_end(s, i) < s.len() ==> s[segment_end(s, i)] == ';',
        forall|j: int| i <= j < segment_end(s, i) ==> s[j] != ';',
    decreases s.len() - i,
{
    if i < s.len() && s[i] != ';' {
        lemma_segment_end(s, i + 1);
    }
}

/// The value of the session cookie among the `;`-separated pairs of `s` that
/// start at `i`: the first pair that, trimmed and split at its first `=`,
/// names the session cookie.
pub open spec fn cookie_from(s: Seq<char>, i: int) -> Option<Seq<char>>
    decreases s.len() - i,
{
    if i < 0 || i > s.len() {
        None
    } else {
        let e = segment_end(s, i);
        proof {
            lemma_segment_end(s, i);
        }
        let pair = trim(s.subrange(i, e));
        let rest = if e < s.len() {
            cookie_from(s, e + 1)
        } else {
            None
        };
        match find_from(pair, seq!['='], 0) {
            Some(k) => if pair.take(k) == session_cookie_name() {
                Some(pair.skip(k + 1))
            } else {
                rest
            },
            None => rest,
        }
    }
}

/// The session token carried by a `Cookie` header, if any.
pub open spec fn session_token_spec(header: Option<Seq<char>>) -> Option<Seq<char>> {
    match header {
        Some(h) => cookie_from(h, 0),
        None => None,
    }
}

/// The session token in a `Cookie` header value (`session_token_spec`).
pub fn session_token_from_cookie_header(header: Option<&str>) -> (r: Option<String>)
    ensures
        match session_token_spec(
            match header {
                Some(h) => Some(h@),
                None => None,
            },
        ) {
            Some(t) => r matches Some(s) && s@ == t,
            None => r is None,
        },
{
    let h = match header {
        Some(h) => h,
        None => {
            return None;
        },
    };
    let s = chars_of(h);
    let eq = vec!['='];
    assert(eq@ =~= seq!['=']);
    let name = chars_of("scholarlens_temp_session");
    let mut i: usize = 0;
    loop
        invariant
            i <= s.len(),
            s@ == h@,
            eq@ == seq!['='],
            name@ == session_cookie_name(),
            session_token_spec(
                match header {
                    Some(h) => Some(h@),
                    None => None,
                },
            ) == cookie_from(s@, i as int),
        decreases s.len() - i,
    {
        let mut e = i;
        while e < s.len() && s[e] != ';'
            invariant
                i <= e <= s.len(),
                segment_end(s@, i as int) == segment_end(s@, e as int),
            decreases s.len() - e,
        {
            e = e + 1;
        }
        proof {
            lemma_segment_end(s@, i as int);
        }
        assert(segment_end(s@, e as int) == e);
        let pair = trim_chars(&copy_range(&s, i, e));
        assert(pair@ == trim(s@.subrange(i as int, e as int)));
        match find(&pair, &eq, 0) {
            Some(k) => {
                proof {
                    lemma_find_from(pair@, eq@, 0);
                }
                assert(occurs_at(pair@, k as int, eq@));
                assert(k + 1 <= pair.len());
                let head = copy_range(&pair, 0, k);
                assert(head@ =~= pair@.take(k as int));
                if chars_eq(&head, &name) {
                    let value = copy_range(&pair, k + 1, pair.len());
                    assert(value@ =~= pair@.skip(k + 1));
                    assert(cookie_from(s@, i as int) == Some(pair@.skip(k + 1)));
                    return Some(string_of(&value));
                }
            },
            None => {},
        }
        if e >= s.len() {
            assert(cookie_from(s@, i as int) is None);
            return None;
        }
        i = e + 1;
    }
}

/// The `Set-Cookie` value that opens a session with `token`.
pub open spec fn login_cookie_spec(token: Seq<char>) -> Seq<char> {
    session_cookie_name() + "="@ + token + "; Path=/; Max-Age="@ + decimal(43200) + "; HttpOnly; SameSite=Lax"@
}

/// The `Set-Cookie` value for a new session (`login_cookie_spec`).
pub fn login_cookie(token: &str) -> (r: String)
    ensures
        r@ == login_cookie_spec(token@),
{
    let mut v = concat(&chars_of("scholarlens_temp_session"), &chars_of("="));
    v = concat(&v, &chars_of(token));
    v = concat(&v, &chars_of("; Path=/; Max-Age="));
    v = concat(&v, &decimal_chars(43200));
    v = concat(&v, &chars_of("; HttpOnly; SameSite=Lax"));
    string_of(&v)
}

// ---------------------------------------------------------------------------
// Answering requests without a session
// ---------------------------------------------------------------------------

/// The paths of the JSON API, which never get the login page.
pub open spec fn is_api_path_spec(path: Seq<char>) -> bool {
    path == "/sources"@ || path == "/tasks"@ || starts_with(path, "/tasks/"@) || starts_with(
        path,
        "/api/"@,
    )
}

/// Whether `path` belongs to the JSON API (`is_api_path_spec`).
pub fn is_api_path(path: &str) -> (r: bool)
    ensures
        r == is_api_path_spec(path@),
{
    let p = chars_of(path);
    chars_eq(&p, &chars_of("/sources")) || chars_eq(&p, &chars_of("/tasks")) || starts_with_chars(
        &p,
        &chars_of("/tasks/"),
    ) || starts_with_chars(&p, &chars_of("/api/"))
}

/// Whether an `Accept` header value takes HTML: it mentions `text/html` or
/// `*/*`; a missing header takes none.
pub open spec fn accepts_html_spec(accept: Option<Seq<char>>) -> bool {
    match accept {
        Some(a) => contains(a, "text/html"@) || contains(a, "*/*"@),
        None => false,
    }
}

/// Whether the `Accept` header value, if any, takes HTML (`accepts_html_spec`).
pub fn accepts_html(accept: Option<&str>) -> (r: bool)
    ensures
        r == accepts_html_spec(
            match accept {
                Some(a) => Some(a@),
                None => None,
            },
        ),
{
    match accept {
        Some(a) => {
            let v = chars_of(a);
            contains_chars(&v, &chars_of("text/html")) || contains_chars(&v, &chars_of("*/*"))
        },
        None => false,
    }
}

/// What happens to a request.
#[derive(Debug, Clone, Copy, PartialEq, Eq, Structural)]
pub enum AccessDecision {
    /// Pass the request on.
    Proceed,
    /// Send a browser to the login page.
    RedirectToLogin,
    /// Refuse with 401 and a JSON error.
    Unauthorized,
}

/// A request with a valid session passes; a page request from a browser (a
/// `GET` outside the API that accepts HTML) is sent to the login page; any
/// other is refused.
pub open spec fn access_spec(authenticated: bool, is_get: bool, path: Seq<char>, accept: Option<Seq<char>>) -> AccessDecision {
    if authenticated {
        AccessDecision::Proceed
    } else if is_get && !is_api_path_spec(path) && accepts_html_spec(accept) {
        AccessDecision::RedirectToLogin
    } else {
        AccessDecision::Unauthorized
    }
}

/// What happens to a request (`access_spec`).
pub fn access_decision(authenticated: bool, is_get: bool, path: &str, accept: Option<&str>) -> (r: AccessDecision)
    ensures
        r == access_spec(
            authenticated,
            is_get,
            path@,
            match accept {
                Some(a) => Some(a@),
                None => None,
            },
        ),
{
    if authenticated {
        return AccessDecision::Proceed;
    }
    if is_get && !is_api_path(path) && accepts_html(accept) {
        AccessDecision::RedirectToLogin
    } else {
        AccessDecision::Unauthorized
    }
}

// ---------------------------------------------------------------------------
// Sessions
// ---------------------------------------------------------------------------

/// 32 bytes from the operating system's random source (`rand::rngs::OsRng`
/// with `RngCore::fill_bytes`). Of random bytes the contract states only how
/// many there are. `fill_bytes` panics only when the operating system's source
/// fails.
#[verifier::external_body]
fn random_token_bytes() -> (r: Vec<u8>)
    ensures
        r@.len() == 32,
{
    let mut bytes = [0u8; 32];
    rand::rngs::OsRng.fill_bytes(&mut bytes);
    bytes.to_vec()
}

/// The (token, expiry) entries as character sequences.
pub open spec fn entry_views(v: Seq<(String, i64)>) -> Seq<(Seq<char>, i64)> {
    v.map_values(|e: (String, i64)| (e.0@, e.1))
}

/// Some entry holds the token `t`.
pub open spec fn has_token(s: Seq<(Seq<char>, i64)>, t: Seq<char>) -> bool {
    exists|i: int| 0 <= i < s.len() && #[trigger] s[i].0 == t
}

/// An entry that holds the token `t`.
pub open spec fn token_index(s: Seq<(Seq<char>, i64)>, t: Seq<char>) -> int {
    choose|i: int| 0 <= i < s.len() && #[trigger] s[i].0 == t
}

/// No token occurs twice.
pub open spec fn distinct_tokens(s: Seq<(Seq<char>, i64)>) -> bool {
    forall|i: int, j: int| 0 <= i < s.len() && 0 <= j < s.len() && i != j ==> #[trigger] s[i].0 != #[trigger] s[j].0
}

/// The entries as a map from token to expiry.
pub open spec fn sessions_map(s: Seq<(Seq<char>, i64)>) -> Map<Seq<char>, i64> {
    Map::new(|t: Seq<char>| has_token(s, t), |t: Seq<char>| s[token_index(s, t)].1)
}

/// The sessions of `m` that have not expired at `now`.
pub open spec fn unexpired(m: Map<Seq<char>, i64>, now: i64) -> Map<Seq<char>, i64> {
    Map::new(|t: Seq<char>| m.contains_key(t) && m[t] >= now, |t: Seq<char>| m[t])
}

/// The token `t` opens a session of `m` at `now`.
pub open spec fn session_valid(m: Map<Seq<char>, i64>, t: Seq<char>, now: i64) -> bool {
    m.contains_key(t) && m[t] >= now
}

proof fn lemma_entry_in_map(s: Seq<(Seq<char>, i64)>, i: int)
    requires
        distinct_tokens(s),
        0 <= i < s.len(),
    ensures
        sessions_map(s).contains_key(s[i].0),
        sessions_map(s)[s[i].0] == s[i].1,
{
    assert(has_token(s, s[i].0));
    let j = token_index(s, s[i].0);
    assert(s[j].0 == s[i].0);
}

/// The open sessions, each a token and the Unix time (seconds) it expires at.
pub struct SessionStore {
    sessions: Vec<(String, i64)>,
}

impl View for SessionStore {
    type V = Map<Seq<char>, i64>;

    closed spec fn view(&self) -> Map<Seq<char>, i64> {
        sessions_map(entry_views(self.sessions@))
    }
}

impl SessionStore {
    /// No token is stored twice.
    pub closed spec fn wf(&self) -> bool {
        distinct_tokens(entry_views(self.sessions@))
    }

    /// No sessions.
    pub fn new() -> (r: Self)
        ensures
            r.wf(),
            r@ == Map::<Seq<char>, i64>::empty(),
    {
        let r = SessionStore { sessions: Vec::new() };
        assert(r@ =~= Map::<Seq<char>, i64>::empty());
        r
    }

    /// The entry holding `token`, if any.
    fn find_token(&self, token: &str) -> (r: Option<usize>)
        ensures
            r matches Some(i) ==> i < self.sessions@.len() && entry_views(self.sessions@)[i as int].0
                == token@,
            r is None ==> !has_token(entry_views(self.sessions@), token@),
    {
        let t = chars_of(token);
        let mut i: usize = 0;
        while i < self.sessions.len()
            invariant
                i <= self.sessions@.len(),
                t@ == token@,
                forall|j: int| 0 <= j < i ==> entry_views(self.sessions@)[j].0 != token@,
            decreases self.sessions.len() - i,
        {
            let entry_chars = chars_of(self.sessions[i].0.as_str());
            if chars_eq(&entry_chars, &t) {
                return Some(i);
            }
            i = i + 1;
        }
        None
    }

    /// Whether `token` opens a session at `now`, without touching the store.
    pub fn is_valid(&self, token: &str, now: i64) -> (r: bool)
        requires
            self.wf(),
        ensures
            r == session_valid(self@, token@, now),
    {
        match self.find_token(token) {
            Some(i) => {
                proof {
                    lemma_entry_in_map(entry_views(self.sessions@), i as int);
                }
                self.sessions[i].1 >= now
            },
            None => false,
        }
    }

    /// Stores `token` with expiry `expires_at`, replacing any earlier expiry.
    pub fn insert(&mut self, token: String, expires_at: i64)
        requires
            old(self).wf(),
        ensures
            final(self).wf(),
            final(self)@ == old(self)@.insert(token@, expires_at),
    {
        let ghost s = entry_views(self.sessions@);
        let ghost tv = token@;
        match self.find_token(token.as_str()) {
            Some(i) => {
                self.sessions.set(i, (token, expires_at));
                let ghost s2 = entry_views(self.sessions@);
                assert(s2 =~= s.update(i as int, (tv, expires_at)));
                assert forall|a: int, b: int|
                    0 <= a < s2.len() && 0 <= b < s2.len() && a != b implies #[trigger] s2[a].0
                    != #[trigger] s2[b].0 by {
                    if a != i && b != i {
                        assert(s[a].0 != s[b].0);
                    } else if a == i {
                        assert(s[b].0 != s[i as int].0);
                    } else {
                        assert(s[a].0 != s[i as int].0);
                    }
                }
                assert forall|u: Seq<char>| #[trigger] has_token(s2, u) == (u == tv || has_token(s, u)) by {
                    if has_token(s, u) && u != tv {
                        let j = choose|j: int| 0 <= j < s.len() && #[trigger] s[j].0 == u;
                        assert(s2[j].0 == u);
                    }
                    if has_token(s2, u) && u != tv {
                        let j = choose|j: int| 0 <= j < s2.len() && #[trigger] s2[j].0 == u;
                        assert(s[j].0 == u);
                    }
                    if u == tv {
                        assert(s2[i as int].0 == u);
                    }
                }
                assert forall|u: Seq<char>| #[trigger] has_token(s2, u) implies sessions_map(s2)[u]
                    == (if u == tv { expires_at } else { sessions_map(s)[u] }) by {
                    if u == tv {
                        lemma_entry_in_map(s2, i as int);
                    } else {
                        let j = choose|j: int| 0 <= j < s2.len() && #[trigger] s2[j].0 == u;
                        lemma_entry_in_map(s2, j);
                        lemma_entry_in_map(s, j);
                    }
                }
                assert(sessions_map(s2) =~= sessions_map(s).insert(tv, expires_at));
            },
            None => {
                self.sessions.push((token, expires_at));
                let ghost s2 = entry_views(self.sessions@);
                assert(s2 =~= s.push((tv, expires_at)));
                assert forall|a: int, b: int|
                    0 <= a < s2.len() && 0 <= b < s2.len() && a != b implies #[trigger] s2[a].0
                    != #[trigger] s2[b].0 by {
                    if a < s.len() && b < s.len() {
                        assert(s[a].0 != s[b].0);
                    } else if a == s.len() {
                        assert(s[b].0 == s2[b].0);
                    } else {
                        assert(s[a].0 == s2[a].0);
                    }
                }
                assert forall|u: Seq<char>| #[trigger] has_token(s2, u) == (u == tv || has_token(s, u)) by {
                    if has_token(s, u) {
                        let j = choose|j: int| 0 <= j < s.len() && #[trigger] s[j].0 == u;
                        assert(s2[j].0 == u);
                    }
                    if has_token(s2, u) && u != tv {
                        let j = choose|j: int| 0 <= j < s2.len() && #[trigger] s2[j].0 == u;
                        assert(j < s.len());
                        assert(s[j].0 == u);
                    }
                    if u == tv {
                        assert(s2[s.len() as int].0 == u);
                    }
                }
                assert forall|u: Seq<char>| #[trigger] has_token(s2, u) implies sessions_map(s2)[u]
                    == (if u == tv { expires_at } else { sessions_map(s)[u] }) by {
                    if u == tv {
                        lemma_entry_in_map(s2, s.len() as int);
                    } else {
                        let j = choose|j: int| 0 <= j < s2.len() && #[trigger] s2[j].0 == u;
                        assert(j < s.len());
                        lemma_entry_in_map(s2, j);
                        lemma_entry_in_map(s, j);
                    }
                }
                assert(sessions_map(s2) =~= sessions_map(s).insert(tv, expires_at));
            },
        }
    }

    /// Forgets the session of `token`, if there is one.
    pub fn remove(&mut self, token: &str)
        requires
            old(self).wf(),
        ensures
            final(self).wf(),
            final(self)@ == old(self)@.remove(token@),
    {
        let ghost s = entry_views(self.sessions@);
        let ghost tv = token@;
        match self.find_token(token) {
            Some(i) => {
                let _ = self.sessions.remove(i);
                let ghost s2 = entry_views(self.sessions@);
                assert(s2 =~= s.remove(i as int));
                assert forall|a: int, b: int|
                    0 <= a < s2.len() && 0 <= b < s2.len() && a != b implies #[trigger] s2[a].0
                    != #[trigger] s2[b].0 by {
                    let a1 = if a < i { a } else { a + 1 };
                    let b1 = if b < i { b } else { b + 1 };
                    assert(s2[a] == s[a1] && s2[b] == s[b1]);
                    assert(s[a1].0 != s[b1].0);
                }
                assert forall|u: Seq<char>| #[trigger] has_token(s2, u) == (u != tv && has_token(s, u)) by {
                    if has_token(s, u) && u != tv {
                        let j = choose|j: int| 0 <= j < s.len() && #[trigger] s[j].0 == u;
                        assert(j != i);
                        let j2 = if j < i { j } else { j - 1 };
                        assert(s2[j2].0 == u);
                    }
                    if has_token(s2, u) {
                        let j = choose|j: int| 0 <= j < s2.len() && #[trigger] s2[j].0 == u;
                        let j1 = if j < i { j } else { j + 1 };
                        assert(s[j1].0 == u);
                        assert(j1 != i);
                    }
                }
                assert forall|u: Seq<char>| #[trigger] has_token(s2, u) implies sessions_map(s2)[u]
                    == sessions_map(s)[u] by {
                    let j = choose|j: int| 0 <= j < s2.len() && #[trigger] s2[j].0 == u;
                    let j1 = if j < i { j } else { j + 1 };
                    lemma_entry_in_map(s2, j);
                    lemma_entry_in_map(s, j1);
                }
                assert(sessions_map(s2) =~= sessions_map(s).remove(tv));
            },
            None => {
                assert(sessions_map(s) =~= sessions_map(s).remove(tv));
            },
        }
    }

    /// Forgets every session that has expired at `now`.
    pub fn cleanup_expired(&mut self, now: i64)
        requires
            old(self).wf(),
        ensures
            final(self).wf(),
            final(self)@ == unexpired(old(self)@, now),
    {
        let ghost s = entry_views(self.sessions@);
        let mut kept: Vec<(String, i64)> = Vec::new();
        let ghost mut idx: Seq<int> = Seq::empty();
        let mut i: usize = 0;
        while i < self.sessions.len()
            invariant
                i <= self.sessions@.len(),
                s == entry_views(self.sessions@),
                distinct_tokens(s),
                idx.len() == kept@.len(),
                forall|k: int|
                    0 <= k < idx.len() ==> 0 <= #[trigger] idx[k] < i && entry_views(kept@)[k]
                        == s[idx[k]] && s[idx[k]].1 >= now,
                forall|k1: int, k2: int| 0 <= k1 < k2 < idx.len() ==> idx[k1] < idx[k2],
                forall|j: int|
                    0 <= j < i && #[trigger] s[j].1 >= now ==> exists|k: int|
                        0 <= k < idx.len() && #[trigger] idx[k] == j,
            decreases self.sessions.len() - i,
        {
            if self.sessions[i].1 >= now {
                let token = self.sessions[i].0.clone();
                kept.push((token, self.sessions[i].1));
                proof {
                    let old_idx = idx;
                    idx = idx.push(i as int);
                    assert forall|j: int| 0 <= j < i + 1 && #[trigger] s[j].1 >= now implies exists|
                        k: int,
                    | 0 <= k < idx.len() && #[trigger] idx[k] == j by {
                        if j < i {
                            let k = choose|k: int| 0 <= k < old_idx.len() && #[trigger] old_idx[k] == j;
                            assert(idx[k] == j);
                        } else {
                            assert(idx[idx.len() - 1] == j);
                        }
                    }
                }
            }
            i = i + 1;
        }
        self.sessions = kept;
        let ghost s2 = entry_views(self.sessions@);
        assert forall|a: int, b: int|
            0 <= a < s2.len() && 0 <= b < s2.len() && a != b implies #[trigger] s2[a].0
            != #[trigger] s2[b].0 by {
            assert(idx[a] != idx[b]) by {
                if a < b {
                    assert(idx[a] < idx[b]);
                } else {
                    assert(idx[b] < idx[a]);
                }
            }
            assert(s[idx[a]].0 != s[idx[b]].0);
        }
        let ghost m = sessions_map(s);
        assert forall|u: Seq<char>| #[trigger] has_token(s2, u) == (m.contains_key(u) && m[u] >= now) by {
            if has_token(s2, u) {
                let k = choose|k: int| 0 <= k < s2.len() && #[trigger] s2[k].0 == u;
                lemma_entry_in_map(s, idx[k]);
            }
            if m.contains_key(u) && m[u] >= now {
                let j = choose|j: int| 0 <= j < s.len() && #[trigger] s[j].0 == u;
                lemma_entry_in_map(s, j);
                assert(s[j].1 >= now);
                let k = choose|k: int| 0 <= k < idx.len() && #[trigger] idx[k] == j;
                assert(s2[k].0 == u);
            }
        }
        assert forall|u: Seq<char>| #[trigger] has_token(s2, u) implies sessions_map(s2)[u] == m[u] by {
            let k = choose|k: int| 0 <= k < s2.len() && #[trigger] s2[k].0 == u;
            lemma_entry_in_map(s2, k);
            lemma_entry_in_map(s, idx[k]);
        }
        assert(sessions_map(s2) =~= unexpired(m, now));
    }

    /// Checks the session of `token` at `now`, first forgetting expired
    /// sessions; a valid session is extended to `now` plus twelve hours.
    pub fn authenticate(&mut self, token: &str, now: i64) -> (r: bool)
        requires
            old(self).wf(),
            now <= i64::MAX - SESSION_TTL_SECS,
        ensures
            final(self).wf(),
            r == session_valid(old(self)@, token@, now),
            final(self)@ == if r {
                unexpired(old(self)@, now).insert(token@, (now + SESSION_TTL_SECS) as i64)
            } else {
                unexpired(old(self)@, now)
            },
    {
        self.cleanup_expired(now);
        if self.is_valid(token, now) {
            let t = string_of(&chars_of(token));
            self.insert(t, now + SESSION_TTL_SECS);
            true
        } else {
            false
        }
    }

    /// Opens a session at `now` whose token is `token_bytes` in lowercase hex,
    /// first forgetting expired sessions; it expires twelve hours later.
    pub fn open_session(&mut self, token_bytes: &[u8], now: i64) -> (r: String)
        requires
            old(self).wf(),
            now <= i64::MAX - SESSION_TTL_SECS,
        ensures
            final(self).wf(),
            r@ == hex_of(token_bytes@),
            final(self)@ == unexpired(old(self)@, now).insert(r@, (now + SESSION_TTL_SECS) as i64),
    {
        let token = hex_encode(token_bytes);
        let expires_at = now + SESSION_TTL_SECS;
        self.cleanup_expired(now);
        self.insert(token.clone(), expires_at);
        token
    }

    /// Opens a session at `now` with a fresh token made of 32 random bytes
    /// (`open_session`).
    pub fn create_session(&mut self, now: i64) -> (r: String)
        requires
            old(self).wf(),
            now <= i64::MAX - SESSION_TTL_SECS,
        ensures
            final(self).wf(),
            exists|b: Seq<u8>| b.len() == 32 && r@ == #[trigger] hex_of(b),
            final(self)@ == unexpired(old(self)@, now).insert(r@, (now + SESSION_TTL_SECS) as i64),
    {
        let bytes = random_token_bytes();
        self.open_session(bytes.as_slice(), now)
    }
}

/// A new session is accepted until it expires, twelve hours later.
pub proof fn lemma_new_session_valid(m: Map<Seq<char>, i64>, t: Seq<char>, now: i64, later: i64)
    requires
        now <= later <= now + SESSION_TTL_SECS,
        now + SESSION_TTL_SECS <= i64::MAX,
    ensures
        session_valid(unexpired(m, now).insert(t, (now + SESSION_TTL_SECS) as i64), t, later),
{
}

/// A session left unused for more than twelve hours is no longer accepted.
pub proof fn lemma_idle_session_expires(m: Map<Seq<char>, i64>, t: Seq<char>, now: i64, later: i64)
    requires
        later > now + SESSION_TTL_SECS,
        now + SESSION_TTL_SECS <= i64::MAX,
    ensures
        !session_valid(unexpired(m, now).insert(t, (now + SESSION_TTL_SECS) as i64), t, later),
{
}

/// After logging out, the token is no longer accepted.
pub proof fn lemma_logout_closes_session(m: Map<Seq<char>, i64>, t: Seq<char>, now: i64)
    ensures
        !session_valid(m.remove(t), t, now),
{
}

/// Forgetting expired sessions never changes whether a token is accepted at
/// the same time.
pub proof fn lemma_cleanup_keeps_validity(m: Map<Seq<char>, i64>, t: Seq<char>, now: i64)
    ensures
        session_valid(unexpired(m, now), t, now) == session_valid(m, t, now),
{
}

} // verus!

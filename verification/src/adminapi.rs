use crate::config::{RouteConfig, RouteConfigView, UpstreamConfig, UpstreamConfigView};
use crate::registry::{spec_build_registry, Registry};
use crate::strutil::{chars_to_string, str_eq};
use rand::Rng;
use vstd::prelude::*;
use vstd::string::StringExecFns;

verus! {

// ---------------------------------------------------------------------
// Sessions.
// ---------------------------------------------------------------------
/// First-match lookup in a session list.
pub open spec fn spec_session_find<T>(m: Seq<(String, T)>, k: Seq<char>) -> Option<int>
    decreases m.len(),
{
    if m.len() == 0 {
        None
    } else if m[0].0@ == k {
        Some(0int)
    } else {
        match spec_session_find(m.drop_first(), k) {
            Some(j) => Some(j + 1),
            None => None,
        }
    }
}

/// A found index is in range and holds the key; a miss means no entry
/// holds it.
pub proof fn lemma_session_find_valid<T>(m: Seq<(String, T)>, k: Seq<char>)
    ensures
        match spec_session_find(m, k) {
            Some(j) => 0 <= j < m.len() && m[j].0@ == k,
            None => forall|j: int| 0 <= j < m.len() ==> (#[trigger] m[j]).0@ != k,
        },
    decreases m.len(),
{
    if m.len() > 0 {
        lemma_session_find_valid(m.drop_first(), k);
        if m[0].0@ != k {
            match spec_session_find(m.drop_first(), k) {
                Some(j) => {
                    assert(m.drop_first()[j] == m[j + 1]);
                },
                None => {
                    assert forall|j: int| 0 <= j < m.len() implies (#[trigger] m[j]).0@ != k by {
                        if j > 0 {
                            assert(m.drop_first()[j - 1] == m[j]);
                        }
                    }
                },
            }
        }
    }
}

/// The process-wide session store: session id to logged-in user.
pub struct SessionStore<T> {
    map: Vec<(String, T)>,
}

impl<T> SessionStore<T> {
    /// Session ids are unique.
    pub closed spec fn wf(&self) -> bool {
        forall|i: int, j: int|
            0 <= i < j < self.map@.len() ==> (#[trigger] self.map@[i]).0@ != (
            #[trigger] self.map@[j]).0@
    }

    /// The entries, keyed by session id.
    pub closed spec fn entries(&self) -> Seq<(String, T)> {
        self.map@
    }

    pub fn new() -> (r: SessionStore<T>)
        ensures
            r.wf(),
            r.entries().len() == 0,
    {
        SessionStore { map: Vec::new() }
    }

    fn find(&self, key: &str) -> (r: Option<usize>)
        ensures
            match r {
                Some(i) => spec_session_find(self.entries(), key@) == Some(i as int),
                None => spec_session_find(self.entries(), key@) is None,
            },
    {
        let n = self.map.len();
        let mut i: usize = 0;
        proof {
            assert(self.map@.skip(0) =~= self.map@);
        }
        while i < n
            invariant
                i <= n,
                n == self.map@.len(),
                match spec_session_find(self.map@.skip(i as int), key@) {
                    Some(j) => spec_session_find(self.map@, key@) == Some(j + i),
                    None => spec_session_find(self.map@, key@) is None,
                },
            decreases n - i,
        {
            assert(self.map@.skip(i as int)[0] == self.map@[i as int]);
            if str_eq(self.map[i].0.as_str(), key) {
                proof {
                    assert(spec_session_find(self.map@.skip(i as int), key@) == Some(0int));
                }
                return Some(i);
            }
            proof {
                assert(self.map@.skip(i as int).drop_first() =~= self.map@.skip(i + 1));
            }
            i = i + 1;
        }
        proof {
            assert(self.map@.skip(n as int) =~= Seq::<(String, T)>::empty());
        }
        None
    }

    /// The session value for `key`, if a session holds it.
    pub fn load(&self, key: &str) -> (r: Option<&T>)
        ensures
            match r {
                Some(v) => spec_session_find(self.entries(), key@) is Some && *v == self.entries()[
                    spec_session_find(self.entries(), key@)->Some_0].1,
                None => spec_session_find(self.entries(), key@) is None,
            },
    {
        match self.find(key) {
            Some(i) => {
                proof {
                    lemma_session_find_valid(self.entries(), key@);
                }
                Some(&self.map[i].1)
            },
            None => None,
        }
    }

    /// Store a session, replacing any session under the same id.
    pub fn store(&mut self, key: &str, value: T)
        requires
            old(self).wf(),
        ensures
            final(self).wf(),
            match spec_session_find(old(self).entries(), key@) {
                Some(j) => final(self).entries() == old(self).entries().update(
                    j,
                    (old(self).entries()[j].0, value),
                ),
                None => final(self).entries().len() == old(self).entries().len() + 1 && (forall|
                    j: int,
                |
                    0 <= j < old(self).entries().len() ==> #[trigger] final(self).entries()[j]
                        == old(self).entries()[j]) && final(self).entries().last().0@ == key@
                    && final(self).entries().last().1 == value,
            },
            spec_session_find(final(self).entries(), key@) is Some,
            final(self).entries()[spec_session_find(final(self).entries(), key@)->Some_0].1
                == value,
    {
        proof {
            lemma_session_find_valid(self.entries(), key@);
        }
        match self.find(key) {
            Some(i) => {
                let k = self.map[i].0.clone();
                let ghost prev = self.map@;
                self.map.set(i, (k, value));
                proof {
                    assert(self.map@ =~= prev.update(i as int, (prev[i as int].0, self.map@[i as int].1)));
                    assert(forall|j: int|
                        0 <= j < self.map@.len() ==> (#[trigger] self.map@[j]).0@ == prev[j].0@);
                    lemma_session_find_same_keys(prev, self.map@, key@);
                    lemma_session_find_valid(self.map@, key@);
                }
            },
            None => {
                let ks = String::from_str(key);
                let ghost prev = self.map@;
                self.map.push((ks, value));
                proof {
                    assert(forall|j: int| 0 <= j < prev.len() ==> self.map@[j] == prev[j]);
                    assert(self.map@[prev.len() as int].0@ == key@);
                    lemma_session_find_push_hit(prev, self.map@, key@);
                }
            },
        }
    }

    /// Drop the session under `key`, if any.
    pub fn delete(&mut self, key: &str)
        requires
            old(self).wf(),
        ensures
            final(self).wf(),
            final(self).entries() == (match spec_session_find(old(self).entries(), key@) {
                Some(j) => old(self).entries().remove(j),
                None => old(self).entries(),
            }),
    {
        proof {
            lemma_session_find_valid(self.entries(), key@);
        }
        match self.find(key) {
            Some(i) => {
                let ghost prev = self.map@;
                self.map.remove(i);
                proof {
                    assert forall|a: int, b: int|
                        0 <= a < b < self.map@.len() implies (#[trigger] self.map@[a]).0@ != (
                    #[trigger] self.map@[b]).0@ by {
                        assert(forall|c: int|
                            0 <= c < self.map@.len() ==> self.map@[c] == (if c < i {
                                prev[c]
                            } else {
                                prev[c + 1]
                            }));
                    }
                }
            },
            None => {},
        }
    }
}

/// Renaming after an update under the same keys does not move the match.
proof fn lemma_session_find_same_keys<T>(m0: Seq<(String, T)>, m1: Seq<(String, T)>, k: Seq<char>)
    requires
        m0.len() == m1.len(),
        forall|j: int| 0 <= j < m0.len() ==> (#[trigger] m1[j]).0@ == m0[j].0@,
    ensures
        spec_session_find(m1, k) == spec_session_find(m0, k),
    decreases m0.len(),
{
    if m0.len() > 0 {
        assert(forall|j: int|
            0 <= j < m0.len() - 1 ==> (#[trigger] m1.drop_first()[j]) == m1[j + 1]
                && m0.drop_first()[j] == m0[j + 1]);
        lemma_session_find_same_keys(m0.drop_first(), m1.drop_first(), k);
    }
}

/// Appending a fresh key makes it findable.
proof fn lemma_session_find_push_hit<T>(m0: Seq<(String, T)>, m1: Seq<(String, T)>, k: Seq<char>)
    requires
        spec_session_find(m0, k) is None,
        m1.len() == m0.len() + 1,
        forall|j: int| 0 <= j < m0.len() ==> #[trigger] m1[j] == m0[j],
        m1[m0.len() as int].0@ == k,
    ensures
        spec_session_find(m1, k) == Some(m0.len() as int),
    decreases m0.len(),
{
    if m0.len() == 0 {
        assert(m1[0].0@ == k);
    } else {
        assert(m1[0] == m0[0]);
        assert(m0[0].0@ != k);
        assert(forall|j: int|
            0 <= j < m1.len() - 1 ==> #[trigger] m1.drop_first()[j] == m1[j + 1]);
        assert(forall|j: int|
            0 <= j < m0.len() - 1 ==> #[trigger] m0.drop_first()[j] == m0[j + 1]);
        lemma_session_find_push_hit(m0.drop_first(), m1.drop_first(), k);
    }
}

// ---------------------------------------------------------------------
// The admin surface's data shapes and decisions.
// ---------------------------------------------------------------------
/// A path parameter of the admin routes.
#[derive(Debug)]
pub struct Param {
    pub id: String,
}

/// A login request body.
#[derive(Debug)]
pub struct LoginReq {
    pub username: String,
    pub password: String,
}

/// A successful login's response body.
#[derive(Debug)]
pub struct LoginResp {
    pub login_name: String,
}

/// An admin error: its envelope code, message, and HTTP status.
#[derive(Debug)]
pub struct Status {
    pub code: i32,
    pub message: String,
    pub status: u16,
}

impl Status {
    pub fn new(code: i32, message: String, status: u16) -> (r: Status)
        ensures
            r.code == code && r.message@ == message@ && r.status == status,
    {
        Status { code, message, status }
    }

    pub fn bad_request(message: String) -> (r: Status)
        ensures
            r.code == 10400 && r.message@ == message@ && r.status == 400,
    {
        Status { code: 10400, message, status: 400 }
    }

    pub fn unauthorized(message: String) -> (r: Status)
        ensures
            r.code == 10401 && r.message@ == message@ && r.status == 401,
    {
        Status { code: 10401, message, status: 401 }
    }

    pub fn not_found(message: String) -> (r: Status)
        ensures
            r.code == 10404 && r.message@ == message@ && r.status == 404,
    {
        Status { code: 10404, message, status: 404 }
    }

    pub fn internal_error(message: String) -> (r: Status)
        ensures
            r.code == 10500 && r.message@ == message@ && r.status == 500,
    {
        Status { code: 10500, message, status: 500 }
    }
}

/// The admin response envelope: a code, a message, and the data when
/// the call succeeded.
#[derive(Debug)]
pub struct ApiResponse<T> {
    pub err_code: i32,
    pub err_msg: String,
    pub data: Option<T>,
}

impl<T> ApiResponse<T> {
    pub fn new(data: T) -> (r: ApiResponse<T>)
        ensures
            r.err_code == 0 && r.err_msg@ == "ok"@ && (r.data matches Some(d) && d == data),
    {
        ApiResponse { err_code: 0, err_msg: String::from_str("ok"), data: Some(data) }
    }

    pub fn with_error(err_code: i32, err_msg: String) -> (r: ApiResponse<T>)
        ensures
            r.err_code == err_code && r.err_msg@ == err_msg@ && r.data is None,
    {
        ApiResponse { err_code, err_msg, data: None }
    }
}

/// Relies on `rand::Rng::gen`: eight bytes of randomness for a session
/// id; nothing is promised of their values.
#[verifier::external_body]
fn gen_session_bytes() -> (r: Vec<u8>)
    ensures
        r@.len() == 8,
{
    rand::thread_rng().gen::<[u8; 8]>().to_vec()
}

/// The lowercase hex digit of a value below sixteen.
pub open spec fn spec_hex_digit(d: int) -> char {
    if d == 0 {
        '0'
    } else if d == 1 {
        '1'
    } else if d == 2 {
        '2'
    } else if d == 3 {
        '3'
    } else if d == 4 {
        '4'
    } else if d == 5 {
        '5'
    } else if d == 6 {
        '6'
    } else if d == 7 {
        '7'
    } else if d == 8 {
        '8'
    } else if d == 9 {
        '9'
    } else if d == 10 {
        'a'
    } else if d == 11 {
        'b'
    } else if d == 12 {
        'c'
    } else if d == 13 {
        'd'
    } else if d == 14 {
        'e'
    } else {
        'f'
    }
}

/// Each byte as two lowercase hex digits, in order.
pub open spec fn spec_hex(bytes: Seq<u8>) -> Seq<char>
    decreases bytes.len(),
{
    if bytes.len() == 0 {
        Seq::<char>::empty()
    } else {
        seq![
            spec_hex_digit(bytes[0] as int / 16),
            spec_hex_digit(bytes[0] as int % 16),
        ] + spec_hex(bytes.drop_first())
    }
}

fn hex_digit(d: u8) -> (r: char)
    requires
        d < 16,
    ensures
        r == spec_hex_digit(d as int),
{
    if d == 0 {
        '0'
    } else if d == 1 {
        '1'
    } else if d == 2 {
        '2'
    } else if d == 3 {
        '3'
    } else if d == 4 {
        '4'
    } else if d == 5 {
        '5'
    } else if d == 6 {
        '6'
    } else if d == 7 {
        '7'
    } else if d == 8 {
        '8'
    } else if d == 9 {
        '9'
    } else if d == 10 {
        'a'
    } else if d == 11 {
        'b'
    } else if d == 12 {
        'c'
    } else if d == 13 {
        'd'
    } else if d == 14 {
        'e'
    } else {
        'f'
    }
}

/// Render bytes as lowercase hex, two digits a byte.
pub fn to_hex(bytes: &Vec<u8>) -> (r: String)
    ensures
        r@ == spec_hex(bytes@),
        r@.len() == 2 * bytes@.len(),
{
    let n = bytes.len();
    let mut out: Vec<char> = Vec::new();
    let mut i: usize = 0;
    proof {
        assert(bytes@.skip(0) =~= bytes@);
        lemma_spec_hex_len(bytes@);
    }
    while i < n
        invariant
            i <= n,
            n == bytes@.len(),
            out@.len() == 2 * i,
            spec_hex(bytes@) =~= out@ + spec_hex(bytes@.skip(i as int)),
        decreases n - i,
    {
        proof {
            assert(bytes@.skip(i as int)[0] == bytes@[i as int]);
            assert(bytes@.skip(i as int).drop_first() =~= bytes@.skip(i + 1));
        }
        let b = bytes[i];
        let ghost prev = out@;
        out.push(hex_digit(b / 16));
        out.push(hex_digit(b % 16));
        proof {
            assert(prev + (seq![
                spec_hex_digit(bytes@[i as int] as int / 16),
                spec_hex_digit(bytes@[i as int] as int % 16),
            ] + spec_hex(bytes@.skip(i + 1))) =~= out@ + spec_hex(bytes@.skip(i + 1)));
        }
        i = i + 1;
    }
    proof {
        assert(bytes@.skip(n as int) =~= Seq::<u8>::empty());
        assert(out@ + Seq::<char>::empty() =~= out@);
        lemma_spec_hex_len(bytes@);
    }
    chars_to_string(&out)
}

proof fn lemma_spec_hex_len(bytes: Seq<u8>)
    ensures
        spec_hex(bytes).len() == 2 * bytes.len(),
    decreases bytes.len(),
{
    if bytes.len() > 0 {
        lemma_spec_hex_len(bytes.drop_first());
    }
}

/// Whether the credentials are the allowed admin pair.
pub open spec fn spec_credentials_ok(username: Seq<char>, password: Seq<char>) -> bool {
    username == "admin"@ && password == "admin"@
}

/// The session middleware: a request passes when it is the login call
/// itself, or carries a session the store knows.
pub struct AuthMiddleware {
    pub login_path: String,
}

impl AuthMiddleware {
    pub fn new(login_path: String) -> (r: AuthMiddleware)
        ensures
            r.login_path@ == login_path@,
    {
        AuthMiddleware { login_path }
    }

    /// Whether the request may proceed.
    pub fn authorize(&self, path: &str, sid: Option<&String>, store: &SessionStore<String>) -> (r:
        bool)
        ensures
            r == (path@ == self.login_path@ || (match sid {
                Some(s) => spec_session_find(store.entries(), s@) is Some,
                None => false,
            })),
    {
        if str_eq(path, self.login_path.as_str()) {
            return true;
        }
        match sid {
            Some(s) => match store.load(s.as_str()) {
                Some(_) => true,
                None => false,
            },
            None => false,
        }
    }
}

/// The session endpoints' decisions.
pub struct SessionApi {}

impl SessionApi {
    /// Check the credentials; a success mints a fresh session id,
    /// stores the session, and answers with the login name. A failure
    /// answers 401 and stores nothing.
    pub fn login(store: &mut SessionStore<String>, req: &LoginReq) -> (r: Result<
        (String, LoginResp),
        Status,
    >)
        requires
            old(store).wf(),
        ensures
            final(store).wf(),
            match r {
                Ok(p) => spec_credentials_ok(req.username@, req.password@) && p.1.login_name@
                    == req.username@ && p.0@.len() == 16 && spec_session_find(
                    final(store).entries(),
                    p.0@,
                ) is Some && final(store).entries()[spec_session_find(
                    final(store).entries(),
                    p.0@,
                )->Some_0].1@ == req.username@,
                Err(st) => !spec_credentials_ok(req.username@, req.password@) && st.status == 401
                    && final(store).entries() == old(store).entries(),
            },
    {
        if str_eq(req.username.as_str(), "admin") && str_eq(req.password.as_str(), "admin") {
            let bytes = gen_session_bytes();
            let sid = to_hex(&bytes);
            let login_name = req.username.clone();
            store.store(sid.as_str(), login_name.clone());
            proof {
                lemma_session_find_valid(store.entries(), sid@);
            }
            Ok((sid, LoginResp { login_name }))
        } else {
            Err(Status::unauthorized(String::from_str("invalid user or password")))
        }
    }

    /// Drop the session the cookie names, if any.
    pub fn logout(store: &mut SessionStore<String>, sid: Option<&String>)
        requires
            old(store).wf(),
        ensures
            final(store).wf(),
            match sid {
                Some(s) => final(store).entries() == (match spec_session_find(
                    old(store).entries(),
                    s@,
                ) {
                    Some(j) => old(store).entries().remove(j),
                    None => old(store).entries(),
                }),
                None => final(store).entries() == old(store).entries(),
            },
    {
        match sid {
            Some(s) => store.delete(s.as_str()),
            None => {},
        }
    }
}

// ---------------------------------------------------------------------
// Route and upstream CRUD over the registry.
// ---------------------------------------------------------------------
/// First route configuration carrying the id.
pub open spec fn spec_find_route_cfg(routes: Seq<RouteConfigView>, id: Seq<char>) -> Option<int>
    decreases routes.len(),
{
    if routes.len() == 0 {
        None
    } else if routes[0].id == id {
        Some(0int)
    } else {
        match spec_find_route_cfg(routes.drop_first(), id) {
            Some(j) => Some(j + 1),
            None => None,
        }
    }
}

/// First upstream configuration carrying the id.
pub open spec fn spec_find_upstream_cfg(ups: Seq<UpstreamConfigView>, id: Seq<char>) -> Option<int>
    decreases ups.len(),
{
    if ups.len() == 0 {
        None
    } else if ups[0].id == id {
        Some(0int)
    } else {
        match spec_find_upstream_cfg(ups.drop_first(), id) {
            Some(j) => Some(j + 1),
            None => None,
        }
    }
}

pub proof fn lemma_find_route_cfg_valid(routes: Seq<RouteConfigView>, id: Seq<char>)
    ensures
        match spec_find_route_cfg(routes, id) {
            Some(j) => 0 <= j < routes.len() && routes[j].id == id,
            None => forall|j: int| 0 <= j < routes.len() ==> (#[trigger] routes[j]).id != id,
        },
    decreases routes.len(),
{
    if routes.len() > 0 {
        lemma_find_route_cfg_valid(routes.drop_first(), id);
        if routes[0].id != id {
            match spec_find_route_cfg(routes.drop_first(), id) {
                Some(j) => {
                    assert(routes.drop_first()[j] == routes[j + 1]);
                },
                None => {
                    assert forall|j: int| 0 <= j < routes.len() implies (#[trigger] routes[j]).id
                        != id by {
                        if j > 0 {
                            assert(routes.drop_first()[j - 1] == routes[j]);
                        }
                    }
                },
            }
        }
    }
}

pub proof fn lemma_find_upstream_cfg_valid(ups: Seq<UpstreamConfigView>, id: Seq<char>)
    ensures
        match spec_find_upstream_cfg(ups, id) {
            Some(j) => 0 <= j < ups.len() && ups[j].id == id,
            None => forall|j: int| 0 <= j < ups.len() ==> (#[trigger] ups[j]).id != id,
        },
    decreases ups.len(),
{
    if ups.len() > 0 {
        lemma_find_upstream_cfg_valid(ups.drop_first(), id);
        if ups[0].id != id {
            match spec_find_upstream_cfg(ups.drop_first(), id) {
                Some(j) => {
                    assert(ups.drop_first()[j] == ups[j + 1]);
                },
                None => {
                    assert forall|j: int| 0 <= j < ups.len() implies (#[trigger] ups[j]).id
                        != id by {
                        if j > 0 {
                            assert(ups.drop_first()[j - 1] == ups[j]);
                        }
                    }
                },
            }
        }
    }
}

fn find_route_cfg(routes: &Vec<RouteConfig>, id: &str) -> (r: Option<usize>)
    ensures
        match r {
            Some(i) => spec_find_route_cfg(routes.deep_view(), id@) == Some(i as int),
            None => spec_find_route_cfg(routes.deep_view(), id@) is None,
        },
{
    let n = routes.len();
    let mut i: usize = 0;
    proof {
        assert(routes.deep_view().skip(0) =~= routes.deep_view());
    }
    while i < n
        invariant
            i <= n,
            n == routes@.len(),
            routes.deep_view().len() == n,
            forall|j: int| 0 <= j < n ==> routes.deep_view()[j] == routes@[j]@,
            match spec_find_route_cfg(routes.deep_view().skip(i as int), id@) {
                Some(j) => spec_find_route_cfg(routes.deep_view(), id@) == Some(j + i),
                None => spec_find_route_cfg(routes.deep_view(), id@) is None,
            },
        decreases n - i,
    {
        assert(routes.deep_view().skip(i as int)[0] == routes.deep_view()[i as int]);
        if str_eq(routes[i].id.as_str(), id) {
            proof {
                assert(spec_find_route_cfg(routes.deep_view().skip(i as int), id@) == Some(0int));
            }
            return Some(i);
        }
        proof {
            assert(routes.deep_view().skip(i as int).drop_first() =~= routes.deep_view().skip(
                i + 1,
            ));
        }
        i = i + 1;
    }
    proof {
        assert(routes.deep_view().skip(n as int) =~= Seq::<RouteConfigView>::empty());
    }
    None
}

fn find_upstream_cfg(ups: &Vec<UpstreamConfig>, id: &str) -> (r: Option<usize>)
    ensures
        match r {
            Some(i) => spec_find_upstream_cfg(ups.deep_view(), id@) == Some(i as int),
            None => spec_find_upstream_cfg(ups.deep_view(), id@) is None,
        },
{
    let n = ups.len();
    let mut i: usize = 0;
    proof {
        assert(ups.deep_view().skip(0) =~= ups.deep_view());
    }
    while i < n
        invariant
            i <= n,
            n == ups@.len(),
            ups.deep_view().len() == n,
            forall|j: int| 0 <= j < n ==> ups.deep_view()[j] == ups@[j]@,
            match spec_find_upstream_cfg(ups.deep_view().skip(i as int), id@) {
                Some(j) => spec_find_upstream_cfg(ups.deep_view(), id@) == Some(j + i),
                None => spec_find_upstream_cfg(ups.deep_view(), id@) is None,
            },
        decreases n - i,
    {
        assert(ups.deep_view().skip(i as int)[0] == ups.deep_view()[i as int]);
        if str_eq(ups[i].id.as_str(), id) {
            proof {
                assert(spec_find_upstream_cfg(ups.deep_view().skip(i as int), id@) == Some(0int));
            }
            return Some(i);
        }
        proof {
            assert(ups.deep_view().skip(i as int).drop_first() =~= ups.deep_view().skip(i + 1));
        }
        i = i + 1;
    }
    proof {
        assert(ups.deep_view().skip(n as int) =~= Seq::<UpstreamConfigView>::empty());
    }
    None
}

/// The route CRUD decisions.
pub struct RouteApi {}

impl RouteApi {
    /// The configured route carrying the id, if any.
    pub fn get_detail(reg: &Registry, route_id: &str) -> (r: Option<RouteConfig>)
        ensures
            match r {
                Some(rc) => spec_find_route_cfg(reg@.config.routes, route_id@) is Some && rc@
                    == reg@.config.routes[spec_find_route_cfg(
                    reg@.config.routes,
                    route_id@,
                )->Some_0],
                None => spec_find_route_cfg(reg@.config.routes, route_id@) is None,
            },
    {
        match find_route_cfg(&reg.config.routes, route_id) {
            Some(i) => {
                proof {
                    lemma_find_route_cfg_valid(reg@.config.routes, route_id@);
                }
                Some(reg.config.routes[i].clone())
            },
            None => None,
        }
    }

    /// Every configured route, in order.
    pub fn get_list(reg: &Registry) -> (r: Vec<RouteConfig>)
        ensures
            r.deep_view() == reg@.config.routes,
    {
        let mut out: Vec<RouteConfig> = Vec::new();
        let n = reg.config.routes.len();
        let mut i: usize = 0;
        while i < n
            invariant
                i <= n,
                n == reg.config.routes@.len(),
                out.deep_view() =~= reg.config.routes.deep_view().subrange(0, i as int),
            decreases n - i,
        {
            let ghost prev = out.deep_view();
            let c = reg.config.routes[i].clone();
            out.push(c);
            proof {
                assert(out.deep_view() =~= prev.push(reg.config.routes@[i as int]@));
                assert(reg.config.routes.deep_view()[i as int] == reg.config.routes@[i as int]@);
                assert(reg.config.routes.deep_view().subrange(0, i + 1) =~= reg.config.routes
                    .deep_view().subrange(0, i as int).push(
                    reg.config.routes.deep_view()[i as int],
                ));
            }
            i = i + 1;
        }
        proof {
            assert(out.deep_view() =~= reg.config.routes.deep_view());
        }
        out
    }

    /// Create a route. A held id answers 400; a route that does not
    /// build against the current world — an unknown upstream id among
    /// the causes — answers 400 too, and the registry stays as it was.
    pub fn add(reg: &mut Registry, route: RouteConfig) -> (r: Result<(), Status>)
        requires
            old(reg).wf(),
        ensures
            final(reg).wf(),
            match r {
                Ok(_) => spec_find_route_cfg(old(reg)@.config.routes, route@.id) is None
                    && final(reg)@.config.routes == old(reg)@.config.routes.push(route@)
                    && final(reg)@.config.upstreams == old(reg)@.config.upstreams,
                Err(st) => {
                    &&& *final(reg) == *old(reg)
                    &&& st.status == 400
                    &&& st.code == 10400
                    &&& spec_find_route_cfg(old(reg)@.config.routes, route@.id) is Some
                        || spec_build_registry(
                        crate::registry::RegistryConfigView {
                            routes: old(reg)@.config.routes.push(route@),
                            upstreams: old(reg)@.config.upstreams,
                        },
                    ) is None
                    &&& spec_find_route_cfg(old(reg)@.config.routes, route@.id) is Some
                        ==> st.message@ == "Route Id exist"@
                    &&& (spec_find_route_cfg(old(reg)@.config.routes, route@.id) is None
                        && !crate::registry::spec_id_known(
                        old(reg)@.config.upstreams,
                        route@.upstream_id,
                    )) ==> st.message@ == "upstream<"@ + route@.upstream_id + "> not found"@
                },
            },
    {
        match find_route_cfg(&reg.config.routes, route.id.as_str()) {
            Some(_) => {
                return Err(Status::bad_request(String::from_str("Route Id exist")));
            },
            None => {},
        }
        match reg.add_route(&route) {
            Ok(_) => Ok(()),
            Err(e) => Err(Status::bad_request(e.message())),
        }
    }

    /// Replace the route carrying the id. A missing id answers 404; a
    /// route that does not build answers 400; either way the registry
    /// stays as it was.
    pub fn update(reg: &mut Registry, route_id: &str, route: RouteConfig) -> (r: Result<
        (),
        Status,
    >)
        requires
            old(reg).wf(),
        ensures
            final(reg).wf(),
            match r {
                Ok(_) => spec_find_route_cfg(old(reg)@.config.routes, route_id@) is Some
                    && final(reg)@.config.routes == old(reg)@.config.routes.update(
                    spec_find_route_cfg(old(reg)@.config.routes, route_id@)->Some_0,
                    (RouteConfigView { id: route_id@, ..route@ }),
                ) && final(reg)@.config.upstreams == old(reg)@.config.upstreams,
                Err(st) => {
                    &&& *final(reg) == *old(reg)
                    &&& st.status == 404 || st.status == 400
                    &&& st.status == 404 <==> spec_find_route_cfg(
                        old(reg)@.config.routes,
                        route_id@,
                    ) is None
                    &&& st.status == 404 ==> st.code == 10404 && st.message@ == "Route not exist"@
                    &&& st.status == 400 ==> st.code == 10400 && spec_build_registry(
                        crate::registry::RegistryConfigView {
                            routes: old(reg)@.config.routes.update(
                                spec_find_route_cfg(old(reg)@.config.routes, route_id@)->Some_0,
                                (RouteConfigView { id: route_id@, ..route@ }),
                            ),
                            upstreams: old(reg)@.config.upstreams,
                        },
                    ) is None
                },
            },
    {
        let mut route = route;
        route.id = String::from_str(route_id);
        let i = match find_route_cfg(&reg.config.routes, route_id) {
            Some(i) => i,
            None => {
                return Err(Status::not_found(String::from_str("Route not exist")));
            },
        };
        proof {
            lemma_find_route_cfg_valid(reg@.config.routes, route_id@);
        }
        let mut newcfg = reg.config.clone();
        newcfg.routes.set(i, route);
        proof {
            assert(newcfg@.routes =~= old(reg)@.config.routes.update(
                i as int,
                newcfg@.routes[i as int],
            ));
            assert(newcfg@ == (crate::registry::RegistryConfigView {
                routes: old(reg)@.config.routes.update(
                    i as int,
                    (RouteConfigView { id: route_id@, ..route@ }),
                ),
                upstreams: old(reg)@.config.upstreams,
            }));
        }
        match reg.reload(newcfg) {
            Ok(_) => Ok(()),
            Err(e) => Err(Status::bad_request(e.message())),
        }
    }
}

/// The upstream CRUD decisions.
pub struct UpstreamApi {}

impl UpstreamApi {
    /// The configured upstream carrying the id, if any.
    pub fn get_detail(reg: &Registry, upstream_id: &str) -> (r: Option<UpstreamConfig>)
        ensures
            match r {
                Some(uc) => spec_find_upstream_cfg(reg@.config.upstreams, upstream_id@) is Some
                    && uc@ == reg@.config.upstreams[spec_find_upstream_cfg(
                    reg@.config.upstreams,
                    upstream_id@,
                )->Some_0],
                None => spec_find_upstream_cfg(reg@.config.upstreams, upstream_id@) is None,
            },
    {
        match find_upstream_cfg(&reg.config.upstreams, upstream_id) {
            Some(i) => {
                proof {
                    lemma_find_upstream_cfg_valid(reg@.config.upstreams, upstream_id@);
                }
                Some(reg.config.upstreams[i].clone())
            },
            None => None,
        }
    }

    /// Every configured upstream, in order.
    pub fn get_list(reg: &Registry) -> (r: Vec<UpstreamConfig>)
        ensures
            r.deep_view() == reg@.config.upstreams,
    {
        let mut out: Vec<UpstreamConfig> = Vec::new();
        let n = reg.config.upstreams.len();
        let mut i: usize = 0;
        while i < n
            invariant
                i <= n,
                n == reg.config.upstreams@.len(),
                out.deep_view() =~= reg.config.upstreams.deep_view().subrange(0, i as int),
            decreases n - i,
        {
            let ghost prev = out.deep_view();
            let c = reg.config.upstreams[i].clone();
            out.push(c);
            proof {
                assert(out.deep_view() =~= prev.push(reg.config.upstreams@[i as int]@));
                assert(reg.config.upstreams.deep_view()[i as int] == reg.config.upstreams@[
                    i as int]@);
                assert(reg.config.upstreams.deep_view().subrange(0, i + 1) =~= reg.config.upstreams
                    .deep_view().subrange(0, i as int).push(
                    reg.config.upstreams.deep_view()[i as int],
                ));
            }
            i = i + 1;
        }
        proof {
            assert(out.deep_view() =~= reg.config.upstreams.deep_view());
        }
        out
    }

    /// Create an upstream. A held id answers 400; an upstream that does
    /// not build answers 400; either way the registry stays as it was.
    pub fn add(reg: &mut Registry, upstream: UpstreamConfig) -> (r: Result<(), Status>)
        requires
            old(reg).wf(),
        ensures
            final(reg).wf(),
            match r {
                Ok(_) => spec_find_upstream_cfg(old(reg)@.config.upstreams, upstream@.id) is None
                    && final(reg)@.config.upstreams == old(reg)@.config.upstreams.push(upstream@)
                    && final(reg)@.config.routes == old(reg)@.config.routes,
                Err(st) => {
                    &&& *final(reg) == *old(reg)
                    &&& st.status == 400
                    &&& st.code == 10400
                    &&& spec_find_upstream_cfg(old(reg)@.config.upstreams, upstream@.id) is Some
                        || spec_build_registry(
                        crate::registry::RegistryConfigView {
                            routes: old(reg)@.config.routes,
                            upstreams: old(reg)@.config.upstreams.push(upstream@),
                        },
                    ) is None
                    &&& spec_find_upstream_cfg(old(reg)@.config.upstreams, upstream@.id) is Some
                        ==> st.message@ == "Upstream Id exist"@
                },
            },
    {
        match find_upstream_cfg(&reg.config.upstreams, upstream.id.as_str()) {
            Some(_) => {
                return Err(Status::bad_request(String::from_str("Upstream Id exist")));
            },
            None => {},
        }
        match reg.add_upstream(&upstream) {
            Ok(_) => Ok(()),
            Err(e) => Err(Status::bad_request(e.message())),
        }
    }

    /// Replace the upstream carrying the id. A missing id answers 404;
    /// one that does not build answers 400; either way the registry
    /// stays as it was.
    pub fn update(reg: &mut Registry, upstream_id: &str, upstream: UpstreamConfig) -> (r: Result<
        (),
        Status,
    >)
        requires
            old(reg).wf(),
        ensures
            final(reg).wf(),
            match r {
                Ok(_) => spec_find_upstream_cfg(old(reg)@.config.upstreams, upstream_id@) is Some
                    && final(reg)@.config.upstreams == old(reg)@.config.upstreams.update(
                    spec_find_upstream_cfg(old(reg)@.config.upstreams, upstream_id@)->Some_0,
                    (UpstreamConfigView { id: upstream_id@, ..upstream@ }),
                ) && final(reg)@.config.routes == old(reg)@.config.routes,
                Err(st) => {
                    &&& *final(reg) == *old(reg)
                    &&& st.status == 404 || st.status == 400
                    &&& st.status == 404 <==> spec_find_upstream_cfg(
                        old(reg)@.config.upstreams,
                        upstream_id@,
                    ) is None
                    &&& st.status == 404 ==> st.code == 10404 && st.message@
                        == "Upstream not exist"@
                    &&& st.status == 400 ==> st.code == 10400 && spec_build_registry(
                        crate::registry::RegistryConfigView {
                            routes: old(reg)@.config.routes,
                            upstreams: old(reg)@.config.upstreams.update(
                                spec_find_upstream_cfg(
                                    old(reg)@.config.upstreams,
                                    upstream_id@,
                                )->Some_0,
                                (UpstreamConfigView { id: upstream_id@, ..upstream@ }),
                            ),
                        },
                    ) is None
                },
            },
    {
        let mut upstream = upstream;
        upstream.id = String::from_str(upstream_id);
        let i = match find_upstream_cfg(&reg.config.upstreams, upstream_id) {
            Some(i) => i,
            None => {
                return Err(Status::not_found(String::from_str("Upstream not exist")));
            },
        };
        proof {
            lemma_find_upstream_cfg_valid(reg@.config.upstreams, upstream_id@);
        }
        let mut newcfg = reg.config.clone();
        newcfg.upstreams.set(i, upstream);
        proof {
            assert(newcfg@.upstreams =~= old(reg)@.config.upstreams.update(
                i as int,
                newcfg@.upstreams[i as int],
            ));
            assert(newcfg@ == (crate::registry::RegistryConfigView {
                routes: old(reg)@.config.routes,
                upstreams: old(reg)@.config.upstreams.update(
                    i as int,
                    (UpstreamConfigView { id: upstream_id@, ..upstream@ }),
                ),
            }));
        }
        match reg.reload(newcfg) {
            Ok(_) => Ok(()),
            Err(e) => Err(Status::bad_request(e.message())),
        }
    }
}

/// Replacing a route with a structurally equal body leaves the
/// registry's world structurally unchanged: the configuration, routes
/// and trie exactly, the upstream pool up to endpoint health, whose
/// cells start a fresh probe cycle on rebuild.
pub proof fn lemma_put_same_route_is_noop(
    reg0: crate::registry::RegistryView,
    reg1: crate::registry::RegistryView,
    j: int,
    v: RouteConfigView,
)
    requires
        0 <= j < reg0.config.routes.len(),
        reg0.config.routes[j] == v,
        reg1.config.routes == reg0.config.routes.update(j, v),
        reg1.config.upstreams == reg0.config.upstreams,
        crate::registry::matches_build_mod_health(reg0),
        crate::registry::matches_build_mod_health(reg1),
    ensures
        reg1.config == reg0.config,
        reg1.routes == reg0.routes,
        reg1.table == reg0.table,
        crate::registry::views_mod_health(reg1.upstreams) == crate::registry::views_mod_health(
            reg0.upstreams,
        ),
{
    assert(reg1.config.routes =~= reg0.config.routes);
    assert(reg1.config == reg0.config);
}

} // verus!

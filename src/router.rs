//! Routing: an ordered table of method-and-pattern routes, a default handler,
//! first-match selection with one optional wildcard capture, and dispatch.
use vstd::prelude::*;

use crate::message::{opt_view, Request, Response};
use crate::request::Method;
use crate::text::{chars_of, push_char};

verus! {

/// The text of the first capture group of the leftmost match of `pattern` in
/// `text`, as the regex engine finds it; none where the pattern does not
/// compile, nothing matches or the group takes no part.
pub uninterp spec fn regex_first_group(pattern: Seq<char>, text: Seq<char>) -> Option<Seq<char>>;

/// Relies on `regex::Regex::new`, `Regex::captures` and `Captures::get`: the
/// first group of the leftmost-first match, or none.
#[verifier::external_body]
fn first_group(pattern: &str, text: &str) -> (r: Option<String>)
    ensures
        opt_view(r) == regex_first_group(pattern@, text@),
{
    let re = regex::Regex::new(pattern).ok()?;
    let caps = re.captures(text)?;
    caps.get(1).map(|m| m.as_str().to_string())
}

/// Why a route cannot be added.
#[derive(PartialEq, Eq, Structural, Debug, Clone, Copy)]
pub enum RouteError {
    /// A route with the same method and pattern is already registered.
    DuplicateRoute,
}

/// The text a route or a request is known by: the method's token followed by
/// the path.
pub open spec fn identifier(method: Method, path: Seq<char>) -> Seq<char> {
    method.token_spec() + path
}

/// The pattern holds a `{` with a `}` somewhere after it.
pub open spec fn has_wildcard(p: Seq<char>) -> bool {
    exists|i: int, j: int| 0 <= i < j < p.len() && p[i] == '{' && p[j] == '}'
}

/// Index, in `q`, of the first brace of either kind.
pub open spec fn first_brace(q: Seq<char>) -> Option<nat>
    decreases q.len(),
{
    if q.len() == 0 {
        None
    } else if q[0] == '{' || q[0] == '}' {
        Some(0)
    } else {
        match first_brace(q.drop_first()) {
            Some(m) => Some(m + 1),
            None => None,
        }
    }
}

/// For `p` starting with `{`: the index of the `}` that closes it with no
/// brace in between.
pub open spec fn closing(p: Seq<char>) -> Option<nat> {
    match first_brace(p.skip(1)) {
        Some(m) => if p[m + 1 as int] == '}' {
            Some(m + 1)
        } else {
            None
        },
        None => None,
    }
}

/// The capture-everything group a wildcard becomes.
pub open spec fn any_group() -> Seq<char> {
    seq!['(', '.', '+', ')']
}

/// The regular expression a pattern stands for: each `/` escaped, each
/// `{name}` replaced by a group that captures one or more characters, and
/// every other character kept.
pub open spec fn regex_of(p: Seq<char>) -> Seq<char>
    decreases p.len(),
{
    if p.len() == 0 {
        Seq::empty()
    } else if p[0] == '/' {
        seq!['\\', '/'] + regex_of(p.skip(1))
    } else if p[0] == '{' && closing(p) is Some && 0 < closing(p)->0 < p.len() {
        any_group() + regex_of(p.skip(closing(p)->0 + 1 as int))
    } else {
        seq![p[0]] + regex_of(p.skip(1))
    }
}

/// What a route known by `pattern` captures from a request known by `id`:
/// a pattern without a wildcard matches only an equal identifier and
/// captures nothing; one with a wildcard goes by its regular expression.
pub open spec fn route_capture(pattern: Seq<char>, id: Seq<char>) -> Option<Seq<char>> {
    if has_wildcard(pattern) {
        regex_first_group(regex_of(pattern), id)
    } else if pattern == id {
        Some(Seq::empty())
    } else {
        None
    }
}

/// The first route, from index `i` on, that matches `id`, with its capture.
pub open spec fn select_from(ids: Seq<Seq<char>>, id: Seq<char>, i: int) -> Option<(int, Seq<char>)>
    decreases ids.len() - i,
{
    if i < 0 || i >= ids.len() {
        None
    } else {
        match route_capture(ids[i], id) {
            Some(c) => Some((i, c)),
            None => select_from(ids, id, i + 1),
        }
    }
}

/// The first registered route that matches `id`, with its capture.
pub open spec fn selection(ids: Seq<Seq<char>>, id: Seq<char>) -> Option<(int, Seq<char>)> {
    select_from(ids, id, 0)
}

/// A pattern without a wildcard matches exactly the identifier equal to it,
/// and then captures nothing.
pub proof fn lemma_static_match(pattern: Seq<char>, id: Seq<char>)
    requires
        !has_wildcard(pattern),
    ensures
        route_capture(pattern, id) is Some <==> pattern == id,
        route_capture(pattern, id) is Some ==> route_capture(pattern, id) == Some(
            Seq::<char>::empty(),
        ),
{
}

/// Among several matching routes the first registered one is chosen: the
/// selected route matches with the capture it reports, none before it
/// matches, and where nothing is selected no route matches.
pub proof fn lemma_first_match_wins(ids: Seq<Seq<char>>, id: Seq<char>)
    ensures
        selection(ids, id) matches Some((i, c)) ==> 0 <= i < ids.len() && route_capture(ids[i], id)
            == Some(c) && forall|j: int| 0 <= j < i ==> route_capture(#[trigger] ids[j], id) is None,
        selection(ids, id) is None ==> forall|j: int|
            0 <= j < ids.len() ==> route_capture(#[trigger] ids[j], id) is None,
{
    lemma_select_from(ids, id, 0);
}

proof fn lemma_select_from(ids: Seq<Seq<char>>, id: Seq<char>, k: int)
    requires
        0 <= k,
    ensures
        select_from(ids, id, k) matches Some((i, c)) ==> k <= i < ids.len() && route_capture(
            ids[i],
            id,
        ) == Some(c) && forall|j: int| k <= j < i ==> route_capture(#[trigger] ids[j], id) is None,
        select_from(ids, id, k) is None ==> forall|j: int|
            k <= j < ids.len() ==> route_capture(#[trigger] ids[j], id) is None,
    decreases ids.len() - k,
{
    if k < ids.len() && route_capture(ids[k], id) is None {
        lemma_select_from(ids, id, k + 1);
    }
}

fn has_wildcard_exec(p: &Vec<char>) -> (r: bool)
    ensures
        r == has_wildcard(p@),
{
    let mut seen_open = false;
    let mut k: usize = 0;
    while k < p.len()
        invariant
            k <= p.len(),
            seen_open == exists|i: int| 0 <= i < k && p@[i] == '{',
            !exists|i: int, j: int| 0 <= i < j < k && p@[i] == '{' && p@[j] == '}',
        decreases p.len() - k,
    {
        if p[k] == '}' && seen_open {
            return true;
        }
        if p[k] == '{' {
            seen_open = true;
        }
        k = k + 1;
    }
    false
}

/// For `p[k] == '{'`: where the closing `}` stands, if it does.
fn closing_at(p: &Vec<char>, k: usize) -> (r: Option<usize>)
    requires
        k < p.len(),
    ensures
        match r {
            Some(m) => closing(p@.skip(k as int)) == Some((m - k) as nat) && k < m < p.len(),
            None => closing(p@.skip(k as int)) is None,
        },
{
    let ghost q = p@.skip(k as int);
    let mut m: usize = k + 1;
    assert(q.skip(1) =~= p@.skip(k + 1));
    while m < p.len() && p[m] != '{' && p[m] != '}'
        invariant
            k < m <= p.len(),
            q == p@.skip(k as int),
            first_brace(q.skip(1)) == (match first_brace(p@.skip(m as int)) {
                Some(x) => Some((x + (m - k - 1)) as nat),
                None => None::<nat>,
            }),
        decreases p.len() - m,
    {
        assert(p@.skip(m as int).drop_first() =~= p@.skip(m + 1));
        m = m + 1;
    }
    if m == p.len() {
        assert(p@.skip(m as int).len() == 0);
        return None;
    }
    assert(first_brace(p@.skip(m as int)) == Some(0nat));
    assert(q[(m - k) as int] == p@[m as int]);
    if p[m] == '}' {
        Some(m)
    } else {
        None
    }
}

/// The regular expression a pattern stands for.
fn regex_of_exec(p: &Vec<char>) -> (r: String)
    ensures
        r@ == regex_of(p@),
{
    let mut r = String::new();
    let mut k: usize = 0;
    assert(p@.skip(0) =~= p@);
    while k < p.len()
        invariant
            k <= p.len(),
            r@ + regex_of(p@.skip(k as int)) == regex_of(p@),
        decreases p.len() - k,
    {
        let ghost q = p@.skip(k as int);
        assert(q[0] == p@[k as int]);
        assert(q.skip(1) =~= p@.skip(k + 1));
        if p[k] == '/' {
            push_char(&mut r, '\\');
            push_char(&mut r, '/');
            assert(r@ + regex_of(p@.skip(k + 1)) =~= regex_of(p@));
            k = k + 1;
        } else if p[k] == '{' {
            match closing_at(p, k) {
                Some(m) => {
                    push_char(&mut r, '(');
                    push_char(&mut r, '.');
                    push_char(&mut r, '+');
                    push_char(&mut r, ')');
                    assert(q.skip((m - k) + 1) =~= p@.skip(m + 1));
                    assert(r@ + regex_of(p@.skip(m + 1)) =~= regex_of(p@));
                    k = m + 1;
                },
                None => {
                    push_char(&mut r, '{');
                    assert(r@ + regex_of(p@.skip(k + 1)) =~= regex_of(p@));
                    k = k + 1;
                },
            }
        } else {
            push_char(&mut r, p[k]);
            assert(r@ + regex_of(p@.skip(k + 1)) =~= regex_of(p@));
            k = k + 1;
        }
    }
    assert(regex_of(p@.skip(k as int)) == Seq::<char>::empty());
    assert(r@ =~= regex_of(p@));
    r
}

/// What the route known by `pattern` captures from the request known by `id`.
pub fn match_route(pattern: &String, id: &String) -> (r: Option<String>)
    ensures
        opt_view(r) == route_capture(pattern@, id@),
{
    let p = chars_of(pattern.as_str());
    if has_wildcard_exec(&p) {
        let re = regex_of_exec(&p);
        first_group(re.as_str(), id.as_str())
    } else if *pattern == *id {
        Some(String::new())
    } else {
        None
    }
}

/// A registered route: the identifier it is known by and its handler.
pub struct Route<F> {
    identifier: String,
    handler: F,
}

/// An ordered table of routes, a default handler for requests that no route
/// matches, and the context handed to every handler.
pub struct Router<C, F> {
    default: F,
    endpoints: Vec<Route<F>>,
    ctx: C,
}

impl<C, F> Router<C, F> {
    /// The identifiers of the routes, in registration order.
    pub closed spec fn identifiers(&self) -> Seq<Seq<char>> {
        self.endpoints@.map_values(|r: Route<F>| r.identifier@)
    }

    /// The handlers of the routes, in registration order.
    pub closed spec fn handlers(&self) -> Seq<F> {
        self.endpoints@.map_values(|r: Route<F>| r.handler)
    }

    /// No two routes share a method and pattern.
    pub open spec fn wf(&self) -> bool {
        forall|i: int, j: int|
            0 <= i < self.identifiers().len() && 0 <= j < self.identifiers().len() && i != j
                ==> #[trigger] self.identifiers()[i] != #[trigger] self.identifiers()[j]
    }

    pub closed spec fn default_handler(&self) -> F {
        self.default
    }

    pub closed spec fn context(&self) -> &C {
        &self.ctx
    }

    /// A router with no routes.
    pub fn new(default: F, ctx: C) -> (r: Self)
        ensures
            r.identifiers().len() == 0,
            r.handlers().len() == 0,
            r.wf(),
            r.default_handler() == default,
            *r.context() == ctx,
    {
        let r = Router { default, endpoints: Vec::new(), ctx };
        assert(r.identifiers() =~= Seq::<Seq<char>>::empty());
        r
    }

    /// The text a route or a request is known by.
    pub fn route_identifier(method: Method, target: &String) -> (r: String)
        ensures
            r@ == identifier(method, target@),
    {
        let mut r = method.token();
        r.append(target.as_str());
        r
    }

    /// Registers `handler` for `method` and `endpoint`, unless a route with
    /// the same method and pattern exists; then nothing changes.
    pub fn add(&mut self, method: Method, endpoint: String, handler: F) -> (r: Result<(), RouteError>)
        ensures
            old(self).identifiers().contains(identifier(method, endpoint@)) ==> {
                &&& r == Err::<(), RouteError>(RouteError::DuplicateRoute)
                &&& *final(self) == *old(self)
            },
            !old(self).identifiers().contains(identifier(method, endpoint@)) ==> {
                &&& r is Ok
                &&& final(self).identifiers() == old(self).identifiers().push(
                    identifier(method, endpoint@),
                )
                &&& final(self).handlers() == old(self).handlers().push(handler)
                &&& final(self).default_handler() == old(self).default_handler()
                &&& final(self).context() == old(self).context()
            },
            old(self).wf() ==> final(self).wf(),
    {
        let route = Router::<C, F>::route_identifier(method, &endpoint);
        let mut i: usize = 0;
        while i < self.endpoints.len()
            invariant
                i <= self.endpoints.len(),
                self.identifiers().len() == self.endpoints.len(),
                forall|j: int| 0 <= j < i ==> self.identifiers()[j] != route@,
                route@ == identifier(method, endpoint@),
                *self == *old(self),
            decreases self.endpoints.len() - i,
        {
            assert(self.identifiers()[i as int] == self.endpoints@[i as int].identifier@);
            if self.endpoints[i].identifier == route {
                assert(self.identifiers()[i as int] == identifier(method, endpoint@));
                assert(old(self).identifiers().contains(identifier(method, endpoint@)));
                return Err(RouteError::DuplicateRoute);
            }
            i = i + 1;
        }
        let ghost before = self.endpoints@;
        self.endpoints.push(Route { identifier: route, handler });
        assert(self.identifiers() =~= before.map_values(|r: Route<F>| r.identifier@).push(
            identifier(method, endpoint@),
        ));
        assert(self.handlers() =~= before.map_values(|r: Route<F>| r.handler).push(handler));
        Ok(())
    }

    /// The first route that matches the request known by `id`, and its
    /// capture.
    fn select(&self, id: &String) -> (r: Option<(usize, String)>)
        ensures
            match r {
                Some((i, c)) => selection(self.identifiers(), id@) == Some((i as int, c@)) && i
                    < self.handlers().len(),
                None => selection(self.identifiers(), id@) is None,
            },
    {
        let mut i: usize = 0;
        while i < self.endpoints.len()
            invariant
                i <= self.endpoints.len(),
                self.identifiers().len() == self.endpoints.len(),
                self.handlers().len() == self.endpoints.len(),
                selection(self.identifiers(), id@) == select_from(self.identifiers(), id@, i as int),
            decreases self.endpoints.len() - i,
        {
            assert(self.identifiers()[i as int] == self.endpoints@[i as int].identifier@);
            match match_route(&self.endpoints[i].identifier, id) {
                Some(c) => {
                    return Some((i, c));
                },
                None => {},
            }
            i = i + 1;
        }
        None
    }
}

/// The response a handler's result stands for: itself on success, the fixed
/// internal error on failure.
pub open spec fn settles<E>(res: Result<Response, E>, r: Response) -> bool {
    match res {
        Ok(x) => r == x,
        Err(_) => r.is_internal_error(),
    }
}

/// The response for a handler's result.
pub fn settle<E>(res: Result<Response, E>) -> (r: Response)
    ensures
        settles(res, r),
{
    match res {
        Ok(x) => x,
        Err(_) => Response::internal_error(),
    }
}

impl<C, F> Router<C, F> {
    /// The handler chosen for the request known by `id`, and the capture it
    /// receives: the first matching route's, or the default with nothing.
    pub open spec fn dispatch(&self, id: Seq<char>) -> (F, Seq<char>) {
        match selection(self.identifiers(), id) {
            Some((i, c)) => (self.handlers()[i], c),
            None => (self.default_handler(), Seq::empty()),
        }
    }

    /// Every handler accepts this request with any capture.
    pub open spec fn accepts<E>(&self, request: &Request) -> bool where
        F: Fn(&Request, String, &C) -> Result<Response, E>,
     {
        &&& forall|s: String| call_requires(self.default_handler(), (request, s, self.context()))
        &&& forall|i: int, s: String|
            0 <= i < self.handlers().len() ==> #[trigger] call_requires(
                self.handlers()[i],
                (request, s, self.context()),
            )
    }

    /// Runs the handler that the request's method and target select; a
    /// handler failure becomes the fixed internal error response.
    pub fn execute<E>(&self, method: Method, target: &String, request: &Request) -> (r: Response) where
        F: Fn(&Request, String, &C) -> Result<Response, E>,

        requires
            self.accepts(request),
        ensures
            exists|s: String, res: Result<Response, E>|
                s@ == self.dispatch(identifier(method, target@)).1 && call_ensures(
                    self.dispatch(identifier(method, target@)).0,
                    (request, s, self.context()),
                    res,
                ) && settles(res, r),
    {
        let id = Router::<C, F>::route_identifier(method, target);
        let ghost d = self.dispatch(identifier(method, target@));
        match self.select(&id) {
            Some((i, c)) => {
                let ghost s = c;
                assert(self.handlers()[i as int] == self.endpoints@[i as int].handler);
                assert(call_requires(self.handlers()[i as int], (request, c, self.context())));
                let res = (self.endpoints[i].handler)(request, c, &self.ctx);
                let r = settle(res);
                assert(s@ == d.1 && call_ensures(d.0, (request, s, self.context()), res));
                r
            },
            None => {
                let c = String::new();
                let ghost s = c;
                assert(call_requires(self.default_handler(), (request, c, self.context())));
                let res = (self.default)(request, c, &self.ctx);
                let r = settle(res);
                assert(s@ =~= d.1);
                assert(call_ensures(d.0, (request, s, self.context()), res));
                r
            },
        }
    }
}

} // verus!

use vstd::prelude::*;

use crate::http::{method_token, HttpMethod};
use crate::text::{char_views, chars_eq, pairs_view, pieces, push_char, slash_pieces, string_from};

verus! {

/// A path template as registered, e.g. `/echo/:value`.
pub type Endpoint = String;

/// The key of a route: its method token and its template.
pub type RouteKey = (String, Endpoint);

/// A route key as characters.
pub type KeyView = (Seq<char>, Seq<char>);

/// A named parameter and the value bound to it.
pub type Binding = (Seq<char>, Seq<char>);

pub open spec fn key_view(k: RouteKey) -> KeyView {
    (k.0@, k.1@)
}

/// A template segment that captures: it starts with `:`.
pub open spec fn is_capture(seg: Seq<char>) -> bool {
    seg.len() > 0 && seg[0] == ':'
}

/// The segments of a path: its non-empty pieces between slashes.
pub open spec fn segments(p: Seq<char>) -> Seq<Seq<char>> {
    pieces(p, '/')
}

/// Segments joined with single slashes.
pub open spec fn join_segments(s: Seq<Seq<char>>) -> Seq<char>
    decreases s.len(),
{
    if s.len() == 0 {
        Seq::empty()
    } else if s.len() == 1 {
        s[0]
    } else {
        join_segments(s.drop_last()) + seq!['/'] + s.last()
    }
}

/// Whether a walk of template segments `t` over request segments `r`
/// completes: the template has a segment to walk (the bare `/` template is
/// reached by exact lookup alone), the request does not run out first, and
/// each literal segment is equal to the request segment at its position.
pub open spec fn walk_completes(t: Seq<Seq<char>>, r: Seq<Seq<char>>) -> bool {
    &&& 0 < t.len() <= r.len()
    &&& forall|i: int| 0 <= i < t.len() ==> is_capture(t[i]) || t[i] == r[i]
}

/// The bindings recorded by the first `n` steps of a walk: each capturing
/// segment binds its name (without the `:`) to the rest of the request path
/// from its position on, joined by slashes.
pub open spec fn captures(t: Seq<Seq<char>>, r: Seq<Seq<char>>, n: nat) -> Seq<Binding>
    decreases n,
{
    if n == 0 {
        Seq::empty()
    } else {
        let prev = captures(t, r, (n - 1) as nat);
        let seg = t[n - 1];
        if is_capture(seg) {
            prev.push((seg.drop_first(), join_segments(r.subrange(n - 1, r.len() as int))))
        } else {
            prev
        }
    }
}

/// Whether the route with key `k` matches a request for `method` and `path`.
pub open spec fn route_matches(k: KeyView, method: Seq<char>, path: Seq<char>) -> bool {
    k.0 == method && walk_completes(segments(k.1), segments(path))
}

/// The first route, from position `i` on, that matches the request.
pub open spec fn first_match(keys: Seq<KeyView>, method: Seq<char>, path: Seq<char>, i: int) -> Option<
    int,
>
    decreases keys.len() - i,
{
    if i < 0 || i >= keys.len() {
        None
    } else if route_matches(keys[i], method, path) {
        Some(i)
    } else {
        first_match(keys, method, path, i + 1)
    }
}

/// The first position, from `i` on, that holds key `k`.
pub open spec fn find_key(keys: Seq<KeyView>, k: KeyView, i: int) -> Option<int>
    decreases keys.len() - i,
{
    if i < 0 || i >= keys.len() {
        None
    } else if keys[i] == k {
        Some(i)
    } else {
        find_key(keys, k, i + 1)
    }
}

/// What the path matcher yields for a request: the key of the first matching
/// route in table order and the bindings of its walk.
pub open spec fn match_result(keys: Seq<KeyView>, method: Seq<char>, path: Seq<char>) -> Option<
    (KeyView, Seq<Binding>),
> {
    match first_match(keys, method, path, 0) {
        Some(i) => {
            let t = segments(keys[i].1);
            Some((keys[i], captures(t, segments(path), t.len())))
        },
        None => None,
    }
}

/// How a request resolves: by its exact key when the table holds it, with no
/// bindings; else through the path matcher.
pub open spec fn resolution(keys: Seq<KeyView>, method: Seq<char>, path: Seq<char>) -> Option<
    (KeyView, Seq<Binding>),
> {
    match find_key(keys, (method, path), 0) {
        Some(i) => Some((keys[i], Seq::empty())),
        None => match_result(keys, method, path),
    }
}

/// The table after registering key `k` with handler `h`: an entry with that
/// key has its handler replaced in place; otherwise the entry is appended.
pub open spec fn registered<H>(keys: Seq<KeyView>, handlers: Seq<H>, k: KeyView, h: H) -> (
    Seq<KeyView>,
    Seq<H>,
) {
    match find_key(keys, k, 0) {
        Some(i) => (keys, handlers.update(i, h)),
        None => (keys.push(k), handlers.push(h)),
    }
}

/// No key occurs twice.
pub open spec fn keys_unique(keys: Seq<KeyView>) -> bool {
    forall|i: int, j: int| 0 <= i < keys.len() && 0 <= j < keys.len() && i != j ==> keys[i] != keys[j]
}

/// The route table: routes in registration order, each key at most once.
pub struct Router<H> {
    routes: Vec<(RouteKey, H)>,
}

/// The outcome of resolving a request: the key of the route that matched and
/// the named parameters bound by the match.
pub struct ParsedPathParams {
    pub route_key: RouteKey,
    pub params: Vec<(String, String)>,
}

impl<H> Router<H> {
    /// The keys of the table, in registration order.
    pub closed spec fn keys(&self) -> Seq<KeyView> {
        self.routes@.map_values(|e: (RouteKey, H)| key_view(e.0))
    }

    /// The handlers of the table, position by position with `keys`.
    pub closed spec fn handlers(&self) -> Seq<H> {
        self.routes@.map_values(|e: (RouteKey, H)| e.1)
    }

    pub open spec fn wf(&self) -> bool {
        &&& self.keys().len() == self.handlers().len()
        &&& keys_unique(self.keys())
    }

    /// An empty table.
    pub fn new() -> (r: Router<H>)
        ensures
            r.wf(),
            r.keys().len() == 0,
    {
        let r = Router { routes: Vec::new() };
        assert(r.keys() =~= Seq::<KeyView>::empty());
        r
    }

    /// The position of the entry keyed by `(method, template)`, if any.
    fn position(&self, method: &String, template: &String) -> (r: Option<usize>)
        ensures
            r is Some <==> find_key(self.keys(), (method@, template@), 0) is Some,
            r is Some ==> find_key(self.keys(), (method@, template@), 0) == Some(r->0 as int),
            r is Some ==> r->0 < self.routes@.len(),
    {
        let ghost keys = self.keys();
        let ghost k = (method@, template@);
        let mut i: usize = 0;
        while i < self.routes.len()
            invariant
                i <= self.routes@.len(),
                keys == self.keys(),
                k == (method@, template@),
                keys.len() == self.routes@.len(),
                find_key(keys, k, 0) == find_key(keys, k, i as int),
            decreases self.routes@.len() - i,
        {
            let e = &self.routes[i];
            assert(keys[i as int] == key_view(e.0));
            if e.0.0.eq(method) && e.0.1.eq(template) {
                assert(keys[i as int] == k);
                return Some(i);
            }
            assert(keys[i as int] != k);
            assert(find_key(keys, k, i as int) == find_key(keys, k, i + 1));
            i = i + 1;
        }
        None
    }

    /// The handler registered under exactly `route_key`, if any.
    pub fn get_handler_by_endpoint(&self, route_key: RouteKey) -> (r: Option<&H>)
        ensures
            r is Some <==> find_key(self.keys(), key_view(route_key), 0) is Some,
            r is Some ==> *r->0 == self.handlers()[find_key(self.keys(), key_view(route_key), 0)->0],
    {
        match self.position(&route_key.0, &route_key.1) {
            Some(i) => {
                assert(self.handlers()[i as int] == self.routes@[i as int].1);
                Some(&self.routes[i].1)
            },
            None => None,
        }
    }

    /// Finds the first route, in registration order, whose method equals
    /// `req_method` and whose template's walk over `req_endpoint` completes,
    /// and binds its named segments.
    pub fn parse_path_params(&self, req_method: String, req_endpoint: String) -> (r: Option<
        ParsedPathParams,
    >)
        ensures
            r is Some <==> match_result(self.keys(), req_method@, req_endpoint@) is Some,
            r is Some ==> (key_view(r->0.route_key), pairs_view(r->0.params@)) == match_result(
                self.keys(),
                req_method@,
                req_endpoint@,
            )->0,
    {
        let ghost keys = self.keys();
        let ghost m = req_method@;
        let ghost p = req_endpoint@;
        let rsegs = slash_pieces(req_endpoint.as_str());
        let mut i: usize = 0;
        while i < self.routes.len()
            invariant
                i <= self.routes@.len(),
                keys == self.keys(),
                keys.len() == self.routes@.len(),
                m == req_method@,
                p == req_endpoint@,
                char_views(rsegs@) == segments(p),
                first_match(keys, m, p, 0) == first_match(keys, m, p, i as int),
            decreases self.routes@.len() - i,
        {
            let e = &self.routes[i];
            assert(keys[i as int] == key_view(e.0));
            if e.0.0.eq(&req_method) {
                let tsegs = slash_pieces(e.0.1.as_str());
                if walk(&tsegs, &rsegs) {
                    let params = bind(&tsegs, &rsegs);
                    let route_key = (e.0.0.clone(), e.0.1.clone());
                    return Some(ParsedPathParams { route_key, params });
                }
            }
            i = i + 1;
        }
        None
    }

    /// Resolves a request: by its exact `(method, path)` key when the table
    /// holds it, with no parameters; else through `parse_path_params`.
    pub fn resolve(&self, method: &String, path: &String) -> (r: Option<ParsedPathParams>)
        ensures
            r is Some <==> resolution(self.keys(), method@, path@) is Some,
            r is Some ==> (key_view(r->0.route_key), pairs_view(r->0.params@)) == resolution(
                self.keys(),
                method@,
                path@,
            )->0,
    {
        match self.position(method, path) {
            Some(i) => {
                let e = &self.routes[i];
                assert(self.keys()[i as int] == key_view(e.0));
                let route_key = (e.0.0.clone(), e.0.1.clone());
                let params: Vec<(String, String)> = Vec::new();
                assert(pairs_view(params@) =~= Seq::empty());
                Some(ParsedPathParams { route_key, params })
            },
            None => self.parse_path_params(method.clone(), path.clone()),
        }
    }

    /// Registers `handler` under `method` and `endpoint`, replacing the
    /// handler of an entry that already has that key.
    pub fn add_route(&mut self, method: HttpMethod, endpoint: Endpoint, handler: H) -> (r: &Router<
        H,
    >)
        requires
            old(self).wf(),
        ensures
            *r == *final(self),
            final(self).wf(),
            (final(self).keys(), final(self).handlers()) == registered(
                old(self).keys(),
                old(self).handlers(),
                (method_token(method), endpoint@),
                handler,
            ),
    {
        let m = method.to_string();
        let ghost k = (m@, endpoint@);
        match self.position(&m, &endpoint) {
            Some(i) => {
                proof {
                    lemma_find_key_some(old(self).keys(), k, 0);
                }
                let key = (m, endpoint);
                self.routes.set(i, (key, handler));
                assert(self.keys() =~= old(self).keys());
                assert(self.handlers() =~= old(self).handlers().update(i as int, handler));
            },
            None => {
                self.routes.push(((m, endpoint), handler));
                assert(self.keys() =~= old(self).keys().push(k));
                assert(self.handlers() =~= old(self).handlers().push(handler));
                proof {
                    lemma_find_key_none(old(self).keys(), k, 0);
                }
            },
        }
        self
    }
}

/// Appends the characters of `v` to `s`.
fn append_chars(s: &mut String, v: &Vec<char>)
    ensures
        final(s)@ == old(s)@ + v@,
{
    let mut i: usize = 0;
    while i < v.len()
        invariant
            i <= v@.len(),
            s@ == old(s)@ + v@.take(i as int),
        decreases v@.len() - i,
    {
        push_char(s, v[i]);
        i = i + 1;
        assert(s@ =~= old(s)@ + v@.take(i as int));
    }
    assert(v@.take(i as int) =~= v@);
}

/// The segments `r[from..]` joined by slashes.
fn join_from(r: &Vec<Vec<char>>, from: usize) -> (s: String)
    requires
        from <= r@.len(),
    ensures
        s@ == join_segments(char_views(r@).subrange(from as int, r@.len() as int)),
{
    let ghost rv = char_views(r@);
    let mut s = String::new();
    let mut i: usize = from;
    while i < r.len()
        invariant
            from <= i <= r@.len(),
            rv == char_views(r@),
            s@ == join_segments(rv.subrange(from as int, i as int)),
        decreases r@.len() - i,
    {
        let ghost before = s@;
        let ghost next = rv.subrange(from as int, i + 1);
        assert(next.drop_last() =~= rv.subrange(from as int, i as int));
        assert(next.last() == r@[i as int]@);
        if i > from {
            push_char(&mut s, '/');
        }
        append_chars(&mut s, &r[i]);
        if i == from {
            assert(s@ =~= join_segments(next));
        } else {
            assert(s@ =~= join_segments(next));
        }
        i = i + 1;
    }
    s
}

/// Whether the walk of template segments `t` over request segments `r` completes.
fn walk(t: &Vec<Vec<char>>, r: &Vec<Vec<char>>) -> (ok: bool)
    ensures
        ok == walk_completes(char_views(t@), char_views(r@)),
{
    let ghost tv = char_views(t@);
    let ghost rv = char_views(r@);
    if t.len() == 0 || t.len() > r.len() {
        return false;
    }
    let mut i: usize = 0;
    while i < t.len()
        invariant
            i <= t@.len() <= r@.len(),
            0 < t@.len(),
            tv == char_views(t@),
            rv == char_views(r@),
            forall|j: int| 0 <= j < i ==> is_capture(tv[j]) || tv[j] == rv[j],
        decreases t@.len() - i,
    {
        let seg = &t[i];
        assert(tv[i as int] == seg@);
        assert(rv[i as int] == r@[i as int]@);
        let cap = seg.len() > 0 && seg[0] == ':';
        if !cap && !chars_eq(seg, &r[i]) {
            return false;
        }
        i = i + 1;
    }
    true
}

/// The bindings of a completed walk of `t` over `r`.
fn bind(t: &Vec<Vec<char>>, r: &Vec<Vec<char>>) -> (out: Vec<(String, String)>)
    requires
        walk_completes(char_views(t@), char_views(r@)),
    ensures
        pairs_view(out@) == captures(char_views(t@), char_views(r@), t@.len() as nat),
{
    let ghost tv = char_views(t@);
    let ghost rv = char_views(r@);
    let mut out: Vec<(String, String)> = Vec::new();
    let mut i: usize = 0;
    while i < t.len()
        invariant
            i <= t@.len() <= r@.len(),
            tv == char_views(t@),
            rv == char_views(r@),
            pairs_view(out@) == captures(tv, rv, i as nat),
        decreases t@.len() - i,
    {
        let seg = &t[i];
        assert(tv[i as int] == seg@);
        if seg.len() > 0 && seg[0] == ':' {
            let name = string_from(seg, 1);
            let value = join_from(r, i);
            assert(name@ =~= seg@.drop_first());
            out.push((name, value));
        }
        assert(pairs_view(out@) =~= captures(tv, rv, (i + 1) as nat));
        i = i + 1;
    }
    out
}

/// A hit is a position, at or after `i`, that holds the key.
pub proof fn lemma_find_key_some(keys: Seq<KeyView>, k: KeyView, i: int)
    requires
        find_key(keys, k, i) is Some,
    ensures
        i <= find_key(keys, k, i)->0 < keys.len(),
        keys[find_key(keys, k, i)->0] == k,
    decreases keys.len() - i,
{
    if 0 <= i < keys.len() && keys[i] != k {
        lemma_find_key_some(keys, k, i + 1);
    }
}

/// Without a hit from `i` on, the key occurs nowhere from `i` on.
proof fn lemma_find_key_none(keys: Seq<KeyView>, k: KeyView, i: int)
    requires
        0 <= i,
        find_key(keys, k, i) is None,
    ensures
        forall|j: int| i <= j < keys.len() ==> keys[j] != k,
    decreases keys.len() - i,
{
    if i < keys.len() {
        lemma_find_key_none(keys, k, i + 1);
    }
}

} // verus!

verus! {

/// A key at position `i`, with no equal key before it, is found at `i`.
pub proof fn lemma_find_key_at(keys: Seq<KeyView>, i: int, j: int)
    requires
        0 <= j <= i < keys.len(),
        forall|l: int| j <= l < i ==> keys[l] != keys[i],
    ensures
        find_key(keys, keys[i], j) == Some(i),
    decreases i - j,
{
    if j < i {
        lemma_find_key_at(keys, i, j + 1);
    }
}

/// A registered route is reached by a request whose method and path are
/// exactly its key: the request resolves to that entry, so to its handler,
/// and binds no path parameters. This holds of every route without named
/// segments, and of every other route too.
pub proof fn lemma_exact_route_resolves(keys: Seq<KeyView>, i: int)
    requires
        keys_unique(keys),
        0 <= i < keys.len(),
    ensures
        find_key(keys, keys[i], 0) == Some(i),
        resolution(keys, keys[i].0, keys[i].1) == Some((keys[i], Seq::<Binding>::empty())),
{
    lemma_find_key_at(keys, i, 0);
    assert((keys[i].0, keys[i].1) == keys[i]);
}

/// Registering the same key twice leaves exactly one entry with that key, and
/// it holds the second handler.
pub proof fn lemma_register_twice<H>(
    keys: Seq<KeyView>,
    handlers: Seq<H>,
    k: KeyView,
    h1: H,
    h2: H,
)
    requires
        keys_unique(keys),
        keys.len() == handlers.len(),
    ensures
        ({
            let (k1, hs1) = registered(keys, handlers, k, h1);
            let (k2, hs2) = registered(k1, hs1, k, h2);
            &&& k2.len() == hs2.len()
            &&& k2 == k1
            &&& find_key(k2, k, 0) is Some
            &&& hs2[find_key(k2, k, 0)->0] == h2
            &&& forall|j: int| 0 <= j < k2.len() && k2[j] == k ==> j == find_key(k2, k, 0)->0
        }),
{
    let (k1, hs1) = registered(keys, handlers, k, h1);
    match find_key(keys, k, 0) {
        Some(_) => {
            lemma_find_key_some(keys, k, 0);
        },
        None => {
            lemma_find_key_none(keys, k, 0);
            let n = keys.len() as int;
            assert(k1[n] == k);
            lemma_find_key_at(k1, n, 0);
        },
    }
    lemma_find_key_some(k1, k, 0);
    assert(keys_unique(k1));
}

} // verus!

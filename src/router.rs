//! Exact-match routing of requests to handlers.
use vstd::prelude::*;
use crate::body::{body_accepted, plain_text, Body};
use crate::method::Method;
use crate::request::{content_type_of, frame_parts, Request};
use crate::response::{head_of, Response};
use crate::status::StatusCode;

verus! {

/// The last index below `n` whose route has the path `path` and lists the
/// method `m`, or -1.
pub open spec fn last_match<H>(
    t: Seq<(Seq<char>, Seq<Method>, H)>,
    path: Seq<char>,
    m: Method,
    n: int,
) -> int
    decreases n,
{
    if n <= 0 {
        -1
    } else if t[n - 1].0 == path && t[n - 1].1.contains(m) {
        n - 1
    } else {
        last_match(t, path, m, n - 1)
    }
}

proof fn lemma_last_match_prefix<H>(
    t: Seq<(Seq<char>, Seq<Method>, H)>,
    u: Seq<(Seq<char>, Seq<Method>, H)>,
    path: Seq<char>,
    m: Method,
    n: int,
)
    requires
        n <= t.len(),
        n <= u.len(),
        forall|i: int| 0 <= i < n ==> t[i] == u[i],
    ensures
        last_match(t, path, m, n) == last_match(u, path, m, n),
    decreases n,
{
    if n > 0 {
        lemma_last_match_prefix(t, u, path, m, n - 1);
    }
}

/// Registering a route for `path` and `methods` makes every request for that
/// path with one of those methods reach the new handler, and leaves every
/// other request reaching what it reached before.
pub proof fn lemma_register_then_lookup<H>(
    before: Seq<(Seq<char>, Seq<Method>, H)>,
    path: Seq<char>,
    methods: Seq<Method>,
    handler: H,
    p: Seq<char>,
    m: Method,
)
    ensures
        ({
            let after = before.push((path, methods, handler));
            &&& (p == path && methods.contains(m)) ==> last_match(
                after,
                p,
                m,
                after.len() as int,
            ) == before.len() && after[before.len() as int].2 == handler
            &&& !(p == path && methods.contains(m)) ==> last_match(
                after,
                p,
                m,
                after.len() as int,
            ) == last_match(before, p, m, before.len() as int)
        }),
{
    let after = before.push((path, methods, handler));
    lemma_last_match_prefix(after, before, p, m, before.len() as int);
}

/// `r` is the response that a miss gives: `404 Not Found` with the text
/// `Not found`.
pub open spec fn is_not_found(r: Response) -> bool {
    &&& r.wf()
    &&& r.statuscode == StatusCode::NotFound
    &&& r.headers@ == Map::<Seq<char>, Seq<char>>::empty().insert(
        "Content-type"@,
        "text/plain"@,
    )
    &&& r.body matches Body::Text(t) && t@ == "Not found"@
}

/// A table from (path, method) to handlers. A route matches a request when
/// its path equals the request's path exactly and it lists the request's
/// method; of several such routes the one registered last wins.
pub struct Router<H: Fn(Request) -> Response> {
    routes: Vec<(String, Vec<Method>, H)>,
}

impl<H: Fn(Request) -> Response> Router<H> {
    /// The registered routes in order: path, methods, handler.
    pub closed spec fn table(&self) -> Seq<(Seq<char>, Seq<Method>, H)> {
        self.routes@.map_values(|e: (String, Vec<Method>, H)| (e.0@, e.1@, e.2))
    }

    /// Every handler accepts every request.
    pub open spec fn wf(&self) -> bool {
        forall|i: int, q: Request| 0 <= i < self.table().len() ==> #[trigger] self.table()[i].2.requires((q,))
    }

    /// The index of the route a request for `path` with method `m` reaches, or -1.
    pub open spec fn lookup(&self, path: Seq<char>, m: Method) -> int {
        last_match(self.table(), path, m, self.table().len() as int)
    }

    /// `resp` is what handling `req` gives: what the reached handler may
    /// return, or `404 Not Found` where no route is reached.
    pub open spec fn handled(&self, req: Request, resp: Response) -> bool {
        let i = self.lookup(req.path@, req.method);
        &&& i >= 0 ==> self.table()[i].2.ensures((req,), resp)
        &&& i < 0 ==> is_not_found(resp)
    }

    /// An empty table.
    pub fn new() -> (r: Router<H>)
        ensures
            r.wf(),
            r.table().len() == 0,
    {
        let r = Router { routes: Vec::new() };
        assert(r.table() =~= Seq::empty());
        r
    }

    /// Registers `handler` for requests to `path` with any of `methods`.
    pub fn match_route(&mut self, methods: Vec<Method>, path: &str, handler: H)
        requires
            old(self).wf(),
            forall|q: Request| handler.requires((q,)),
        ensures
            final(self).wf(),
            final(self).table() == old(self).table().push((path@, methods@, handler)),
    {
        let ghost before = self.table();
        self.routes.push((String::from_str(path), methods, handler));
        assert(self.table() =~= before.push((path@, methods@, handler)));
    }

    /// Registers `handler` for `GET` requests to `path`.
    pub fn get(&mut self, path: &str, handler: H)
        requires
            old(self).wf(),
            forall|q: Request| handler.requires((q,)),
        ensures
            final(self).wf(),
            final(self).table() == old(self).table().push((path@, seq![Method::Get], handler)),
    {
        let methods = vec![Method::Get];
        assert(methods@ =~= seq![Method::Get]);
        self.match_route(methods, path, handler)
    }

    /// Registers `handler` for `POST` requests to `path`.
    pub fn post(&mut self, path: &str, handler: H)
        requires
            old(self).wf(),
            forall|q: Request| handler.requires((q,)),
        ensures
            final(self).wf(),
            final(self).table() == old(self).table().push((path@, seq![Method::Post], handler)),
    {
        let methods = vec![Method::Post];
        assert(methods@ =~= seq![Method::Post]);
        self.match_route(methods, path, handler)
    }

    /// Registers `handler` for `DELETE` requests to `path`.
    pub fn delete(&mut self, path: &str, handler: H)
        requires
            old(self).wf(),
            forall|q: Request| handler.requires((q,)),
        ensures
            final(self).wf(),
            final(self).table() == old(self).table().push((path@, seq![Method::Delete], handler)),
    {
        let methods = vec![Method::Delete];
        assert(methods@ =~= seq![Method::Delete]);
        self.match_route(methods, path, handler)
    }

    /// Registers `handler` for `PUT` requests to `path`.
    pub fn put(&mut self, path: &str, handler: H)
        requires
            old(self).wf(),
            forall|q: Request| handler.requires((q,)),
        ensures
            final(self).wf(),
            final(self).table() == old(self).table().push((path@, seq![Method::Put], handler)),
    {
        let methods = vec![Method::Put];
        assert(methods@ =~= seq![Method::Put]);
        self.match_route(methods, path, handler)
    }

    fn find_route(&self, path: &String, m: Method) -> (r: Option<usize>)
        ensures
            r matches Some(i) ==> i as int == self.lookup(path@, m) && i < self.table().len(),
            r is None ==> self.lookup(path@, m) == -1,
    {
        let mut n: usize = self.routes.len();
        while n > 0
            invariant
                n <= self.table().len(),
                self.table().len() == self.routes@.len(),
                last_match(self.table(), path@, m, n as int) == self.lookup(path@, m),
            decreases n,
        {
            let entry = &self.routes[n - 1];
            if entry.0 == *path && contains_method(&entry.1, m) {
                return Some(n - 1);
            }
            n = n - 1;
        }
        None
    }

    /// Hands the request to the route it reaches, or answers `404 Not Found`.
    pub fn handle(&self, request: Request) -> (r: Response)
        requires
            self.wf(),
        ensures
            self.handled(request, r),
    {
        match self.find_route(&request.path, request.method) {
            Some(i) => {
                let handler = &self.routes[i].2;
                assert(self.table()[i as int].2 == *handler);
                handler(request)
            },
            None => Response::not_found(),
        }
    }

    /// Serves one frame: decodes it and, where it decodes, the wire form of the
    /// response its route gives; `None` where it does not decode, in which
    /// case the connection is closed without an answer.
    pub fn respond(&self, frame: &[u8]) -> (r: Option<String>)
        requires
            self.wf(),
        ensures
            frame_parts(frame@) is Err ==> r is None,
            frame_parts(frame@) matches Ok(p) ==> (r is Some <==> (p.body matches Some(t)
                ==> body_accepted(t, content_type_of(p.headers)))),
            r matches Some(w) ==> exists|req: Request, resp: Response|
                {
                    &&& frame_parts(frame@) matches Ok(p) && req.has_parts(p)
                    &&& #[trigger] self.handled(req, resp)
                    &&& w@.len() >= head_of(resp).len()
                    &&& w@.subrange(0, head_of(resp).len() as int) == head_of(resp)
                    &&& !(resp.body is Json) ==> w@ == head_of(resp) + plain_text(resp.body)
                },
    {
        match Request::decode(frame) {
            Ok(request) => {
                let ghost req = request;
                let response = self.handle(request);
                let w = response.to_string();
                assert(self.handled(req, response));
                Some(w)
            },
            Err(_) => None,
        }
    }
}

fn contains_method(methods: &Vec<Method>, m: Method) -> (r: bool)
    ensures
        r == methods@.contains(m),
{
    let mut i: usize = 0;
    while i < methods.len()
        invariant
            i <= methods@.len(),
            forall|j: int| 0 <= j < i ==> methods@[j] != m,
        decreases methods@.len() - i,
    {
        if methods[i] == m {
            assert(methods@[i as int] == m);
            return true;
        }
        i = i + 1;
    }
    false
}

} // verus!

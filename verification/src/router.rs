//! The route table: an ordered list of (path, method, handler) entries and
//! the choice of the handler that answers a request.

use crate::request::{Request, RequestView};
use crate::response::{Response, ResponseView};
use crate::text::{chars_of, to_upper, upper_text};
use vstd::prelude::*;

verus! {

/// True when the handler can be called on every request and response.
pub open spec fn accepts_all<H: Fn(Request, Response) -> Response>(handler: H) -> bool {
    forall|request: Request, baseline: Response| #[trigger]
        call_requires(handler, (request, baseline))
}

/// True when `answer` is a response that the handler can give to a request
/// and a baseline response with the given contents.
pub open spec fn may_answer<H: Fn(Request, Response) -> Response>(
    handler: H,
    request: RequestView,
    baseline: ResponseView,
    answer: ResponseView,
) -> bool {
    exists|q: Request, b: Response, a: Response|
        q@ == request && b@ == baseline && a@ == answer && #[trigger] call_ensures(
            handler,
            (q, b),
            a,
        )
}

/// What a `Route` holds, as mathematical values.
pub struct RouteView<H> {
    pub path: Seq<char>,
    pub method: Seq<char>,
    pub handler: H,
}

/// One entry of a route table.
#[derive(Debug)]
pub struct Route<H: Fn(Request, Response) -> Response> {
    path: String,
    method: String,
    handler: H,
}

impl<H: Fn(Request, Response) -> Response> View for Route<H> {
    type V = RouteView<H>;

    closed spec fn view(&self) -> RouteView<H> {
        RouteView { path: self.path@, method: self.method@, handler: self.handler }
    }
}

impl<H: Fn(Request, Response) -> Response> Route<H> {
    fn new(path: String, method: String, handler: H) -> (r: Self)
        ensures
            r@ == (RouteView { path: path@, method: method@, handler }),
    {
        Route { path, method, handler }
    }
}

/// An ordered route table. The order of insertion is the order of priority.
#[derive(Debug)]
pub struct Router<H: Fn(Request, Response) -> Response> {
    routes: Vec<Route<H>>,
}

impl<H: Fn(Request, Response) -> Response> View for Router<H> {
    type V = Seq<RouteView<H>>;

    closed spec fn view(&self) -> Seq<RouteView<H>> {
        Seq::new(self.routes@.len(), |i: int| self.routes@[i]@)
    }
}

/// True when the route is for exactly this path and method.
pub open spec fn route_matches<H>(route: RouteView<H>, path: Seq<char>, method: Seq<char>) -> bool {
    route.path == path && route.method == method
}

/// The index of the first route among `routes[k..]` whose path and method
/// are exactly `path` and `method`.
pub open spec fn first_match<H>(
    routes: Seq<RouteView<H>>,
    path: Seq<char>,
    method: Seq<char>,
    k: int,
) -> Option<int>
    decreases routes.len() - k,
{
    if k < 0 || k >= routes.len() {
        None
    } else if route_matches(routes[k], path, method) {
        Some(k)
    } else {
        first_match(routes, path, method, k + 1)
    }
}

/// True when `answer` is a response of the table `routes` to `request`: a
/// response of the handler of the first matching route to the request and
/// the 404 baseline, or the 404 baseline itself where no route matches.
pub open spec fn table_answers<H: Fn(Request, Response) -> Response>(
    routes: Seq<RouteView<H>>,
    request: RequestView,
    answer: ResponseView,
) -> bool {
    match first_match(routes, request.path, request.method, 0) {
        Some(i) => may_answer(routes[i].handler, request, ResponseView::not_found(), answer),
        None => answer == ResponseView::not_found(),
    }
}

impl<H: Fn(Request, Response) -> Response> Router<H> {
    #[verifier::type_invariant]
    spec fn handlers_accept_all(self) -> bool {
        forall|i: int|
            0 <= i < self.routes@.len() ==> accepts_all(#[trigger] self.routes@[i].handler)
    }

    /// An empty table.
    pub fn new() -> (r: Self)
        ensures
            r@ == Seq::<RouteView<H>>::empty(),
    {
        Router { routes: Vec::new() }
    }

    /// Appends a route for `path` and `method`, the method in upper case.
    pub fn add_route(&mut self, path: String, method: String, handler: H)
        requires
            accepts_all(handler),
        ensures
            final(self)@ == old(self)@.push(
                RouteView { path: path@, method: to_upper(method@), handler },
            ),
    {
        proof {
            use_type_invariant(&*self);
        }
        let letters = chars_of(method.as_str());
        let verb = upper_text(&letters, 0, letters.len());
        assert(letters@.subrange(0, letters@.len() as int) == letters@);
        let mut routes: Vec<Route<H>> = Vec::new();
        std::mem::swap(&mut routes, &mut self.routes);
        routes.push(Route::new(path, verb, handler));
        self.routes = routes;
        assert(self@ =~= old(self)@.push(
            RouteView { path: path@, method: to_upper(method@), handler },
        ));
    }

    /// Answers `request` with the handler of the first route whose path and
    /// method are exactly the request's, called on the request and a 404
    /// baseline; with the 404 baseline itself where no route matches.
    pub fn handle_request(&self, request: Request) -> (response: Response)
        ensures
            table_answers(self@, request@, response@),
    {
        proof {
            use_type_invariant(self);
        }
        let baseline = Response::new(404, String::new(), None);
        let mut i: usize = 0;
        while i < self.routes.len()
            invariant
                i <= self.routes.len(),
                self.handlers_accept_all(),
                baseline@ == ResponseView::not_found(),
                first_match(self@, request@.path, request@.method, 0) == first_match(
                    self@,
                    request@.path,
                    request@.method,
                    i as int,
                ),
            decreases self.routes.len() - i,
        {
            let route = &self.routes[i];
            if route.path == request.path && route.method == request.method {
                let response = (route.handler)(request, baseline);
                return response;
            }
            i += 1;
        }
        baseline
    }

    /// Appends a route for `path` and the method `GET`.
    pub fn get(&mut self, path: String, handler: H)
        requires
            accepts_all(handler),
        ensures
            final(self)@ == old(self)@.push(RouteView { path: path@, method: "GET"@, handler }),
    {
        proof {
            lemma_verbs_are_upper_case();
        }
        self.add_route(path, "GET".to_owned(), handler);
    }

    /// Appends a route for `path` and the method `POST`.
    pub fn post(&mut self, path: String, handler: H)
        requires
            accepts_all(handler),
        ensures
            final(self)@ == old(self)@.push(RouteView { path: path@, method: "POST"@, handler }),
    {
        proof {
            lemma_verbs_are_upper_case();
        }
        self.add_route(path, "POST".to_owned(), handler);
    }

    /// Appends a route for `path` and the method `PUT`.
    pub fn put(&mut self, path: String, handler: H)
        requires
            accepts_all(handler),
        ensures
            final(self)@ == old(self)@.push(RouteView { path: path@, method: "PUT"@, handler }),
    {
        proof {
            lemma_verbs_are_upper_case();
        }
        self.add_route(path, "PUT".to_owned(), handler);
    }

    /// Appends a route for `path` and the method `DELETE`.
    pub fn delete(&mut self, path: String, handler: H)
        requires
            accepts_all(handler),
        ensures
            final(self)@ == old(self)@.push(RouteView { path: path@, method: "DELETE"@, handler }),
    {
        proof {
            lemma_verbs_are_upper_case();
        }
        self.add_route(path, "DELETE".to_owned(), handler);
    }

    /// Appends a route for `path` and the method `PATCH`.
    pub fn patch(&mut self, path: String, handler: H)
        requires
            accepts_all(handler),
        ensures
            final(self)@ == old(self)@.push(RouteView { path: path@, method: "PATCH"@, handler }),
    {
        proof {
            lemma_verbs_are_upper_case();
        }
        self.add_route(path, "PATCH".to_owned(), handler);
    }

    /// Appends a route for `path` and the method `HEAD`.
    pub fn head(&mut self, path: String, handler: H)
        requires
            accepts_all(handler),
        ensures
            final(self)@ == old(self)@.push(RouteView { path: path@, method: "HEAD"@, handler }),
    {
        proof {
            lemma_verbs_are_upper_case();
        }
        self.add_route(path, "HEAD".to_owned(), handler);
    }

    /// Appends a route for `path` and the method `OPTIONS`.
    pub fn options(&mut self, path: String, handler: H)
        requires
            accepts_all(handler),
        ensures
            final(self)@ == old(self)@.push(RouteView { path: path@, method: "OPTIONS"@, handler }),
    {
        proof {
            lemma_verbs_are_upper_case();
        }
        self.add_route(path, "OPTIONS".to_owned(), handler);
    }
}

/// Matching goes by order and by exact text: the match of a table is the
/// route with the least index whose path and method are the request's, and
/// there is none exactly where no route has them.
pub proof fn lemma_first_match_is_least<H>(
    routes: Seq<RouteView<H>>,
    path: Seq<char>,
    method: Seq<char>,
    k: int,
)
    requires
        0 <= k <= routes.len(),
    ensures
        match first_match(routes, path, method, k) {
            Some(i) => {
                &&& k <= i < routes.len()
                &&& route_matches(routes[i], path, method)
                &&& forall|j: int| k <= j < i ==> !route_matches(#[trigger] routes[j], path, method)
            },
            None => forall|j: int|
                k <= j < routes.len() ==> !route_matches(#[trigger] routes[j], path, method),
        },
    decreases routes.len() - k,
{
    if k < routes.len() && !route_matches(routes[k], path, method) {
        lemma_first_match_is_least(routes, path, method, k + 1);
    }
}

/// A request whose path is not, character for character, the path of any
/// route of the table has one answer only: the 404 baseline. A route whose
/// path holds a `:name` segment is no exception.
pub proof fn lemma_unmatched_path_is_not_found<H: Fn(Request, Response) -> Response>(
    routes: Seq<RouteView<H>>,
    request: RequestView,
    answer: ResponseView,
)
    requires
        forall|i: int| 0 <= i < routes.len() ==> (#[trigger] routes[i]).path != request.path,
    ensures
        table_answers(routes, request, answer) <==> answer == ResponseView::not_found(),
{
    lemma_first_match_is_least(routes, request.path, request.method, 0);
}

/// The method names of the convenience wrappers are already in upper case.
pub proof fn lemma_verbs_are_upper_case()
    ensures
        to_upper("GET"@) == "GET"@,
        to_upper("POST"@) == "POST"@,
        to_upper("PUT"@) == "PUT"@,
        to_upper("DELETE"@) == "DELETE"@,
        to_upper("PATCH"@) == "PATCH"@,
        to_upper("HEAD"@) == "HEAD"@,
        to_upper("OPTIONS"@) == "OPTIONS"@,
{
    reveal_strlit("GET");
    reveal_strlit("POST");
    reveal_strlit("PUT");
    reveal_strlit("DELETE");
    reveal_strlit("PATCH");
    reveal_strlit("HEAD");
    reveal_strlit("OPTIONS");
}

} // verus!

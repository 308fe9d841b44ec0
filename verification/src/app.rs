//! The server's dispatch pipeline: middleware stages, route tables in the
//! order of their registration, and the fallback for requests that no table
//! answers.

use crate::decoder::decoded;
use crate::request::{Request, RequestView};
use crate::response::{wire, Response, ResponseView};
use crate::router::{
    accepts_all, first_match, lemma_unmatched_path_is_not_found, may_answer, table_answers,
    RouteView, Router,
};
use vstd::prelude::*;

verus! {

// Middleware stages

/// A request together with the response built for it so far.
pub type Exchange = (RequestView, ResponseView);

/// True when the stage can be called on every request and response.
pub open spec fn stage_accepts_all<M: Fn(Request, Response) -> (Request, Response)>(
    stage: M,
) -> bool {
    forall|request: Request, response: Response| #[trigger]
        call_requires(stage, (request, response))
}

/// True when the stage can turn an exchange with the contents `before` into
/// one with the contents `after`.
pub open spec fn stage_may_turn<M: Fn(Request, Response) -> (Request, Response)>(
    stage: M,
    before: Exchange,
    after: Exchange,
) -> bool {
    exists|q: Request, p: Response, out: (Request, Response)|
        q@ == before.0 && p@ == before.1 && out.0@ == after.0 && out.1@ == after.1
            && #[trigger] call_ensures(stage, (q, p), out)
}

/// True when `trace` records a run of the stages in their order: it begins
/// with the exchange that the first stage takes, and each stage turns its
/// entry of the trace into the next.
pub open spec fn is_trace<M: Fn(Request, Response) -> (Request, Response)>(
    stages: Seq<M>,
    trace: Seq<Exchange>,
) -> bool {
    &&& trace.len() == stages.len() + 1
    &&& forall|i: int|
        0 <= i < stages.len() ==> stage_may_turn(#[trigger] stages[i], trace[i], trace[i + 1])
}

/// True when the stages, applied one after the other in their order, can
/// turn `start` into `end`.
pub open spec fn stages_may_turn<M: Fn(Request, Response) -> (Request, Response)>(
    stages: Seq<M>,
    start: Exchange,
    end: Exchange,
) -> bool {
    exists|trace: Seq<Exchange>| #[trigger]
        is_trace(stages, trace) && trace[0] == start && trace[stages.len() as int] == end
}

// Route tables and the fallback

/// True when the table can answer `request` with status 404.
pub open spec fn table_may_miss<H: Fn(Request, Response) -> Response>(
    table: Seq<RouteView<H>>,
    request: RequestView,
) -> bool {
    exists|miss: ResponseView| #[trigger] table_answers(table, request, miss) && miss.status == 404
}

/// True when each of the first `n` tables can answer `request` with status 404.
pub open spec fn tables_pass<H: Fn(Request, Response) -> Response>(
    tables: Seq<Seq<RouteView<H>>>,
    n: int,
    request: RequestView,
) -> bool {
    forall|j: int| 0 <= j < n ==> #[trigger] table_may_miss(tables[j], request)
}

/// True when `after` is what the tables make of `request`: the answer of the
/// first table that does not answer with status 404, or that of the last
/// table where all do; `before`, untouched, where there is no table.
pub open spec fn routed<H: Fn(Request, Response) -> Response>(
    tables: Seq<Seq<RouteView<H>>>,
    request: RequestView,
    before: ResponseView,
    after: ResponseView,
) -> bool {
    if tables.len() == 0 {
        after == before
    } else {
        exists|k: int|
            0 <= k < tables.len() && tables_pass(tables, k, request) && #[trigger] table_answers(
                tables[k],
                request,
                after,
            ) && (after.status != 404 || k == tables.len() - 1)
    }
}

/// True when `response` is what the fallback makes of a routed response:
/// the not-found handler's answer where the status is 404 and a handler is
/// set, else the routed response itself.
pub open spec fn settled<H: Fn(Request, Response) -> Response>(
    not_found_handler: Option<H>,
    request: RequestView,
    found: ResponseView,
    response: ResponseView,
) -> bool {
    match not_found_handler {
        Some(handler) if found.status == 404 => may_answer(handler, request, found, response),
        _ => response == found,
    }
}

// The server

/// What an `App` holds, as mathematical values.
pub struct AppView<H, M> {
    pub routers: Seq<Seq<RouteView<H>>>,
    pub not_found_handler: Option<H>,
    pub middlewares: Seq<M>,
}

/// True when `response` is a response of the server to `request`: the
/// stages turn the request and the 404 baseline into an exchange, the
/// tables route its request, and the fallback settles the result.
pub open spec fn serves<
    H: Fn(Request, Response) -> Response,
    M: Fn(Request, Response) -> (Request, Response),
>(app: AppView<H, M>, request: RequestView, response: ResponseView) -> bool {
    exists|turned: Exchange, found: ResponseView| #[trigger]
        stages_may_turn(app.middlewares, (request, ResponseView::not_found()), turned)
            && #[trigger] routed(app.routers, turned.0, turned.1, found) && settled(
            app.not_found_handler,
            turned.0,
            found,
            response,
        )
}

/// The server: route tables, middleware stages and the not-found handler.
pub struct App<
    H: Fn(Request, Response) -> Response,
    M: Fn(Request, Response) -> (Request, Response),
> {
    routers: Vec<Router<H>>,
    not_found_handler: Option<H>,
    middlewares: Vec<M>,
}

impl<
    H: Fn(Request, Response) -> Response,
    M: Fn(Request, Response) -> (Request, Response),
> View for App<H, M> {
    type V = AppView<H, M>;

    closed spec fn view(&self) -> AppView<H, M> {
        AppView {
            routers: Seq::new(self.routers@.len(), |i: int| self.routers@[i]@),
            not_found_handler: self.not_found_handler,
            middlewares: self.middlewares@,
        }
    }
}

impl<
    H: Fn(Request, Response) -> Response,
    M: Fn(Request, Response) -> (Request, Response),
> App<H, M> {
    #[verifier::type_invariant]
    spec fn callable(self) -> bool {
        &&& forall|i: int|
            0 <= i < self.middlewares@.len() ==> stage_accepts_all(#[trigger] self.middlewares@[i])
        &&& self.not_found_handler matches Some(handler) ==> accepts_all(handler)
    }

    /// A server without tables or stages, whose fallback leaves the response
    /// as it is.
    pub fn new() -> (app: Self)
        ensures
            app@.routers == Seq::<Seq<RouteView<H>>>::empty(),
            app@.middlewares == Seq::<M>::empty(),
            app@.not_found_handler == None::<H>,
    {
        App { routers: Vec::new(), not_found_handler: None, middlewares: Vec::new() }
    }

    /// Registers a stage, to run after the stages registered before it.
    pub fn use_middleware(&mut self, middleware: M)
        requires
            stage_accepts_all(middleware),
        ensures
            final(self)@.middlewares == old(self)@.middlewares.push(middleware),
            final(self)@.routers == old(self)@.routers,
            final(self)@.not_found_handler == old(self)@.not_found_handler,
    {
        proof {
            use_type_invariant(&*self);
        }
        let mut middlewares: Vec<M> = Vec::new();
        std::mem::swap(&mut middlewares, &mut self.middlewares);
        middlewares.push(middleware);
        self.middlewares = middlewares;
    }

    /// Sets the handler for requests that no table answers.
    pub fn use_not_found_handler(&mut self, handler: H)
        requires
            accepts_all(handler),
        ensures
            final(self)@.not_found_handler == Some(handler),
            final(self)@.routers == old(self)@.routers,
            final(self)@.middlewares == old(self)@.middlewares,
    {
        proof {
            use_type_invariant(&*self);
        }
        self.not_found_handler = Some(handler);
    }

    /// Registers a table, to be tried after the tables registered before it.
    pub fn add_router(&mut self, router: Router<H>)
        ensures
            final(self)@.routers == old(self)@.routers.push(router@),
            final(self)@.middlewares == old(self)@.middlewares,
            final(self)@.not_found_handler == old(self)@.not_found_handler,
    {
        proof {
            use_type_invariant(&*self);
        }
        let mut routers: Vec<Router<H>> = Vec::new();
        std::mem::swap(&mut routers, &mut self.routers);
        routers.push(router);
        self.routers = routers;
    }

    /// Answers one request: runs the stages in the order of their
    /// registration, tries the tables in the order of theirs until one
    /// answers with a status other than 404, and hands a 404 to the
    /// not-found handler.
    pub fn dispatch(&self, request: Request) -> (response: Response)
        ensures
            serves(self@, request@, response@),
    {
        proof {
            use_type_invariant(self);
        }
        let ghost start: Exchange = (request@, ResponseView::not_found());
        let mut request = request;
        let mut response = Response::new(404, String::new(), None);
        let ghost mut trace: Seq<Exchange> = seq![start];
        let mut i: usize = 0;
        while i < self.middlewares.len()
            invariant
                i <= self.middlewares.len(),
                self.callable(),
                is_trace(self@.middlewares.take(i as int), trace),
                trace[0] == start,
                trace[i as int] == (request@, response@),
            decreases self.middlewares.len() - i,
        {
            let out = (self.middlewares[i])(request, response);
            request = out.0;
            response = out.1;
            proof {
                trace = trace.push((request@, response@));
                assert forall|j: int| 0 <= j < i + 1 implies stage_may_turn(
                    #[trigger] self@.middlewares.take(i + 1)[j],
                    trace[j],
                    trace[j + 1],
                ) by {}
            }
            i += 1;
        }
        assert(self@.middlewares.take(i as int) == self@.middlewares);
        let ghost turned: Exchange = (request@, response@);
        let mut k: usize = 0;
        while k < self.routers.len()
            invariant_except_break
                k == 0 ==> response@ == turned.1,
                k > 0 ==> table_answers(self@.routers[k - 1], request@, response@),
                k > 0 ==> response@.status == 404,
            invariant
                k <= self.routers.len(),
                turned.0 == request@,
                tables_pass(self@.routers, k as int, request@),
            ensures
                routed(self@.routers, request@, turned.1, response@),
            decreases self.routers.len() - k,
        {
            response = self.routers[k].handle_request(request.clone());
            if response.status != 404 {
                assert(table_answers(self@.routers[k as int], request@, response@));
                break ;
            }
            k += 1;
        }
        let ghost found = response@;
        if response.status == 404 {
            match &self.not_found_handler {
                Some(handler) => {
                    response = handler(request, response);
                },
                None => {},
            }
        }
        proof {
            assert(stages_may_turn(self@.middlewares, start, turned) && routed(
                self@.routers,
                turned.0,
                turned.1,
                found,
            ));
        }
        response
    }

    /// Answers what one connection sent: decodes the request that `stream`
    /// holds, dispatches it and returns the bytes of the response. `None`,
    /// and so nothing to write, where `stream` holds no request.
    pub fn process_request(&self, stream: &[u8]) -> (written: Option<Vec<u8>>)
        ensures
            match decoded(stream@) {
                Some(request) => written matches Some(bytes) && exists|response: ResponseView|
                    #[trigger] serves(self@, request, response) && bytes@ == wire(response),
                None => written is None,
            },
    {
        match Request::parse(stream) {
            Some(request) => {
                let response = self.dispatch(request);
                let mut bytes: Vec<u8> = Vec::new();
                response.send(&mut bytes);
                Some(bytes)
            },
            None => None,
        }
    }
}

// What holds of the pipeline

/// Without stages the exchange stays as it is.
pub proof fn lemma_no_stage<M: Fn(Request, Response) -> (Request, Response)>(
    start: Exchange,
    end: Exchange,
)
    ensures
        stages_may_turn(Seq::<M>::empty(), start, end) <==> start == end,
{
    if start == end {
        assert(is_trace(Seq::<M>::empty(), seq![start]));
    }
}

/// Stages run in the order of their registration: the stages with one more
/// registered after them turn `start` into `end` exactly where the earlier
/// stages turn `start` into some exchange that the new stage turns into `end`.
pub proof fn lemma_stages_run_in_order<M: Fn(Request, Response) -> (Request, Response)>(
    stages: Seq<M>,
    last: M,
    start: Exchange,
    end: Exchange,
)
    ensures
        stages_may_turn(stages.push(last), start, end) <==> exists|mid: Exchange| #[trigger]
            stages_may_turn(stages, start, mid) && stage_may_turn(last, mid, end),
{
    let n = stages.len() as int;
    let all = stages.push(last);
    if stages_may_turn(all, start, end) {
        let trace = choose|trace: Seq<Exchange>| #[trigger]
            is_trace(all, trace) && trace[0] == start && trace[all.len() as int] == end;
        let mid = trace[n];
        let head = trace.take(n + 1);
        assert forall|i: int| 0 <= i < n implies stage_may_turn(
            #[trigger] stages[i],
            head[i],
            head[i + 1],
        ) by {
            assert(all[i] == stages[i]);
        }
        assert(is_trace(stages, head));
        assert(stages_may_turn(stages, start, mid));
        assert(all[n] == last);
    }
    if exists|mid: Exchange| #[trigger]
        stages_may_turn(stages, start, mid) && stage_may_turn(last, mid, end) {
        let mid = choose|mid: Exchange| #[trigger]
            stages_may_turn(stages, start, mid) && stage_may_turn(last, mid, end);
        let head = choose|trace: Seq<Exchange>| #[trigger]
            is_trace(stages, trace) && trace[0] == start && trace[n] == mid;
        let trace = head.push(end);
        assert forall|i: int| 0 <= i < all.len() implies stage_may_turn(
            #[trigger] all[i],
            trace[i],
            trace[i + 1],
        ) by {}
        assert(is_trace(all, trace));
    }
}

/// The table registered first wins: where the first table has a route for
/// the request and that route's handler does not answer with status 404,
/// what the tables make of the request is an answer of the first table.
pub proof fn lemma_first_table_wins<H: Fn(Request, Response) -> Response>(
    tables: Seq<Seq<RouteView<H>>>,
    request: RequestView,
    before: ResponseView,
    after: ResponseView,
)
    requires
        tables.len() >= 1,
        first_match(tables[0], request.path, request.method, 0) is Some,
        forall|answer: ResponseView| #[trigger]
            table_answers(tables[0], request, answer) ==> answer.status != 404,
        routed(tables, request, before, after),
    ensures
        table_answers(tables[0], request, after),
{
    let k = choose|k: int|
        0 <= k < tables.len() && tables_pass(tables, k, request) && #[trigger] table_answers(
            tables[k],
            request,
            after,
        ) && (after.status != 404 || k == tables.len() - 1);
    if k > 0 {
        assert(table_may_miss(tables[0], request));
    }
}

/// A request whose path is the path of no route in any table falls through
/// every table: what the tables make of it is the 404 baseline.
pub proof fn lemma_unmatched_path_falls_through<H: Fn(Request, Response) -> Response>(
    tables: Seq<Seq<RouteView<H>>>,
    request: RequestView,
    before: ResponseView,
    after: ResponseView,
)
    requires
        tables.len() >= 1,
        forall|k: int, i: int|
            0 <= k < tables.len() && 0 <= i < tables[k].len() ==> (#[trigger] tables[k][i]).path
                != request.path,
    ensures
        routed(tables, request, before, after) <==> after == ResponseView::not_found(),
{
    assert forall|k: int| 0 <= k < tables.len() implies #[trigger] table_answers(
        tables[k],
        request,
        ResponseView::not_found(),
    ) by {
        lemma_unmatched_path_is_not_found(tables[k], request, ResponseView::not_found());
    }
    if routed(tables, request, before, after) {
        let k = choose|k: int|
            0 <= k < tables.len() && tables_pass(tables, k, request) && #[trigger] table_answers(
                tables[k],
                request,
                after,
            ) && (after.status != 404 || k == tables.len() - 1);
        lemma_unmatched_path_is_not_found(tables[k], request, after);
    }
    if after == ResponseView::not_found() {
        let last = tables.len() - 1;
        assert forall|j: int| 0 <= j < last implies #[trigger] table_may_miss(
            tables[j],
            request,
        ) by {
            assert(table_answers(tables[j], request, ResponseView::not_found()));
        }
        assert(table_answers(tables[last], request, after));
    }
}

} // verus!

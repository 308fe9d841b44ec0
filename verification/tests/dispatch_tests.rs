use tinyhttp::{App, Request, Response, Router};

type Handler = fn(Request, Response) -> Response;
type Stage = fn(Request, Response) -> (Request, Response);

fn request(method: &str, path: &str) -> Request {
    Request::new(path.to_string(), method.to_string(), None, None, Vec::new())
}

fn hello(_request: Request, response: Response) -> Response {
    response.html(200, "<h1>Hello, World!</h1>".to_string())
}

fn first(_request: Request, response: Response) -> Response {
    response.text(200, "first".to_string())
}

fn second(_request: Request, response: Response) -> Response {
    response.text(200, "second".to_string())
}

fn echo_path(request: Request, response: Response) -> Response {
    response.text(200, request.path)
}

fn echo_baseline(_request: Request, response: Response) -> Response {
    let seen = format!("{}|{}|{:?}", response.status, response.body, response.content_type);
    response.text(200, seen)
}

fn gone(_request: Request, response: Response) -> Response {
    response.text(404, "gone".to_string())
}

fn missing(request: Request, response: Response) -> Response {
    response.html(404, format!("<h1>Not Found</h1>{}|{}", request.path, response.body))
}

fn append_a(mut request: Request, response: Response) -> (Request, Response) {
    request.path.push('a');
    (request, response)
}

fn append_b(mut request: Request, response: Response) -> (Request, Response) {
    request.path.push('b');
    (request, response)
}

fn teapot(request: Request, response: Response) -> (Request, Response) {
    (request, response.text(418, "tea".to_string()))
}

fn mark_missing(request: Request, response: Response) -> (Request, Response) {
    (request, response.text(404, "marked".to_string()))
}

fn table(routes: &[(&str, &str, Handler)]) -> Router<Handler> {
    let mut router: Router<Handler> = Router::new();
    for &(method, path, handler) in routes {
        router.add_route(path.to_string(), method.to_string(), handler);
    }
    router
}

fn server(tables: Vec<Router<Handler>>, stages: &[Stage]) -> App<Handler, Stage> {
    let mut app: App<Handler, Stage> = App::new();
    for &stage in stages {
        app.use_middleware(stage);
    }
    for router in tables {
        app.add_router(router);
    }
    app
}

fn is_baseline(response: &Response) -> bool {
    response.status == 404 && response.body.is_empty() && response.content_type.is_none()
}

#[test]
fn empty_table_answers_with_the_baseline() {
    let router: Router<Handler> = Router::new();
    assert!(is_baseline(&router.handle_request(request("GET", "/"))));
}

#[test]
fn table_calls_the_handler_of_the_matching_route() {
    let router = table(&[("GET", "/", hello as Handler), ("GET", "/echo", echo_path as Handler)]);
    let r = router.handle_request(request("GET", "/"));
    assert_eq!(r.status, 200);
    assert_eq!(r.content_type, Some("text/html".to_string()));
    assert_eq!(r.body, "<h1>Hello, World!</h1>");
    let r = router.handle_request(request("GET", "/echo"));
    assert_eq!(r.body, "/echo");
}

#[test]
fn table_hands_the_handler_a_baseline_response() {
    let router = table(&[("GET", "/", echo_baseline as Handler)]);
    let r = router.handle_request(request("GET", "/"));
    assert_eq!(r.body, "404||None");
}

#[test]
fn first_of_two_equal_routes_in_a_table_wins() {
    let router = table(&[("GET", "/", first as Handler), ("GET", "/", second as Handler)]);
    assert_eq!(router.handle_request(request("GET", "/")).body, "first");
}

#[test]
fn table_matches_paths_exactly() {
    let router = table(&[("GET", "/users", first as Handler)]);
    assert_eq!(router.handle_request(request("GET", "/users")).body, "first");
    for path in ["/user", "/users/", "/Users", "/users?x=1", "users", "/userss", "", "/users "] {
        assert!(is_baseline(&router.handle_request(request("GET", path))), "{:?}", path);
    }
}

#[test]
fn named_segments_match_themselves_only() {
    let router = table(&[("GET", "/user/:id", echo_path as Handler)]);
    assert!(is_baseline(&router.handle_request(request("GET", "/user/42"))));
    assert!(is_baseline(&router.handle_request(request("GET", "/user/"))));
    assert_eq!(router.handle_request(request("GET", "/user/:id")).body, "/user/:id");
}

#[test]
fn table_matches_methods_exactly() {
    let router = table(&[("GET", "/", first as Handler), ("POST", "/", second as Handler)]);
    assert_eq!(router.handle_request(request("GET", "/")).body, "first");
    assert_eq!(router.handle_request(request("POST", "/")).body, "second");
    assert!(is_baseline(&router.handle_request(request("PUT", "/"))));
    assert!(is_baseline(&router.handle_request(request("get", "/"))));
    assert!(is_baseline(&router.handle_request(request("GET ", "/"))));
}

#[test]
fn add_route_keeps_the_method_in_upper_case() {
    let router = table(&[("get", "/", first as Handler), ("Post", "/", second as Handler)]);
    assert_eq!(router.handle_request(request("GET", "/")).body, "first");
    assert_eq!(router.handle_request(request("POST", "/")).body, "second");
    assert!(is_baseline(&router.handle_request(request("get", "/"))));
}

#[test]
fn wrappers_fix_the_method() {
    let mut router: Router<Handler> = Router::new();
    router.get("/".to_string(), |_q, p| p.text(200, "GET".to_string()));
    router.post("/".to_string(), |_q, p| p.text(200, "POST".to_string()));
    router.put("/".to_string(), |_q, p| p.text(200, "PUT".to_string()));
    router.delete("/".to_string(), |_q, p| p.text(200, "DELETE".to_string()));
    router.patch("/".to_string(), |_q, p| p.text(200, "PATCH".to_string()));
    router.head("/".to_string(), |_q, p| p.text(200, "HEAD".to_string()));
    router.options("/".to_string(), |_q, p| p.text(200, "OPTIONS".to_string()));
    for method in ["GET", "POST", "PUT", "DELETE", "PATCH", "HEAD", "OPTIONS"] {
        assert_eq!(router.handle_request(request(method, "/")).body, method);
    }
    assert!(is_baseline(&router.handle_request(request("TRACE", "/"))));
}

#[test]
fn server_without_tables_answers_with_the_baseline() {
    let app = server(Vec::new(), &[]);
    assert!(is_baseline(&app.dispatch(request("GET", "/"))));
}

#[test]
fn first_table_with_the_route_wins() {
    let app = server(
        vec![table(&[("GET", "/", first as Handler)]), table(&[("GET", "/", second as Handler)])],
        &[],
    );
    assert_eq!(app.dispatch(request("GET", "/")).body, "first");
    let app = server(
        vec![table(&[("GET", "/", second as Handler)]), table(&[("GET", "/", first as Handler)])],
        &[],
    );
    assert_eq!(app.dispatch(request("GET", "/")).body, "second");
}

#[test]
fn later_table_answers_what_earlier_tables_miss() {
    let app = server(
        vec![table(&[("GET", "/a", first as Handler)]), table(&[("GET", "/b", second as Handler)])],
        &[],
    );
    assert_eq!(app.dispatch(request("GET", "/a")).body, "first");
    assert_eq!(app.dispatch(request("GET", "/b")).body, "second");
    assert!(is_baseline(&app.dispatch(request("GET", "/c"))));
}

#[test]
fn unmatched_path_falls_through_to_404() {
    let app = server(
        vec![
            table(&[("GET", "/user/:id", first as Handler)]),
            table(&[("GET", "/users", second as Handler)]),
        ],
        &[],
    );
    for path in ["/user/42", "/user/:i", "/user/:idx", "/user", "/userz"] {
        let r = app.dispatch(request("GET", path));
        assert!(is_baseline(&r), "{:?}", path);
    }
}

#[test]
fn a_404_from_a_handler_passes_the_request_on() {
    let app = server(
        vec![table(&[("GET", "/", gone as Handler)]), table(&[("GET", "/", second as Handler)])],
        &[],
    );
    assert_eq!(app.dispatch(request("GET", "/")).body, "second");
    let app = server(
        vec![table(&[("GET", "/", first as Handler)]), table(&[("GET", "/", gone as Handler)])],
        &[],
    );
    assert_eq!(app.dispatch(request("GET", "/")).body, "first");
}

#[test]
fn not_found_handler_gets_the_last_response() {
    let mut app = server(vec![table(&[("GET", "/", gone as Handler)])], &[]);
    app.use_not_found_handler(missing);
    let r = app.dispatch(request("GET", "/"));
    assert_eq!(r.status, 404);
    assert_eq!(r.body, "<h1>Not Found</h1>/|gone");
    let r = app.dispatch(request("GET", "/x"));
    assert_eq!(r.body, "<h1>Not Found</h1>/x|");
    assert_eq!(r.content_type, Some("text/html".to_string()));
}

#[test]
fn not_found_handler_is_not_called_for_other_statuses() {
    let mut app = server(vec![table(&[("GET", "/", first as Handler)])], &[]);
    app.use_not_found_handler(missing);
    assert_eq!(app.dispatch(request("GET", "/")).body, "first");
}

#[test]
fn last_not_found_handler_set_is_the_one_used() {
    let mut app = server(Vec::new(), &[]);
    app.use_not_found_handler(first);
    app.use_not_found_handler(missing);
    assert_eq!(app.dispatch(request("GET", "/p")).body, "<h1>Not Found</h1>/p|");
}

#[test]
fn without_not_found_handler_a_404_stays_as_it_is() {
    let app = server(vec![table(&[("GET", "/", gone as Handler)])], &[]);
    let r = app.dispatch(request("GET", "/"));
    assert_eq!(r.status, 404);
    assert_eq!(r.body, "gone");
    assert_eq!(r.content_type, Some("text/plain".to_string()));
}

#[test]
fn stages_run_in_the_order_of_registration() {
    let app = server(vec![table(&[("GET", "/ab", echo_path as Handler)])], &[append_a, append_b]);
    let r = app.dispatch(request("GET", "/"));
    assert_eq!(r.status, 200);
    assert_eq!(r.body, "/ab");
    let app = server(vec![table(&[("GET", "/ab", echo_path as Handler)])], &[append_b, append_a]);
    assert!(is_baseline(&app.dispatch(request("GET", "/"))));
    let app = server(vec![table(&[("GET", "/ba", echo_path as Handler)])], &[append_b, append_a]);
    assert_eq!(app.dispatch(request("GET", "/")).body, "/ba");
}

#[test]
fn route_for_the_path_as_sent_does_not_match_after_the_stages() {
    let app = server(vec![table(&[("GET", "/", echo_path as Handler)])], &[append_a, append_b]);
    assert!(is_baseline(&app.dispatch(request("GET", "/"))));
}

#[test]
fn not_found_handler_sees_the_request_of_the_stages() {
    let mut app = server(Vec::new(), &[append_a, append_b, append_a]);
    app.use_not_found_handler(missing);
    assert_eq!(app.dispatch(request("GET", "/")).body, "<h1>Not Found</h1>/aba|");
}

#[test]
fn tables_replace_the_response_of_the_stages() {
    let app = server(vec![table(&[("GET", "/", echo_baseline as Handler)])], &[teapot]);
    assert_eq!(app.dispatch(request("GET", "/")).body, "404||None");
    let app = server(vec![table(&[("GET", "/", first as Handler)])], &[teapot]);
    assert!(is_baseline(&app.dispatch(request("GET", "/other"))));
}

#[test]
fn without_tables_the_response_of_the_stages_stands() {
    let mut app = server(Vec::new(), &[teapot]);
    app.use_not_found_handler(missing);
    let r = app.dispatch(request("GET", "/"));
    assert_eq!(r.status, 418);
    assert_eq!(r.body, "tea");
    let mut app = server(Vec::new(), &[mark_missing]);
    app.use_not_found_handler(missing);
    assert_eq!(app.dispatch(request("GET", "/")).body, "<h1>Not Found</h1>/|marked");
}

#[test]
fn hello_world_route_answers_a_request_for_the_root() {
    let mut router: Router<Handler> = Router::new();
    router.get("/".to_string(), hello);
    let mut app: App<Handler, Stage> = App::new();
    app.add_router(router);
    let r = app.dispatch(request("GET", "/"));
    assert_eq!(r.status, 200);
    assert_eq!(r.content_type, Some("text/html".to_string()));
    assert_eq!(r.body, "<h1>Hello, World!</h1>");
    let mut stream: Vec<u8> = Vec::new();
    r.send(&mut stream);
    assert_eq!(
        String::from_utf8(stream).unwrap(),
        "HTTP/1.1 200\r\nContent-Length: 22\r\nContent-Type: text/html\r\n\r\n<h1>Hello, World!</h1>"
    );
}

#[test]
fn a_request_without_body_gets_no_response() {
    let mut router: Router<Handler> = Router::new();
    router.get("/".to_string(), hello);
    let mut app: App<Handler, Stage> = App::new();
    app.add_router(router);
    assert_eq!(app.process_request(b"GET / HTTP/1.1\r\n\r\n"), None);
}

#[test]
fn process_request_answers_what_the_connection_sent() {
    let mut router: Router<Handler> = Router::new();
    router.get("/".to_string(), hello);
    router.post("/json".to_string(), |q, p| p.json(200, q.body.unwrap()));
    let mut app: App<Handler, Stage> = App::new();
    app.add_router(router);
    app.use_not_found_handler(|_q, p| p.html(404, "<h1>Not Found</h1>".to_string()));

    let written = app.process_request(b"GET / HTTP/1.1\r\nContent-Length: 2\r\n\r\n{}").unwrap();
    assert_eq!(
        String::from_utf8(written).unwrap(),
        "HTTP/1.1 200\r\nContent-Length: 22\r\nContent-Type: text/html\r\n\r\n<h1>Hello, World!</h1>"
    );

    let written = app
        .process_request(b"post /json HTTP/1.1\r\nContent-Length: 12\r\n\r\n{ \"a\" : 1  }")
        .unwrap();
    assert_eq!(
        String::from_utf8(written).unwrap(),
        "HTTP/1.1 200\r\nContent-Length: 7\r\nContent-Type: application/json\r\n\r\n{\"a\":1}"
    );

    let written = app.process_request(b"GET /nowhere HTTP/1.1\r\nContent-Length: 2\r\n\r\n{}").unwrap();
    assert_eq!(
        String::from_utf8(written).unwrap(),
        "HTTP/1.1 404\r\nContent-Length: 18\r\nContent-Type: text/html\r\n\r\n<h1>Not Found</h1>"
    );
}

#[test]
fn process_request_writes_nothing_for_a_short_body() {
    let mut router: Router<Handler> = Router::new();
    router.post("/".to_string(), hello);
    let mut app: App<Handler, Stage> = App::new();
    app.add_router(router);
    assert_eq!(app.process_request(b"POST / HTTP/1.1\r\nContent-Length: 3\r\n\r\n{}"), None);
    assert!(app.process_request(b"POST / HTTP/1.1\r\nContent-Length: 2\r\n\r\n{}").is_some());
}

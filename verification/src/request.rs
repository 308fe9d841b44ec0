//! The request value, its accessors and the decoding of its parts.

use crate::parser::{json_outcome, outcome_view, parse_json};
use crate::text::{
    chars_of, cuts, decimal, decimal_text, find, find_char, piece, same_text, split,
    split_bounds, text_eq, text_of,
};
use vstd::prelude::*;

verus! {

/// What a `Request` holds, as mathematical values.
pub struct RequestView {
    pub path: Seq<char>,
    pub method: Seq<char>,
    pub body: Option<Seq<char>>,
    pub query: Option<Seq<char>>,
    pub params: Seq<(Seq<char>, Seq<char>)>,
}

/// A decoded HTTP request.
#[derive(Debug)]
pub struct Request {
    /// The request target as sent, query string included.
    pub path: String,
    /// The method; the decoder writes it in upper case.
    pub method: String,
    /// The body. The decoder stores the compact rendering of a JSON payload,
    /// and a diagnostic in place of a payload that is not JSON.
    pub body: Option<String>,
    /// Everything after the first `?` of the target.
    pub query: Option<String>,
    /// For each segment of the target that begins with `:`, its name and its
    /// position among the segments. The value is the position, not a part of
    /// any path.
    pub params: Vec<(String, String)>,
}

/// The mathematical value of an optional text.
pub open spec fn optional_text(t: Option<String>) -> Option<Seq<char>> {
    match t {
        Some(s) => Some(s@),
        None => None,
    }
}

/// The mathematical value of a list of (name, value) pairs.
pub open spec fn pairs_view(pairs: Seq<(String, String)>) -> Seq<(Seq<char>, Seq<char>)> {
    Seq::new(pairs.len(), |i: int| (pairs[i].0@, pairs[i].1@))
}

impl View for Request {
    type V = RequestView;

    open spec fn view(&self) -> RequestView {
        RequestView {
            path: self.path@,
            method: self.method@,
            body: optional_text(self.body),
            query: optional_text(self.query),
            params: pairs_view(self.params@),
        }
    }
}

impl Clone for Request {
    fn clone(&self) -> (r: Request)
        ensures
            r@ == self@,
    {
        Request {
            path: self.path.clone(),
            method: self.method.clone(),
            body: self.body(),
            query: self.query(),
            params: self.params(),
        }
    }
}

/// Everything after the first `?` of `s`, if it has one.
pub open spec fn query_of(s: Seq<char>) -> Option<Seq<char>> {
    let mark = find(s, '?', 0);
    if mark < s.len() {
        Some(s.subrange(mark + 1, s.len() as int))
    } else {
        None
    }
}

/// The named segments among `segments[k..]`: each segment that begins with
/// `:` gives the rest of the segment as the name and its position in
/// `segments`, in decimal, as the value.
pub open spec fn named_segments(segments: Seq<Seq<char>>, k: int) -> Seq<(Seq<char>, Seq<char>)>
    decreases segments.len() - k,
{
    if k < 0 || k >= segments.len() {
        Seq::empty()
    } else if segments[k].len() > 0 && segments[k][0] == ':' {
        seq![(segments[k].subrange(1, segments[k].len() as int), decimal(k as nat))]
            + named_segments(segments, k + 1)
    } else {
        named_segments(segments, k + 1)
    }
}

/// The parameters that a `/`-separated path declares.
pub open spec fn params_of(path: Seq<char>) -> Seq<(Seq<char>, Seq<char>)> {
    named_segments(split(path, '/'), 0)
}

/// The value of the first pair among `pairs[k..]` whose name is `name`.
pub open spec fn first_named(pairs: Seq<(Seq<char>, Seq<char>)>, name: Seq<char>, k: int) -> Option<
    Seq<char>,
>
    decreases pairs.len() - k,
{
    if k < 0 || k >= pairs.len() {
        None
    } else if pairs[k].0 == name {
        Some(pairs[k].1)
    } else {
        first_named(pairs, name, k + 1)
    }
}

/// The value of the first piece among `pieces[k..]` that has the form
/// `name=value`, with exactly one `=`.
pub open spec fn first_assigned(pieces: Seq<Seq<char>>, name: Seq<char>, k: int) -> Option<
    Seq<char>,
>
    decreases pieces.len() - k,
{
    if k < 0 || k >= pieces.len() {
        None
    } else {
        let sides = split(pieces[k], '=');
        if sides.len() == 2 && sides[0] == name {
            Some(sides[1])
        } else {
            first_assigned(pieces, name, k + 1)
        }
    }
}

/// The value that an `&`-separated query string gives to `name`.
pub open spec fn query_value(query: Seq<char>, name: Seq<char>) -> Option<Seq<char>> {
    first_assigned(split(query, '&'), name, 0)
}

impl Request {
    /// A request made of exactly the given parts.
    pub fn new(
        path: String,
        method: String,
        body: Option<String>,
        query: Option<String>,
        params: Vec<(String, String)>,
    ) -> (r: Request)
        ensures
            r.path == path,
            r.method == method,
            r.body == body,
            r.query == query,
            r.params == params,
    {
        Request { path, method, body, query, params }
    }

    /// Everything after the first `?` of `query`; `None` where it has no `?`.
    pub fn parse_query(query: &str) -> (r: Option<String>)
        ensures
            optional_text(r) == query_of(query@),
    {
        let chars = chars_of(query);
        let mark = find_char(&chars, '?', 0);
        if mark < chars.len() {
            Some(text_of(&chars, mark + 1, chars.len()))
        } else {
            None
        }
    }

    /// The parameters that `path` declares: for each `/`-separated segment
    /// that begins with `:`, the rest of the segment and the segment's
    /// position, in the order of the segments.
    pub fn parse_params(path: &str) -> (r: Vec<(String, String)>)
        ensures
            pairs_view(r@) == params_of(path@),
    {
        let chars = chars_of(path);
        let bounds = split_bounds(&chars, '/');
        let ghost segments = split(chars@, '/');
        let mut params: Vec<(String, String)> = Vec::new();
        let mut k: usize = 0;
        while k < bounds.len()
            invariant
                k <= bounds.len(),
                segments == split(chars@, '/'),
                cuts(chars@, bounds@, segments),
                params_of(chars@) == pairs_view(params@) + named_segments(segments, k as int),
            decreases bounds.len() - k,
        {
            let (from, to) = bounds[k];
            let ghost before = pairs_view(params@);
            if from < to && chars[from] == ':' {
                let name = text_of(&chars, from + 1, to);
                let position = decimal_text(k as u64);
                params.push((name, position));
                proof {
                    let segment = segments[k as int];
                    assert(segment.subrange(1, segment.len() as int) == chars@.subrange(
                        from + 1,
                        to as int,
                    ));
                    assert(before.push((name@, position@)) + named_segments(segments, k + 1)
                        == before + named_segments(segments, k as int));
                }
            }
            k += 1;
        }
        params
    }

    /// The request's parameters.
    pub fn params(&self) -> (r: Vec<(String, String)>)
        ensures
            pairs_view(r@) == self@.params,
    {
        let mut r: Vec<(String, String)> = Vec::new();
        let mut i: usize = 0;
        while i < self.params.len()
            invariant
                i <= self.params.len(),
                r@.len() == i,
                forall|j: int|
                    0 <= j < i ==> (#[trigger] r@[j]).0@ == self.params@[j].0@ && r@[j].1@
                        == self.params@[j].1@,
            decreases self.params.len() - i,
        {
            r.push((self.params[i].0.clone(), self.params[i].1.clone()));
            i += 1;
        }
        r
    }

    /// The value of the first parameter called `name`.
    pub fn param(&self, name: &str) -> (r: Option<String>)
        ensures
            optional_text(r) == first_named(self@.params, name@, 0),
    {
        let mut i: usize = 0;
        while i < self.params.len()
            invariant
                i <= self.params.len(),
                first_named(self@.params, name@, 0) == first_named(self@.params, name@, i as int),
            decreases self.params.len() - i,
        {
            assert(self@.params[i as int] == (
                self.params@[i as int].0@,
                self.params@[i as int].1@,
            ));
            if text_eq(self.params[i].0.as_str(), name) {
                return Some(self.params[i].1.clone());
            }
            i += 1;
        }
        None
    }

    /// The raw query string, if the request has one.
    pub fn query(&self) -> (r: Option<String>)
        ensures
            optional_text(r) == self@.query,
    {
        match &self.query {
            Some(q) => Some(q.clone()),
            None => None,
        }
    }

    /// The value of `name` in the query string: the right-hand side of the
    /// first `&`-separated piece of the form `name=value`.
    pub fn query_param(&self, name: &str) -> (r: Option<String>)
        ensures
            optional_text(r) == match self@.query {
                Some(q) => query_value(q, name@),
                None => None,
            },
    {
        match &self.query {
            None => None,
            Some(query) => {
                let wanted = chars_of(name);
                let chars = chars_of(query.as_str());
                let bounds = split_bounds(&chars, '&');
                let ghost pieces = split(chars@, '&');
                let mut k: usize = 0;
                while k < bounds.len()
                    invariant
                        k <= bounds.len(),
                        wanted@ == name@,
                        self@.query == Some(chars@),
                        pieces == split(chars@, '&'),
                        cuts(chars@, bounds@, pieces),
                        query_value(chars@, name@) == first_assigned(pieces, name@, k as int),
                    decreases bounds.len() - k,
                {
                    let (from, to) = bounds[k];
                    let part = piece(&chars, from, to);
                    let sides = split_bounds(&part, '=');
                    if sides.len() == 2 {
                        let (name_from, name_to) = sides[0];
                        let (value_from, value_to) = sides[1];
                        if same_text(&part, name_from, name_to, &wanted) {
                            return Some(text_of(&part, value_from, value_to));
                        }
                    }
                    k += 1;
                }
                None
            },
        }
    }

    /// The request's body, if it has one.
    pub fn body(&self) -> (r: Option<String>)
        ensures
            optional_text(r) == self@.body,
    {
        match &self.body {
            Some(b) => Some(b.clone()),
            None => None,
        }
    }

    /// The body decoded by `decode` into a value of the caller's type: what
    /// `decode` makes of the body, and `None` where there is no body.
    pub fn json<T, F: FnOnce(String) -> Option<T>>(&self, decode: F) -> (r: Option<T>)
        requires
            forall|body: String| call_requires(decode, (body,)),
        ensures
            match self.body {
                Some(body) => call_ensures(decode, (body,), r),
                None => r is None,
            },
    {
        match &self.body {
            Some(body) => decode(body.clone()),
            None => None,
        }
    }

    /// Reads `body` as JSON: `Ok` with the compact rendering of the value, or
    /// `Err` with the parser's message.
    pub fn parse_json(body: &str) -> (r: Result<String, String>)
        ensures
            outcome_view(r) == json_outcome(body@),
    {
        parse_json(body)
    }
}

} // verus!

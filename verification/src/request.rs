//! Requests as the router sees them: a verb, the segments of the path, the
//! pairs of the query string, the headers and the body.
use vstd::prelude::*;
use crate::pattern::pieces;
use crate::text::{
    characters, eq_ignoring_case, lemma_first_piece_length, same_ignoring_case, same_text, split,
    split_text,
};

verus! {

/// The request methods that a route can be declared for.
#[derive(Clone, Copy, Debug, PartialEq, Eq, Hash, Structural)]
pub enum Verb {
    Get,
    Post,
    Patch,
    Put,
    Delete,
    Head,
    Options,
}

impl Verb {
    /// The verb as it is written in a request line and in an `Allow` header.
    pub open spec fn name(self) -> Seq<char> {
        match self {
            Verb::Get => "GET"@,
            Verb::Post => "POST"@,
            Verb::Patch => "PATCH"@,
            Verb::Put => "PUT"@,
            Verb::Delete => "DELETE"@,
            Verb::Head => "HEAD"@,
            Verb::Options => "OPTIONS"@,
        }
    }

    /// The verb that a text names. Upper case only, as in a request line.
    pub open spec fn named(text: Seq<char>) -> Option<Verb> {
        if text == "GET"@ {
            Some(Verb::Get)
        } else if text == "POST"@ {
            Some(Verb::Post)
        } else if text == "PATCH"@ {
            Some(Verb::Patch)
        } else if text == "PUT"@ {
            Some(Verb::Put)
        } else if text == "DELETE"@ {
            Some(Verb::Delete)
        } else if text == "HEAD"@ {
            Some(Verb::Head)
        } else if text == "OPTIONS"@ {
            Some(Verb::Options)
        } else {
            None
        }
    }

    /// The verb as text.
    pub fn as_str(self) -> (text: &'static str)
        ensures
            text@ == self.name(),
    {
        match self {
            Verb::Get => "GET",
            Verb::Post => "POST",
            Verb::Patch => "PATCH",
            Verb::Put => "PUT",
            Verb::Delete => "DELETE",
            Verb::Head => "HEAD",
            Verb::Options => "OPTIONS",
        }
    }

    /// Reads a verb.
    pub fn parse(text: &str) -> (verb: Option<Verb>)
        ensures
            verb == Verb::named(text@),
    {
        if same_text(text, "GET") {
            Some(Verb::Get)
        } else if same_text(text, "POST") {
            Some(Verb::Post)
        } else if same_text(text, "PATCH") {
            Some(Verb::Patch)
        } else if same_text(text, "PUT") {
            Some(Verb::Put)
        } else if same_text(text, "DELETE") {
            Some(Verb::Delete)
        } else if same_text(text, "HEAD") {
            Some(Verb::Head)
        } else if same_text(text, "OPTIONS") {
            Some(Verb::Options)
        } else {
            None
        }
    }
}

/// A parsed request.
#[derive(Clone, Debug, PartialEq, Eq)]
pub struct Request {
    pub verb: Verb,
    /// The segments of the path, already percent-decoded.
    pub path: Vec<String>,
    /// The pairs of the query string in the order they were written. A key
    /// that was written more than once has more than one value.
    pub query: Vec<(String, String)>,
    /// Header names and values. Names are looked up without regard to case.
    pub headers: Vec<(String, String)>,
    pub body: Vec<u8>,
}

/// The mathematical form of a [`Request`].
pub struct RequestModel {
    pub verb: Verb,
    pub path: Seq<Seq<char>>,
    pub query: Seq<(Seq<char>, Seq<char>)>,
    pub headers: Seq<(Seq<char>, Seq<char>)>,
    pub body: Seq<u8>,
}

impl View for Request {
    type V = RequestModel;

    open spec fn view(&self) -> RequestModel {
        RequestModel {
            verb: self.verb,
            path: self.path.deep_view(),
            query: self.query.deep_view(),
            headers: self.headers.deep_view(),
            body: self.body@,
        }
    }
}

/// The segments of a path. A path starts with `/`; what follows is cut at
/// its slashes, and nothing follows in the path `/`.
pub open spec fn spec_split_path(path: Seq<char>) -> Option<Seq<Seq<char>>> {
    if path.len() > 0 && path[0] == '/' {
        Some(pieces(path.skip(1)))
    } else {
        None
    }
}

/// What stands before the first `=` of a piece of a query string.
pub open spec fn key_of(piece: Seq<char>) -> Seq<char> {
    split(piece, '=')[0]
}

/// What stands after the first `=` of a piece of a query string; nothing
/// where the piece has no `=`.
pub open spec fn value_of(piece: Seq<char>) -> Seq<char> {
    if key_of(piece).len() < piece.len() {
        piece.skip(key_of(piece).len() as int + 1)
    } else {
        Seq::<char>::empty()
    }
}

/// The pairs that the pieces of a query string denote. Empty pieces denote
/// nothing.
pub open spec fn pairs_of(pieces: Seq<Seq<char>>) -> Seq<(Seq<char>, Seq<char>)>
    decreases pieces.len(),
{
    if pieces.len() == 0 {
        Seq::<(Seq<char>, Seq<char>)>::empty()
    } else {
        let before = pairs_of(pieces.drop_last());
        if pieces.last().len() == 0 {
            before
        } else {
            before.push((key_of(pieces.last()), value_of(pieces.last())))
        }
    }
}

/// The pairs of a raw query string: its pieces between `&`, each cut at its
/// first `=`.
pub open spec fn spec_parse_query(raw: Seq<char>) -> Seq<(Seq<char>, Seq<char>)> {
    pairs_of(split(raw, '&'))
}

/// Whether a key is the one looked for.
pub open spec fn key_matches(key: Seq<char>, name: Seq<char>, fold: bool) -> bool {
    if fold {
        same_ignoring_case(key, name)
    } else {
        key == name
    }
}

/// The values of all the pairs whose key is `name`, in order.
pub open spec fn values_for(pairs: Seq<(Seq<char>, Seq<char>)>, name: Seq<char>) -> Seq<
    Seq<char>,
>
    decreases pairs.len(),
{
    if pairs.len() == 0 {
        Seq::<Seq<char>>::empty()
    } else {
        let before = values_for(pairs.drop_last(), name);
        if pairs.last().0 == name {
            before.push(pairs.last().1)
        } else {
            before
        }
    }
}

/// The value of the first pair whose key matches `name`.
pub open spec fn first_value(pairs: Seq<(Seq<char>, Seq<char>)>, name: Seq<char>, fold: bool)
    -> Option<Seq<char>>
    decreases pairs.len(),
{
    if pairs.len() == 0 {
        None
    } else if key_matches(pairs[0].0, name, fold) {
        Some(pairs[0].1)
    } else {
        first_value(pairs.skip(1), name, fold)
    }
}

/// Cuts a request path into its segments. `None` where the path does not
/// start with `/`.
pub fn split_path(path: &str) -> (segments: Option<Vec<String>>)
    ensures
        segments.deep_view() == spec_split_path(path@),
{
    let chars = characters(path);
    if chars.len() == 0 || chars[0] != '/' {
        return None;
    }
    let rest = path.substring_char(1, chars.len());
    assert(rest@ == path@.skip(1));
    if rest.is_empty() {
        Some(Vec::new())
    } else {
        Some(split_text(rest, '/'))
    }
}

/// Cuts one piece of a query string at its first `=`.
fn key_value(piece: &str) -> (pair: (String, String))
    ensures
        pair.0@ == key_of(piece@),
        pair.1@ == value_of(piece@),
{
    let mut parts = split_text(piece, '=');
    proof {
        lemma_first_piece_length(piece@, '=');
    }
    let n = piece.unicode_len();
    let k = parts[0].as_str().unicode_len();
    let value = if k < n {
        piece.substring_char(k + 1, n).to_owned()
    } else {
        String::new()
    };
    assert(k < n ==> piece@.subrange(k + 1, n as int) == piece@.skip(k + 1));
    let key = parts.swap_remove(0);
    (key, value)
}

/// Reads a raw query string such as `a=1&b=2&a=3`.
pub fn parse_query(raw: &str) -> (pairs: Vec<(String, String)>)
    ensures
        pairs.deep_view() == spec_parse_query(raw@),
{
    let parts = split_text(raw, '&');
    let mut pairs: Vec<(String, String)> = Vec::new();
    let mut i: usize = 0;
    assert(parts.deep_view().take(0) == Seq::<Seq<char>>::empty());
    while i < parts.len()
        invariant
            i <= parts.len(),
            pairs.deep_view() == pairs_of(parts.deep_view().take(i as int)),
        decreases parts.len() - i,
    {
        let ghost before = pairs.deep_view();
        proof {
            assert(parts.deep_view().take(i + 1).drop_last() == parts.deep_view().take(i as int));
            assert(parts.deep_view().take(i + 1).last() == parts[i as int]@);
        }
        if !parts[i].as_str().is_empty() {
            let pair = key_value(parts[i].as_str());
            let ghost model = (pair.0@, pair.1@);
            pairs.push(pair);
            assert(pairs.deep_view() == before.push(model));
        }
        i = i + 1;
    }
    assert(parts.deep_view().take(i as int) == parts.deep_view());
    pairs
}

/// The values of all the pairs whose key is `name`, in order.
pub fn find_all(pairs: &Vec<(String, String)>, name: &str) -> (values: Vec<String>)
    ensures
        values.deep_view() == values_for(pairs.deep_view(), name@),
{
    let mut values: Vec<String> = Vec::new();
    let mut i: usize = 0;
    assert(pairs.deep_view().take(0) == Seq::<(Seq<char>, Seq<char>)>::empty());
    while i < pairs.len()
        invariant
            i <= pairs.len(),
            values.deep_view() == values_for(pairs.deep_view().take(i as int), name@),
        decreases pairs.len() - i,
    {
        let ghost before = values.deep_view();
        proof {
            assert(pairs.deep_view().take(i + 1).drop_last() == pairs.deep_view().take(i as int));
            assert(pairs.deep_view().take(i + 1).last() == (pairs[i as int].0@, pairs[i as int].1@));
        }
        if same_text(pairs[i].0.as_str(), name) {
            values.push(pairs[i].1.clone());
            assert(values.deep_view() == before.push(pairs[i as int].1@));
        }
        i = i + 1;
    }
    assert(pairs.deep_view().take(i as int) == pairs.deep_view());
    values
}

/// The value of the first pair whose key matches `name`; with `fold`, keys
/// are compared without regard to the case of ASCII letters.
pub fn find_first(pairs: &Vec<(String, String)>, name: &str, fold: bool) -> (value: Option<String>)
    ensures
        value.deep_view() == first_value(pairs.deep_view(), name@, fold),
{
    let ghost all = pairs.deep_view();
    let mut i: usize = 0;
    assert(all.skip(0) == all);
    while i < pairs.len()
        invariant
            i <= pairs.len(),
            all == pairs.deep_view(),
            first_value(all, name@, fold) == first_value(all.skip(i as int), name@, fold),
        decreases pairs.len() - i,
    {
        proof {
            assert(all.skip(i as int)[0] == (pairs[i as int].0@, pairs[i as int].1@));
            assert(all.skip(i as int).skip(1) == all.skip(i + 1));
        }
        let hit = if fold {
            eq_ignoring_case(pairs[i].0.as_str(), name)
        } else {
            same_text(pairs[i].0.as_str(), name)
        };
        if hit {
            return Some(pairs[i].1.clone());
        }
        i = i + 1;
    }
    assert(all.skip(i as int).len() == 0);
    None
}

impl Request {
    /// A request from the parts that a transport hands over: the verb as
    /// text, the path, the raw query string, the headers and the body.
    /// `None` where the verb is unknown or the path does not start with `/`.
    pub fn parse(
        verb: &str,
        path: &str,
        query: &str,
        headers: Vec<(String, String)>,
        body: Vec<u8>,
    ) -> (request: Option<Request>)
        ensures
            request is Some <==> Verb::named(verb@) is Some && spec_split_path(path@) is Some,
            request matches Some(r) ==> r@ == (RequestModel {
                verb: Verb::named(verb@).unwrap(),
                path: spec_split_path(path@).unwrap(),
                query: spec_parse_query(query@),
                headers: headers.deep_view(),
                body: body@,
            }),
    {
        let verb = match Verb::parse(verb) {
            Some(verb) => verb,
            None => {
                return None;
            },
        };
        let path = match split_path(path) {
            Some(path) => path,
            None => {
                return None;
            },
        };
        let query = parse_query(query);
        Some(Request { verb, path, query, headers, body })
    }
}

} // verus!

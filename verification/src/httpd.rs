use vstd::prelude::*;
use crate::text::{
    append_chars, chars_of, dec, dec_u64, from_utf8_lossy, has_prefix, lines, lines_of, parse_int,
    parse_usize, split, split_chars, split_once, split_once_chars, starts_with_chars, str_eq, string_of,
    texts, trim, trim_chars, utf8_lossy, words, words_of,
};

verus! {

/// Whether the blank line `\r\n\r\n` that ends a request head starts at `i`.
pub open spec fn blank_line_at(b: Seq<u8>, i: int) -> bool {
    0 <= i && i + 4 <= b.len() && b[i] == 13 && b[i + 1] == 10 && b[i + 2] == 13 && b[i + 3] == 10
}

/// Where the first blank line `\r\n\r\n` starts, if there is one.
#[verifier::opaque]
pub open spec fn header_end(b: Seq<u8>) -> Option<int> {
    if exists|i: int| blank_line_at(b, i) {
        Some(choose|i: int| blank_line_at(b, i) && (forall|j: int| 0 <= j < i ==> !blank_line_at(b, j)))
    } else {
        None
    }
}

/// Where the head of a request ends: the start of the first `\r\n\r\n`.
pub fn find_header_end(buf: &[u8]) -> (r: Option<usize>)
    ensures
        match r {
            Some(i) => header_end(buf@) == Some(i as int) && blank_line_at(buf@, i as int),
            None => header_end(buf@) is None,
        },
{
    reveal(header_end);
    let n = buf.len();
    let mut i: usize = 0;
    while n >= 4 && i <= n - 4
        invariant
            n == buf@.len(),
            forall|j: int| 0 <= j < i ==> !blank_line_at(buf@, j),
        decreases n - i,
    {
        if buf[i] == 13 && buf[i + 1] == 10 && buf[i + 2] == 13 && buf[i + 3] == 10 {
            assert(blank_line_at(buf@, i as int));
            let ghost k = choose|k: int| blank_line_at(buf@, k) && (forall|j: int| 0 <= j < k ==> !blank_line_at(buf@, j));
            assert(k == i);
            reveal(header_end);
            return Some(i);
        }
        i = i + 1;
    }
    assert forall|j: int| !blank_line_at(buf@, j) by {
        if j >= i {
            assert(!(j + 4 <= n)) by {
                if j + 4 <= n {
                    assert(n >= 4 && i <= n - 4);
                }
            }
        }
    }
    None
}

/// `c` with an ASCII capital letter made small.
pub open spec fn ascii_lower(c: char) -> char {
    if 65 <= (c as u32) <= 90 {
        ((c as u32) + 32) as char
    } else {
        c
    }
}

/// The header name `content-length`.
pub open spec fn content_length_name() -> Seq<char> {
    seq!['c', 'o', 'n', 't', 'e', 'n', 't', '-', 'l', 'e', 'n', 'g', 't', 'h']
}

/// Whether a header name is `content-length`, ignoring ASCII case.
pub open spec fn is_content_length(k: Seq<char>) -> bool {
    k.len() == 14 && forall|i: int| 0 <= i < 14 ==> ascii_lower(#[trigger] k[i]) == content_length_name()[i]
}

fn lower(c: char) -> (r: char)
    ensures
        r == ascii_lower(c),
{
    let u = c as u32;
    if 65 <= u && u <= 90 {
        ((u + 32) as u8) as char
    } else {
        c
    }
}

fn content_length_key(k: &Vec<char>) -> (r: bool)
    ensures
        r == is_content_length(k@),
{
    let mut name: Vec<char> = Vec::new();
    name.push('c');
    name.push('o');
    name.push('n');
    name.push('t');
    name.push('e');
    name.push('n');
    name.push('t');
    name.push('-');
    name.push('l');
    name.push('e');
    name.push('n');
    name.push('g');
    name.push('t');
    name.push('h');
    assert(name@ =~= content_length_name());
    if k.len() != 14 {
        return false;
    }
    for i in 0..14
        invariant
            k@.len() == 14,
            name@ == content_length_name(),
            forall|j: int| 0 <= j < i ==> ascii_lower(#[trigger] k@[j]) == content_length_name()[j],
    {
        if lower(k[i]) != name[i] {
            return false;
        }
    }
    true
}

/// The body length a header line announces: a `content-length` header whose value is a
/// number.
pub open spec fn header_len(line: Seq<char>) -> Option<int> {
    match split_once(line, ':') {
        Some((k, v)) => if is_content_length(trim(k)) {
            parse_int(trim(v), false, 0, usize::MAX as int)
        } else {
            None
        },
        None => None,
    }
}

/// The body length the first such header line announces.
pub open spec fn content_length_of(ls: Seq<Seq<char>>) -> Option<int>
    decreases ls.len(),
{
    if ls.len() == 0 {
        None
    } else {
        match header_len(ls[0]) {
            Some(n) => Some(n),
            None => content_length_of(ls.drop_first()),
        }
    }
}

fn header_len_of(line: &Vec<char>) -> (r: Option<usize>)
    ensures
        match r {
            Some(n) => header_len(line@) == Some(n as int),
            None => header_len(line@) is None,
        },
{
    match split_once_chars(line, ':') {
        Some((k, v)) => {
            if content_length_key(&trim_chars(&k)) {
                parse_usize(&trim_chars(&v))
            } else {
                None
            }
        },
        None => None,
    }
}

/// The head of a request: method, path, query (after `?`) and announced body length.
pub struct ReqHead {
    pub method: String,
    pub path: String,
    pub query: String,
    pub content_len: usize,
}

/// What the head of a request says: the request line (first line, trimmed) gives the
/// method and the target as its first two words, the target splits at its first `?` into
/// path and query, and the first `content-length` header with a number gives the body
/// length (0 without one). None without a line of at least two words.
pub open spec fn request_head(text: Seq<char>) -> Option<(Seq<char>, Seq<char>, Seq<char>, int)> {
    let ls = lines(text);
    if ls.len() == 0 {
        None
    } else {
        let ws = words(trim(ls[0]));
        if ws.len() < 2 {
            None
        } else {
            let target = ws[1];
            let pq = match split_once(target, '?') {
                Some(pq) => pq,
                None => (target, Seq::<char>::empty()),
            };
            let cl = match content_length_of(ls.drop_first()) {
                Some(n) => n,
                None => 0,
            };
            Some((ws[0], pq.0, pq.1, cl))
        }
    }
}

fn content_length_from(ls: &Vec<Vec<char>>, start: usize) -> (r: Option<usize>)
    requires
        start <= ls@.len(),
    ensures
        match r {
            Some(n) => content_length_of(texts(ls@).skip(start as int)) == Some(n as int),
            None => content_length_of(texts(ls@).skip(start as int)) is None,
        },
{
    let n = ls.len();
    let mut i = start;
    while i < n
        invariant
            start <= i <= n,
            n == ls@.len(),
            content_length_of(texts(ls@).skip(start as int)) == content_length_of(texts(ls@).skip(i as int)),
        decreases n - i,
    {
        assert(texts(ls@).skip(i as int)[0] == ls@[i as int]@);
        assert(texts(ls@).skip(i as int).drop_first() =~= texts(ls@).skip(i + 1));
        match header_len_of(&ls[i]) {
            Some(len) => {
                return Some(len);
            },
            None => {},
        }
        i = i + 1;
    }
    assert(texts(ls@).skip(n as int) =~= Seq::<Seq<char>>::empty());
    None
}

/// Reads the head of a request from its text.
pub fn parse_request_text(text: &str) -> (r: Option<ReqHead>)
    ensures
        match r {
            Some(h) => request_head(text@) == Some((h.method@, h.path@, h.query@, h.content_len as int)),
            None => request_head(text@) is None,
        },
{
    let v = chars_of(text);
    let ls = lines_of(&v);
    if ls.len() == 0 {
        return None;
    }
    assert(texts(ls@)[0] == ls@[0]@);
    let rl = trim_chars(&ls[0]);
    let ws = words_of(&rl);
    if ws.len() < 2 {
        return None;
    }
    assert(texts(ws@)[0] == ws@[0]@);
    assert(texts(ws@)[1] == ws@[1]@);
    let method = string_of(ws[0].as_slice());
    let (path, query) = match split_once_chars(&ws[1], '?') {
        Some((p, q)) => (string_of(p.as_slice()), string_of(q.as_slice())),
        None => (string_of(ws[1].as_slice()), String::new()),
    };
    let content_len = match content_length_from(&ls, 1) {
        Some(n) => n,
        None => 0,
    };
    assert(lines(text@).skip(1) =~= lines(text@).drop_first());
    Some(ReqHead { method, path, query, content_len })
}

/// Reads the head of a request from its bytes (everything before the blank line),
/// decoded lossily as UTF-8.
pub fn parse_request_head(head: &[u8]) -> (r: Option<ReqHead>)
    ensures
        match r {
            Some(h) => request_head(utf8_lossy(head@)) == Some((h.method@, h.path@, h.query@, h.content_len as int)),
            None => request_head(utf8_lossy(head@)) is None,
        },
{
    let text = from_utf8_lossy(head);
    parse_request_text(text.as_str())
}


/// The most bytes read while looking for the end of a request head.
pub const MAX_HEAD_BYTES: usize = 524288;

/// A request as read off a connection: its head and the body bytes received.
pub struct Request {
    pub head: ReqHead,
    pub body: Vec<u8>,
}

/// Where the reading of a request stands.
pub enum ReadState {
    /// Looking for the end of the head; the bytes read so far.
    Head(Vec<u8>),
    /// The head is read; the body bytes read so far.
    Body(ReqHead, Vec<u8>),
    /// The head ended but is no request.
    Refused,
}

/// Where the reading of a request stands, as plain values: the bytes of the head read so
/// far; the head (as `request_head` gives it) and the body bytes read so far; or refused.
pub enum ReadView {
    Head(Seq<u8>),
    Body((Seq<char>, Seq<char>, Seq<char>, int), Seq<u8>),
    Refused,
}

impl View for ReadState {
    type V = ReadView;

    open spec fn view(&self) -> ReadView {
        match self {
            ReadState::Head(b) => ReadView::Head(b@),
            ReadState::Body(h, b) => ReadView::Body((h.method@, h.path@, h.query@, h.content_len as int), b@),
            ReadState::Refused => ReadView::Refused,
        }
    }
}

/// What taking in the bytes `chunk` does: while in the head, the head ends at the first
/// blank line and is read as a request head (refused when it is none), the bytes after
/// the blank line starting the body; in the body, the bytes are appended.
pub open spec fn read_step(v: ReadView, chunk: Seq<u8>) -> ReadView {
    match v {
        ReadView::Head(buf) => {
            let b = buf + chunk;
            match header_end(b) {
                None => ReadView::Head(b),
                Some(e) => match request_head(utf8_lossy(b.take(e))) {
                    None => ReadView::Refused,
                    Some(h) => ReadView::Body(h, b.skip(e + 4)),
                },
            }
        },
        ReadView::Body(h, body) => ReadView::Body(h, body + chunk),
        ReadView::Refused => ReadView::Refused,
    }
}

/// Where there is a blank line, there is a first one.
proof fn lemma_first_blank(x: Seq<u8>, i: int)
    requires
        blank_line_at(x, i),
    ensures
        exists|k: int| blank_line_at(x, k) && (forall|j: int| 0 <= j < k ==> !blank_line_at(x, j)),
    decreases i,
{
    if exists|j: int| 0 <= j < i && blank_line_at(x, j) {
        let j = choose|j: int| 0 <= j < i && blank_line_at(x, j);
        lemma_first_blank(x, j);
    } else {
        assert(blank_line_at(x, i) && (forall|j: int| 0 <= j < i ==> !blank_line_at(x, j)));
    }
}

/// What `header_end` gives: the start of a blank line with none before it.
proof fn lemma_header_end_at(x: Seq<u8>)
    requires
        header_end(x) is Some,
    ensures
        blank_line_at(x, header_end(x)->0),
        forall|j: int| 0 <= j < header_end(x)->0 ==> !blank_line_at(x, j),
{
    reveal(header_end);
    let i = choose|i: int| blank_line_at(x, i);
    lemma_first_blank(x, i);
}

/// The start of a blank line with none before it is what `header_end` gives.
proof fn lemma_header_end_is(x: Seq<u8>, e: int)
    requires
        blank_line_at(x, e),
        forall|j: int| 0 <= j < e ==> !blank_line_at(x, j),
    ensures
        header_end(x) == Some(e),
{
    reveal(header_end);
    let e2 = choose|i: int| blank_line_at(x, i) && (forall|j: int| 0 <= j < i ==> !blank_line_at(x, j));
    assert(blank_line_at(x, e2) && (forall|j: int| 0 <= j < e2 ==> !blank_line_at(x, j)));
    if e2 < e {
        assert(!blank_line_at(x, e2));
    }
    if e < e2 {
        assert(!blank_line_at(x, e));
    }
}

/// A blank line found in some bytes is still the first one once more bytes follow.
proof fn lemma_header_end_extends(x: Seq<u8>, y: Seq<u8>)
    requires
        header_end(x) is Some,
    ensures
        header_end(x + y) == header_end(x),
{
    lemma_header_end_at(x);
    let e = header_end(x)->0;
    let xy = x + y;
    assert(blank_line_at(xy, e)) by {
        assert(xy[e] == x[e] && xy[e + 1] == x[e + 1] && xy[e + 2] == x[e + 2] && xy[e + 3] == x[e + 3]);
    }
    assert forall|j: int| 0 <= j < e implies !blank_line_at(xy, j) by {
        assert(!blank_line_at(x, j));
        assert(xy[j] == x[j] && xy[j + 1] == x[j + 1] && xy[j + 2] == x[j + 2] && xy[j + 3] == x[j + 3]);
    }
    lemma_header_end_is(xy, e);
}

/// How the bytes of a request are split into reads does not matter: taking in `c1` and
/// then `c2` leaves the reading where taking in both at once leaves it.
pub proof fn law_split_reads_agree(v: ReadView, c1: Seq<u8>, c2: Seq<u8>)
    ensures
        read_step(read_step(v, c1), c2) == read_step(v, c1 + c2),
{
    match v {
        ReadView::Head(buf) => {
            let b1 = buf + c1;
            assert(buf + (c1 + c2) =~= b1 + c2);
            if header_end(b1) is Some {
                lemma_header_end_extends(b1, c2);
                lemma_header_end_at(b1);
                let e = header_end(b1)->0;
                assert((b1 + c2).take(e) =~= b1.take(e));
                assert((b1 + c2).skip(e + 4) =~= b1.skip(e + 4) + c2);
            }
        },
        ReadView::Body(h, body) => {
            assert(body + c1 + c2 =~= body + (c1 + c2));
        },
        ReadView::Refused => {},
    }
}

/// Whether `h` is the head that `request_head` gives as `v`.
pub open spec fn head_is(h: ReqHead, v: (Seq<char>, Seq<char>, Seq<char>, int)) -> bool {
    (h.method@, h.path@, h.query@, h.content_len as int) == v
}

fn append_bytes(v: &mut Vec<u8>, w: &[u8])
    ensures
        final(v)@ == old(v)@ + w@,
{
    let n = w.len();
    let ghost v0 = v@;
    for j in 0..n
        invariant
            n == w@.len(),
            v@ == v0 + w@.take(j as int),
    {
        v.push(w[j]);
        assert(w@.take(j + 1) =~= w@.take(j as int).push(w@[j as int]));
        assert(v@ =~= v0 + w@.take(j + 1));
    }
    assert(w@.take(n as int) =~= w@);
}

fn bytes_between(v: &Vec<u8>, from: usize, to: usize) -> (r: Vec<u8>)
    requires
        from <= to <= v@.len(),
    ensures
        r@ == v@.subrange(from as int, to as int),
{
    let mut r: Vec<u8> = Vec::new();
    for j in from..to
        invariant
            to <= v@.len(),
            from <= to,
            r@ == v@.subrange(from as int, j as int),
    {
        r.push(v[j]);
        assert(v@.subrange(from as int, j + 1) =~= v@.subrange(from as int, j as int).push(v@[j as int]));
    }
    r
}

/// The head step of `ReadState::on_data`: the bytes read so far and the new chunk.
fn head_step(buf: Vec<u8>, chunk: &[u8]) -> (r: ReadState)
    ensures
        ({
            let b = buf@ + chunk@;
            match header_end(b) {
                None => r matches ReadState::Head(nb) && nb@ == b,
                Some(e) => match request_head(utf8_lossy(b.take(e))) {
                    None => r is Refused,
                    Some(v) => r matches ReadState::Body(h, nb) && head_is(h, v) && nb@ == b.skip(e + 4),
                },
            }
        }),
{
    let mut b = buf;
    append_bytes(&mut b, chunk);
    match find_header_end(b.as_slice()) {
        None => ReadState::Head(b),
        Some(e) => {
            let head_bytes = bytes_between(&b, 0, e);
            assert(head_bytes@ =~= b@.take(e as int));
            match parse_request_head(head_bytes.as_slice()) {
                None => ReadState::Refused,
                Some(h) => {
                    let n = b.len();
                    let body = bytes_between(&b, e + 4, n);
                    assert(body@ =~= b@.skip(e + 4));
                    ReadState::Body(h, body)
                },
            }
        },
    }
}

impl ReadState {
    /// Nothing read yet.
    pub fn start() -> (r: ReadState)
        ensures
            r matches ReadState::Head(b) && b@.len() == 0,
    {
        ReadState::Head(Vec::new())
    }

    /// Whether to read on: while the head is unfinished and under `MAX_HEAD_BYTES`, and
    /// while fewer body bytes than announced have come.
    pub fn wants_more(&self) -> (r: bool)
        ensures
            r == match self {
                ReadState::Head(b) => b@.len() < MAX_HEAD_BYTES,
                ReadState::Body(h, b) => b@.len() < h.content_len,
                ReadState::Refused => false,
            },
    {
        match self {
            ReadState::Head(b) => b.len() < MAX_HEAD_BYTES,
            ReadState::Body(h, b) => b.len() < h.content_len,
            ReadState::Refused => false,
        }
    }

    /// Takes in the bytes `chunk` just read: while in the head, the head ends at the first
    /// blank line and is then read as a request head (the bytes after the blank line
    /// starting the body); in the body, the bytes are appended.
    pub fn on_data(self, chunk: &[u8]) -> (r: ReadState)
        ensures
            match self {
                ReadState::Head(buf) => {
                    let b = buf@ + chunk@;
                    match header_end(b) {
                        None => r matches ReadState::Head(nb) && nb@ == b,
                        Some(e) => match request_head(utf8_lossy(b.take(e))) {
                            None => r is Refused,
                            Some(v) => r matches ReadState::Body(h, nb) && head_is(h, v) && nb@ == b.skip(e + 4),
                        },
                    }
                },
                ReadState::Body(h, body) => r matches ReadState::Body(h2, nb) && h2 == h && nb@ == body@ + chunk@,
                ReadState::Refused => r is Refused,
            },
            r@ == read_step(self@, chunk@),
    {
        match self {
            ReadState::Head(buf) => head_step(buf, chunk),
            ReadState::Body(h, body) => {
                let mut nb = body;
                append_bytes(&mut nb, chunk);
                ReadState::Body(h, nb)
            },
            ReadState::Refused => ReadState::Refused,
        }
    }

    /// The request, once no more is read: none when the head never ended or was refused;
    /// otherwise the head and the body bytes received.
    pub fn finish(self) -> (r: Option<Request>)
        ensures
            match self {
                ReadState::Body(h, b) => r matches Some(q) && q.head == h && q.body == b,
                _ => r is None,
            },
    {
        match self {
            ReadState::Body(head, body) => Some(Request { head, body }),
            _ => None,
        }
    }
}

/// How a request is served.
#[derive(PartialEq, Eq, Structural, Debug)]
pub enum Route {
    /// A CORS preflight (`OPTIONS`), answered with the allowed methods.
    Preflight,
    /// A call of the JSON API under `/api/`.
    Api,
    /// A file of the web UI.
    Static,
}

/// How a request with `method` for `path` is served.
pub open spec fn route_of(method: Seq<char>, path: Seq<char>) -> Route {
    if method == "OPTIONS"@ {
        Route::Preflight
    } else if has_prefix(path, "/api/"@) {
        Route::Api
    } else {
        Route::Static
    }
}

/// How requests are routed, for every method and path: `OPTIONS` is a preflight; any
/// other method on a path that starts with `/api/` goes to the API, whatever the method;
/// everything else is a static file.
pub proof fn law_routes(method: Seq<char>, path: Seq<char>)
    ensures
        method == "OPTIONS"@ ==> route_of(method, path) == Route::Preflight,
        method != "OPTIONS"@ && 5 <= path.len() && path.subrange(0, 5) == seq!['/', 'a', 'p', 'i', '/']
            ==> route_of(method, path) == Route::Api,
        method != "OPTIONS"@ && !(5 <= path.len() && path.subrange(0, 5) == seq!['/', 'a', 'p', 'i', '/'])
            ==> route_of(method, path) == Route::Static,
{
    reveal_strlit("/api/");
    assert("/api/"@ =~= seq!['/', 'a', 'p', 'i', '/']);
    if 5 <= path.len() {
        assert(path.take(5) =~= path.subrange(0, 5));
    }
}

/// Decides how a request is served.
pub fn route(method: &str, path: &str) -> (r: Route)
    ensures
        r == route_of(method@, path@),
{
    if str_eq(method, "OPTIONS") {
        Route::Preflight
    } else if starts_with_chars(&chars_of(path), &chars_of("/api/")) {
        Route::Api
    } else {
        Route::Static
    }
}

/// The API calls.
#[derive(PartialEq, Eq, Structural, Debug)]
pub enum ApiRoute {
    Status,
    Logs,
    ConfigGet,
    ConfigPost,
    /// `/api/config` with another method.
    MethodNotAllowed,
    Action,
    NotFound,
}

/// The API call a request with `method` for `path` makes.
pub open spec fn api_route_of(method: Seq<char>, path: Seq<char>) -> ApiRoute {
    if path == "/api/status"@ {
        ApiRoute::Status
    } else if path == "/api/logs"@ {
        ApiRoute::Logs
    } else if path == "/api/config"@ {
        if method == "GET"@ {
            ApiRoute::ConfigGet
        } else if method == "POST"@ {
            ApiRoute::ConfigPost
        } else {
            ApiRoute::MethodNotAllowed
        }
    } else if path == "/api/action"@ {
        ApiRoute::Action
    } else {
        ApiRoute::NotFound
    }
}

/// Which API call each request makes, for every method: status, logs and action by
/// their paths alone; `/api/config` reads with `GET`, writes with `POST` and refuses any
/// other method; every other path under the API is not found.
pub proof fn law_api_calls(method: Seq<char>, path: Seq<char>)
    ensures
        path == "/api/status"@ ==> api_route_of(method, path) == ApiRoute::Status,
        path == "/api/logs"@ ==> api_route_of(method, path) == ApiRoute::Logs,
        path == "/api/action"@ ==> api_route_of(method, path) == ApiRoute::Action,
        path == "/api/config"@ && method == "GET"@ ==> api_route_of(method, path) == ApiRoute::ConfigGet,
        path == "/api/config"@ && method == "POST"@ ==> api_route_of(method, path) == ApiRoute::ConfigPost,
        path == "/api/config"@ && method != "GET"@ && method != "POST"@ ==> api_route_of(method, path) == ApiRoute::MethodNotAllowed,
        path != "/api/status"@ && path != "/api/logs"@ && path != "/api/action"@ && path != "/api/config"@
            ==> api_route_of(method, path) == ApiRoute::NotFound,
{
    reveal_strlit("/api/status");
    reveal_strlit("/api/logs");
    reveal_strlit("/api/action");
    reveal_strlit("/api/config");
    reveal_strlit("GET");
    reveal_strlit("POST");
    assert("/api/status"@.len() == 11 && "/api/logs"@.len() == 9 && "/api/action"@.len() == 11 && "/api/config"@.len() == 11);
    assert("/api/status"@[5] != "/api/action"@[5] && "/api/status"@[5] != "/api/config"@[5] && "/api/action"@[5] != "/api/config"@[5]);
    assert("GET"@.len() == 3 && "POST"@.len() == 4);
}

/// Decides which API call a request makes.
pub fn api_route(method: &str, path: &str) -> (r: ApiRoute)
    ensures
        r == api_route_of(method@, path@),
{
    if str_eq(path, "/api/status") {
        ApiRoute::Status
    } else if str_eq(path, "/api/logs") {
        ApiRoute::Logs
    } else if str_eq(path, "/api/config") {
        if str_eq(method, "GET") {
            ApiRoute::ConfigGet
        } else if str_eq(method, "POST") {
            ApiRoute::ConfigPost
        } else {
            ApiRoute::MethodNotAllowed
        }
    } else if str_eq(path, "/api/action") {
        ApiRoute::Action
    } else {
        ApiRoute::NotFound
    }
}

/// The value of the first `n=` parameter among the query's parameters.
pub open spec fn first_n_param(kvs: Seq<Seq<char>>) -> Option<Seq<char>>
    decreases kvs.len(),
{
    if kvs.len() == 0 {
        None
    } else if has_prefix(kvs[0], seq!['n', '=']) {
        Some(kvs[0].skip(2))
    } else {
        first_n_param(kvs.drop_first())
    }
}

/// How many log lines `/api/logs` returns for `query`: the number `n=` asks for (200 when
/// there is none or it is no number), held to 1..=1000, and at least 200.
pub open spec fn logs_count_of(query: Seq<char>) -> int {
    let n = match first_n_param(split(query, '&')) {
        Some(v) => match parse_int(v, false, 0, usize::MAX as int) {
            Some(x) => x,
            None => 200,
        },
        None => 200,
    };
    let c = if n < 1 {
        1
    } else if n > 1000 {
        1000
    } else {
        n
    };
    if c < 200 {
        200
    } else {
        c
    }
}

fn n_param(kvs: &Vec<Vec<char>>) -> (r: Option<Vec<char>>)
    ensures
        match r {
            Some(v) => first_n_param(texts(kvs@)) == Some(v@),
            None => first_n_param(texts(kvs@)) is None,
        },
{
    let mut np: Vec<char> = Vec::new();
    np.push('n');
    np.push('=');
    assert(np@ =~= seq!['n', '=']);
    let n = kvs.len();
    let mut i: usize = 0;
    assert(texts(kvs@).skip(0) =~= texts(kvs@));
    while i < n
        invariant
            i <= n,
            n == kvs@.len(),
            np@ == seq!['n', '='],
            first_n_param(texts(kvs@)) == first_n_param(texts(kvs@).skip(i as int)),
        decreases n - i,
    {
        assert(texts(kvs@).skip(i as int)[0] == kvs@[i as int]@);
        assert(texts(kvs@).skip(i as int).drop_first() =~= texts(kvs@).skip(i + 1));
        if starts_with_chars(&kvs[i], &np) {
            let kv = &kvs[i];
            let mut v: Vec<char> = Vec::new();
            let m = kv.len();
            for j in 2..m
                invariant
                    m == kv@.len(),
                    m >= 2,
                    v@ == kv@.subrange(2, j as int),
            {
                v.push(kv[j]);
                assert(kv@.subrange(2, j + 1) =~= kv@.subrange(2, j as int).push(kv@[j as int]));
            }
            assert(v@ =~= kv@.skip(2));
            return Some(v);
        }
        i = i + 1;
    }
    assert(texts(kvs@).skip(n as int) =~= Seq::<Seq<char>>::empty());
    None
}

/// How many log lines `/api/logs` returns for `query`.
pub fn logs_count(query: &str) -> (r: usize)
    ensures
        r == logs_count_of(query@),
{
    let kvs = split_chars(&chars_of(query), '&');
    let value = n_param(&kvs);
    assert(texts(kvs@) == split(query@, '&'));
    let asked: usize = match value {
        Some(v) => match parse_usize(&v) {
            Some(x) => x,
            None => 200,
        },
        None => 200,
    };
    let c = if asked < 1 {
        1
    } else if asked > 1000 {
        1000
    } else {
        asked
    };
    if c < 200 {
        200
    } else {
        c
    }
}


/// The string value of the member `key` of the JSON object in `body`, as
/// `serde_json::from_str::<Value>` then `get(key)` and `as_str` give it: none when the
/// body is not JSON, not an object, lacks the member or the member is not a string.
pub uninterp spec fn json_str_member(body: Seq<char>, key: Seq<char>) -> Option<Seq<char>>;

/// The characters of an optional string.
pub open spec fn opt_chars(o: Option<String>) -> Option<Seq<char>> {
    match o {
        Some(s) => Some(s@),
        None => None,
    }
}

/// Parses `body` with `serde_json::from_str` into a `serde_json::Value` and reads the
/// string member `key` with `Value::get` and `Value::as_str`. Claimed only that the
/// result is `json_str_member` of the body and the key; what JSON parsing accepts is not
/// stated.
#[verifier::external_body]
fn json_string_member(body: &str, key: &str) -> (r: Option<String>)
    ensures
        opt_chars(r) == json_str_member(body@, key@),
{
    match serde_json::from_str::<serde_json::Value>(body) {
        Ok(v) => v.get(key).and_then(|m| m.as_str()).map(|m| m.to_owned()),
        Err(_) => None,
    }
}

/// A control action asked for through `/api/action`.
#[derive(Debug)]
pub enum Action {
    UnfreezeAll,
    /// Run a cycle now.
    FreezeAll,
    UnfreezeApp(String),
    FreezeApp(String),
    /// Download the module archive at `url` to `file` under the download directory and
    /// install it.
    Update { url: String, file: String },
    Uninstall,
    Reboot,
}

/// An action as plain values.
pub enum ActionView {
    UnfreezeAll,
    FreezeAll,
    UnfreezeApp(Seq<char>),
    FreezeApp(Seq<char>),
    Update(Seq<char>, Seq<char>),
    Uninstall,
    Reboot,
}

impl View for Action {
    type V = ActionView;

    open spec fn view(&self) -> ActionView {
        match self {
            Action::UnfreezeAll => ActionView::UnfreezeAll,
            Action::FreezeAll => ActionView::FreezeAll,
            Action::UnfreezeApp(p) => ActionView::UnfreezeApp(p@),
            Action::FreezeApp(p) => ActionView::FreezeApp(p@),
            Action::Update { url, file } => ActionView::Update(url@, file@),
            Action::Uninstall => ActionView::Uninstall,
            Action::Reboot => ActionView::Reboot,
        }
    }
}

/// Why an action request is refused.
#[derive(PartialEq, Eq, Structural, Debug)]
pub enum ActionError {
    EmptyBody,
    /// An update without a download URL.
    NoUrl,
    UnknownAction,
}

/// The characters of an optional member, or the default when it is missing.
pub open spec fn or_default(o: Option<Seq<char>>, d: Seq<char>) -> Seq<char> {
    match o {
        Some(s) => s,
        None => d,
    }
}

/// The archive name an update uses when none is given.
pub open spec fn default_update_file() -> Seq<char> {
    "bgfreeze-R-update.zip"@
}

/// The action that the members `action`, `package`, `url` and `file` ask for.
pub open spec fn action_of(
    action: Option<Seq<char>>,
    package: Option<Seq<char>>,
    url: Option<Seq<char>>,
    file: Option<Seq<char>>,
) -> Result<ActionView, ActionError> {
    let a = or_default(action, Seq::empty());
    let pkg = or_default(package, Seq::empty());
    if a == "unfreeze_all"@ {
        Ok(ActionView::UnfreezeAll)
    } else if a == "freeze_all"@ {
        Ok(ActionView::FreezeAll)
    } else if a == "unfreeze_app"@ {
        Ok(ActionView::UnfreezeApp(pkg))
    } else if a == "freeze_app"@ {
        Ok(ActionView::FreezeApp(pkg))
    } else if a == "update"@ {
        let u = or_default(url, Seq::empty());
        if u.len() == 0 {
            Err(ActionError::NoUrl)
        } else {
            Ok(ActionView::Update(u, or_default(file, default_update_file())))
        }
    } else if a == "uninstall"@ {
        Ok(ActionView::Uninstall)
    } else if a == "reboot"@ {
        Ok(ActionView::Reboot)
    } else {
        Err(ActionError::UnknownAction)
    }
}

fn or_empty(o: Option<String>) -> (r: String)
    ensures
        r@ == or_default(opt_chars(o), Seq::empty()),
{
    match o {
        Some(s) => s,
        None => String::new(),
    }
}

/// The action that the members of an action request ask for.
pub fn action_from_members(
    action: Option<String>,
    package: Option<String>,
    url: Option<String>,
    file: Option<String>,
) -> (r: Result<Action, ActionError>)
    ensures
        match r {
            Ok(a) => action_of(opt_chars(action), opt_chars(package), opt_chars(url), opt_chars(file)) == Ok::<ActionView, ActionError>(a@),
            Err(e) => action_of(opt_chars(action), opt_chars(package), opt_chars(url), opt_chars(file)) == Err::<ActionView, ActionError>(e),
        },
{
    let a = or_empty(action);
    let pkg = or_empty(package);
    if str_eq(a.as_str(), "unfreeze_all") {
        Ok(Action::UnfreezeAll)
    } else if str_eq(a.as_str(), "freeze_all") {
        Ok(Action::FreezeAll)
    } else if str_eq(a.as_str(), "unfreeze_app") {
        Ok(Action::UnfreezeApp(pkg))
    } else if str_eq(a.as_str(), "freeze_app") {
        Ok(Action::FreezeApp(pkg))
    } else if str_eq(a.as_str(), "update") {
        let u = or_empty(url);
        if u.as_str().is_empty() {
            Err(ActionError::NoUrl)
        } else {
            let f = match file {
                Some(f) => f,
                None => "bgfreeze-R-update.zip".to_owned(),
            };
            Ok(Action::Update { url: u, file: f })
        }
    } else if str_eq(a.as_str(), "uninstall") {
        Ok(Action::Uninstall)
    } else if str_eq(a.as_str(), "reboot") {
        Ok(Action::Reboot)
    } else {
        Err(ActionError::UnknownAction)
    }
}

/// What each action request asks for, over every set of members: the seven action
/// names give their actions; the app actions carry the `package` member as given (empty
/// when it is missing); `update` carries the `url` member and the `file` member
/// (`bgfreeze-R-update.zip` when missing), and is refused without a non-empty URL; any
/// other name, or none, is refused as unknown.
pub proof fn law_action_table(
    action: Option<Seq<char>>,
    package: Option<Seq<char>>,
    url: Option<Seq<char>>,
    file: Option<Seq<char>>,
)
    ensures
        action == Some("unfreeze_all"@) ==> action_of(action, package, url, file) == Ok::<ActionView, ActionError>(ActionView::UnfreezeAll),
        action == Some("freeze_all"@) ==> action_of(action, package, url, file) == Ok::<ActionView, ActionError>(ActionView::FreezeAll),
        action == Some("unfreeze_app"@) ==> action_of(action, package, url, file) == Ok::<ActionView, ActionError>(ActionView::UnfreezeApp(
            match package { Some(p) => p, None => Seq::empty() })),
        action == Some("freeze_app"@) ==> action_of(action, package, url, file) == Ok::<ActionView, ActionError>(ActionView::FreezeApp(
            match package { Some(p) => p, None => Seq::empty() })),
        action == Some("update"@) && (match url { Some(u) => u.len() > 0, None => false }) ==> action_of(action, package, url, file)
            == Ok::<ActionView, ActionError>(ActionView::Update(url->0, match file { Some(f) => f, None => "bgfreeze-R-update.zip"@ })),
        action == Some("update"@) && !(match url { Some(u) => u.len() > 0, None => false }) ==> action_of(action, package, url, file)
            == Err::<ActionView, ActionError>(ActionError::NoUrl),
        action == Some("uninstall"@) ==> action_of(action, package, url, file) == Ok::<ActionView, ActionError>(ActionView::Uninstall),
        action == Some("reboot"@) ==> action_of(action, package, url, file) == Ok::<ActionView, ActionError>(ActionView::Reboot),
        action != Some("unfreeze_all"@) && action != Some("freeze_all"@) && action != Some("unfreeze_app"@)
            && action != Some("freeze_app"@) && action != Some("update"@) && action != Some("uninstall"@)
            && action != Some("reboot"@) ==> action_of(action, package, url, file) == Err::<ActionView, ActionError>(ActionError::UnknownAction),
{
    reveal_strlit("unfreeze_all");
    reveal_strlit("freeze_all");
    reveal_strlit("unfreeze_app");
    reveal_strlit("freeze_app");
    reveal_strlit("update");
    reveal_strlit("uninstall");
    reveal_strlit("reboot");
    reveal_strlit("bgfreeze-R-update.zip");
    assert("unfreeze_all"@.len() == 12 && "unfreeze_app"@.len() == 12 && "freeze_all"@.len() == 10);
    assert("freeze_app"@.len() == 10 && "update"@.len() == 6 && "uninstall"@.len() == 9 && "reboot"@.len() == 6);
    assert("unfreeze_all"@[10] != "unfreeze_app"@[10]);
    assert("freeze_all"@[8] != "freeze_app"@[8]);
    assert("update"@[0] != "reboot"@[0]);
}

/// The action an `/api/action` request body asks for: the body is decoded lossily as
/// UTF-8; an empty body is refused; otherwise its JSON members decide.
pub open spec fn request_action(body: Seq<u8>) -> Result<ActionView, ActionError> {
    let t = utf8_lossy(body);
    if t.len() == 0 {
        Err(ActionError::EmptyBody)
    } else {
        action_of(
            json_str_member(t, "action"@),
            json_str_member(t, "package"@),
            json_str_member(t, "url"@),
            json_str_member(t, "file"@),
        )
    }
}

/// What an action request body asks for, over every body: an empty one (after lossy
/// UTF-8 decoding) is refused; otherwise an app action carries the body's `package`
/// member, and an update its `url` and `file` members.
pub proof fn law_action_request_members(body: Seq<u8>)
    ensures
        utf8_lossy(body).len() == 0 ==> request_action(body) == Err::<ActionView, ActionError>(ActionError::EmptyBody),
        ({
            let t = utf8_lossy(body);
            let pkg = match json_str_member(t, "package"@) { Some(p) => p, None => Seq::<char>::empty() };
            &&& t.len() > 0 && json_str_member(t, "action"@) == Some("unfreeze_app"@)
                ==> request_action(body) == Ok::<ActionView, ActionError>(ActionView::UnfreezeApp(pkg))
            &&& t.len() > 0 && json_str_member(t, "action"@) == Some("freeze_app"@)
                ==> request_action(body) == Ok::<ActionView, ActionError>(ActionView::FreezeApp(pkg))
            &&& t.len() > 0 && json_str_member(t, "action"@) == Some("update"@)
                && (match json_str_member(t, "url"@) { Some(u) => u.len() > 0, None => false })
                ==> request_action(body) == Ok::<ActionView, ActionError>(ActionView::Update(
                    json_str_member(t, "url"@)->0,
                    match json_str_member(t, "file"@) { Some(f) => f, None => "bgfreeze-R-update.zip"@ }))
        }),
{
    let t = utf8_lossy(body);
    law_action_table(json_str_member(t, "action"@), json_str_member(t, "package"@), json_str_member(t, "url"@), json_str_member(t, "file"@));
}

/// Decides the action an `/api/action` request body asks for.
pub fn decide_action(body: &[u8]) -> (r: Result<Action, ActionError>)
    ensures
        (r matches Err(ActionError::EmptyBody)) <==> body@.len() == 0,
        match r {
            Ok(a) => request_action(body@) == Ok::<ActionView, ActionError>(a@),
            Err(e) => request_action(body@) == Err::<ActionView, ActionError>(e),
        },
{
    let text = from_utf8_lossy(body);
    if text.as_str().is_empty() {
        return Err(ActionError::EmptyBody);
    }
    let t = text.as_str();
    action_from_members(
        json_string_member(t, "action"),
        json_string_member(t, "package"),
        json_string_member(t, "url"),
        json_string_member(t, "file"),
    )
}

/// The shell command an update runs: download `url` with curl, or wget when curl is
/// missing, to `file` under `/sdcard/Download`, list it, and install it as a module.
pub open spec fn update_command_of(file: Seq<char>, url: Seq<char>) -> Seq<char> {
    "f=/sdcard/Download/"@ + file + "; (command -v curl >/dev/null 2>&1 && curl -ksSL -o \"$f\" '"@ + url
        + "') || (command -v wget >/dev/null 2>&1 && wget -q -O \"$f\" '"@ + url
        + "'); ls -l \"$f\"; /data/adb/ksud module install \"$f\" 2>&1 | tail -3"@
}

/// The shell command an update runs.
pub fn update_command(file: &str, url: &str) -> (r: String)
    ensures
        r@ == update_command_of(file@, url@),
{
    let mut v = chars_of("f=/sdcard/Download/");
    append_chars(&mut v, &chars_of(file));
    append_chars(&mut v, &chars_of("; (command -v curl >/dev/null 2>&1 && curl -ksSL -o \"$f\" '"));
    append_chars(&mut v, &chars_of(url));
    append_chars(&mut v, &chars_of("') || (command -v wget >/dev/null 2>&1 && wget -q -O \"$f\" '"));
    append_chars(&mut v, &chars_of(url));
    append_chars(&mut v, &chars_of("'); ls -l \"$f\"; /data/adb/ksud module install \"$f\" 2>&1 | tail -3"));
    string_of(v.as_slice())
}

/// The reason phrase sent with a status code (codes without one of their own get `OK`).
pub open spec fn reason_of(code: u16) -> Seq<char> {
    if code == 200 {
        "OK"@
    } else if code == 204 {
        "No Content"@
    } else if code == 400 {
        "Bad Request"@
    } else if code == 403 {
        "Forbidden"@
    } else if code == 404 {
        "Not Found"@
    } else if code == 405 {
        "Method Not Allowed"@
    } else {
        "OK"@
    }
}

/// The reason phrase sent with a status code.
pub fn reason_phrase(code: u16) -> (r: &'static str)
    ensures
        r@ == reason_of(code),
{
    if code == 200 {
        "OK"
    } else if code == 204 {
        "No Content"
    } else if code == 400 {
        "Bad Request"
    } else if code == 403 {
        "Forbidden"
    } else if code == 404 {
        "Not Found"
    } else if code == 405 {
        "Method Not Allowed"
    } else {
        "OK"
    }
}

/// The status line and headers of a response with `code`, content type `ctype` and a
/// body of `len` bytes.
pub open spec fn response_head_of(code: u16, ctype: Seq<char>, len: usize) -> Seq<char> {
    "HTTP/1.1 "@ + dec(code as nat) + " "@ + reason_of(code) + "\r\nAccess-Control-Allow-Origin: *\r\nContent-Type: "@
        + ctype + "; charset=utf-8\r\nContent-Length: "@ + dec(len as nat) + "\r\nConnection: close\r\n\r\n"@
}

/// The status line and headers of a response.
pub fn response_head(code: u16, ctype: &str, len: usize) -> (r: String)
    ensures
        r@ == response_head_of(code, ctype@, len),
{
    let mut v = chars_of("HTTP/1.1 ");
    append_chars(&mut v, &dec_u64(code as u64));
    append_chars(&mut v, &chars_of(" "));
    append_chars(&mut v, &chars_of(reason_phrase(code)));
    append_chars(&mut v, &chars_of("\r\nAccess-Control-Allow-Origin: *\r\nContent-Type: "));
    append_chars(&mut v, &chars_of(ctype));
    append_chars(&mut v, &chars_of("; charset=utf-8\r\nContent-Length: "));
    append_chars(&mut v, &dec_u64(len as u64));
    append_chars(&mut v, &chars_of("\r\nConnection: close\r\n\r\n"));
    string_of(v.as_slice())
}

/// The whole answer to an `OPTIONS` request: no body, and the cross-origin headers that
/// allow the web UI's calls.
pub fn preflight_response() -> (r: &'static str)
    ensures
        r@ == "HTTP/1.1 204 No Content\r\nAccess-Control-Allow-Origin: *\r\nAccess-Control-Allow-Methods: GET,POST,OPTIONS\r\nAccess-Control-Allow-Headers: Content-Type\r\nAccess-Control-Max-Age: 86400\r\n\r\n"@,
{
    "HTTP/1.1 204 No Content\r\nAccess-Control-Allow-Origin: *\r\nAccess-Control-Allow-Methods: GET,POST,OPTIONS\r\nAccess-Control-Allow-Headers: Content-Type\r\nAccess-Control-Max-Age: 86400\r\n\r\n"
}

/// What a request is answered, once the server has done what it asks.
pub enum Answer {
    /// No request could be read.
    BadRequest,
    /// A JSON document made by the server (status, logs, configuration).
    Json(String),
    /// A posted configuration was taken; whether it was written to disk.
    ConfigSaved(bool),
    /// A posted configuration could not be read; the JSON parser's message.
    ConfigRejected(String),
    /// `/api/config` with a method other than `GET` or `POST`.
    MethodNotAllowed,
    /// An action was carried out.
    Done,
    /// An action request was refused.
    Refused(ActionError),
    /// The update command ran; the bytes it wrote to stdout and to stderr.
    UpdateRan(Vec<u8>, Vec<u8>),
    /// The update command could not be started.
    SpawnFailed,
    /// The uninstall command could not be run.
    UninstallFailed,
    /// A reboot was asked for; whether the command could be run.
    RebootTried(bool),
    NotFound,
    /// A static path that leads outside the web root.
    Forbidden,
}

/// A response: status code, content type and body.
pub struct Reply {
    pub code: u16,
    pub ctype: &'static str,
    pub body: String,
}

/// `true` or `false` as JSON writes it.
pub open spec fn bool_text(b: bool) -> Seq<char> {
    if b {
        "true"@
    } else {
        "false"@
    }
}

/// What the update command printed, as the web UI shows it.
pub open spec fn update_message(stdout: Seq<u8>, stderr: Seq<u8>) -> Seq<char> {
    "out:"@ + utf8_lossy(stdout) + "\nerr:"@ + utf8_lossy(stderr)
}

/// The lowercase hexadecimal digit for `n` (0 to 15).
pub open spec fn hex_digit(n: int) -> char {
    if n < 10 {
        (48 + n) as char
    } else {
        (87 + n) as char
    }
}

/// How a JSON string literal writes the character `c`: `"` and `\` after a backslash;
/// backspace, tab, line feed, form feed and carriage return as `\b`, `\t`, `\n`, `\f`,
/// `\r`; the other characters below U+0020 as `\u00` and two lowercase hex digits; every
/// other character as itself.
pub open spec fn json_char(c: char) -> Seq<char> {
    if c == '"' {
        seq!['\\', '"']
    } else if c == '\\' {
        seq!['\\', '\\']
    } else if c == '\u{8}' {
        seq!['\\', 'b']
    } else if c == '\t' {
        seq!['\\', 't']
    } else if c == '\n' {
        seq!['\\', 'n']
    } else if c == '\u{c}' {
        seq!['\\', 'f']
    } else if c == '\r' {
        seq!['\\', 'r']
    } else if (c as int) < 0x20 {
        seq!['\\', 'u', '0', '0', hex_digit(c as int / 16), hex_digit(c as int % 16)]
    } else {
        seq![c]
    }
}

/// The characters of `s`, each written as a JSON string literal writes it.
pub open spec fn json_chars(s: Seq<char>) -> Seq<char>
    decreases s.len(),
{
    if s.len() == 0 {
        Seq::empty()
    } else {
        json_chars(s.drop_last()) + json_char(s.last())
    }
}

/// `s` as a JSON string literal: between double quotes, each character escaped as
/// `json_char` says.
pub open spec fn json_string_lit(s: Seq<char>) -> Seq<char> {
    seq!['"'] + json_chars(s) + seq!['"']
}

/// `serde_json::to_string` on a `str`: the JSON string literal holding `s`. It writes
/// into a `Vec`, which cannot fail, and escapes with serde_json's escape table, which
/// `json_char` restates; claimed: the result is `Some` of `json_string_lit(s)`.
#[verifier::external_body]
fn json_quote(s: &str) -> (r: Option<String>)
    ensures
        opt_chars(r) == Some(json_string_lit(s@)),
{
    serde_json::to_string(s).ok()
}

/// The status code, content type and body each answer gets.
pub open spec fn reply_of(a: Answer) -> (u16, Seq<char>, Seq<char>) {
    match a {
        Answer::BadRequest => (400, "text/plain"@, "bad request"@),
        Answer::Json(s) => (200, "application/json"@, s@),
        Answer::ConfigSaved(b) => (200, "application/json"@, "{\"ok\":true,\"saved\":"@ + bool_text(b) + "}"@),
        Answer::ConfigRejected(e) => (400, "application/json"@, "{\"ok\":false,\"error\":\"json: "@ + e@ + "\"}"@),
        Answer::MethodNotAllowed => (405, "text/plain"@, "method not allowed"@),
        Answer::Done => (200, "application/json"@, "{\"ok\":true}"@),
        Answer::Refused(ActionError::EmptyBody) => (400, "application/json"@, "{\"ok\":false,\"error\":\"empty body\"}"@),
        Answer::Refused(ActionError::NoUrl) => (400, "application/json"@, "{\"ok\":false,\"error\":\"no url\"}"@),
        Answer::Refused(ActionError::UnknownAction) => (400, "application/json"@, "{\"ok\":false,\"error\":\"unknown action\"}"@),
        Answer::UpdateRan(o, e) => (200, "application/json"@, "{\"ok\":true,\"out\":"@ + json_string_lit(update_message(o@, e@)) + "}"@),
        Answer::SpawnFailed => (500, "application/json"@, "{\"ok\":false,\"error\":\"spawn\"}"@),
        Answer::UninstallFailed => (500, "application/json"@, "{\"ok\":false,\"error\":\"run\"}"@),
        Answer::RebootTried(b) => (200, "application/json"@, if b { "{\"ok\":true}"@ } else { "{\"ok\":false}"@ }),
        Answer::NotFound => (404, "text/plain"@, "not found"@),
        Answer::Forbidden => (403, "text/plain"@, "forbidden"@),
    }
}

/// A string with the characters of `s`.
fn owned(s: &str) -> (r: String)
    ensures
        r@ == s@,
{
    string_of(chars_of(s).as_slice())
}

/// The message the update command's output is shown as.
fn update_text(stdout: &[u8], stderr: &[u8]) -> (r: String)
    ensures
        r@ == update_message(stdout@, stderr@),
{
    let mut v = chars_of("out:");
    append_chars(&mut v, &chars_of(from_utf8_lossy(stdout).as_str()));
    append_chars(&mut v, &chars_of("\nerr:"));
    append_chars(&mut v, &chars_of(from_utf8_lossy(stderr).as_str()));
    string_of(v.as_slice())
}

/// The response an answer is sent as.
pub fn reply(a: Answer) -> (r: Reply)
    ensures
        (r.code, r.ctype@, r.body@) == reply_of(a),
{
    match a {
        Answer::BadRequest => Reply { code: 400, ctype: "text/plain", body: owned("bad request") },
        Answer::Json(s) => Reply { code: 200, ctype: "application/json", body: s },
        Answer::ConfigSaved(b) => {
            let mut v = chars_of("{\"ok\":true,\"saved\":");
            if b {
                append_chars(&mut v, &chars_of("true"));
            } else {
                append_chars(&mut v, &chars_of("false"));
            }
            append_chars(&mut v, &chars_of("}"));
            Reply { code: 200, ctype: "application/json", body: string_of(v.as_slice()) }
        },
        Answer::ConfigRejected(e) => {
            let mut v = chars_of("{\"ok\":false,\"error\":\"json: ");
            append_chars(&mut v, &chars_of(e.as_str()));
            append_chars(&mut v, &chars_of("\"}"));
            Reply { code: 400, ctype: "application/json", body: string_of(v.as_slice()) }
        },
        Answer::MethodNotAllowed => Reply { code: 405, ctype: "text/plain", body: owned("method not allowed") },
        Answer::Done => Reply { code: 200, ctype: "application/json", body: owned("{\"ok\":true}") },
        Answer::Refused(ActionError::EmptyBody) => {
            Reply { code: 400, ctype: "application/json", body: owned("{\"ok\":false,\"error\":\"empty body\"}") }
        },
        Answer::Refused(ActionError::NoUrl) => {
            Reply { code: 400, ctype: "application/json", body: owned("{\"ok\":false,\"error\":\"no url\"}") }
        },
        Answer::Refused(ActionError::UnknownAction) => {
            Reply { code: 400, ctype: "application/json", body: owned("{\"ok\":false,\"error\":\"unknown action\"}") }
        },
        Answer::UpdateRan(o, e) => {
            let msg = update_text(o.as_slice(), e.as_slice());
            let mut v = chars_of("{\"ok\":true,\"out\":");
            match json_quote(msg.as_str()) {
                Some(q) => append_chars(&mut v, &chars_of(q.as_str())),
                None => append_chars(&mut v, &chars_of("\"\"")),
            }
            append_chars(&mut v, &chars_of("}"));
            Reply { code: 200, ctype: "application/json", body: string_of(v.as_slice()) }
        },
        Answer::SpawnFailed => {
            Reply { code: 500, ctype: "application/json", body: owned("{\"ok\":false,\"error\":\"spawn\"}") }
        },
        Answer::UninstallFailed => {
            Reply { code: 500, ctype: "application/json", body: owned("{\"ok\":false,\"error\":\"run\"}") }
        },
        Answer::RebootTried(b) => {
            if b {
                Reply { code: 200, ctype: "application/json", body: owned("{\"ok\":true}") }
            } else {
                Reply { code: 200, ctype: "application/json", body: owned("{\"ok\":false}") }
            }
        },
        Answer::NotFound => Reply { code: 404, ctype: "text/plain", body: owned("not found") },
        Answer::Forbidden => Reply { code: 403, ctype: "text/plain", body: owned("forbidden") },
    }
}


/// `s` without its leading slashes.
pub open spec fn strip_slashes(s: Seq<char>) -> Seq<char>
    decreases s.len(),
{
    if s.len() > 0 && s[0] == '/' {
        strip_slashes(s.drop_first())
    } else {
        s
    }
}

/// The file a request path names, relative to the web root: `index.html` for `/`.
pub open spec fn static_rel(path: Seq<char>) -> Seq<char> {
    if path == "/"@ {
        "index.html"@
    } else {
        strip_slashes(path)
    }
}

/// Whether a path segment is kept when resolving under the web root: not empty, not `.`
/// and not `..`.
pub open spec fn kept_segment(seg: Seq<char>) -> bool {
    seg.len() > 0 && seg != seq!['.'] && seg != seq!['.', '.']
}

/// The path segments a request path resolves to under the web root.
pub open spec fn static_segments_of(path: Seq<char>) -> Seq<Seq<char>> {
    split(static_rel(path), '/').filter(|seg: Seq<char>| kept_segment(seg))
}

/// The path segments a request path resolves to under the web root.
pub fn static_segments(path: &str) -> (r: Vec<String>)
    ensures
        r@.map_values(|s: String| s@) == static_segments_of(path@),
{
    let v = chars_of(path);
    let rel: Vec<char> = if str_eq(path, "/") {
        chars_of("index.html")
    } else {
        let n = v.len();
        let mut a: usize = 0;
        assert(v@.skip(0) =~= v@);
        while a < n && v[a] == '/'
            invariant
                a <= n,
                n == v@.len(),
                strip_slashes(v@) == strip_slashes(v@.skip(a as int)),
            decreases n - a,
        {
            assert(v@.skip(a as int).drop_first() =~= v@.skip(a + 1));
            a = a + 1;
        }
        let mut r: Vec<char> = Vec::new();
        for j in a..n
            invariant
                n == v@.len(),
                a <= n,
                r@ == v@.subrange(a as int, j as int),
        {
            r.push(v[j]);
            assert(v@.subrange(a as int, j + 1) =~= v@.subrange(a as int, j as int).push(v@[j as int]));
        }
        assert(r@ =~= v@.skip(a as int));
        r
    };
    let pieces = split_chars(&rel, '/');
    let ghost keep = |seg: Seq<char>| kept_segment(seg);
    let ghost ps = split(rel@, '/');
    let mut r: Vec<String> = Vec::new();
    let n = pieces.len();
    assert(ps.take(0).filter(keep) =~= Seq::<Seq<char>>::empty()) by {
        reveal(Seq::filter);
    }
    for i in 0..n
        invariant
            n == pieces@.len(),
            texts(pieces@) == ps,
            keep == (|seg: Seq<char>| kept_segment(seg)),
            r@.map_values(|s: String| s@) == ps.take(i as int).filter(keep),
    {
        let seg = &pieces[i];
        assert(ps[i as int] == seg@);
        let k = seg.len();
        let keep_it = k > 0 && !(k == 1 && seg[0] == '.') && !(k == 2 && seg[0] == '.' && seg[1] == '.');
        assert(keep_it == kept_segment(seg@)) by {
            if k == 1 && seg@[0] == '.' {
                assert(seg@ =~= seq!['.']);
            }
            if k == 2 && seg@[0] == '.' && seg@[1] == '.' {
                assert(seg@ =~= seq!['.', '.']);
            }
        }
        proof {
            reveal(Seq::filter);
            assert(ps.take(i + 1).drop_last() =~= ps.take(i as int));
            assert(ps.take(i + 1).last() == ps[i as int]);
        }
        if keep_it {
            let ghost before = r@;
            r.push(string_of(seg.as_slice()));
            assert(r@.map_values(|s: String| s@) =~= before.map_values(|s: String| s@).push(seg@));
        }
    }
    assert(ps.take(n as int) =~= ps);
    r
}

/// The extension of a file name, as `Path::extension` gives it: the part after the last
/// `.`, none without a `.`, for a name whose only `.` leads, or for `..`.
pub open spec fn extension_of(name: Seq<char>) -> Option<Seq<char>> {
    let ps = split(name, '.');
    if name == seq!['.', '.'] || ps.len() < 2 || (ps.len() == 2 && ps[0].len() == 0) {
        None
    } else {
        Some(ps.last())
    }
}

/// The content type served for a file name, by its extension.
pub open spec fn mime_of_name(name: Seq<char>) -> Seq<char> {
    let e = or_default(extension_of(name), Seq::empty());
    if e == "html"@ {
        "text/html"@
    } else if e == "css"@ {
        "text/css"@
    } else if e == "js"@ {
        "application/javascript"@
    } else if e == "svg"@ {
        "image/svg+xml"@
    } else if e == "png"@ {
        "image/png"@
    } else if e == "json"@ {
        "application/json"@
    } else if e == "woff2"@ {
        "font/woff2"@
    } else if e == "jpg"@ || e == "jpeg"@ {
        "image/jpeg"@
    } else {
        "application/octet-stream"@
    }
}

/// The content type served for the file named `name`.
pub fn mime_of(name: &str) -> (r: &'static str)
    ensures
        r@ == mime_of_name(name@),
{
    let v = chars_of(name);
    let ps = split_chars(&v, '.');
    proof {
        crate::text::lemma_split_nonempty(v@, '.');
    }
    let dotdot = v.len() == 2 && v[0] == '.' && v[1] == '.';
    assert(dotdot == (name@ == seq!['.', '.'])) by {
        if dotdot {
            assert(v@ =~= seq!['.', '.']);
        }
    }
    let n = ps.len();
    let none = dotdot || n < 2 || (n == 2 && ps[0].len() == 0);
    assert(texts(ps@)[0] == ps@[0]@);
    let e: String = if none {
        String::new()
    } else {
        assert(texts(ps@).last() == ps@[n - 1]@);
        string_of(ps[n - 1].as_slice())
    };
    let e = e.as_str();
    if str_eq(e, "html") {
        "text/html"
    } else if str_eq(e, "css") {
        "text/css"
    } else if str_eq(e, "js") {
        "application/javascript"
    } else if str_eq(e, "svg") {
        "image/svg+xml"
    } else if str_eq(e, "png") {
        "image/png"
    } else if str_eq(e, "json") {
        "application/json"
    } else if str_eq(e, "woff2") {
        "font/woff2"
    } else if str_eq(e, "jpg") || str_eq(e, "jpeg") {
        "image/jpeg"
    } else {
        "application/octet-stream"
    }
}


/// A request path never leads out of the web root: every segment it resolves to is a
/// plain name, neither empty nor `.` nor `..`, and holds no `/`.
pub proof fn law_static_path_confined(path: Seq<char>)
    ensures
        forall|i: int| 0 <= i < static_segments_of(path).len() ==> {
            &&& kept_segment(#[trigger] static_segments_of(path)[i])
            &&& !static_segments_of(path)[i].contains('/')
        },
{
    broadcast use vstd::seq_lib::group_filter_ensures;
    let ps = split(static_rel(path), '/');
    let keep = |seg: Seq<char>| kept_segment(seg);
    crate::text::lemma_split_pieces_lack_delim(static_rel(path), '/');
    assert forall|i: int| 0 <= i < static_segments_of(path).len() implies {
        &&& kept_segment(#[trigger] static_segments_of(path)[i])
        &&& !static_segments_of(path)[i].contains('/')
    } by {
        let seg = static_segments_of(path)[i];
        assert(ps.filter(keep).contains(seg));
        ps.lemma_filter_contains_rev(keep, seg);
        let k = choose|k: int| 0 <= k < ps.len() && ps[k] == seg;
        assert(keep(seg));
    }
}

/// `/api/logs` always returns between 200 and 1000 lines (fewer only when fewer are
/// held).
pub proof fn law_logs_count_bounded(query: Seq<char>)
    ensures
        200 <= logs_count_of(query) <= 1000,
{
}

}


use vstd::prelude::*;

verus! {

/// The fixed TCP port the service listens on.
pub const LISTEN_PORT: u16 = 6001;

/// Status preamble of a success response.
pub const OK_RESPONSE: &'static str = "HTTP/1.1 200 OK\r\nContent-Type: application/json\r\n\r\n";

/// Status preamble of a not-found response.
pub const NOT_FOUND: &'static str = "HTTP/1.1 404 NOT FOUND\r\n\r\n";

/// Status preamble of an internal-error response.
pub const INTERNAL_ERROR: &'static str = "HTTP/1.1 500 INTERNAL ERROR\r\n\r\n";

/// A whitespace character as the request line tokenizer understands it.
pub open spec fn is_ws(c: char) -> bool {
    c == ' ' || c == '\t' || c == '\r' || c == '\n'
}

/// First index at or after `i` holding `a` or `b`; the length if none does.
pub open spec fn find_either(s: Seq<char>, i: int, a: char, b: char) -> int
    recommends
        0 <= i <= s.len(),
    decreases s.len() - i when 0 <= i <= s.len()
{
    if i >= s.len() {
        s.len() as int
    } else if s[i] == a || s[i] == b {
        i
    } else {
        find_either(s, i + 1, a, b)
    }
}

/// First index in `[i, end)` holding a non-whitespace character; `end` if
/// none does.
pub open spec fn skip_ws(s: Seq<char>, i: int, end: int) -> int
    recommends
        0 <= i <= end <= s.len(),
    decreases end - i when 0 <= i <= end <= s.len()
{
    if i >= end {
        end
    } else if is_ws(s[i]) {
        skip_ws(s, i + 1, end)
    } else {
        i
    }
}

/// First index in `[i, end)` holding a whitespace character; `end` if none
/// does.
pub open spec fn token_end(s: Seq<char>, i: int, end: int) -> int
    recommends
        0 <= i <= end <= s.len(),
    decreases end - i when 0 <= i <= end <= s.len()
{
    if i >= end {
        end
    } else if is_ws(s[i]) {
        i
    } else {
        token_end(s, i + 1, end)
    }
}

/// First index at or after `i` where the blank-line separator `\r\n\r\n`
/// begins, if there is one.
pub open spec fn find_blank_sep(s: Seq<char>, i: int) -> Option<int>
    recommends
        0 <= i,
    decreases s.len() - i when 0 <= i
{
    if i + 4 > s.len() {
        None
    } else if s[i] == '\r' && s[i + 1] == '\n' && s[i + 2] == '\r' && s[i + 3] == '\n' {
        Some(i)
    } else {
        find_blank_sep(s, i + 1)
    }
}

/// The request line: everything before the first line break.
pub open spec fn spec_line_end(s: Seq<char>) -> int {
    find_either(s, 0, '\r', '\n')
}

/// The method token: the first whitespace-delimited token of the request
/// line.
pub open spec fn spec_method(s: Seq<char>) -> Seq<char> {
    let end = spec_line_end(s);
    let a = skip_ws(s, 0, end);
    s.subrange(a, token_end(s, a, end))
}

/// The path token: the second whitespace-delimited token of the request
/// line; empty if the line has no second token.
pub open spec fn spec_path(s: Seq<char>) -> Seq<char> {
    let end = spec_line_end(s);
    let a = skip_ws(s, 0, end);
    let b = skip_ws(s, token_end(s, a, end), end);
    s.subrange(b, token_end(s, b, end))
}

/// The body: everything after the first blank-line separator; empty if the
/// request has none.
pub open spec fn spec_body(s: Seq<char>) -> Seq<char> {
    match find_blank_sep(s, 0) {
        Some(k) => s.subrange(k + 4, s.len() as int),
        None => Seq::<char>::empty(),
    }
}

/// The id text of a path of the form `/cars/{id}`: the third `/`-separated
/// segment, with leading whitespace dropped and anything from the next
/// whitespace on cut off; empty if the segment is missing.
pub open spec fn spec_id_of(path: Seq<char>) -> Seq<char> {
    let p1 = find_either(path, 0, '/', '/');
    if p1 >= path.len() {
        Seq::<char>::empty()
    } else {
        let p2 = find_either(path, p1 + 1, '/', '/');
        if p2 >= path.len() {
            Seq::<char>::empty()
        } else {
            let seg_end = find_either(path, p2 + 1, '/', '/');
            let a = skip_ws(path, p2 + 1, seg_end);
            path.subrange(a, token_end(path, a, seg_end))
        }
    }
}

/// The text of `pat` stands in `s` at position `i`.
pub open spec fn match_at(s: Seq<char>, i: int, pat: Seq<char>) -> bool {
    &&& 0 <= i
    &&& i + pat.len() <= s.len()
    &&& s.subrange(i, i + pat.len()) == pat
}

/// Whether `pat` stands in `s` at position `i`.
pub fn starts_with_at(s: &str, i: usize, pat: &str) -> (r: bool)
    requires
        i <= s@.len(),
    ensures
        r == match_at(s@, i as int, pat@),
{
    let m = pat.unicode_len();
    let n = s.unicode_len();
    if m > n - i {
        return false;
    }
    let mut j: usize = 0;
    while j < m
        invariant
            j <= m,
            i + m <= n,
            n == s@.len(),
            m == pat@.len(),
            forall|k: int| 0 <= k < j ==> s@[i + k] == pat@[k],
        decreases m - j,
    {
        if s.get_char(i + j) != pat.get_char(j) {
            proof {
                assert(s@.subrange(i as int, i + pat@.len())[j as int] != pat@[j as int]);
            }
            return false;
        }
        j = j + 1;
    }
    proof {
        assert(s@.subrange(i as int, i + pat@.len()) =~= pat@);
    }
    true
}

/// Whether `s` and `lit` hold the same text.
pub fn str_eq(s: &str, lit: &str) -> (r: bool)
    ensures
        r == (s@ == lit@),
{
    let n = s.unicode_len();
    let m = lit.unicode_len();
    if n != m {
        return false;
    }
    let r = starts_with_at(s, 0, lit);
    proof {
        assert(s@.subrange(0, s@.len() as int) =~= s@);
    }
    r
}

/// A structured request: the method and path tokens of the request line and
/// the text after the first blank-line separator.
pub struct ParsedRequest {
    pub method: String,
    pub path: String,
    pub body: String,
}

pub(crate) fn find_either_at(s: &str, i: usize, a: char, b: char) -> (r: usize)
    requires
        i <= s@.len(),
    ensures
        r == find_either(s@, i as int, a, b),
        i <= r <= s@.len(),
    decreases s@.len() - i,
{
    if i == s.unicode_len() {
        i
    } else {
        let c = s.get_char(i);
        if c == a || c == b {
            i
        } else {
            find_either_at(s, i + 1, a, b)
        }
    }
}

fn is_ws_char(c: char) -> (r: bool)
    ensures
        r == is_ws(c),
{
    c == ' ' || c == '\t' || c == '\r' || c == '\n'
}

pub(crate) fn skip_ws_at(s: &str, i: usize, end: usize) -> (r: usize)
    requires
        i <= end <= s@.len(),
    ensures
        r == skip_ws(s@, i as int, end as int),
        i <= r <= end,
    decreases end - i,
{
    if i == end {
        end
    } else if is_ws_char(s.get_char(i)) {
        skip_ws_at(s, i + 1, end)
    } else {
        i
    }
}

pub(crate) fn token_end_at(s: &str, i: usize, end: usize) -> (r: usize)
    requires
        i <= end <= s@.len(),
    ensures
        r == token_end(s@, i as int, end as int),
        i <= r <= end,
    decreases end - i,
{
    if i == end {
        end
    } else if is_ws_char(s.get_char(i)) {
        i
    } else {
        token_end_at(s, i + 1, end)
    }
}

fn find_blank_sep_at(s: &str, i: usize) -> (r: Option<usize>)
    requires
        i <= s@.len(),
    ensures
        match r {
            Some(k) => i <= k && k + 4 <= s@.len() && find_blank_sep(s@, i as int) == Some(
                k as int,
            ),
            None => find_blank_sep(s@, i as int) is None,
        },
    decreases s@.len() - i,
{
    let n = s.unicode_len();
    if n - i < 4 {
        None
    } else if s.get_char(i) == '\r' && s.get_char(i + 1) == '\n' && s.get_char(i + 2) == '\r'
        && s.get_char(i + 3) == '\n' {
        Some(i)
    } else {
        find_blank_sep_at(s, i + 1)
    }
}

/// Decode raw request text into its method, path and body.  Header lines are
/// skipped over, not interpreted.
pub fn parse_request(raw: &str) -> (req: ParsedRequest)
    ensures
        req.method@ == spec_method(raw@),
        req.path@ == spec_path(raw@),
        req.body@ == spec_body(raw@),
{
    let line_end = find_either_at(raw, 0, '\r', '\n');
    let a = skip_ws_at(raw, 0, line_end);
    let a_end = token_end_at(raw, a, line_end);
    let method = raw.substring_char(a, a_end).to_owned();
    let b = skip_ws_at(raw, a_end, line_end);
    let b_end = token_end_at(raw, b, line_end);
    let path = raw.substring_char(b, b_end).to_owned();
    let n = raw.unicode_len();
    let body = match find_blank_sep_at(raw, 0) {
        Some(k) => raw.substring_char(k + 4, n).to_owned(),
        None => {
            let empty = String::new();
            proof {
                assert(empty@ =~= spec_body(raw@));
            }
            empty
        },
    };
    ParsedRequest { method, path, body }
}

/// Extract the id text from a path of the form `/cars/{id}`.
///
/// The path is split on `/` and the third segment taken; whatever follows a
/// later whitespace inside the segment is cut off, and a missing segment
/// yields the empty string.  Callers treat an empty or non-numeric result as
/// a malformed id.
pub fn get_id(path: &str) -> (id: String)
    ensures
        id@ == spec_id_of(path@),
{
    let n = path.unicode_len();
    let p1 = find_either_at(path, 0, '/', '/');
    if p1 == n {
        let empty = String::new();
        proof {
            assert(empty@ =~= spec_id_of(path@));
        }
        empty
    } else {
        let p2 = find_either_at(path, p1 + 1, '/', '/');
        if p2 == n {
            let empty = String::new();
            proof {
                assert(empty@ =~= spec_id_of(path@));
            }
            empty
        } else {
            let seg_end = find_either_at(path, p2 + 1, '/', '/');
            let a = skip_ws_at(path, p2 + 1, seg_end);
            let a_end = token_end_at(path, a, seg_end);
            path.substring_char(a, a_end).to_owned()
        }
    }
}

/// Encode a response: the fixed status preamble followed by the payload.
pub fn encode_response(status: &str, content: &str) -> (r: String)
    ensures
        r@ == status@ + content@,
{
    let mut out = status.to_owned();
    out.append(content);
    out
}

} // verus!
